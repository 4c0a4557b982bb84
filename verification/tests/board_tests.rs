use board::board::Board;
use board::error::Error;
use board::paging::{page_index, per_page_clamped};
use board::post::{apply_update, Model};

fn seed(b: &mut Board, title: &str, body: &str, pinned: bool) -> Model {
    b.add_row(title.to_owned(), body.to_owned(), None, pinned, 10, 10)
        .unwrap()
}

fn ids(rows: &[Model]) -> Vec<i64> {
    rows.iter().map(|p| p.id).collect()
}

#[test]
fn new_board_is_empty() {
    let b = Board::new();
    assert!(b.list_posts(None, None).is_empty());
    assert_eq!(b.get_post(1).err(), Some(Error::NotFound));
}

#[test]
fn create_assigns_sequential_ids_and_defaults() {
    let mut b = Board::new();
    let p1 = b.create_post("a".to_owned(), "b".to_owned(), 7).unwrap();
    let p2 = b.create_post("c".to_owned(), "d".to_owned(), 8).unwrap();
    assert_eq!(p1.id, 1);
    assert_eq!(p2.id, 2);
    assert_eq!(p1.author_id, None);
    assert!(!p1.is_pinned);
    assert_eq!(p1.created_at, 7);
    assert_eq!(p1.updated_at, 7);
}

#[test]
fn create_then_get_round_trip() {
    let mut b = Board::new();
    let created = b.create_post("T".to_owned(), "B".to_owned(), 1).unwrap();
    let fetched = b.get_post(created.id).unwrap();
    assert_eq!(fetched.title, "T");
    assert_eq!(fetched.body, "B");
    assert!(!fetched.is_pinned);
    assert_eq!(fetched.author_id, None);
    assert_eq!(fetched.id, created.id);
}

#[test]
fn get_absent_id_is_not_found() {
    let mut b = Board::new();
    seed(&mut b, "a", "b", false);
    assert_eq!(b.get_post(99).err(), Some(Error::NotFound));
}

#[test]
fn listing_orders_pinned_first_then_newest() {
    let mut b = Board::new();
    let p1 = seed(&mut b, "one", "x", false); // id 1
    let p2 = seed(&mut b, "two", "x", true); // id 2, pinned
    let p3 = seed(&mut b, "three", "x", false); // id 3
    let p4 = seed(&mut b, "four", "x", true); // id 4, pinned
    let rows = b.list_posts(None, None);
    // pinned first (ids descending), then the rest (ids descending)
    assert_eq!(ids(&rows), vec![p4.id, p2.id, p3.id, p1.id]);
    // pairwise: pin status never rises, and ids fall within equal pin status
    for i in 0..rows.len() {
        for j in (i + 1)..rows.len() {
            let (a, z) = (&rows[i], &rows[j]);
            assert!(
                (a.is_pinned && !z.is_pinned) || (a.is_pinned == z.is_pinned && a.id > z.id)
            );
        }
    }
}

#[test]
fn pages_concatenate_to_the_whole_relation() {
    let mut b = Board::new();
    for i in 0..9 {
        seed(&mut b, &format!("t{i}"), "x", i % 3 == 0);
    }
    let all = b.list_posts(None, None);
    assert_eq!(all.len(), 9);
    let per = 4u64;
    let mut gathered: Vec<i64> = Vec::new();
    for page in 1..=3u64 {
        let rows = b.list_posts(Some(page), Some(per));
        assert!(rows.len() as u64 <= per);
        gathered.extend(ids(&rows));
    }
    assert_eq!(gathered, ids(&all));
}

#[test]
fn second_page_of_two_posts_is_the_older_one() {
    let mut b = Board::new();
    let p1 = seed(&mut b, "first", "x", false); // id 1
    let p2 = seed(&mut b, "second", "x", false); // id 2
    // page 1 holds the newest post (id 2), page 2 exactly the post with id 1
    let page1 = b.list_posts(Some(1), Some(1));
    assert_eq!(ids(&page1), vec![p2.id]);
    let page2 = b.list_posts(Some(2), Some(1));
    assert_eq!(ids(&page2), vec![p1.id]);
}

#[test]
fn page_past_the_end_is_empty() {
    let mut b = Board::new();
    seed(&mut b, "a", "b", false);
    assert!(b.list_posts(Some(2), Some(20)).is_empty());
    assert!(b.list_posts(Some(u64::MAX), Some(100)).is_empty());
}

#[test]
fn page_and_per_page_defaults_and_clamping() {
    assert_eq!(page_index(None), 0);
    assert_eq!(page_index(Some(0)), 0);
    assert_eq!(page_index(Some(1)), 0);
    assert_eq!(page_index(Some(5)), 4);
    assert_eq!(per_page_clamped(None), 20);
    assert_eq!(per_page_clamped(Some(0)), 1);
    assert_eq!(per_page_clamped(Some(1)), 1);
    assert_eq!(per_page_clamped(Some(100)), 100);
    assert_eq!(per_page_clamped(Some(1000)), 100);
    let mut b = Board::new();
    for i in 0..25 {
        seed(&mut b, &format!("t{i}"), "x", false);
    }
    // default page size is 20, clamped upper bound is 100
    assert_eq!(b.list_posts(None, None).len(), 20);
    assert_eq!(b.list_posts(None, Some(1000)).len(), 25);
    assert_eq!(b.list_posts(None, Some(0)).len(), 1);
    // page 0 is treated as page 1
    assert_eq!(
        ids(&b.list_posts(Some(0), Some(5))),
        ids(&b.list_posts(Some(1), Some(5)))
    );
}

#[test]
fn update_merges_only_present_fields() {
    let mut b = Board::new();
    let created = b.create_post("old title".to_owned(), "old body".to_owned(), 1).unwrap();
    let updated = b
        .update_post(created.id, Some("New".to_owned()), None, 2)
        .unwrap();
    assert_eq!(updated.title, "New");
    assert_eq!(updated.body, "old body");
    assert_eq!(updated.id, created.id);
    assert_eq!(updated.created_at, 1);
    assert_eq!(updated.updated_at, 2);
    // the merge is persisted
    let fetched = b.get_post(created.id).unwrap();
    assert_eq!(fetched.title, "New");
    assert_eq!(fetched.body, "old body");
    // body alone
    let updated = b
        .update_post(created.id, None, Some("B2".to_owned()), 3)
        .unwrap();
    assert_eq!(updated.title, "New");
    assert_eq!(updated.body, "B2");
    // absent fields keep everything
    let updated = b.update_post(created.id, None, None, 4).unwrap();
    assert_eq!(updated.title, "New");
    assert_eq!(updated.body, "B2");
    assert_eq!(updated.updated_at, 4);
}

#[test]
fn update_absent_id_is_not_found_and_mutates_nothing() {
    let mut b = Board::new();
    let created = b.create_post("t".to_owned(), "b".to_owned(), 1).unwrap();
    let r = b.update_post(99, Some("New".to_owned()), None, 2);
    assert_eq!(r.err(), Some(Error::NotFound));
    let fetched = b.get_post(created.id).unwrap();
    assert_eq!(fetched.title, "t");
    assert_eq!(fetched.body, "b");
    assert_eq!(fetched.updated_at, 1);
    assert_eq!(b.list_posts(None, None).len(), 1);
}

#[test]
fn delete_succeeds_once_then_not_found() {
    let mut b = Board::new();
    let p1 = seed(&mut b, "a", "x", false);
    let p2 = seed(&mut b, "b", "x", false);
    assert_eq!(b.delete_post(p1.id), Ok(()));
    assert_eq!(b.get_post(p1.id).err(), Some(Error::NotFound));
    assert_eq!(b.delete_post(p1.id), Err(Error::NotFound));
    // the other row is untouched
    assert_eq!(b.get_post(p2.id).unwrap().id, p2.id);
    assert_eq!(b.list_posts(None, None).len(), 1);
}

#[test]
fn deleted_id_is_not_reused() {
    let mut b = Board::new();
    let p1 = b.create_post("a".to_owned(), "x".to_owned(), 1).unwrap();
    b.delete_post(p1.id).unwrap();
    let p2 = b.create_post("b".to_owned(), "x".to_owned(), 2).unwrap();
    assert_eq!(p2.id, p1.id + 1);
}

#[test]
fn apply_update_is_a_field_level_merge() {
    let p = Model {
        id: 3,
        title: "t".to_owned(),
        body: "b".to_owned(),
        author_id: Some(9),
        is_pinned: true,
        created_at: 1,
        updated_at: 1,
    };
    let m = apply_update(p, Some("t2".to_owned()), None, 5);
    assert_eq!(m.id, 3);
    assert_eq!(m.title, "t2");
    assert_eq!(m.body, "b");
    assert_eq!(m.author_id, Some(9));
    assert!(m.is_pinned);
    assert_eq!(m.created_at, 1);
    assert_eq!(m.updated_at, 5);
}

#[test]
fn error_kinds_map_to_status_codes() {
    assert_eq!(Error::NotFound.status_code(), 404);
    assert_eq!(Error::Internal.status_code(), 500);
}

#[test]
fn seeded_rows_keep_their_fields() {
    let mut b = Board::new();
    let p = b
        .add_row("t".to_owned(), "b".to_owned(), Some(4), true, 11, 12)
        .unwrap();
    assert_eq!(p.author_id, Some(4));
    assert!(p.is_pinned);
    assert_eq!(p.created_at, 11);
    assert_eq!(p.updated_at, 12);
    let fetched = b.get_post(p.id).unwrap();
    assert_eq!(fetched.author_id, Some(4));
    assert!(fetched.is_pinned);
}

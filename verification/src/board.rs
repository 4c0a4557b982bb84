use vstd::prelude::*;
use vstd::pervasive::VecAdditionalExecFns;
use crate::error::Error;
use crate::paging::{page_index, page_index_spec, page_of, per_page_clamped, per_page_spec};
use crate::post::{apply_update, merged_spec, precedes, Model};

verus! {

/// The first post in `s` whose id is `id`, if any. Under [`Board::wf`] ids
/// are unique, so this is the one post with that id.
pub open spec fn find_by_id(s: Seq<Model>, id: int) -> Option<Model>
    decreases s.len(),
{
    if s.len() == 0 {
        None
    } else if s[0].id == id {
        Some(s[0])
    } else {
        find_by_id(s.drop_first(), id)
    }
}

/// Some post in `s` carries the id `id`.
pub open spec fn has_id(s: Seq<Model>, id: int) -> bool {
    exists|i: int| 0 <= i < s.len() && s[i].id == id
}

/// If `s[i]` is the first post with id `id`, the lookup returns it.
proof fn lemma_find_at(s: Seq<Model>, id: int, i: int)
    requires
        0 <= i < s.len(),
        s[i].id == id,
        forall|j: int| 0 <= j < i ==> s[j].id != id,
    ensures
        find_by_id(s, id) == Some(s[i]),
    decreases i,
{
    if i > 0 {
        assert(s[0].id != id);
        let t = s.drop_first();
        assert forall|j: int| 0 <= j < i - 1 implies t[j].id != id by {
            assert(t[j] == s[j + 1]);
        }
        lemma_find_at(t, id, i - 1);
        assert(t[i - 1] == s[i]);
    }
}

/// If no post in `s` carries the id `id`, the lookup fails.
proof fn lemma_find_none(s: Seq<Model>, id: int)
    requires
        forall|j: int| 0 <= j < s.len() ==> s[j].id != id,
    ensures
        find_by_id(s, id) is None,
    decreases s.len(),
{
    if s.len() > 0 {
        let t = s.drop_first();
        assert forall|j: int| 0 <= j < t.len() implies t[j].id != id by {
            assert(t[j] == s[j + 1]);
        }
        lemma_find_none(t, id);
    }
}

/// The lookup finds an id exactly when some post carries it.
pub proof fn lemma_found_iff_present(s: Seq<Model>, id: int)
    ensures
        (find_by_id(s, id) is Some) <==> has_id(s, id),
    decreases s.len(),
{
    if s.len() == 0 {
    } else if s[0].id == id {
        assert(has_id(s, id));
    } else {
        let t = s.drop_first();
        lemma_found_iff_present(t, id);
        if has_id(s, id) {
            let i = choose|i: int| 0 <= i < s.len() && s[i].id == id;
            assert(t[i - 1] == s[i]);
        }
        if has_id(t, id) {
            let j = choose|j: int| 0 <= j < t.len() && t[j].id == id;
            assert(s[j + 1] == t[j]);
        }
    }
}

/// Create-then-get round trip: a post inserted anywhere with an id that no
/// stored post carries is exactly what fetching that id afterwards finds.
pub proof fn lemma_create_then_get(s: Seq<Model>, p: Model, i: int)
    requires
        0 <= i <= s.len(),
        forall|j: int| 0 <= j < s.len() ==> (#[trigger] s[j]).id != p.id,
    ensures
        find_by_id(s.insert(i, p), p.id as int) == Some(p),
{
    let t = s.insert(i, p);
    s.insert_ensures(i, p);
    assert forall|j: int| 0 <= j < i implies t[j].id != p.id by {
        assert(t[j] == s[j]);
    }
    lemma_find_at(t, p.id as int, i);
}

/// Delete is idempotent in effect but not in result: once a delete has
/// removed the one row carrying an id (ids being unique), the relation no
/// longer has that id, so a second delete of the same id finds nothing and
/// must report `NotFound` rather than succeed again.
pub proof fn lemma_delete_then_delete(s: Seq<Model>, id: int, i: int)
    requires
        0 <= i < s.len(),
        s[i].id == id,
        forall|a: int, b: int|
            0 <= a < b < s.len() ==> #[trigger] s[a].id != #[trigger] s[b].id,
    ensures
        !has_id(s.remove(i), id),
        find_by_id(s.remove(i), id) is None,
{
    let t = s.remove(i);
    s.remove_ensures(i);
    assert forall|k: int| 0 <= k < t.len() implies t[k].id != id by {
        if k < i {
            assert(t[k] == s[k]);
            assert(s[k].id != s[i].id);
        } else {
            assert(t[k] == s[k + 1]);
            assert(s[k + 1].id != s[i].id);
        }
    }
    lemma_find_none(t, id);
}

/// The posts relation: every stored post, held in listing order, together
/// with the id the store will assign next.
pub struct Board {
    posts: Vec<Model>,
    next_id: i64,
}

impl View for Board {
    type V = Seq<Model>;

    /// The stored posts, in listing order: pinned first, then newest first.
    closed spec fn view(&self) -> Seq<Model> {
        self.posts@
    }
}

impl Board {
    /// The id the store assigns to the next created post.
    pub closed spec fn fresh_id(&self) -> int {
        self.next_id as int
    }

    /// Well-formedness: ids are positive, unique, and below the next fresh
    /// id, and the rows are kept in listing order (pinned posts first, then
    /// ids strictly descending within equal pin status).
    pub open spec fn wf(&self) -> bool {
        &&& 0 < self.fresh_id()
        &&& forall|i: int| 0 <= i < self@.len() ==> 0 < (#[trigger] self@[i]).id < self.fresh_id()
        &&& forall|i: int, j: int|
            0 <= i < j < self@.len() ==> #[trigger] self@[i].id != #[trigger] self@[j].id
        &&& forall|i: int, j: int|
            0 <= i < j < self@.len() ==> precedes(#[trigger] self@[i], #[trigger] self@[j])
    }

    /// An empty board; the first created post will get id 1.
    pub fn new() -> (r: Board)
        ensures
            r.wf(),
            r@ == Seq::<Model>::empty(),
            r.fresh_id() == 1,
    {
        Board { posts: Vec::new(), next_id: 1 }
    }

    /// Fetches the post with the given id, or `NotFound` if no post has it.
    pub fn get_post(&self, id: i64) -> (r: Result<&Model, Error>)
        ensures
            match r {
                Ok(p) => find_by_id(self@, id as int) == Some(*p),
                Err(e) => e == Error::NotFound && find_by_id(self@, id as int) is None,
            },
            (r is Ok) <==> has_id(self@, id as int),
    {
        let n = self.posts.len();
        let mut i: usize = 0;
        while i < n
            invariant
                n == self.posts.len(),
                i <= n,
                forall|j: int| 0 <= j < i ==> (#[trigger] self@[j]).id != id,
            decreases n - i,
        {
            if self.posts[i].id == id {
                proof {
                    lemma_find_at(self@, id as int, i as int);
                }
                return Ok(&self.posts[i]);
            }
            i += 1;
        }
        proof {
            lemma_find_none(self@, id as int);
        }
        Err(Error::NotFound)
    }

    /// Stores a new row with the given contents: the store assigns the next
    /// fresh id and keeps the rows in listing order. Fails with `Internal`
    /// only when the store has run out of ids.
    pub fn add_row(
        &mut self,
        title: String,
        body: String,
        author_id: Option<i64>,
        is_pinned: bool,
        created_at: i64,
        updated_at: i64,
    ) -> (r: Result<Model, Error>)
        requires
            old(self).wf(),
        ensures
            final(self).wf(),
            match r {
                Ok(p) => {
                    &&& p.id == old(self).fresh_id()
                    &&& p.title == title
                    &&& p.body == body
                    &&& p.author_id == author_id
                    &&& p.is_pinned == is_pinned
                    &&& p.created_at == created_at
                    &&& p.updated_at == updated_at
                    &&& exists|i: int|
                        0 <= i <= old(self)@.len() && final(self)@ == #[trigger] old(
                            self,
                        )@.insert(i, p)
                    &&& find_by_id(final(self)@, p.id as int) == Some(p)
                    &&& final(self).fresh_id() == old(self).fresh_id() + 1
                },
                Err(e) => {
                    &&& e == Error::Internal
                    &&& old(self).fresh_id() == i64::MAX
                    &&& *final(self) == *old(self)
                },
            },
            (r is Err) <==> old(self).fresh_id() == i64::MAX,
    {
        if self.next_id == i64::MAX {
            return Err(Error::Internal);
        }
        let id = self.next_id;
        self.next_id = id + 1;
        let p = Model { id, title, body, author_id, is_pinned, created_at, updated_at };
        let ghost s = self.posts@;
        let mut i: usize = 0;
        if !is_pinned {
            while i < self.posts.len() && self.posts[i].is_pinned
                invariant
                    i <= self.posts.len(),
                    forall|j: int| 0 <= j < i ==> (#[trigger] self.posts@[j]).is_pinned,
                decreases self.posts.len() - i,
            {
                i += 1;
            }
        }
        proof {
            // Every row before the insertion point is listed before `p`,
            // every row from it on is listed after `p`.
            assert forall|j: int| 0 <= j < i implies precedes(s[j], p) by {}
            assert forall|j: int| i <= j < s.len() implies precedes(p, s[j]) by {
                if !is_pinned && i < s.len() {
                    assert(!s[i as int].is_pinned);
                    if j > i {
                        assert(precedes(s[i as int], s[j]));
                    }
                }
            }
        }
        let row = p.clone();
        self.posts.insert(i, row);
        proof {
            let t = self.posts@;
            s.insert_ensures(i as int, p);
            assert forall|a: int, b: int| 0 <= a < b < t.len() implies precedes(t[a], t[b])
                && t[a].id != t[b].id by {
                if a < i {
                    assert(t[a] == s[a]);
                } else if a == i {
                    assert(t[a] == p);
                } else {
                    assert(t[a] == s[a - 1]);
                }
                if b < i {
                    assert(t[b] == s[b]);
                } else if b == i {
                    assert(t[b] == p);
                } else {
                    assert(t[b] == s[b - 1]);
                }
            }
            assert forall|j: int| 0 <= j < i implies t[j].id != p.id by {
                assert(t[j] == s[j]);
            }
            lemma_find_at(t, p.id as int, i as int);
        }
        Ok(p)
    }

    /// Creates a post from the required `title` and `body`: the author is
    /// absent, the post starts unpinned, both timestamps are set to `now`,
    /// and the store assigns the id. Fails with `Internal` only when the
    /// store has run out of ids.
    pub fn create_post(&mut self, title: String, body: String, now: i64) -> (r: Result<
        Model,
        Error,
    >)
        requires
            old(self).wf(),
        ensures
            final(self).wf(),
            match r {
                Ok(p) => {
                    &&& p.id == old(self).fresh_id()
                    &&& p.title == title
                    &&& p.body == body
                    &&& p.author_id is None
                    &&& !p.is_pinned
                    &&& p.created_at == now
                    &&& p.updated_at == now
                    &&& exists|i: int|
                        0 <= i <= old(self)@.len() && final(self)@ == #[trigger] old(
                            self,
                        )@.insert(i, p)
                    &&& find_by_id(final(self)@, p.id as int) == Some(p)
                    &&& final(self).fresh_id() == old(self).fresh_id() + 1
                },
                Err(e) => {
                    &&& e == Error::Internal
                    &&& old(self).fresh_id() == i64::MAX
                    &&& *final(self) == *old(self)
                },
            },
            (r is Err) <==> old(self).fresh_id() == i64::MAX,
    {
        self.add_row(title, body, None, false, now, now)
    }

    /// Applies a partial update to the post with the given id: a present
    /// field replaces the stored one, an absent field keeps it, and
    /// `updated_at` is refreshed to `now`. Returns the merged, stored post,
    /// or `NotFound` (leaving the board unchanged) if no post has the id.
    pub fn update_post(
        &mut self,
        id: i64,
        title: Option<String>,
        body: Option<String>,
        now: i64,
    ) -> (r: Result<Model, Error>)
        requires
            old(self).wf(),
        ensures
            final(self).wf(),
            final(self).fresh_id() == old(self).fresh_id(),
            match r {
                Ok(p) => {
                    &&& (match find_by_id(old(self)@, id as int) {
                        Some(q) => p == merged_spec(q, title, body, now),
                        None => false,
                    })
                    &&& exists|i: int|
                        0 <= i < old(self)@.len() && old(self)@[i].id == id && final(self)@
                            == #[trigger] old(self)@.update(i, p)
                    &&& find_by_id(final(self)@, id as int) == Some(p)
                },
                Err(e) => {
                    &&& e == Error::NotFound
                    &&& find_by_id(old(self)@, id as int) is None
                    &&& *final(self) == *old(self)
                },
            },
            (r is Ok) <==> has_id(old(self)@, id as int),
    {
        let n = self.posts.len();
        let mut i: usize = 0;
        while i < n
            invariant
                *self == *old(self),
                self.wf(),
                n == self.posts.len(),
                i <= n,
                forall|j: int| 0 <= j < i ==> (#[trigger] self.posts@[j]).id != id,
            decreases n - i,
        {
            if self.posts[i].id == id {
                let ghost s = self.posts@;
                let stored = self.posts[i].clone();
                let merged = apply_update(stored, title, body, now);
                let row = merged.clone();
                self.posts.set(i, row);
                proof {
                    let t = self.posts@;
                    lemma_find_at(s, id as int, i as int);
                    assert(merged.id == s[i as int].id && merged.is_pinned == s[
                        i as int
                    ].is_pinned);
                    assert forall|a: int, b: int| 0 <= a < b < t.len() implies precedes(
                        t[a],
                        t[b],
                    ) && t[a].id != t[b].id by {
                        if a != i {
                            assert(t[a] == s[a]);
                        }
                        if b != i {
                            assert(t[b] == s[b]);
                        }
                        assert(precedes(s[a], s[b]) && s[a].id != s[b].id);
                    }
                    assert forall|k: int| 0 <= k < t.len() implies 0 < (#[trigger] t[k]).id
                        < self.fresh_id() by {
                        if k != i {
                            assert(t[k] == s[k]);
                        }
                    }
                    assert forall|j: int| 0 <= j < i implies t[j].id != id by {
                        assert(t[j] == s[j]);
                    }
                    lemma_find_at(t, id as int, i as int);
                }
                return Ok(merged);
            }
            i += 1;
        }
        proof {
            lemma_find_none(self@, id as int);
        }
        Err(Error::NotFound)
    }

    /// Deletes the post with the given id. The first delete of an id
    /// succeeds and removes the one row that carries it; once no row
    /// matches, delete fails with `NotFound` and changes nothing.
    pub fn delete_post(&mut self, id: i64) -> (r: Result<(), Error>)
        requires
            old(self).wf(),
        ensures
            final(self).wf(),
            final(self).fresh_id() == old(self).fresh_id(),
            match r {
                Ok(_) => {
                    &&& has_id(old(self)@, id as int)
                    &&& exists|i: int|
                        0 <= i < old(self)@.len() && old(self)@[i].id == id && final(self)@
                            == #[trigger] old(self)@.remove(i)
                    &&& find_by_id(final(self)@, id as int) is None
                },
                Err(e) => {
                    &&& e == Error::NotFound
                    &&& find_by_id(old(self)@, id as int) is None
                    &&& *final(self) == *old(self)
                },
            },
            (r is Ok) <==> has_id(old(self)@, id as int),
    {
        let n = self.posts.len();
        let mut i: usize = 0;
        while i < n
            invariant
                *self == *old(self),
                self.wf(),
                n == self.posts.len(),
                i <= n,
                forall|j: int| 0 <= j < i ==> (#[trigger] self.posts@[j]).id != id,
            decreases n - i,
        {
            if self.posts[i].id == id {
                let ghost s = self.posts@;
                self.posts.remove(i);
                proof {
                    let t = self.posts@;
                    s.remove_ensures(i as int);
                    assert(s[i as int].id == id);
                    assert forall|a: int, b: int| 0 <= a < b < t.len() implies precedes(
                        t[a],
                        t[b],
                    ) && t[a].id != t[b].id by {
                        if a < i {
                            assert(t[a] == s[a]);
                        } else {
                            assert(t[a] == s[a + 1]);
                        }
                        if b < i {
                            assert(t[b] == s[b]);
                        } else {
                            assert(t[b] == s[b + 1]);
                        }
                    }
                    assert forall|k: int| 0 <= k < t.len() implies 0 < (#[trigger] t[k]).id
                        < self.fresh_id() && t[k].id != id by {
                        if k < i {
                            assert(t[k] == s[k]);
                            assert(s[k].id != s[i as int].id);
                        } else {
                            assert(t[k] == s[k + 1]);
                            assert(s[k + 1].id != s[i as int].id);
                        }
                    }
                    lemma_find_none(t, id as int);
                }
                return Ok(());
            }
            i += 1;
        }
        proof {
            lemma_find_none(self@, id as int);
        }
        Err(Error::NotFound)
    }

    /// Returns the requested page of the board, in listing order: pinned
    /// posts first, then newest (greatest id) first. `page` is 1-based,
    /// defaults to 1 and is floored at 1; `per_page` defaults to 20 and is
    /// clamped to `[1, 100]`. A page past the end of the relation is empty.
    pub fn list_posts(&self, page: Option<u64>, per_page: Option<u64>) -> (r: Vec<Model>)
        requires
            self.wf(),
        ensures
            r@ == page_of(self@, page_index_spec(page), per_page_spec(per_page)),
            r@.len() <= per_page_spec(per_page),
            forall|a: int, b: int|
                0 <= a < b < r@.len() ==> precedes(#[trigger] r@[a], #[trigger] r@[b]),
    {
        let per = per_page_clamped(per_page);
        let pidx = page_index(page);
        let len = self.posts.len();
        let mut r: Vec<Model> = Vec::new();
        let ghost pi: int = pidx as int;
        let ghost pe: int = per as int;
        proof {
            assert(pi * pe <= u64::MAX as int * 100) by (nonlinear_arith)
                requires
                    0 <= pi <= u64::MAX as int,
                    0 <= pe <= 100,
            ;
        }
        let start128: u128 = (pidx as u128) * (per as u128);
        if start128 >= len as u128 {
            proof {
                assert(page_of(self@, pi, pe) =~= Seq::<Model>::empty());
            }
            return r;
        }
        let start: usize = start128 as usize;
        let remaining = len - start;
        let take = if (per as usize) < remaining {
            per as usize
        } else {
            remaining
        };
        let mut k: usize = 0;
        while k < take
            invariant
                k <= take,
                start + take <= self.posts.len(),
                r@ == self.posts@.subrange(start as int, start as int + k as int),
            decreases take - k,
        {
            let row = self.posts[start + k].clone();
            r.push(row);
            proof {
                assert(self.posts@.subrange(start as int, start as int + (k + 1) as int)
                    =~= self.posts@.subrange(start as int, start as int + k as int).push(
                    self.posts@[start as int + k as int],
                ));
            }
            k += 1;
        }
        proof {
            assert(start as int == pi * pe);
            assert(r@ == page_of(self@, pi, pe));
            assert forall|a: int, b: int| 0 <= a < b < r@.len() implies precedes(
                #[trigger] r@[a],
                #[trigger] r@[b],
            ) by {
                assert(r@[a] == self@[start as int + a]);
                assert(r@[b] == self@[start as int + b]);
            }
        }
        r
    }
}

} // verus!

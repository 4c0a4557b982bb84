use vstd::prelude::*;

verus! {

/// A single board post, as the store persists it.
///
/// Timestamps are kept as seconds since the Unix epoch; the caller that talks
/// to the outside world supplies and interprets them.
pub struct Model {
    /// Primary key, assigned by the store, immutable once assigned.
    pub id: i64,
    pub title: String,
    pub body: String,
    /// Optional author reference; nothing in this library enforces it.
    pub author_id: Option<i64>,
    /// Pinned posts are listed before all others.
    pub is_pinned: bool,
    /// Seconds since the Unix epoch.
    pub created_at: i64,
    /// Seconds since the Unix epoch; refreshed on every mutation.
    pub updated_at: i64,
}

impl Clone for Model {
    fn clone(&self) -> (r: Self)
        ensures
            r == *self,
    {
        Model {
            id: self.id,
            title: self.title.clone(),
            body: self.body.clone(),
            author_id: self.author_id,
            is_pinned: self.is_pinned,
            created_at: self.created_at,
            updated_at: self.updated_at,
        }
    }
}

/// `a` is listed strictly before `b`: pinned posts come first, and within
/// equal pin status the greater id (the newer post) comes first.
pub open spec fn precedes(a: Model, b: Model) -> bool {
    ||| (a.is_pinned && !b.is_pinned)
    ||| (a.is_pinned == b.is_pinned && a.id > b.id)
}

/// The partial merge of an update request into a stored post: a field that is
/// present replaces the stored one, an absent field keeps it, and `updated_at`
/// is refreshed to `now`. The id, pin status and author never change here.
pub open spec fn merged_spec(p: Model, title: Option<String>, body: Option<String>, now: i64) -> Model {
    Model {
        title: match title {
            Some(t) => t,
            None => p.title,
        },
        body: match body {
            Some(b) => b,
            None => p.body,
        },
        updated_at: now,
        ..p
    }
}

/// Applies a partial update to a post: present fields replace stored ones,
/// absent fields are kept, and `updated_at` is refreshed.
pub fn apply_update(post: Model, title: Option<String>, body: Option<String>, now: i64) -> (r: Model)
    ensures
        r == merged_spec(post, title, body, now),
{
    let mut r = post;
    if let Some(t) = title {
        r.title = t;
    }
    if let Some(b) = body {
        r.body = b;
    }
    r.updated_at = now;
    r
}

} // verus!

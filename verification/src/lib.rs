//! A verified model of a minimal "posts" board: a relation of posts keyed by
//! id, listed pinned-first then newest-first, with paginated listing,
//! fetch-by-id, creation, partial update and deletion.

pub mod board;
pub mod error;
pub mod paging;
pub mod post;

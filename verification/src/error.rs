use vstd::prelude::*;

verus! {

/// The two failure kinds the board service distinguishes.
#[derive(Clone, Copy, Debug, PartialEq, Eq, Structural)]
pub enum Error {
    /// The requested post does not exist, or a delete matched no row.
    NotFound,
    /// The backing store failed.
    Internal,
}

impl Error {
    /// The HTTP status code this failure maps to at the service boundary.
    pub fn status_code(&self) -> (r: u16)
        ensures
            *self == Error::NotFound ==> r == 404,
            *self == Error::Internal ==> r == 500,
    {
        match self {
            Error::NotFound => 404,
            Error::Internal => 500,
        }
    }
}

} // verus!

//! The library's one error kind: a failure to open, read or write a file,
//! with a description of it.
use vstd::prelude::*;

verus! {

#[derive(Debug)]
pub struct Error {
    inner: String,
}

/// The outcome of a fallible operation.
pub type Result<T> = std::result::Result<T, Error>;

impl Error {
    /// The error's description.
    pub closed spec fn description(&self) -> String {
        self.inner
    }

    /// An error described by `inner`.
    pub fn new(inner: String) -> (r: Self)
        ensures
            r.description() == inner,
    {
        Error { inner }
    }

    /// The error's description.
    pub fn message(&self) -> (r: &String)
        ensures
            *r == self.description(),
    {
        &self.inner
    }
}

} // verus!

//! # Application errors

use vstd::prelude::*;

verus! {

/// An error of the application, carried as its message.
#[derive(Debug)]
pub struct Error {
    /// Error message
    pub err: String,
}

impl Error {
    /// Builds an error from its message.
    pub fn new(err: String) -> (r: Error)
        ensures
            r.err@ == err@,
    {
        Error { err }
    }
}

} // verus!

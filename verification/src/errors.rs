//! A generic error type for callers that do not need a typed error.

use vstd::prelude::*;

verus! {

/// Generic error carrying only a human-readable message.
#[derive(Debug)]
pub struct Fail(pub String);

impl Fail {
    /// The message carried by this error.
    pub fn message(&self) -> (r: &String)
        ensures
            r@ == self.0@,
    {
        &self.0
    }
}

} // verus!

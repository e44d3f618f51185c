//! Errors that cross the boundary between scripts and host functions.
use vstd::prelude::*;

verus! {

/// A failure reported by a host function.
#[derive(Debug, Clone, PartialEq, Eq)]
pub struct InteropError {
    pub message: String,
}

impl InteropError {
    /// An error carrying `message`.
    pub fn new(message: &str) -> (error: Self)
        ensures
            error.message@ == message@,
    {
        InteropError { message: message.to_owned() }
    }
}

} // verus!

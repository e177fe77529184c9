//! The crate-wide generic error marker.
use vstd::prelude::*;

verus! {

/// A generic, contextless error for callers that only need to know
/// that something in this crate failed.
#[derive(Debug, Clone, Copy)]
pub struct AfiliaError;

impl AfiliaError {
    /// The fixed human-readable rendering of the generic error.
    pub fn message(&self) -> (r: String)
        ensures
            r@ == "Afilia generic error"@,
    {
        String::from_str("Afilia generic error")
    }
}

} // verus!

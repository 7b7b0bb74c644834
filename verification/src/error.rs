//! Errors surfaced by the application core.

use vstd::prelude::*;

verus! {

/// Error taxonomy of the core.
///
/// Missing-selection errors are produced by the core itself; storage
/// errors are produced outside, carried here as text, and surfaced
/// unchanged.
#[derive(Debug)]
pub enum Error {
    /// A free-form error, also used to carry a storage error's text.
    Custom(String),
    /// An operation needed a selected project but none was selected.
    MissingProjectId,
    /// An operation needed a selected task but none was selected.
    MissingTaskId,
}

impl Error {
    /// Build a free-form error from its text.
    pub fn custom(val: String) -> (e: Error)
        ensures
            e == Error::Custom(val),
    {
        Error::Custom(val)
    }
}

} // verus!

//! The errors of test extraction.

use vstd::prelude::*;

verus! {

/// Errors that can occur during test extraction.
#[derive(Debug)]
pub enum EjectError {
    /// No inline `#[cfg(test)] mod tests { .. }` block was found.
    NoTestModule,
    /// The test module already references an external file via `#[path]`.
    AlreadyExternal,
    /// The module's opening brace has no matching closing brace.
    RegionNotFound,
    /// The modified source failed to parse.
    ValidationFailed {
        /// Description of the parse failure.
        reason: String,
    },
}

} // verus!

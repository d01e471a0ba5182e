//! Read-only classification of a Rust source file's test module.

use vstd::prelude::*;

use crate::eject::ejection;
use crate::error::EjectError;
use crate::scanner::{locate_test_module, test_module_region};
use crate::text::chars_of;

verus! {

/// How a source file's `mod tests` relates to the sibling-test-file
/// convention.
#[derive(Clone, Copy, Debug, PartialEq, Eq, Structural)]
pub enum Classification {
    /// Carries an inline `#[cfg(test)] mod tests { ... }` block that
    /// extraction would take out.
    Inline,
    /// The test module is already external via `#[path]` (nothing to do).
    External,
    /// No `#[cfg(test)] mod tests` module at all.
    NoTests,
}

/// The classification that the region search gives.
pub open spec fn classification_of(cs: Seq<char>) -> Classification {
    match test_module_region(cs) {
        Ok(_) => Classification::Inline,
        Err(EjectError::AlreadyExternal) => Classification::External,
        Err(_) => Classification::NoTests,
    }
}

/// Classify `source` without modifying it, by the detection that
/// extraction performs.
#[must_use]
pub fn classify_source(source: &str) -> (c: Classification)
    ensures
        c == classification_of(source@),
{
    let cs = chars_of(source);
    match locate_test_module(&cs) {
        Ok(_) => Classification::Inline,
        Err(EjectError::AlreadyExternal) => Classification::External,
        Err(_) => Classification::NoTests,
    }
}

/// Classification mirrors extraction: a source is `Inline` exactly when
/// extraction (before the parse check) succeeds, `External` exactly when
/// extraction reports that the tests are already external, and `NoTests`
/// otherwise.
pub proof fn lemma_classification_mirrors_ejection(cs: Seq<char>, stem: Seq<char>)
    ensures
        classification_of(cs) == Classification::Inline <==> ejection(cs, stem) is Ok,
        classification_of(cs) == Classification::External <==> ejection(cs, stem) matches Err(
            EjectError::AlreadyExternal,
        ),
        classification_of(cs) == Classification::NoTests <==> (ejection(cs, stem) matches Err(e)
            && !(e is AlreadyExternal)),
{
}

} // verus!

//! Per-file results of a `check` or `apply` run.

use vstd::prelude::*;

use crate::classify::{classification_of, classify_source, Classification};
use crate::eject::{eject_tests, ejection, syn_file_parse, EjectResult};
use crate::error::EjectError;

verus! {

/// Output format for command results.
#[derive(Debug, Clone, Copy, PartialEq, Eq, Structural)]
pub enum OutputFormat {
    /// Human-readable plain text.
    Text,
    /// Machine-readable JSON.
    Json,
}

/// Classification result for a single scanned file.
pub struct FileResult {
    /// Path to the source file, as displayed.
    pub path: String,
    /// How the file's test module was classified.
    pub classification: Classification,
    /// Name of the (would-be) extracted test file, when inline.
    pub test_file: Option<String>,
    /// Whether an eject was actually written to disk for this file.
    pub applied: bool,
}

/// Per-file results from a `check` or `apply` run.
pub struct Report {
    /// One entry per scanned source file.
    pub results: Vec<FileResult>,
}

/// The number of results with the given classification.
pub open spec fn count_class(rs: Seq<FileResult>, target: Classification) -> nat
    decreases rs.len(),
{
    if rs.len() == 0 {
        0
    } else {
        count_class(rs.drop_last(), target) + if rs.last().classification == target {
            1nat
        } else {
            0nat
        }
    }
}

/// Some result is classified inline.
pub open spec fn any_inline(rs: Seq<FileResult>) -> bool {
    exists|i: int| 0 <= i < rs.len() && (#[trigger] rs[i]).classification == Classification::Inline
}

impl Report {
    /// True if any scanned file still carries an inline test module.
    #[must_use]
    pub fn has_inline(&self) -> (r: bool)
        ensures
            r == any_inline(self.results@),
    {
        let mut i: usize = 0;
        while i < self.results.len()
            invariant
                i <= self.results@.len(),
                forall|j: int|
                    0 <= j < i ==> (#[trigger] self.results@[j]).classification
                        != Classification::Inline,
            decreases self.results@.len() - i,
        {
            if self.results[i].classification == Classification::Inline {
                return true;
            }
            i = i + 1;
        }
        false
    }
}

/// The number of results in `report` with the given classification.
pub fn count(report: &Report, target: Classification) -> (n: usize)
    ensures
        n == count_class(report.results@, target),
{
    let mut n: usize = 0;
    let mut i: usize = 0;
    while i < report.results.len()
        invariant
            i <= report.results@.len(),
            n == count_class(report.results@.take(i as int), target),
            n <= i,
        decreases report.results@.len() - i,
    {
        assert(report.results@.take(i + 1).drop_last() =~= report.results@.take(i as int));
        if report.results[i].classification == target {
            n = n + 1;
        }
        i = i + 1;
    }
    assert(report.results@.take(report.results@.len() as int) =~= report.results@);
    n
}

/// Every result has exactly one of the three classifications: the three
/// counts add up to the number of results.
pub proof fn lemma_counts_partition(rs: Seq<FileResult>)
    ensures
        count_class(rs, Classification::Inline) + count_class(rs, Classification::External)
            + count_class(rs, Classification::NoTests) == rs.len(),
    decreases rs.len(),
{
    if rs.len() > 0 {
        lemma_counts_partition(rs.drop_last());
    }
}

/// There is an inline result exactly when the inline count is positive.
pub proof fn lemma_any_inline_count(rs: Seq<FileResult>)
    ensures
        any_inline(rs) <==> count_class(rs, Classification::Inline) > 0,
    decreases rs.len(),
{
    if rs.len() > 0 {
        lemma_any_inline_count(rs.drop_last());
        if any_inline(rs) {
            let i = choose|i: int|
                0 <= i < rs.len() && (#[trigger] rs[i]).classification == Classification::Inline;
            if i < rs.len() - 1 {
                assert(rs.drop_last()[i] == rs[i]);
            }
        }
        if any_inline(rs.drop_last()) {
            let i = choose|i: int|
                0 <= i < rs.len() - 1 && (#[trigger] rs.drop_last()[i]).classification
                    == Classification::Inline;
            assert(rs[i] == rs.drop_last()[i]);
        }
    }
}

/// `apply` on a single file: extract its inline test module (written unless
/// `dry_run`), failing as extraction fails. Returns the file's result and
/// what to write.
pub fn apply_file(path: String, source: &str, file_stem: &str, dry_run: bool) -> (r: Result<
    (FileResult, EjectResult),
    EjectError,
>)
    ensures
        match ejection(source@, file_stem@) {
            Ok(t) => match syn_file_parse(t.0) {
                Ok(()) => {
                    &&& r matches Ok((f, x))
                    &&& f.path == path
                    &&& f.classification == Classification::Inline
                    &&& f.test_file == Some(x.test_file_name)
                    &&& f.applied == !dry_run
                    &&& x.modified_source@ == t.0
                    &&& x.test_content@ == t.1
                    &&& x.test_file_name@ == t.2
                },
                Err(m) => r matches Err(EjectError::ValidationFailed { reason }) && reason@ == m,
            },
            Err(e) => r matches Err(f) && f == e,
        },
{
    let result = eject_tests(source, file_stem)?;
    let name = result.test_file_name.clone();
    Ok(
        (
            FileResult {
                path,
                classification: Classification::Inline,
                test_file: Some(name),
                applied: !dry_run,
            },
            result,
        ),
    )
}

/// One file of an `apply` run over a tree: an inline module is extracted
/// (written unless `dry_run`); other files are reported and left alone.
/// Returns the file's result and, when inline, what to write.
pub fn apply_source(path: String, source: &str, file_stem: &str, dry_run: bool) -> (r: Result<
    (FileResult, Option<EjectResult>),
    EjectError,
>)
    ensures
        classification_of(source@) != Classification::Inline ==> (r matches Ok((f, None)) && f.path
            == path && f.classification == classification_of(source@) && f.test_file is None
            && !f.applied),
        classification_of(source@) == Classification::Inline ==> match ejection(
            source@,
            file_stem@,
        ) {
            Ok(t) => match syn_file_parse(t.0) {
                Ok(()) => {
                    &&& r matches Ok((f, Some(x)))
                    &&& f.path == path
                    &&& f.classification == Classification::Inline
                    &&& f.test_file == Some(x.test_file_name)
                    &&& f.applied == !dry_run
                    &&& x.modified_source@ == t.0
                    &&& x.test_content@ == t.1
                    &&& x.test_file_name@ == t.2
                },
                Err(m) => r matches Err(EjectError::ValidationFailed { reason }) && reason@ == m,
            },
            Err(e) => r matches Err(f) && f == e,
        },
{
    let classification = classify_source(source);
    if classification != Classification::Inline {
        return Ok((FileResult { path, classification, test_file: None, applied: false }, None));
    }
    let (result, extraction) = apply_file(path, source, file_stem, dry_run)?;
    Ok((result, Some(extraction)))
}

} // verus!

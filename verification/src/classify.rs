//! The rule that sorts one source line into a coverage category, given the
//! hit counts that the two suites report for it.

use vstd::prelude::*;

verus! {

/// The hit count that marks a line as not instrumented.
pub const NOT_RUN: i64 = -1;

/// What the two suites say about one source line.
#[derive(Clone, Copy, Debug, PartialEq, Eq, Structural)]
pub enum CoverageType {
    /// Neither suite instrumented the line.
    NotRun,
    /// Both suites instrumented the line and neither executed it.
    NotCovered,
    /// Only the first suite executed the line.
    Suite1Only,
    /// Only the second suite executed the line.
    Suite2Only,
    /// Every remaining combination, in particular both suites executing the line.
    Both,
}

/// The category of a line with hit count `hits_1` in the first suite and
/// `hits_2` in the second.
pub open spec fn line_kind(hits_1: i64, hits_2: i64) -> CoverageType {
    if hits_1 == -1 && hits_2 == -1 {
        CoverageType::NotRun
    } else if hits_1 == 0 && hits_2 == 0 {
        CoverageType::NotCovered
    } else if hits_1 > 0 && hits_2 <= 0 {
        CoverageType::Suite1Only
    } else if hits_1 <= 0 && hits_2 > 0 {
        CoverageType::Suite2Only
    } else {
        CoverageType::Both
    }
}

/// The category that a line of category `kind` has once the two suites trade
/// places.
pub open spec fn mirrored_kind(kind: CoverageType) -> CoverageType {
    match kind {
        CoverageType::Suite1Only => CoverageType::Suite2Only,
        CoverageType::Suite2Only => CoverageType::Suite1Only,
        other => other,
    }
}

/// Classifies one line from the hit counts of the two suites.
pub fn classify_line(hits_1: i64, hits_2: i64) -> (kind: CoverageType)
    ensures
        kind == line_kind(hits_1, hits_2),
{
    if hits_1 == NOT_RUN && hits_2 == NOT_RUN {
        CoverageType::NotRun
    } else if hits_1 == 0 && hits_2 == 0 {
        CoverageType::NotCovered
    } else if hits_1 > 0 && hits_2 <= 0 {
        CoverageType::Suite1Only
    } else if hits_1 <= 0 && hits_2 > 0 {
        CoverageType::Suite2Only
    } else {
        CoverageType::Both
    }
}

/// Trading the places of the two suites turns the category of a line into
/// its mirror image.
pub proof fn lemma_line_kind_mirrored(hits_1: i64, hits_2: i64)
    ensures
        line_kind(hits_2, hits_1) == mirrored_kind(line_kind(hits_1, hits_2)),
{
}

} // verus!

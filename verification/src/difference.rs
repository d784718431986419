//! The comparison of one file: the category of every line and the totals
//! that the report shows.

use vstd::prelude::*;
use crate::classify::{
    classify_line, lemma_line_kind_mirrored, line_kind, mirrored_kind, CoverageType, NOT_RUN,
};

verus! {

/// How many entries of `lines` are of the category `kind`.
pub open spec fn count_kind(lines: Seq<CoverageType>, kind: CoverageType) -> nat
    decreases lines.len(),
{
    if lines.len() == 0 {
        0
    } else {
        count_kind(lines.drop_last(), kind) + if lines.last() == kind {
            1nat
        } else {
            0nat
        }
    }
}

/// The number of lines that are compared: the length of the shorter sequence.
pub open spec fn compared_len(hits_1: Seq<i64>, hits_2: Seq<i64>) -> nat {
    if hits_1.len() <= hits_2.len() {
        hits_1.len()
    } else {
        hits_2.len()
    }
}

/// The categories of the compared lines, position by position.
pub open spec fn classify_lines(hits_1: Seq<i64>, hits_2: Seq<i64>) -> Seq<CoverageType> {
    Seq::new(compared_len(hits_1, hits_2), |i: int| line_kind(hits_1[i], hits_2[i]))
}

/// The hit counts of a suite that never ran the file: not instrumented where
/// `other` is not instrumented, zero everywhere else.
pub open spec fn zero_lines(other: Seq<i64>) -> Seq<i64> {
    Seq::new(
        other.len(),
        |i: int|
            if other[i] == -1 {
                -1i64
            } else {
                0i64
            },
    )
}

/// The mathematical content of a [`CoverageDifference`].
pub struct DifferenceView {
    pub line_differences: Seq<CoverageType>,
    pub line_count: nat,
    pub coverable_count: nat,
    pub covered_count: nat,
    pub suite_1_only_count: nat,
    pub suite_2_only_count: nat,
    pub both_count: nat,
}

/// The totals that belong to a sequence of line categories.
pub open spec fn summary_of(lines: Seq<CoverageType>) -> DifferenceView {
    DifferenceView {
        line_differences: lines,
        line_count: lines.len(),
        coverable_count: (lines.len() - count_kind(lines, CoverageType::NotRun)) as nat,
        covered_count: count_kind(lines, CoverageType::Suite1Only) + count_kind(
            lines,
            CoverageType::Suite2Only,
        ) + count_kind(lines, CoverageType::Both),
        suite_1_only_count: count_kind(lines, CoverageType::Suite1Only),
        suite_2_only_count: count_kind(lines, CoverageType::Suite2Only),
        both_count: count_kind(lines, CoverageType::Both),
    }
}

/// Appending one line raises the count of its own category by one and leaves
/// the other counts alone.
pub proof fn lemma_count_kind_push(lines: Seq<CoverageType>, line: CoverageType, kind: CoverageType)
    ensures
        count_kind(lines.push(line), kind) == count_kind(lines, kind) + if line == kind {
            1nat
        } else {
            0nat
        },
{
    assert(lines.push(line).drop_last() =~= lines);
}

/// Every line belongs to exactly one category: the five counts add up to the
/// number of lines.
pub proof fn lemma_counts_partition(lines: Seq<CoverageType>)
    ensures
        count_kind(lines, CoverageType::NotRun) + count_kind(lines, CoverageType::NotCovered)
            + count_kind(lines, CoverageType::Suite1Only) + count_kind(
            lines,
            CoverageType::Suite2Only,
        ) + count_kind(lines, CoverageType::Both) == lines.len(),
    decreases lines.len(),
{
    if lines.len() > 0 {
        lemma_counts_partition(lines.drop_last());
    }
}

/// The totals of a difference hang together: the coverable lines and the
/// lines that were not run make up the compared lines, the covered lines are
/// those of the three covered categories, and no more lines are covered
/// than are coverable.
pub proof fn lemma_summary_totals(lines: Seq<CoverageType>)
    ensures
        summary_of(lines).line_count == lines.len(),
        summary_of(lines).coverable_count + count_kind(lines, CoverageType::NotRun)
            == summary_of(lines).line_count,
        summary_of(lines).covered_count == summary_of(lines).suite_1_only_count + summary_of(
            lines,
        ).suite_2_only_count + summary_of(lines).both_count,
        summary_of(lines).covered_count + count_kind(lines, CoverageType::NotCovered)
            == summary_of(lines).coverable_count,
{
    lemma_counts_partition(lines);
}

/// A category that no line has is counted zero times.
pub proof fn lemma_count_kind_absent(lines: Seq<CoverageType>, kind: CoverageType)
    requires
        forall|i: int| 0 <= i < lines.len() ==> lines[i] != kind,
    ensures
        count_kind(lines, kind) == 0,
    decreases lines.len(),
{
    if lines.len() > 0 {
        lemma_count_kind_absent(lines.drop_last(), kind);
    }
}

/// The lines of a comparison as they read once the two suites trade places.
pub open spec fn mirrored_lines(lines: Seq<CoverageType>) -> Seq<CoverageType> {
    Seq::new(lines.len(), |i: int| mirrored_kind(lines[i]))
}

/// A difference as it reads once the two suites trade places: the lines are
/// mirrored and the two one-sided counts trade places.
pub open spec fn mirrored_difference(difference: DifferenceView) -> DifferenceView {
    DifferenceView {
        line_differences: mirrored_lines(difference.line_differences),
        line_count: difference.line_count,
        coverable_count: difference.coverable_count,
        covered_count: difference.covered_count,
        suite_1_only_count: difference.suite_2_only_count,
        suite_2_only_count: difference.suite_1_only_count,
        both_count: difference.both_count,
    }
}

/// Mirrored lines hold a category as often as the lines themselves hold its
/// mirror image.
pub proof fn lemma_count_kind_mirrored(lines: Seq<CoverageType>, kind: CoverageType)
    ensures
        count_kind(mirrored_lines(lines), kind) == count_kind(lines, mirrored_kind(kind)),
    decreases lines.len(),
{
    if lines.len() > 0 {
        lemma_count_kind_mirrored(lines.drop_last(), kind);
        assert(mirrored_lines(lines).drop_last() =~= mirrored_lines(lines.drop_last()));
    }
}

/// The totals of mirrored lines are the mirrored totals.
pub proof fn lemma_summary_mirrored(lines: Seq<CoverageType>)
    ensures
        summary_of(mirrored_lines(lines)) == mirrored_difference(summary_of(lines)),
{
    lemma_count_kind_mirrored(lines, CoverageType::NotRun);
    lemma_count_kind_mirrored(lines, CoverageType::Suite1Only);
    lemma_count_kind_mirrored(lines, CoverageType::Suite2Only);
    lemma_count_kind_mirrored(lines, CoverageType::Both);
}

/// Comparing two suites in the opposite order gives the mirrored result:
/// the same lines are compared, each category is mirrored, and the counts of
/// the two one-sided categories trade places.
pub proof fn lemma_swap_mirrors_difference(hits_1: Seq<i64>, hits_2: Seq<i64>)
    ensures
        classify_lines(hits_2, hits_1) == mirrored_lines(classify_lines(hits_1, hits_2)),
        summary_of(classify_lines(hits_2, hits_1)) == mirrored_difference(
            summary_of(classify_lines(hits_1, hits_2)),
        ),
{
    let forward = classify_lines(hits_1, hits_2);
    let backward = classify_lines(hits_2, hits_1);
    assert forall|i: int| 0 <= i < backward.len() implies backward[i] == mirrored_kind(
        forward[i],
    ) by {
        lemma_line_kind_mirrored(hits_1[i], hits_2[i]);
    }
    assert(backward =~= mirrored_lines(forward));
    lemma_summary_mirrored(forward);
}

/// The category of a line that only the first suite has a record of.
pub open spec fn one_sided_kind(hits: i64) -> CoverageType {
    if hits > 0 {
        CoverageType::Suite1Only
    } else if hits == 0 {
        CoverageType::NotCovered
    } else {
        CoverageType::NotRun
    }
}

/// Comparing a record that holds no hit count below -1 with the zero
/// coverage made from it classifies every executed line as covered by the
/// first suite only, every line with zero hits as not covered and every line
/// that is not instrumented as not run; no line is covered by the second
/// suite or by both.
pub proof fn lemma_difference_from_zero_coverage(hits: Seq<i64>)
    requires
        forall|i: int| 0 <= i < hits.len() ==> hits[i] >= -1,
    ensures
        classify_lines(hits, zero_lines(hits)).len() == hits.len(),
        forall|i: int|
            0 <= i < hits.len() ==> #[trigger] classify_lines(hits, zero_lines(hits))[i]
                == one_sided_kind(hits[i]),
        count_kind(classify_lines(hits, zero_lines(hits)), CoverageType::Suite2Only) == 0,
        count_kind(classify_lines(hits, zero_lines(hits)), CoverageType::Both) == 0,
        summary_of(classify_lines(hits, zero_lines(hits))).covered_count == summary_of(
            classify_lines(hits, zero_lines(hits)),
        ).suite_1_only_count,
{
    let lines = classify_lines(hits, zero_lines(hits));
    lemma_count_kind_absent(lines, CoverageType::Suite2Only);
    lemma_count_kind_absent(lines, CoverageType::Both);
}

/// The result of comparing the line coverage of one file in two suites.
pub struct CoverageDifference {
    line_differences: Vec<CoverageType>,
    line_count: usize,
    coverable_count: usize,
    covered_count: usize,
    suite_1_only_count: usize,
    suite_2_only_count: usize,
    both_count: usize,
}

impl View for CoverageDifference {
    type V = DifferenceView;

    closed spec fn view(&self) -> DifferenceView {
        DifferenceView {
            line_differences: self.line_differences@,
            line_count: self.line_count as nat,
            coverable_count: self.coverable_count as nat,
            covered_count: self.covered_count as nat,
            suite_1_only_count: self.suite_1_only_count as nat,
            suite_2_only_count: self.suite_2_only_count as nat,
            both_count: self.both_count as nat,
        }
    }
}

impl CoverageDifference {
    /// The totals of a difference are those of its lines.
    #[verifier::type_invariant]
    spec fn consistent(self) -> bool {
        self@ == summary_of(self.line_differences@)
    }

    /// The category of each compared line, in file order.
    pub fn line_differences(&self) -> (lines: &Vec<CoverageType>)
        ensures
            lines@ == self@.line_differences,
    {
        &self.line_differences
    }

    /// The number of lines that were compared.
    pub fn line_count(&self) -> (count: usize)
        ensures
            count == self@.line_count,
            count == self@.line_differences.len(),
    {
        proof {
            use_type_invariant(self);
        }
        self.line_count
    }

    /// The number of compared lines that at least one suite instrumented.
    pub fn coverable_count(&self) -> (count: usize)
        ensures
            count == self@.coverable_count,
            count + count_kind(self@.line_differences, CoverageType::NotRun) == self@.line_count,
    {
        proof {
            use_type_invariant(self);
            lemma_counts_partition(self@.line_differences);
        }
        self.coverable_count
    }

    /// The number of compared lines that at least one suite executed.
    pub fn covered_count(&self) -> (count: usize)
        ensures
            count == self@.covered_count,
            count == self@.suite_1_only_count + self@.suite_2_only_count + self@.both_count,
    {
        proof {
            use_type_invariant(self);
        }
        self.covered_count
    }

    /// The number of lines of category [`CoverageType::Suite1Only`].
    pub fn suite_1_only_count(&self) -> (count: usize)
        ensures
            count == self@.suite_1_only_count,
            count == count_kind(self@.line_differences, CoverageType::Suite1Only),
    {
        proof {
            use_type_invariant(self);
        }
        self.suite_1_only_count
    }

    /// The number of lines of category [`CoverageType::Suite2Only`].
    pub fn suite_2_only_count(&self) -> (count: usize)
        ensures
            count == self@.suite_2_only_count,
            count == count_kind(self@.line_differences, CoverageType::Suite2Only),
    {
        proof {
            use_type_invariant(self);
        }
        self.suite_2_only_count
    }

    /// The number of lines of category [`CoverageType::Both`].
    pub fn both_count(&self) -> (count: usize)
        ensures
            count == self@.both_count,
            count == count_kind(self@.line_differences, CoverageType::Both),
    {
        proof {
            use_type_invariant(self);
        }
        self.both_count
    }

    /// The number of lines of category [`CoverageType::NotRun`].
    pub fn not_run_count(&self) -> (count: usize)
        ensures
            count == count_kind(self@.line_differences, CoverageType::NotRun),
            count + self@.coverable_count == self@.line_count,
    {
        proof {
            use_type_invariant(self);
            lemma_counts_partition(self@.line_differences);
        }
        self.line_count - self.coverable_count
    }

    /// The number of lines of category [`CoverageType::NotCovered`].
    pub fn not_covered_count(&self) -> (count: usize)
        ensures
            count == count_kind(self@.line_differences, CoverageType::NotCovered),
            count + self@.covered_count == self@.coverable_count,
    {
        proof {
            use_type_invariant(self);
            lemma_counts_partition(self@.line_differences);
        }
        self.coverable_count - self.covered_count
    }
}

/// Compares the line coverage of one file in two suites.
///
/// The lines are compared pairwise by position. Where the two sequences
/// differ in length, only the lines that both have are compared.
pub fn coverage_difference(suite_1_coverage: &[i64], suite_2_coverage: &[i64]) -> (difference:
    CoverageDifference)
    ensures
        difference@ == summary_of(classify_lines(suite_1_coverage@, suite_2_coverage@)),
{
    let line_count: usize = if suite_2_coverage.len() != suite_1_coverage.len() {
        if suite_1_coverage.len() < suite_2_coverage.len() {
            suite_1_coverage.len()
        } else {
            suite_2_coverage.len()
        }
    } else {
        suite_1_coverage.len()
    };
    let ghost expected = classify_lines(suite_1_coverage@, suite_2_coverage@);
    let mut line_differences: Vec<CoverageType> = Vec::new();
    let mut suite_1_only_count: usize = 0;
    let mut suite_2_only_count: usize = 0;
    let mut both_count: usize = 0;
    let mut coverable_count: usize = line_count;
    let mut i: usize = 0;
    while i < line_count
        invariant
            i <= line_count,
            line_count == expected.len(),
            line_count <= suite_1_coverage@.len(),
            line_count <= suite_2_coverage@.len(),
            expected == classify_lines(suite_1_coverage@, suite_2_coverage@),
            line_differences@ == expected.take(i as int),
            suite_1_only_count == count_kind(line_differences@, CoverageType::Suite1Only),
            suite_2_only_count == count_kind(line_differences@, CoverageType::Suite2Only),
            both_count == count_kind(line_differences@, CoverageType::Both),
            coverable_count + count_kind(line_differences@, CoverageType::NotRun) == line_count,
        decreases line_count - i,
    {
        let coverage_type = classify_line(suite_1_coverage[i], suite_2_coverage[i]);
        proof {
            let seen = line_differences@;
            lemma_counts_partition(seen);
            lemma_count_kind_push(seen, coverage_type, CoverageType::NotRun);
            lemma_count_kind_push(seen, coverage_type, CoverageType::Suite1Only);
            lemma_count_kind_push(seen, coverage_type, CoverageType::Suite2Only);
            lemma_count_kind_push(seen, coverage_type, CoverageType::Both);
            assert(expected.take(i as int).push(coverage_type) =~= expected.take(i + 1));
        }
        match coverage_type {
            CoverageType::NotRun => {
                coverable_count -= 1;
            },
            CoverageType::NotCovered => {},
            CoverageType::Suite1Only => {
                suite_1_only_count += 1;
            },
            CoverageType::Suite2Only => {
                suite_2_only_count += 1;
            },
            CoverageType::Both => {
                both_count += 1;
            },
        }
        line_differences.push(coverage_type);
        i += 1;
    }
    proof {
        assert(expected.take(line_count as int) =~= expected);
        lemma_counts_partition(expected);
    }
    let covered_count: usize = both_count + suite_1_only_count + suite_2_only_count;
    CoverageDifference {
        line_differences,
        line_count,
        coverable_count,
        covered_count,
        suite_1_only_count,
        suite_2_only_count,
        both_count,
    }
}

/// The coverage of a suite that has no record of a file, made from the
/// record `other_data` of the suite that has one.
pub fn zero_coverage(other_data: &[i64]) -> (zeros: Vec<i64>)
    ensures
        zeros@ == zero_lines(other_data@),
{
    let mut zeros: Vec<i64> = Vec::new();
    let mut i: usize = 0;
    while i < other_data.len()
        invariant
            i <= other_data@.len(),
            zeros@ == zero_lines(other_data@).take(i as int),
        decreases other_data@.len() - i,
    {
        let hits: i64 = if other_data[i] == NOT_RUN {
            NOT_RUN
        } else {
            0
        };
        zeros.push(hits);
        proof {
            assert(zero_lines(other_data@).take(i as int).push(hits) =~= zero_lines(
                other_data@,
            ).take(i + 1));
        }
        i += 1;
    }
    proof {
        assert(zero_lines(other_data@).take(other_data@.len() as int) =~= zero_lines(
            other_data@,
        ));
    }
    zeros
}

} // verus!

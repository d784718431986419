//! The comparison of two suites: which paths get a difference, and against
//! what a file is compared that only one suite has a record of.

use vstd::prelude::*;
use crate::difference::{
    classify_lines, coverage_difference, lemma_swap_mirrors_difference, mirrored_difference,
    summary_of, zero_coverage, zero_lines, CoverageDifference, DifferenceView,
};
use crate::node::{file_lines, CoverageNode, CoverageNodeView, NodeType};
use crate::path_map::{lemma_position_unique, PathMap};
use crate::path_order::{path_precedes, path_views, strictly_ascending};

verus! {

/// What one suite reports, path by path.
pub type CoverageMap = PathMap<CoverageNode>;

/// The difference that belongs to `path`, if one belongs to it.
///
/// Only files that carry hit counts are compared. A file that both suites
/// have is compared as it stands. A file that one suite lacks altogether is
/// compared with the zero coverage made from the record of the other.
/// Where a suite has the path but offers no hit counts for it, nothing is
/// compared.
pub open spec fn expected_difference(
    suite_1: Map<Seq<char>, CoverageNodeView>,
    suite_2: Map<Seq<char>, CoverageNodeView>,
    path: Seq<char>,
) -> Option<DifferenceView> {
    if suite_1.contains_key(path) {
        match file_lines(suite_1[path]) {
            Some(hits_1) => if suite_2.contains_key(path) {
                match file_lines(suite_2[path]) {
                    Some(hits_2) => Some(summary_of(classify_lines(hits_1, hits_2))),
                    None => None,
                }
            } else {
                Some(summary_of(classify_lines(hits_1, zero_lines(hits_1))))
            },
            None => None,
        }
    } else if suite_2.contains_key(path) {
        match file_lines(suite_2[path]) {
            Some(hits_2) => Some(summary_of(classify_lines(zero_lines(hits_2), hits_2))),
            None => None,
        }
    } else {
        None
    }
}

/// The differences of two suites: one for each path to which one belongs.
pub open spec fn expected_differences(
    suite_1: Map<Seq<char>, CoverageNodeView>,
    suite_2: Map<Seq<char>, CoverageNodeView>,
) -> Map<Seq<char>, DifferenceView> {
    Map::new(
        |path: Seq<char>| expected_difference(suite_1, suite_2, path) is Some,
        |path: Seq<char>| expected_difference(suite_1, suite_2, path)->0,
    )
}

/// Whether both suites offer hit counts for `path`, and not equally many.
pub open spec fn lengths_differ(
    suite_1: Map<Seq<char>, CoverageNodeView>,
    suite_2: Map<Seq<char>, CoverageNodeView>,
    path: Seq<char>,
) -> bool {
    &&& suite_1.contains_key(path)
    &&& suite_2.contains_key(path)
    &&& file_lines(suite_1[path]) is Some
    &&& file_lines(suite_2[path]) is Some
    &&& file_lines(suite_1[path])->0.len() != file_lines(suite_2[path])->0.len()
}

/// Whether `path` stands among the first `upto` entries of `paths`.
pub open spec fn among_first(paths: Seq<Seq<char>>, upto: int, path: Seq<char>) -> bool {
    exists|j: int| 0 <= j < upto && #[trigger] paths[j] == path
}

/// Looking at one more entry adds the path of that entry and no other.
pub proof fn lemma_among_first_step(paths: Seq<Seq<char>>, upto: int, path: Seq<char>)
    requires
        0 <= upto < paths.len(),
    ensures
        among_first(paths, upto + 1, path) <==> among_first(paths, upto, path) || path
            == paths[upto],
{
    if among_first(paths, upto + 1, path) {
        let j = choose|j: int| 0 <= j < upto + 1 && #[trigger] paths[j] == path;
        if j < upto {
            assert(among_first(paths, upto, path));
        }
    }
    if among_first(paths, upto, path) {
        let j = choose|j: int| 0 <= j < upto && #[trigger] paths[j] == path;
        assert(0 <= j < upto + 1 && paths[j] == path);
    }
    if path == paths[upto] {
        assert(0 <= upto < upto + 1 && paths[upto] == path);
    }
}

/// The paths among all entries of a sequence are the paths that it contains.
pub proof fn lemma_among_all(paths: Seq<Seq<char>>, path: Seq<char>)
    ensures
        among_first(paths, paths.len() as int, path) <==> paths.contains(path),
{
    if paths.contains(path) {
        let j = paths.index_of(path);
        assert(0 <= j < paths.len() && paths[j] == path);
    }
}

/// The outcome of comparing two suites.
pub struct SuiteComparison {
    /// The difference of every compared file, by path.
    pub differences: PathMap<CoverageDifference>,
    /// The paths of the files for which the two suites hold hit counts for
    /// different numbers of lines, in ascending order. Of such a file only
    /// the lines that both suites have were compared.
    pub length_mismatches: Vec<String>,
}

/// A directory never gets a difference, whatever its record carries and
/// whatever the other suite holds for its path.
pub proof fn lemma_directory_has_no_difference(
    suite_1: Map<Seq<char>, CoverageNodeView>,
    suite_2: Map<Seq<char>, CoverageNodeView>,
    path: Seq<char>,
)
    requires
        (suite_1.contains_key(path) && suite_1[path].node_type == NodeType::Directory) || (
        suite_2.contains_key(path) && suite_2[path].node_type == NodeType::Directory),
    ensures
        expected_difference(suite_1, suite_2, path) is None,
        !expected_differences(suite_1, suite_2).contains_key(path),
{
}

/// Comparing two suites in the opposite order gives a difference for the
/// same paths, and for each path the mirrored difference: the categories of
/// the lines are mirrored and the counts of the two one-sided categories
/// trade places.
pub proof fn lemma_swap_mirrors_differences(
    suite_1: Map<Seq<char>, CoverageNodeView>,
    suite_2: Map<Seq<char>, CoverageNodeView>,
    path: Seq<char>,
)
    ensures
        expected_differences(suite_2, suite_1).contains_key(path) == expected_differences(
            suite_1,
            suite_2,
        ).contains_key(path),
        expected_differences(suite_1, suite_2).contains_key(path) ==> expected_differences(
            suite_2,
            suite_1,
        )[path] == mirrored_difference(expected_differences(suite_1, suite_2)[path]),
        lengths_differ(suite_2, suite_1, path) == lengths_differ(suite_1, suite_2, path),
{
    if suite_1.contains_key(path) && file_lines(suite_1[path]) is Some {
        let hits_1 = file_lines(suite_1[path])->0;
        if suite_2.contains_key(path) {
            if file_lines(suite_2[path]) is Some {
                lemma_swap_mirrors_difference(hits_1, file_lines(suite_2[path])->0);
            }
        } else {
            lemma_swap_mirrors_difference(hits_1, zero_lines(hits_1));
        }
    } else if !suite_1.contains_key(path) && suite_2.contains_key(path) && file_lines(
        suite_2[path],
    ) is Some {
        let hits_2 = file_lines(suite_2[path])->0;
        lemma_swap_mirrors_difference(zero_lines(hits_2), hits_2);
    }
}

/// Compares two suites file by file.
///
/// Every file that carries hit counts in at least one suite is compared,
/// unless the other suite has its path without hit counts to offer.
/// Directories are never compared.
pub fn get_differences(suite_1_data: &CoverageMap, suite_2_data: &CoverageMap) -> (comparison:
    SuiteComparison)
    requires
        suite_1_data.wf(),
        suite_2_data.wf(),
    ensures
        comparison.differences.wf(),
        comparison.differences@ == expected_differences(suite_1_data@, suite_2_data@),
        strictly_ascending(path_views(comparison.length_mismatches@)),
        forall|path: Seq<char>|
            path_views(comparison.length_mismatches@).contains(path) <==> lengths_differ(
                suite_1_data@,
                suite_2_data@,
                path,
            ),
{
    let ghost suite_1 = suite_1_data@;
    let ghost suite_2 = suite_2_data@;
    let ghost paths_1 = suite_1_data.paths();
    let ghost paths_2 = suite_2_data.paths();
    let mut differences: PathMap<CoverageDifference> = PathMap::new();
    let mut length_mismatches: Vec<String> = Vec::new();
    let mut i: usize = 0;
    while i < suite_1_data.len()
        invariant
            suite_1_data.wf(),
            suite_2_data.wf(),
            suite_1 == suite_1_data@,
            suite_2 == suite_2_data@,
            paths_1 == suite_1_data.paths(),
            i <= paths_1.len(),
            differences.wf(),
            forall|path: Seq<char>|
                differences@.contains_key(path) <==> among_first(paths_1, i as int, path)
                    && expected_difference(suite_1, suite_2, path) is Some,
            forall|path: Seq<char>|
                differences@.contains_key(path) ==> Some(differences@[path])
                    == expected_difference(suite_1, suite_2, path),
            forall|k: int|
                0 <= k < length_mismatches@.len() ==> among_first(
                    paths_1,
                    i as int,
                    #[trigger] path_views(length_mismatches@)[k],
                ),
            strictly_ascending(path_views(length_mismatches@)),
            forall|path: Seq<char>|
                path_views(length_mismatches@).contains(path) <==> among_first(
                    paths_1,
                    i as int,
                    path,
                ) && lengths_differ(suite_1, suite_2, path),
        decreases paths_1.len() - i,
    {
        let path = suite_1_data.path_at(i);
        let node = suite_1_data.value_at(i);
        let ghost before = differences@;
        let ghost warned = path_views(length_mismatches@);
        let mut mismatch: bool = false;
        proof {
            suite_1_data.lemma_entry_at(i as int);
        }
        match node.file_lines() {
            Some(hits_1) => {
                match suite_2_data.get(path.as_str()) {
                    Some(other) => {
                        match other.file_lines() {
                            Some(hits_2) => {
                                let difference = coverage_difference(
                                    hits_1.as_slice(),
                                    hits_2.as_slice(),
                                );
                                differences.insert(path.clone(), difference);
                                mismatch = hits_1.len() != hits_2.len();
                            },
                            None => {},
                        }
                    },
                    None => {
                        let zeros = zero_coverage(hits_1.as_slice());
                        let difference = coverage_difference(hits_1.as_slice(), zeros.as_slice());
                        differences.insert(path.clone(), difference);
                    },
                }
            },
            None => {},
        }
        if mismatch {
            length_mismatches.push(path.clone());
        }
        proof {
            let now = path_views(length_mismatches@);
            assert(paths_1[i as int] == path@);
            assert(mismatch == lengths_differ(suite_1, suite_2, path@));
            assert forall|p: Seq<char>|
                among_first(paths_1, i + 1, p) <==> among_first(paths_1, i as int, p) || p
                    == path@ by {
                lemma_among_first_step(paths_1, i as int, p);
            }
            if among_first(paths_1, i as int, path@) {
                let j = choose|j: int| 0 <= j < i && #[trigger] paths_1[j] == path@;
                lemma_position_unique(paths_1, j, i as int);
            }
            assert(!before.contains_key(path@));
            if mismatch {
                assert(now =~= warned.push(path@));
                assert forall|a: int, b: int| 0 <= a < b < now.len() implies path_precedes(
                    #[trigger] now[a],
                    #[trigger] now[b],
                ) by {
                    if b == warned.len() {
                        assert(among_first(paths_1, i as int, warned[a]));
                        let j = choose|j: int| 0 <= j < i && #[trigger] paths_1[j] == warned[a];
                        assert(path_precedes(paths_1[j], paths_1[i as int]));
                    } else {
                        assert(path_precedes(warned[a], warned[b]));
                    }
                }
                assert forall|p: Seq<char>| now.contains(p) <==> warned.contains(p) || p
                    == path@ by {
                    if now.contains(p) {
                        let k = now.index_of(p);
                        if k < warned.len() {
                            assert(warned[k] == p);
                        }
                    }
                    if warned.contains(p) {
                        let k = warned.index_of(p);
                        assert(now[k] == p);
                    }
                    if p == path@ {
                        assert(now[warned.len() as int] == p);
                    }
                }
                assert forall|k: int| 0 <= k < now.len() implies among_first(
                    paths_1,
                    i + 1,
                    #[trigger] now[k],
                ) by {
                    if k < warned.len() {
                        assert(among_first(paths_1, i as int, warned[k]));
                    }
                }
            } else {
                assert(now =~= warned);
            }
            let expected = expected_difference(suite_1, suite_2, path@);
            assert(expected is Some ==> differences@ == before.insert(path@, expected->0));
            assert(expected is None ==> differences@ == before);
            assert forall|p: Seq<char>|
                differences@.contains_key(p) <==> among_first(paths_1, i + 1, p)
                    && expected_difference(suite_1, suite_2, p) is Some by {
                lemma_among_first_step(paths_1, i as int, p);
                if p != path@ {
                    assert(differences@.contains_key(p) == before.contains_key(p));
                    assert(before.contains_key(p) <==> among_first(paths_1, i as int, p)
                        && expected_difference(suite_1, suite_2, p) is Some);
                }
            }
        }
        i += 1;
    }
    proof {
        assert forall|path: Seq<char>| suite_1.contains_key(path) <==> among_first(
            paths_1,
            paths_1.len() as int,
            path,
        ) by {
            lemma_among_all(paths_1, path);
        }
    }
    let mut i: usize = 0;
    while i < suite_2_data.len()
        invariant
            suite_1_data.wf(),
            suite_2_data.wf(),
            suite_1 == suite_1_data@,
            suite_2 == suite_2_data@,
            paths_2 == suite_2_data.paths(),
            i <= paths_2.len(),
            differences.wf(),
            forall|path: Seq<char>|
                differences@.contains_key(path) <==> (suite_1.contains_key(path) || among_first(
                    paths_2,
                    i as int,
                    path,
                )) && expected_difference(suite_1, suite_2, path) is Some,
            forall|path: Seq<char>|
                differences@.contains_key(path) ==> Some(differences@[path])
                    == expected_difference(suite_1, suite_2, path),
        decreases paths_2.len() - i,
    {
        let path = suite_2_data.path_at(i);
        let node = suite_2_data.value_at(i);
        proof {
            suite_2_data.lemma_entry_at(i as int);
            assert forall|p: Seq<char>|
                among_first(paths_2, i + 1, p) <==> among_first(paths_2, i as int, p) || p
                    == path@ by {
                lemma_among_first_step(paths_2, i as int, p);
            }
        }
        if !suite_1_data.contains_key(path.as_str()) {
            match node.file_lines() {
                Some(hits_2) => {
                    let zeros = zero_coverage(hits_2.as_slice());
                    let difference = coverage_difference(zeros.as_slice(), hits_2.as_slice());
                    differences.insert(path.clone(), difference);
                },
                None => {},
            }
        }
        i += 1;
    }
    proof {
        assert forall|path: Seq<char>| suite_2.contains_key(path) implies among_first(
            paths_2,
            paths_2.len() as int,
            path,
        ) by {
            lemma_among_all(paths_2, path);
        }
        assert(differences@ =~= expected_differences(suite_1, suite_2));
    }
    SuiteComparison { differences, length_mismatches }
}

} // verus!

use coverage_diff::classify::CoverageType;
use coverage_diff::node::{CoverageNode, NodeType};
use coverage_diff::path_map::PathMap;
use coverage_diff::reconcile::{get_differences, CoverageMap, SuiteComparison};
use coverage_diff::walk::TreeWalk;

fn file(path: &str, coverage: Option<Vec<i64>>) -> CoverageNode {
    CoverageNode {
        path: path.to_string(),
        name: path.to_string(),
        node_type: NodeType::File,
        lines_covered: 0,
        lines_missed: 0,
        lines_total: 0,
        coverage,
        children: Vec::new(),
    }
}

fn directory(path: &str, coverage: Option<Vec<i64>>, children: &[&str]) -> CoverageNode {
    CoverageNode {
        path: path.to_string(),
        name: path.to_string(),
        node_type: NodeType::Directory,
        lines_covered: 0,
        lines_missed: 0,
        lines_total: 0,
        coverage,
        children: children.iter().map(|child| child.to_string()).collect(),
    }
}

fn suite(nodes: Vec<CoverageNode>) -> CoverageMap {
    let mut map: CoverageMap = PathMap::new();
    for node in nodes {
        map.insert(node.path.clone(), node);
    }
    map
}

fn paths_of(comparison: &SuiteComparison) -> Vec<String> {
    let mut paths = Vec::new();
    for i in 0..comparison.differences.len() {
        paths.push(comparison.differences.path_at(i).clone());
    }
    paths
}

#[test]
fn file_missing_from_the_second_suite_is_credited_to_the_first() {
    let suite_1 = suite(vec![file("a.js", Some(vec![1, 1]))]);
    let suite_2 = suite(vec![]);
    let comparison = get_differences(&suite_1, &suite_2);
    assert_eq!(paths_of(&comparison), vec!["a.js"]);
    let difference = comparison.differences.get("a.js").unwrap();
    assert_eq!(
        difference.line_differences().clone(),
        vec![CoverageType::Suite1Only, CoverageType::Suite1Only]
    );
    assert_eq!(difference.suite_1_only_count(), 2);
    assert_eq!(difference.suite_2_only_count(), 0);
    assert_eq!(difference.both_count(), 0);
    assert!(comparison.length_mismatches.is_empty());
}

#[test]
fn file_missing_from_the_first_suite_is_credited_to_the_second() {
    let suite_1 = suite(vec![]);
    let suite_2 = suite(vec![file("b.js", Some(vec![-1, 0, 4]))]);
    let comparison = get_differences(&suite_1, &suite_2);
    assert_eq!(paths_of(&comparison), vec!["b.js"]);
    let difference = comparison.differences.get("b.js").unwrap();
    assert_eq!(
        difference.line_differences().clone(),
        vec![CoverageType::NotRun, CoverageType::NotCovered, CoverageType::Suite2Only]
    );
    assert_eq!(difference.suite_1_only_count(), 0);
    assert_eq!(difference.suite_2_only_count(), 1);
    assert_eq!(difference.coverable_count(), 2);
}

#[test]
fn file_in_both_suites_is_compared_line_by_line() {
    let suite_1 = suite(vec![file("a.js", Some(vec![-1, 0, 3, 0, 5]))]);
    let suite_2 = suite(vec![file("a.js", Some(vec![-1, 0, 0, 2, 5]))]);
    let comparison = get_differences(&suite_1, &suite_2);
    let difference = comparison.differences.get("a.js").unwrap();
    assert_eq!(
        difference.line_differences().clone(),
        vec![
            CoverageType::NotRun,
            CoverageType::NotCovered,
            CoverageType::Suite1Only,
            CoverageType::Suite2Only,
            CoverageType::Both,
        ]
    );
    assert_eq!(difference.covered_count(), 3);
    assert!(comparison.length_mismatches.is_empty());
}

#[test]
fn mismatched_lengths_are_reported_and_truncated() {
    let suite_1 = suite(vec![
        file("long.js", Some(vec![1, 1, 1])),
        file("same.js", Some(vec![1])),
        file("short.js", Some(vec![1, 0, 0, 0])),
    ]);
    let suite_2 = suite(vec![
        file("long.js", Some(vec![1, 0, 0, 0, 7])),
        file("same.js", Some(vec![0])),
        file("short.js", Some(vec![1])),
    ]);
    let comparison = get_differences(&suite_1, &suite_2);
    assert_eq!(comparison.length_mismatches, vec!["long.js", "short.js"]);
    let long = comparison.differences.get("long.js").unwrap();
    assert_eq!(long.line_count(), 3);
    assert_eq!(
        long.line_differences().clone(),
        vec![CoverageType::Both, CoverageType::Suite1Only, CoverageType::Suite1Only]
    );
    assert_eq!(comparison.differences.get("short.js").unwrap().line_count(), 1);
    assert_eq!(comparison.differences.get("same.js").unwrap().line_count(), 1);
}

#[test]
fn directories_never_get_a_difference() {
    let suite_1 = suite(vec![
        directory("dom", None, &["dom/a.js"]),
        directory("full", Some(vec![1, 2, 3]), &[]),
        directory("both", Some(vec![1]), &[]),
        file("mixed", Some(vec![1])),
    ]);
    let suite_2 = suite(vec![
        directory("layout", Some(vec![4, 4]), &[]),
        directory("both", Some(vec![1]), &[]),
        directory("mixed", Some(vec![1]), &[]),
        directory("dom", None, &[]),
    ]);
    let comparison = get_differences(&suite_1, &suite_2);
    assert_eq!(comparison.differences.len(), 0);
    assert!(comparison.length_mismatches.is_empty());
    for path in ["dom", "full", "both", "mixed", "layout"] {
        assert!(!comparison.differences.contains_key(path));
    }
}

#[test]
fn path_without_hit_counts_on_one_side_is_skipped() {
    let suite_1 = suite(vec![file("a.js", Some(vec![1])), file("b.js", None), file("c.js", None)]);
    let suite_2 = suite(vec![file("a.js", None), file("b.js", Some(vec![1])), file("d.js", None)]);
    let comparison = get_differences(&suite_1, &suite_2);
    assert_eq!(comparison.differences.len(), 0);
}

#[test]
fn differences_come_out_in_ascending_order_of_path() {
    let suite_1 = suite(vec![
        file("m.js", Some(vec![1])),
        file("b.js", Some(vec![1])),
        directory("dir", None, &[]),
        file("y.js", Some(vec![0])),
    ]);
    let suite_2 = suite(vec![
        file("z.js", Some(vec![1])),
        file("a.js", Some(vec![1])),
        file("m.js", Some(vec![1])),
        file("n.js", Some(vec![1])),
    ]);
    let comparison = get_differences(&suite_1, &suite_2);
    assert_eq!(paths_of(&comparison), vec!["a.js", "b.js", "m.js", "n.js", "y.js", "z.js"]);
    assert_eq!(comparison.differences.get("a.js").unwrap().suite_2_only_count(), 1);
    assert_eq!(comparison.differences.get("b.js").unwrap().suite_1_only_count(), 1);
    assert_eq!(comparison.differences.get("m.js").unwrap().both_count(), 1);
    assert_eq!(comparison.differences.get("y.js").unwrap().not_covered_count(), 1);
}

#[test]
fn trading_the_suites_mirrors_every_difference() {
    let first = vec![
        file("both.js", Some(vec![-1, 0, 3, 0, 5])),
        file("only1.js", Some(vec![2, 0, -1])),
        file("uneven.js", Some(vec![1, 1])),
        directory("dir", Some(vec![1]), &[]),
        file("bare.js", None),
    ];
    let second = vec![
        file("both.js", Some(vec![-1, 0, 0, 2, 5])),
        file("only2.js", Some(vec![0, 7])),
        file("uneven.js", Some(vec![0])),
        file("dir", Some(vec![1])),
        file("bare.js", Some(vec![1])),
    ];
    let forward = get_differences(&suite(clone_nodes(&first)), &suite(clone_nodes(&second)));
    let backward = get_differences(&suite(second), &suite(first));
    assert_eq!(paths_of(&forward), vec!["both.js", "only1.js", "only2.js", "uneven.js"]);
    assert_eq!(paths_of(&forward), paths_of(&backward));
    assert_eq!(forward.length_mismatches, vec!["uneven.js"]);
    assert_eq!(backward.length_mismatches, vec!["uneven.js"]);
    for i in 0..forward.differences.len() {
        let a = forward.differences.value_at(i);
        let b = backward.differences.value_at(i);
        assert_eq!(a.line_count(), b.line_count());
        assert_eq!(a.coverable_count(), b.coverable_count());
        assert_eq!(a.covered_count(), b.covered_count());
        assert_eq!(a.both_count(), b.both_count());
        assert_eq!(a.suite_1_only_count(), b.suite_2_only_count());
        assert_eq!(a.suite_2_only_count(), b.suite_1_only_count());
    }
    assert_eq!(forward.differences.get("only1.js").unwrap().suite_1_only_count(), 1);
    assert_eq!(backward.differences.get("only1.js").unwrap().suite_2_only_count(), 1);
}

fn clone_nodes(nodes: &[CoverageNode]) -> Vec<CoverageNode> {
    nodes
        .iter()
        .map(|node| CoverageNode {
            path: node.path.clone(),
            name: node.name.clone(),
            node_type: node.node_type,
            lines_covered: node.lines_covered,
            lines_missed: node.lines_missed,
            lines_total: node.lines_total,
            coverage: node.coverage.clone(),
            children: node.children.clone(),
        })
        .collect()
}

#[test]
fn walk_starts_with_the_last_root() {
    let roots = vec!["dom".to_string(), "layout".to_string()];
    let mut walk = TreeWalk::new(&roots);
    assert!(!walk.is_finished());
    assert_eq!(walk.next_path(), Some("layout".to_string()));
    assert_eq!(walk.next_path(), Some("dom".to_string()));
    assert_eq!(walk.next_path(), None);
    assert!(walk.is_finished());
    assert_eq!(walk.finish().len(), 0);
}

#[test]
fn walk_without_roots_is_finished_at_once() {
    let mut walk = TreeWalk::new(&[]);
    assert!(walk.is_finished());
    assert_eq!(walk.next_path(), None);
    assert_eq!(walk.finish().len(), 0);
}

#[test]
fn walk_visits_the_children_of_a_directory() {
    let roots = vec!["dom".to_string()];
    let mut walk = TreeWalk::new(&roots);
    let mut order = Vec::new();
    while let Some(path) = walk.next_path() {
        order.push(path.clone());
        let node = match path.as_str() {
            "dom" => directory("dom", None, &["dom/a.js", "dom/sub", "dom/b.js"]),
            "dom/sub" => directory("dom/sub", None, &["dom/sub/c.js"]),
            other => file(other, Some(vec![1, 0])),
        };
        walk.record(path, node);
    }
    assert_eq!(order, vec!["dom", "dom/b.js", "dom/sub", "dom/sub/c.js", "dom/a.js"]);
    let map = walk.finish();
    assert_eq!(map.len(), 5);
    let mut paths = Vec::new();
    for i in 0..map.len() {
        paths.push(map.path_at(i).clone());
    }
    assert_eq!(paths, vec!["dom", "dom/a.js", "dom/b.js", "dom/sub", "dom/sub/c.js"]);
    assert_eq!(map.get("dom").unwrap().node_type, NodeType::Directory);
    assert_eq!(map.get("dom/sub/c.js").unwrap().coverage, Some(vec![1, 0]));
}

#[test]
fn walk_keeps_a_record_under_the_path_that_was_asked_for() {
    let roots = vec!["asked".to_string()];
    let mut walk = TreeWalk::new(&roots);
    let path = walk.next_path().unwrap();
    walk.record(path, file("answered", Some(vec![3])));
    let map = walk.finish();
    assert!(map.contains_key("asked"));
    assert!(!map.contains_key("answered"));
    assert_eq!(map.get("asked").unwrap().path, "answered");
}

#[test]
fn walk_replaces_the_record_of_a_path_fetched_twice() {
    let roots = vec!["a".to_string(), "a".to_string()];
    let mut walk = TreeWalk::new(&roots);
    let first = walk.next_path().unwrap();
    walk.record(first, file("a", Some(vec![1])));
    let second = walk.next_path().unwrap();
    walk.record(second, file("a", Some(vec![2, 2])));
    assert!(walk.is_finished());
    let map = walk.finish();
    assert_eq!(map.len(), 1);
    assert_eq!(map.get("a").unwrap().coverage, Some(vec![2, 2]));
}

#[test]
fn walked_suites_are_compared() {
    let roots = vec!["dom".to_string()];
    let mut walk_1 = TreeWalk::new(&roots);
    while let Some(path) = walk_1.next_path() {
        let node = if path == "dom" {
            directory("dom", None, &["dom/a.js"])
        } else {
            file(&path, Some(vec![1, 0]))
        };
        walk_1.record(path, node);
    }
    let mut walk_2 = TreeWalk::new(&roots);
    while let Some(path) = walk_2.next_path() {
        let node = if path == "dom" {
            directory("dom", None, &["dom/a.js", "dom/b.js"])
        } else {
            file(&path, Some(vec![0, 2]))
        };
        walk_2.record(path, node);
    }
    let comparison = get_differences(&walk_1.finish(), &walk_2.finish());
    assert_eq!(paths_of(&comparison), vec!["dom/a.js", "dom/b.js"]);
    let a = comparison.differences.get("dom/a.js").unwrap();
    assert_eq!(
        a.line_differences().clone(),
        vec![CoverageType::Suite1Only, CoverageType::Suite2Only]
    );
    let b = comparison.differences.get("dom/b.js").unwrap();
    assert_eq!(
        b.line_differences().clone(),
        vec![CoverageType::NotCovered, CoverageType::Suite2Only]
    );
}

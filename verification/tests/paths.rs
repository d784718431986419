use coverage_diff::difference::{coverage_difference, CoverageDifference};
use coverage_diff::path_map::PathMap;
use coverage_diff::path_order::{compare_paths, PathOrder};

fn one_line(hits: i64) -> CoverageDifference {
    coverage_difference(&[hits], &[0])
}

fn paths_of(map: &PathMap<CoverageDifference>) -> Vec<String> {
    let mut paths = Vec::new();
    for i in 0..map.len() {
        paths.push(map.path_at(i).clone());
    }
    paths
}

#[test]
fn paths_compare_byte_by_byte() {
    assert_eq!(compare_paths("a", "b"), PathOrder::Before);
    assert_eq!(compare_paths("b", "a"), PathOrder::After);
    assert_eq!(compare_paths("dom/base", "dom/base"), PathOrder::Same);
    assert_eq!(compare_paths("", ""), PathOrder::Same);
    assert_eq!(compare_paths("", "a"), PathOrder::Before);
    assert_eq!(compare_paths("a", ""), PathOrder::After);
    assert_eq!(compare_paths("dom", "dom/base"), PathOrder::Before);
    assert_eq!(compare_paths("dom/base", "dom"), PathOrder::After);
    assert_eq!(compare_paths("Z", "a"), PathOrder::Before);
    assert_eq!(compare_paths("a-b", "a/b"), PathOrder::Before);
}

#[test]
fn paths_compare_as_strings_do() {
    let samples = ["", "a", "ab", "b", "é", "z", "日本", "a/b", "a-b", "A", "\u{10348}", "\u{ff}"];
    for left in samples.iter() {
        for right in samples.iter() {
            let expected = if left < right {
                PathOrder::Before
            } else if left > right {
                PathOrder::After
            } else {
                PathOrder::Same
            };
            assert_eq!(compare_paths(left, right), expected);
        }
    }
}

#[test]
fn new_map_is_empty() {
    let map: PathMap<CoverageDifference> = PathMap::new();
    assert_eq!(map.len(), 0);
    assert!(!map.contains_key("a"));
    assert!(map.get("a").is_none());
}

#[test]
fn map_keeps_its_paths_in_ascending_order() {
    let mut map: PathMap<CoverageDifference> = PathMap::new();
    for path in ["m", "c", "x", "a", "q", "b/1", "b"] {
        assert!(map.insert(path.to_string(), one_line(1)).is_none());
    }
    assert_eq!(map.len(), 7);
    assert_eq!(paths_of(&map), vec!["a", "b", "b/1", "c", "m", "q", "x"]);
    for path in ["m", "c", "x", "a", "q", "b/1", "b"] {
        assert!(map.contains_key(path));
    }
    assert!(!map.contains_key("d"));
    assert!(!map.contains_key(""));
}

#[test]
fn map_finds_the_value_of_each_path() {
    let mut map: PathMap<CoverageDifference> = PathMap::new();
    map.insert("covered".to_string(), one_line(5));
    map.insert("bare".to_string(), one_line(0));
    assert_eq!(map.get("covered").unwrap().suite_1_only_count(), 1);
    assert_eq!(map.get("bare").unwrap().suite_1_only_count(), 0);
    assert_eq!(map.path_at(0), "bare");
    assert_eq!(map.value_at(0).suite_1_only_count(), 0);
    assert_eq!(map.path_at(1), "covered");
    assert_eq!(map.value_at(1).suite_1_only_count(), 1);
}

#[test]
fn inserting_a_path_again_replaces_its_value() {
    let mut map: PathMap<CoverageDifference> = PathMap::new();
    map.insert("a".to_string(), one_line(0));
    map.insert("b".to_string(), one_line(0));
    let previous = map.insert("a".to_string(), one_line(9));
    assert_eq!(previous.unwrap().suite_1_only_count(), 0);
    assert_eq!(map.len(), 2);
    assert_eq!(map.get("a").unwrap().suite_1_only_count(), 1);
    assert_eq!(map.get("b").unwrap().suite_1_only_count(), 0);
    assert_eq!(paths_of(&map), vec!["a", "b"]);
}

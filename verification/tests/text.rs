use coverage_diff::node::NodeType;
use coverage_diff::report::report_header;
use coverage_diff::roots::parse_base_paths;
use coverage_diff::store::{
    cache_directory, cache_file_name, latest_changeset_url, node_url, BASE_URL,
};
use coverage_diff::text::{chars_of, string_of};

#[test]
fn text_is_taken_apart_into_its_characters() {
    assert_eq!(chars_of("a/é日"), vec!['a', '/', 'é', '日']);
    assert_eq!(chars_of(""), Vec::<char>::new());
}

#[test]
fn characters_are_put_together_again() {
    let chars = vec!['d', 'o', 'm', '/', 'é'];
    assert_eq!(string_of(&chars, 0, 5), "dom/é");
    assert_eq!(string_of(&chars, 1, 3), "om");
    assert_eq!(string_of(&chars, 4, 5), "é");
    assert_eq!(string_of(&chars, 2, 2), "");
}

#[test]
fn cache_file_name_turns_slashes_into_dashes() {
    assert_eq!(cache_file_name("dom/base/nsDocument.cpp"), "dom-base-nsDocument.cpp.json");
    assert_eq!(cache_file_name("dom"), "dom.json");
    assert_eq!(cache_file_name(""), ".json");
    assert_eq!(cache_file_name("/"), "-.json");
    assert_eq!(cache_file_name("a//b/"), "a--b-.json");
    assert_eq!(cache_file_name("a-b/é"), "a-b-é.json");
}

#[test]
fn cache_directory_is_named_after_the_changeset() {
    assert_eq!(cache_directory("abc123"), "data/abc123");
    assert_eq!(cache_directory(""), "data/");
}

#[test]
fn node_url_holds_path_suite_and_changeset() {
    assert_eq!(
        node_url("https://example.test/v2", "dom/base", "mochitest", "abc123"),
        "https://example.test/v2/path?path=dom/base&suite=mochitest&changeset=abc123"
    );
    assert_eq!(node_url("", "", "", ""), "/path?path=&suite=&changeset=");
    assert_eq!(
        node_url(BASE_URL, "a b", "s&t", "c"),
        "https://api.coverage.testing.moz.tools/v2/path?path=a b&suite=s&t&changeset=c"
    );
}

#[test]
fn latest_changeset_url_asks_for_the_root() {
    assert_eq!(
        latest_changeset_url(BASE_URL),
        "https://api.coverage.testing.moz.tools/v2/path?path="
    );
    assert_eq!(latest_changeset_url("http://localhost"), "http://localhost/path?path=");
}

#[test]
fn base_paths_are_cut_at_commas_and_trimmed() {
    assert_eq!(parse_base_paths("dom,layout"), vec!["dom", "layout"]);
    assert_eq!(parse_base_paths(" dom , layout/base ,js"), vec!["dom", "layout/base", "js"]);
    assert_eq!(parse_base_paths("dom"), vec!["dom"]);
    assert_eq!(parse_base_paths("\tdom\n,\u{a0}layout\u{3000}"), vec!["dom", "layout"]);
}

#[test]
fn base_paths_keep_empty_pieces() {
    assert_eq!(parse_base_paths(""), vec![""]);
    assert_eq!(parse_base_paths(","), vec!["", ""]);
    assert_eq!(parse_base_paths("a,,b"), vec!["a", "", "b"]);
    assert_eq!(parse_base_paths("a,"), vec!["a", ""]);
    assert_eq!(parse_base_paths("  ,  "), vec!["", ""]);
}

#[test]
fn base_paths_keep_the_white_space_inside_a_path() {
    assert_eq!(parse_base_paths("  my dir / file  ,x"), vec!["my dir / file", "x"]);
}

#[test]
fn base_paths_agree_with_split_and_trim() {
    let samples = ["", "a", " a ,b", ",a,", "a , ,b", "é, 日本 ,\t", "  ", " a b , c d "];
    for sample in samples.iter() {
        let expected: Vec<String> = sample.split(',').map(|piece| piece.trim().to_string()).collect();
        assert_eq!(parse_base_paths(sample), expected);
    }
}

#[test]
fn report_header_names_the_ten_columns() {
    assert_eq!(
        report_header("wpt", "mochitest"),
        "path, wpt only, mochitest only, both, total covered, total coverable, total lines, wpt-only percent, mochitest-only percent, coverage percent"
    );
    assert_eq!(
        report_header("", ""),
        "path,  only,  only, both, total covered, total coverable, total lines, -only percent, -only percent, coverage percent"
    );
}

#[test]
fn node_type_is_read_from_its_name() {
    assert_eq!(NodeType::from_name("directory"), NodeType::Directory);
    assert_eq!(NodeType::from_name("file"), NodeType::File);
    assert_eq!(NodeType::from_name(""), NodeType::File);
    assert_eq!(NodeType::from_name("Directory"), NodeType::File);
    assert_eq!(NodeType::from_name("directory "), NodeType::File);
}

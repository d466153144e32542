use filebrowser::anchor_directory;
use filebrowser::collect_entries;
use filebrowser::filter_matching;
use filebrowser::starts_with_incomplete;

fn bytes(s: &str) -> Vec<u8> {
    s.as_bytes().to_vec()
}

#[test]
fn exact_prefix_matches() {
    assert!(starts_with_incomplete(&bytes("/tmp/demo/a.txt"), &bytes("/tmp/demo/a")));
}

#[test]
fn mismatch_within_overlap_is_rejected() {
    assert!(!starts_with_incomplete(&bytes("/tmp/demo/b.txt"), &bytes("/tmp/demo/a")));
}

#[test]
fn shorter_candidate_still_matches() {
    // The comparison truncates at the shorter sequence: a candidate
    // shorter than the query is accepted when the overlap agrees.
    assert!(starts_with_incomplete(&bytes("/tmp/d"), &bytes("/tmp/demo/a")));
}

#[test]
fn empty_query_matches_anything() {
    assert!(starts_with_incomplete(&bytes("/tmp/demo/a.txt"), &bytes("")));
    assert!(starts_with_incomplete(&bytes(""), &bytes("")));
}

#[test]
fn empty_candidate_matches_any_query() {
    assert!(starts_with_incomplete(&bytes(""), &bytes("/tmp/demo/a")));
}

#[test]
fn autocomplete_scenario_filters_by_prefix() {
    let children = vec![
        bytes("/tmp/demo/a.txt"),
        bytes("/tmp/demo/ab.txt"),
        bytes("/tmp/demo/b.txt"),
    ];
    let got = filter_matching(&bytes("/tmp/demo/a"), &children);
    assert_eq!(got, vec![bytes("/tmp/demo/a.txt"), bytes("/tmp/demo/ab.txt")]);
}

#[test]
fn autocomplete_scenario_trailing_separator_keeps_all() {
    let children = vec![
        bytes("/tmp/demo/a.txt"),
        bytes("/tmp/demo/ab.txt"),
        bytes("/tmp/demo/b.txt"),
    ];
    let got = filter_matching(&bytes("/tmp/demo/"), &children);
    assert_eq!(got, children);
}

#[test]
fn filter_keeps_enumeration_order() {
    let children = vec![bytes("/x/ba"), bytes("/x/ab"), bytes("/x/aa")];
    let got = filter_matching(&bytes("/x/a"), &children);
    assert_eq!(got, vec![bytes("/x/ab"), bytes("/x/aa")]);
}

#[test]
fn filter_on_empty_listing_is_empty() {
    let children: Vec<Vec<u8>> = Vec::new();
    let got = filter_matching(&bytes("/tmp/demo/does-not-exist"), &children);
    assert!(got.is_empty());
}

#[test]
fn filter_is_idempotent() {
    let children = vec![bytes("/tmp/demo/a.txt"), bytes("/tmp/demo/b.txt")];
    let first = filter_matching(&bytes("/tmp/demo/a"), &children);
    let second = filter_matching(&bytes("/tmp/demo/a"), &children);
    assert_eq!(first, second);
}

#[test]
fn anchor_is_input_for_directory_with_trailing_separator() {
    let got = anchor_directory(bytes("/tmp/demo/"), true, Some(bytes("/tmp")));
    assert_eq!(got, bytes("/tmp/demo/"));
}

#[test]
fn anchor_is_parent_without_trailing_separator() {
    let got = anchor_directory(bytes("/tmp/demo/a"), false, Some(bytes("/tmp/demo")));
    assert_eq!(got, bytes("/tmp/demo"));
}

#[test]
fn anchor_is_parent_for_directory_without_trailing_separator() {
    // An existing directory typed without a final separator is still
    // completed against its parent.
    let got = anchor_directory(bytes("/tmp/demo"), true, Some(bytes("/tmp")));
    assert_eq!(got, bytes("/tmp"));
}

#[test]
fn anchor_falls_back_to_root_without_parent() {
    let got = anchor_directory(bytes("x"), false, None);
    assert_eq!(got, bytes("/"));
}

#[test]
fn empty_input_anchors_at_root() {
    let got = anchor_directory(bytes(""), false, None);
    assert_eq!(got, bytes("/"));
}

#[test]
fn listing_keeps_readable_entries_in_order() {
    let entries = vec![Some(bytes("/tmp/demo/a.txt")), Some(bytes("/tmp/demo/b.txt"))];
    let got = collect_entries(&entries);
    assert_eq!(got, vec![bytes("/tmp/demo/a.txt"), bytes("/tmp/demo/b.txt")]);
}

#[test]
fn listing_skips_failed_entries() {
    let entries = vec![Some(bytes("/tmp/demo/a.txt")), None, Some(bytes("/tmp/demo/b.txt"))];
    let got = collect_entries(&entries);
    assert_eq!(got, vec![bytes("/tmp/demo/a.txt"), bytes("/tmp/demo/b.txt")]);
}

#[test]
fn listing_of_no_entries_is_empty() {
    let entries: Vec<Option<Vec<u8>>> = Vec::new();
    let got = collect_entries(&entries);
    assert!(got.is_empty());
}

#[test]
fn listing_is_idempotent() {
    let entries = vec![Some(bytes("/tmp/demo/a.txt")), None];
    let first = collect_entries(&entries);
    let second = collect_entries(&entries);
    assert_eq!(first, second);
}

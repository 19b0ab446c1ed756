use phosphor::fuzzy::filter_entries;
use phosphor::nav::FileEntry;

fn entries(names: &[&str]) -> Vec<FileEntry> {
    names
        .iter()
        .map(|n| FileEntry::new(n.to_string(), format!("/x/{}", n), false, 0))
        .collect()
}

#[test]
fn empty_query_keeps_everything_in_order() {
    let es = entries(&["b", "a", "c"]);
    assert_eq!(filter_entries(&es, ""), vec![0, 1, 2]);
}

#[test]
fn query_keeps_only_matches() {
    let es = entries(&["main.rs", "README.md", "lib.rs", "notes.txt"]);
    let r = filter_entries(&es, "rs");
    assert!(r.contains(&0));
    assert!(r.contains(&2));
    assert!(!r.contains(&3));
    assert!(!r.contains(&1));
}

#[test]
fn better_matches_come_first_and_ties_keep_order() {
    let es = entries(&["xaxbxc", "abc", "abc"]);
    let r = filter_entries(&es, "abc");
    assert_eq!(r, vec![1, 2, 0]);
}

#[test]
fn matching_ignores_case() {
    let es = entries(&["Makefile", "other"]);
    assert_eq!(filter_entries(&es, "MAKE"), vec![0]);
}

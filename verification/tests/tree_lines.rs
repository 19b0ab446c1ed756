use phosphor::tree::{build, render_line, truncate_with_ellipsis, RawEntry, TreeNode};

fn node(name: &str, depth: usize, is_dir: bool, is_last: bool, anc: Vec<bool>) -> TreeNode {
    TreeNode {
        name: name.to_string(),
        depth,
        is_dir,
        is_last,
        ancestors_last: anc,
    }
}

#[test]
fn root_has_no_prefix() {
    assert_eq!(render_line(&node("phosphor", 0, true, true, vec![]), 80), "phosphor/");
}

#[test]
fn first_level_uses_tee() {
    assert_eq!(
        render_line(&node("src", 1, true, false, vec![]), 80),
        "├── src/",
    );
}

#[test]
fn last_first_level_uses_corner() {
    assert_eq!(
        render_line(&node("README.md", 1, false, true, vec![]), 80),
        "└── README.md",
    );
}

#[test]
fn nested_under_non_last_carries_pipe() {
    assert_eq!(
        render_line(&node("app.rs", 2, false, false, vec![false]), 80),
        "│   ├── app.rs",
    );
}

#[test]
fn nested_under_last_carries_blank() {
    assert_eq!(
        render_line(&node("ui.rs", 2, false, true, vec![true]), 80),
        "    └── ui.rs",
    );
}

#[test]
fn long_lines_get_ellipsised() {
    let n = node("very_long_filename_that_overflows.rs", 1, false, true, vec![]);
    let rendered = render_line(&n, 12);
    assert_eq!(rendered.chars().count(), 12);
    assert!(rendered.ends_with('…'));
}

fn raw(name: &str, is_dir: bool, children: Vec<RawEntry>) -> RawEntry {
    RawEntry { name: name.to_string(), is_dir, children }
}

fn names(nodes: &[TreeNode]) -> Vec<String> {
    nodes.iter().map(|n| format!("{}{}", "  ".repeat(n.depth), n.name)).collect()
}

#[test]
fn tree_lists_directories_first_two_levels_deep() {
    let listing = vec![
        raw("b.txt", false, vec![]),
        raw(".hidden", false, vec![]),
        raw("Src", true, vec![raw("z.rs", false, vec![]), raw("deep", true, vec![raw("x", false, vec![])])]),
        raw("a.txt", false, vec![]),
    ];
    let t = build("/home/me/proj", &listing, true);
    assert_eq!(
        names(&t),
        vec!["proj", "  Src", "    deep", "    z.rs", "  .hidden", "  a.txt", "  b.txt"],
    );
    assert!(t[0].is_dir && t[0].is_last && t[0].depth == 0);
    assert!(!t[1].is_last);
    assert!(t[6].is_last);
    assert_eq!(t[2].ancestors_last, vec![false]);
    let hidden_off = build("/home/me/proj", &listing, false);
    assert_eq!(names(&hidden_off), vec!["proj", "  Src", "    deep", "    z.rs", "  a.txt", "  b.txt"]);
}

#[test]
fn tree_stops_at_two_hundred_nodes() {
    let many: Vec<RawEntry> = (0..500).map(|i| raw(&format!("f{:03}", i), false, vec![])).collect();
    let t = build("/", &many, true);
    assert_eq!(t.len(), 200);
    assert_eq!(t[0].name, "/");
}

#[test]
fn tree_reads_at_most_a_thousand_entries_per_directory() {
    let many: Vec<RawEntry> = (0..1500).map(|i| raw(&format!("d{:04}", i), true, vec![])).collect();
    let t = build("/r", &many, true);
    assert_eq!(t.len(), 200);
    // The first thousand entries read are sorted; later ones are never listed.
    assert_eq!(t[1].name, "d0000");
}

#[test]
fn ellipsis_always_ends_a_shortened_text() {
    assert_eq!(truncate_with_ellipsis("abc", 3), "ab…");
    assert_eq!(truncate_with_ellipsis("abcd", 3), "ab…");
    assert_eq!(truncate_with_ellipsis("ab", 5), "ab…");
    assert_eq!(truncate_with_ellipsis("abc", 1), "a");
    assert_eq!(truncate_with_ellipsis("abc", 0), "");
    assert_eq!(render_line(&node("x", 1, false, true, vec![]), 3), "└─…");
    assert_eq!(render_line(&node("x", 1, false, true, vec![]), 5), "└── x");
}

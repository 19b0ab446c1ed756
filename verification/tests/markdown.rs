use phosphor::md::{
    consume_until_char, consume_until_double_star, fence_glyph, is_markdown, render,
    strip_numbered_prefix, MdViewer, SpanStyle,
};

fn texts(line: &[phosphor::md::StyledSpan]) -> Vec<String> {
    line.iter().map(|s| s.text.clone()).collect()
}

#[test]
fn detects_md_extension() {
    assert!(is_markdown("foo.md"));
    assert!(is_markdown("foo.MD"));
    assert!(is_markdown("foo.markdown"));
    assert!(!is_markdown("foo.txt"));
    assert!(!is_markdown("foo"));
}

#[test]
fn parses_heading_as_bold() {
    let out = render("# Title");
    assert_eq!(out.len(), 1);
    let has_bold = out[0].iter().any(|s| s.style.is_bold());
    assert!(has_bold);
}

#[test]
fn parses_inline_code_as_styled_span() {
    let out = render("hello `code` world");
    let t = texts(&out[0]);
    assert!(t.iter().any(|t| t == "code"));
}

#[test]
fn parses_bullet_with_glyph() {
    let out = render("- item");
    let t = texts(&out[0]);
    assert!(t.iter().any(|t| t.contains('•')));
    assert!(t.iter().any(|t| t.contains("item")));
}

#[test]
fn numbered_list_keeps_prefix() {
    let out = render("1. first");
    let t = texts(&out[0]);
    assert!(t.iter().any(|t| t.contains("1.")));
    assert!(t.iter().any(|t| t.contains("first")));
}

#[test]
fn fenced_code_block_emits_marker_lines() {
    let out = render("```rust\nfn main() {}\n```");
    assert_eq!(out.len(), 3);
}

#[test]
fn unclosed_inline_code_is_kept_literal() {
    let out = render("hello `world");
    let combined: String = texts(&out[0]).join("");
    assert!(combined.contains("`world"));
}

#[test]
fn bold_marker_produces_bold_span() {
    let out = render("text **bold** end");
    let line = &out[0];
    let bold_span = line.iter().find(|s| s.style.is_bold());
    assert!(bold_span.is_some());
    assert_eq!(bold_span.unwrap().text, "bold");
}

#[test]
fn scroll_clamps_to_line_count() {
    let mut viewer = MdViewer {
        path: "/dev/null".to_string(),
        content: "a\nb\nc".to_string(),
        scroll: 0,
    };
    viewer.scroll_down(100);
    assert_eq!(viewer.scroll, 2);
    viewer.scroll_up(5);
    assert_eq!(viewer.scroll, 0);
    viewer.scroll_bottom();
    assert_eq!(viewer.scroll, 2);
    viewer.scroll_top();
    assert_eq!(viewer.scroll, 0);
}

#[test]
fn render_keeps_one_line_per_input_line() {
    for doc in ["", "a", "a\nb", "a\r\nb\r\n", "```\nx\n", "# h\n\n- i\n> q\n---\n1. n"] {
        assert_eq!(render(doc).len(), doc.lines().count(), "{:?}", doc);
    }
}

#[test]
fn render_styles_each_kind_of_line() {
    let out = render("## Sub\n  - nested\n> quote *it*\n***\n2) not a list\n```sh\necho\n```");
    assert_eq!(out[0].len(), 1);
    assert_eq!(out[0][0].text, "## Sub");
    assert_eq!(out[0][0].style, SpanStyle::Heading(2));
    assert_eq!(out[1][0].text, "  ");
    assert_eq!(out[1][0].style, SpanStyle::Raw);
    assert_eq!(out[1][1].text, "• ");
    assert_eq!(out[1][1].style, SpanStyle::Bullet);
    assert_eq!(out[2][0].text, "│ ");
    assert_eq!(out[2][0].style, SpanStyle::QuoteBar);
    assert!(matches!(out[2][2].style, SpanStyle::Emphasis(_)));
    assert_eq!(out[2][2].text, "it");
    assert_eq!(out[3][0].text, "─".repeat(40));
    assert_eq!(texts(&out[4]).join(""), "2) not a list");
    assert_eq!(out[5][0].text, "─── sh");
    assert_eq!(out[6][0].text, "echo");
    assert_eq!(out[6][0].style, SpanStyle::CodeBlock);
    assert_eq!(out[7][0].text, "─── code");
}

#[test]
fn seven_hashes_are_not_a_heading() {
    let out = render("####### x");
    assert!(!out[0].iter().any(|s| matches!(s.style, SpanStyle::Heading(_))));
    let out = render("#x");
    assert!(!out[0].iter().any(|s| matches!(s.style, SpanStyle::Heading(_))));
}

#[test]
fn unclosed_bold_and_italic_are_literal() {
    assert_eq!(texts(&render("a **b")[0]).join(""), "a **b");
    assert_eq!(texts(&render("a *b")[0]).join(""), "a *b");
}

#[test]
fn empty_document_counts_one_line() {
    let mut viewer = MdViewer { path: "x.md".to_string(), content: String::new(), scroll: 3 };
    assert_eq!(viewer.line_count(), 1);
    viewer.scroll_down(1);
    assert_eq!(viewer.scroll, 0);
}

#[test]
fn markdown_extensions_in_any_case() {
    assert!(is_markdown("/a/b/README.Markdown"));
    assert!(is_markdown("notes.mkd"));
    assert!(is_markdown("notes.MDOWN"));
    assert!(!is_markdown(".md"));
    assert!(!is_markdown("dir.md/file"));
}

fn chars(s: &str) -> Vec<char> {
    s.chars().collect()
}

#[test]
fn numbered_prefix_needs_digits_a_dot_and_a_space() {
    assert_eq!(strip_numbered_prefix(&chars("12. twelve")), Some(chars("twelve")));
    assert_eq!(strip_numbered_prefix(&chars("1.x")), None);
    assert_eq!(strip_numbered_prefix(&chars(". x")), None);
    assert_eq!(strip_numbered_prefix(&chars("1a. x")), None);
    assert_eq!(strip_numbered_prefix(&chars("no dot")), None);
    assert_eq!(strip_numbered_prefix(&chars("3. ")), Some(vec![]));
}

#[test]
fn fence_names_its_language() {
    assert_eq!(fence_glyph(&chars("")), "─── code");
    assert_eq!(fence_glyph(&chars("rust")), "─── rust");
}

#[test]
fn consuming_stops_after_the_marker() {
    let cs = chars("ab`cd");
    assert_eq!(consume_until_char(&cs, 0, '`'), (chars("ab"), true, 3));
    assert_eq!(consume_until_char(&cs, 3, '`'), (chars("cd"), false, 2));
    let cs = chars("x*y**z");
    assert_eq!(consume_until_double_star(&cs, 0), (chars("x*y"), true, 5));
    assert_eq!(consume_until_double_star(&cs, 5), (chars("z"), false, 1));
}

#[test]
fn plain_text_is_one_plain_span() {
    let out = render("just some words, no marks");
    assert_eq!(out[0].len(), 1);
    assert_eq!(out[0][0].text, "just some words, no marks");
    assert_eq!(out[0][0].style, SpanStyle::Plain(phosphor::md::Tone::Normal));
}

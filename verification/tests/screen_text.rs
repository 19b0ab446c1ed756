use phosphor::app::{App, Focus, Mode};
use phosphor::md::MdViewer;
use phosphor::nav::FileEntry;
use phosphor::ui::{
    column_header_text, editor_dir, footer_pieces, list_content, list_offset, list_row,
    metadata_pieces, panel_percentages, right_panel_size, viewer_title_pieces, ListContent, Role,
};

fn app() -> App {
    App {
        current_dir: "/w".to_string(),
        entries: vec![
            FileEntry::new("docs".to_string(), "/w/docs".to_string(), true, 0),
            FileEntry::new("a.txt".to_string(), "/w/a.txt".to_string(), false, 2048),
            FileEntry::new(".env".to_string(), "/w/.env".to_string(), false, 5),
        ],
        visible: vec![0, 1, 2],
        cursor: 1,
        mode: Mode::Normal,
        search_query: String::new(),
        show_hidden: true,
        status_message: None,
        should_quit: false,
        selected_path: None,
        open_in_editor: None,
        focus: Focus::Left,
        editor_alive: false,
        tree: Vec::new(),
        md_viewer: None,
        tree_pct: 25,
        right_pct: 40,
    }
}

fn joined(pieces: &[phosphor::ui::Piece]) -> String {
    pieces.iter().map(|p| p.text.as_str()).collect()
}

#[test]
fn right_panel_size_examples() {
    assert_eq!(right_panel_size(200, 50, 40), (79, 38));
    assert_eq!(right_panel_size(0, 5, 40), (0, 0));
    assert_eq!(right_panel_size(65535, 100, 75), (654, 88));
}

#[test]
fn panel_percentages_examples() {
    assert_eq!(panel_percentages(25, 40, true), vec![25, 35, 40]);
    assert_eq!(panel_percentages(25, 40, false), vec![25, 75]);
    assert_eq!(panel_percentages(50, 75, true), vec![50, 0, 75]);
}

#[test]
fn list_offset_keeps_cursor_on_screen() {
    assert_eq!(list_offset(0, 10), 0);
    assert_eq!(list_offset(9, 10), 0);
    assert_eq!(list_offset(10, 10), 1);
    assert_eq!(list_offset(25, 10), 16);
}

#[test]
fn column_header_pads_the_name_column() {
    assert_eq!(column_header_text(20), format!("  {:<11}  {}", "Name", "Size"));
    assert_eq!(column_header_text(5), "  Name  Size");
}

#[test]
fn list_rows_pad_and_cut_names() {
    let f = FileEntry::new("notes.txt".to_string(), "/n".to_string(), false, 100);
    let row = list_row(&f, false, false, 20).unwrap();
    assert_eq!(row.text, format!("  {:<12}  {}", "notes.txt", "100B"));
    assert_eq!(row.role, Role::Text);
    let row = list_row(&f, true, true, 12).unwrap();
    assert_eq!(row.text, "\u{2590} note  100B");
    assert_eq!(row.role, Role::Selected);
    let d = FileEntry::new("src".to_string(), "/src".to_string(), true, 4096);
    let row = list_row(&d, false, true, 10).unwrap();
    assert_eq!(row.text, "  src/    ");
    assert_eq!(row.role, Role::DirEntryDim);
    // A name cut inside a multi-byte character cannot be drawn.
    let w = FileEntry::new("ééé".to_string(), "/e".to_string(), false, 1);
    assert!(list_row(&w, false, false, 11).is_none());
    assert_eq!(list_row(&w, false, false, 10).unwrap().text, "  éé  1B");
    assert_eq!(list_row(&w, false, false, 12).unwrap().text, "  ééé     1B");
}

#[test]
fn list_content_windows_the_rows() {
    let a = app();
    match list_content(&a, 2, 20).unwrap() {
        ListContent::Rows(rows) => {
            assert_eq!(rows.len(), 2);
            assert!(rows[1].text.starts_with("\u{2590} a.txt"));
            assert_eq!(rows[0].role, Role::DirEntry);
            assert_eq!(rows[1].role, Role::Selected);
        }
        other => panic!("unexpected {:?}", other),
    }
    let mut b = app();
    b.cursor = 2;
    match list_content(&b, 2, 20).unwrap() {
        ListContent::Rows(rows) => {
            assert_eq!(rows.len(), 2);
            assert!(rows[0].text.starts_with("  a.txt"));
            assert_eq!(rows[0].role, Role::TextDim);
        }
        other => panic!("unexpected {:?}", other),
    }
    let mut c = app();
    c.visible.clear();
    c.cursor = 0;
    match list_content(&c, 2, 20).unwrap() {
        ListContent::Message(m) => assert_eq!(m.text, "  (no matches)"),
        other => panic!("unexpected {:?}", other),
    }
    c.entries.clear();
    match list_content(&c, 2, 20).unwrap() {
        ListContent::Message(m) => assert_eq!(m.text, "  (empty directory)"),
        other => panic!("unexpected {:?}", other),
    }
}

#[test]
fn footer_in_normal_mode_counts_entries() {
    let a = app();
    let f = footer_pieces(&a);
    assert_eq!(
        joined(&f),
        "  </>search <.>hidden <A-h/l>resize <C-Space>focus <q>quit  \u{2502} 1 dirs, 2 files [H]"
    );
    assert_eq!(f[1].role, Role::KeyHint);
    let mut b = app();
    b.search_query = "x".to_string();
    b.md_viewer = Some(MdViewer { path: "/w/r.md".to_string(), content: String::new(), scroll: 0 });
    b.focus = Focus::Right;
    b.show_hidden = false;
    let f = footer_pieces(&b);
    assert_eq!(
        joined(&f),
        "  </>search <.>hidden <A-h/l>resize <C-Space>focus <e>edit <q>quit  \u{2502} 1 dirs, 2 files [view]  filter: \"x\""
    );
}

#[test]
fn footer_while_searching_or_failing() {
    let mut a = app();
    a.mode = Mode::Search;
    a.search_query = "ab".to_string();
    let f = footer_pieces(&a);
    assert_eq!(f.len(), 2);
    assert_eq!(f[0].text, "  /ab\u{2588}");
    assert_eq!(f[0].role, Role::SearchInput);
    assert_eq!(f[1].text, "  3 matches");
    let mut b = app();
    b.status_message = Some("Cannot read /w: denied".to_string());
    let f = footer_pieces(&b);
    assert_eq!(f.len(), 1);
    assert_eq!(f[0].text, "  \u{26a0} Cannot read /w: denied");
    assert_eq!(f[0].role, Role::Error);
    let mut c = app();
    c.editor_alive = true;
    assert!(joined(&footer_pieces(&c)).ends_with(" [H] [browse]"));
}

#[test]
fn metadata_line_lists_the_facts() {
    let a = app();
    let f = metadata_pieces(a.selected_entry(), Some((0o644, Some(Some(120)))));
    assert_eq!(
        joined(&f),
        "  a.txt  \u{00b7}  2.0K  \u{00b7}  rw-r--r--  \u{00b7}  2m ago  \u{00b7}  text"
    );
    assert_eq!(f.last().unwrap().role, Role::KeyHint);
    let d = &a.entries[0];
    let f = metadata_pieces(Some(d), None);
    assert_eq!(joined(&f), "  docs/  \u{00b7}  directory");
    let f = metadata_pieces(Some(d), Some((0o755, None)));
    assert_eq!(joined(&f), "  docs/  \u{00b7}  rwxr-xr-x  \u{00b7}  directory");
    let x = FileEntry::new("a.xyz".to_string(), "/w/a.xyz".to_string(), false, 1);
    assert!(joined(&metadata_pieces(Some(&x), None)).ends_with("  \u{00b7}  xyz"));
    let f = metadata_pieces(None, None);
    assert_eq!(joined(&f), "  (nothing selected)");
}

#[test]
fn viewer_title_names_the_file() {
    let t = viewer_title_pieces("/w/docs/README.md");
    assert_eq!(joined(&t), " \u{2592} README.md  read-only \u{2014} press <e> to edit ");
    assert_eq!(t[1].role, Role::Title);
    assert_eq!(viewer_title_pieces("/")[1].text, "/");
}

#[test]
fn editor_starts_in_the_file_directory() {
    assert_eq!(editor_dir("/w/a.txt").as_deref(), Some("/w"));
    assert_eq!(editor_dir("a.txt"), None);
    assert_eq!(editor_dir("/"), None);
}

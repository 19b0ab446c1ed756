use phosphor::app::{
    display_path_with_home, App, Effect, Focus, Mode, LIST_PCT_MIN, RIGHT_PCT_MAX, TREE_PCT_MIN,
};
use phosphor::input::Action;
use phosphor::md::MdViewer;
use phosphor::nav::FileEntry;
use phosphor::tree::RawEntry;

fn app() -> App {
    App {
        current_dir: "/".to_string(),
        entries: Vec::new(),
        visible: Vec::new(),
        cursor: 0,
        mode: Mode::Normal,
        search_query: String::new(),
        show_hidden: true,
        status_message: None,
        should_quit: false,
        selected_path: None,
        open_in_editor: None,
        focus: Focus::Left,
        editor_alive: false,
        tree: Vec::new(),
        md_viewer: None,
        tree_pct: 25,
        right_pct: 40,
    }
}

#[test]
fn resize_left_focus_grows_tree() {
    let mut a = app();
    a.update(Action::ResizeGrow);
    assert_eq!(a.tree_pct, 30);
}

#[test]
fn resize_left_focus_shrinks_tree_to_minimum() {
    let mut a = app();
    for _ in 0..20 {
        a.update(Action::ResizeShrink);
    }
    assert_eq!(a.tree_pct, TREE_PCT_MIN);
}

#[test]
fn resize_right_focus_requires_active_right_panel() {
    let mut a = app();
    a.focus = Focus::Right;
    a.update(Action::ResizeGrow);
    assert_eq!(a.right_pct, 40, "no right panel, right_pct must not change");
}

#[test]
fn resize_right_focus_grows_right_when_active() {
    let mut a = app();
    a.editor_alive = true;
    a.focus = Focus::Right;
    a.update(Action::ResizeGrow);
    assert_eq!(a.right_pct, 45);
}

#[test]
fn resize_right_panel_caps_to_keep_list_visible() {
    let mut a = app();
    a.editor_alive = true;
    a.focus = Focus::Right;
    for _ in 0..20 {
        a.update(Action::ResizeGrow);
    }
    assert!(a.right_pct <= RIGHT_PCT_MAX);
    assert!(100 - a.tree_pct - a.right_pct >= LIST_PCT_MIN);
}

fn file(name: &str, is_dir: bool) -> FileEntry {
    FileEntry::new(name.to_string(), format!("/w/{}", name), is_dir, 10)
}

fn listing() -> Vec<FileEntry> {
    vec![file("docs", true), file(".env", false), file("README.md", false), file("main.rs", false)]
}

fn raw(name: &str, is_dir: bool) -> RawEntry {
    RawEntry { name: name.to_string(), is_dir, children: Vec::new() }
}

fn loaded() -> App {
    let tree = vec![raw("docs", true), raw(".env", false), raw("README.md", false), raw("main.rs", false)];
    App::new("/w".to_string(), Ok(listing()), &tree)
}

#[test]
fn new_app_loads_its_directory() {
    let a = loaded();
    assert_eq!(a.entries.len(), 4);
    assert_eq!(a.visible, vec![0, 1, 2, 3]);
    assert_eq!(a.cursor, 0);
    assert_eq!(a.tree.len(), 5);
    assert_eq!(a.tree[0].name, "w");
    assert!(a.status_message.is_none());
    assert_eq!(a.dir_count(), 1);
    assert_eq!(a.file_count(), 3);
    assert_eq!(a.selected_entry().unwrap().name, "docs");
}

#[test]
fn unreadable_directory_shows_its_error() {
    let a = App::new("/nope".to_string(), Err("Cannot read /nope: denied".to_string()), &Vec::new());
    assert!(a.entries.is_empty());
    assert!(a.visible.is_empty());
    assert_eq!(a.status_message.as_deref(), Some("Cannot read /nope: denied"));
    assert!(a.selected_entry().is_none());
}

#[test]
fn cursor_moves_within_the_list() {
    let mut a = loaded();
    a.update(Action::MoveUp);
    assert_eq!(a.cursor, 0);
    a.update(Action::GoBottom);
    assert_eq!(a.cursor, 3);
    a.update(Action::MoveDown);
    assert_eq!(a.cursor, 3);
    a.update(Action::MoveUp);
    assert_eq!(a.cursor, 2);
    a.update(Action::GoTop);
    assert_eq!(a.cursor, 0);
}

#[test]
fn toggling_hidden_filters_dot_files_and_clamps_cursor() {
    let mut a = loaded();
    a.update(Action::GoBottom);
    let e = a.update(Action::ToggleHidden);
    assert!(matches!(e, Effect::ReadTree));
    assert!(!a.show_hidden);
    assert_eq!(a.visible, vec![0, 2, 3]);
    assert_eq!(a.cursor, 2);
    a.update(Action::ToggleHidden);
    assert_eq!(a.visible, vec![0, 1, 2, 3]);
    assert_eq!(a.cursor, 2);
}

#[test]
fn search_filters_and_cancel_restores() {
    let mut a = loaded();
    a.update(Action::EnterSearch);
    assert_eq!(a.mode, Mode::Search);
    a.update(Action::SearchInput('m'));
    a.update(Action::SearchInput('a'));
    a.update(Action::SearchInput('i'));
    assert_eq!(a.search_query, "mai");
    assert_eq!(a.visible, vec![3]);
    a.update(Action::SearchBackspace);
    assert_eq!(a.search_query, "ma");
    a.update(Action::SearchConfirm);
    assert_eq!(a.mode, Mode::Normal);
    assert_eq!(a.search_query, "ma");
    a.update(Action::SearchCancel);
    assert_eq!(a.search_query, "");
    assert_eq!(a.visible, vec![0, 1, 2, 3]);
    assert_eq!(a.cursor, 0);
}

#[test]
fn typing_then_erasing_gives_back_the_listing() {
    let mut a = loaded();
    let before = a.visible.clone();
    a.update(Action::SearchInput('z'));
    a.update(Action::SearchBackspace);
    assert_eq!(a.visible, before);
    assert_eq!(a.search_query, "");
}

#[test]
fn opening_a_directory_asks_for_its_listing() {
    let mut a = loaded();
    a.search_query = "d".to_string();
    a.mode = Mode::Search;
    let e = a.update(Action::Open);
    assert!(matches!(e, Effect::ReadDirectory));
    assert_eq!(a.current_dir, "/w/docs");
    assert_eq!(a.search_query, "");
    assert_eq!(a.mode, Mode::Normal);
    a.load_directory(Ok(vec![file("x", false)]), &vec![raw("x", false)]);
    assert_eq!(a.visible, vec![0]);
    assert_eq!(a.tree.len(), 2);
}

#[test]
fn selecting_a_directory_records_it_and_quits() {
    let mut a = loaded();
    let e = a.update(Action::Select);
    assert!(matches!(e, Effect::Nothing));
    assert!(a.should_quit);
    assert_eq!(a.selected_path.as_deref(), Some("/w/docs"));
}

#[test]
fn opening_files_goes_to_viewer_or_editor() {
    let mut a = loaded();
    a.cursor = 2;
    match a.update(Action::Open) {
        Effect::ReadMarkdown(p) => assert_eq!(p, "/w/README.md"),
        other => panic!("unexpected {:?}", other),
    }
    assert!(a.open_in_editor.is_none());
    a.show_markdown("/w/README.md".to_string(), Ok("# hi\ntext".to_string()));
    assert!(a.has_right_panel());
    assert_eq!(a.md_viewer.as_ref().unwrap().scroll, 0);
    a.cursor = 3;
    let e = a.update(Action::Select);
    assert!(matches!(e, Effect::Nothing));
    assert_eq!(a.open_in_editor.as_deref(), Some("/w/main.rs"));
    assert!(!a.should_quit);
}

#[test]
fn unreadable_markdown_reports_the_error() {
    let mut a = loaded();
    a.show_markdown("/w/x.md".to_string(), Err("read /w/x.md: gone".to_string()));
    assert_eq!(a.status_message.as_deref(), Some("md: read /w/x.md: gone"));
    assert!(a.md_viewer.is_none());
}

#[test]
fn viewer_actions_scroll_edit_and_close() {
    let mut a = loaded();
    a.md_viewer = Some(MdViewer {
        path: "/w/README.md".to_string(),
        content: (0..30).map(|i| format!("line {}\n", i)).collect(),
        scroll: 0,
    });
    a.focus = Focus::Right;
    a.update(Action::MdPageDown);
    assert_eq!(a.md_viewer.as_ref().unwrap().scroll, 10);
    a.update(Action::MdScrollUp);
    assert_eq!(a.md_viewer.as_ref().unwrap().scroll, 9);
    a.update(Action::MdBottom);
    assert_eq!(a.md_viewer.as_ref().unwrap().scroll, 29);
    a.update(Action::MdScrollDown);
    assert_eq!(a.md_viewer.as_ref().unwrap().scroll, 29);
    a.update(Action::MdTop);
    assert_eq!(a.md_viewer.as_ref().unwrap().scroll, 0);
    a.update(Action::MdEdit);
    assert_eq!(a.open_in_editor.as_deref(), Some("/w/README.md"));
    a.update(Action::CloseRight);
    assert!(a.md_viewer.is_none());
    assert_eq!(a.focus, Focus::Left);
}

#[test]
fn going_back_moves_to_the_parent() {
    let mut a = loaded();
    let e = a.update(Action::GoBack);
    assert!(matches!(e, Effect::ReadDirectory));
    assert_eq!(a.current_dir, "/");
    let e = a.update(Action::GoBack);
    assert!(matches!(e, Effect::Nothing));
    assert_eq!(a.current_dir, "/");
}

#[test]
fn going_home_uses_the_given_directory() {
    let mut a = loaded();
    assert!(matches!(a.go_home(None), Effect::Nothing));
    assert_eq!(a.current_dir, "/w");
    assert!(matches!(a.go_home(Some("/home/me".to_string())), Effect::ReadDirectory));
    assert_eq!(a.current_dir, "/home/me");
}

#[test]
fn quit_and_idle_actions() {
    let mut a = loaded();
    a.update(Action::Nothing);
    a.update(Action::ToggleMouseCapture);
    assert!(!a.should_quit);
    a.update(Action::Quit);
    assert!(a.should_quit);
    assert!(a.selected_path.is_none());
}

#[test]
fn home_is_shown_as_tilde() {
    let home = Some("/home/me".to_string());
    assert_eq!(display_path_with_home("/home/me", &home), "~");
    assert_eq!(display_path_with_home("/home/me/src", &home), "~/src");
    assert_eq!(display_path_with_home("/home/meg", &home), "/home/meg");
    assert_eq!(display_path_with_home("/home/me/", &home), "~/");
    let al = Some("/home/al".to_string());
    assert_eq!(display_path_with_home("/home/al", &al), "~");
    assert_eq!(display_path_with_home("/home/al/src", &al), "~/src");
    assert_eq!(display_path_with_home("/tmp", &al), "/tmp");
    assert_eq!(display_path_with_home("/home/alice", &al), "/home/alice");
    assert_eq!(display_path_with_home("/etc", &home), "/etc");
    assert_eq!(display_path_with_home("/etc", &None), "/etc");
}

#[test]
fn tree_resize_respects_the_list_share() {
    let mut a = app();
    a.editor_alive = true;
    a.right_pct = 75;
    for _ in 0..10 {
        a.update(Action::ResizeGrow);
    }
    assert_eq!(a.tree_pct, 25);
    a.tree_pct = 10;
    a.right_pct = 40;
    for _ in 0..10 {
        a.update(Action::ResizeGrow);
    }
    assert_eq!(a.tree_pct, 45);
}

use phosphor::app::Mode;
use phosphor::input::{
    global_action, handle_key, handle_md_viewer_key, Action, KeyCode, KeyEvent, KeyModifiers,
};

fn key(code: KeyCode, mods: KeyModifiers) -> KeyEvent {
    KeyEvent::new(code, mods)
}

#[test]
fn alt_h_is_resize_shrink() {
    assert_eq!(
        global_action(key(KeyCode::Char('h'), KeyModifiers::alt())),
        Some(Action::ResizeShrink),
    );
}

#[test]
fn alt_l_is_resize_grow() {
    assert_eq!(
        global_action(key(KeyCode::Char('l'), KeyModifiers::alt())),
        Some(Action::ResizeGrow),
    );
}

#[test]
fn alt_m_toggles_mouse_capture() {
    assert_eq!(
        global_action(key(KeyCode::Char('m'), KeyModifiers::alt())),
        Some(Action::ToggleMouseCapture),
    );
}

#[test]
fn plain_h_is_not_global() {
    assert!(global_action(key(KeyCode::Char('h'), KeyModifiers::none())).is_none());
}

#[test]
fn viewer_e_switches_to_edit() {
    assert_eq!(
        handle_md_viewer_key(key(KeyCode::Char('e'), KeyModifiers::none())),
        Action::MdEdit,
    );
}

#[test]
fn viewer_j_scrolls_down() {
    assert_eq!(
        handle_md_viewer_key(key(KeyCode::Char('j'), KeyModifiers::none())),
        Action::MdScrollDown,
    );
}

#[test]
fn viewer_q_closes_right_panel() {
    assert_eq!(
        handle_md_viewer_key(key(KeyCode::Char('q'), KeyModifiers::none())),
        Action::CloseRight,
    );
}

#[test]
fn ctrl_c_quits_in_every_mode() {
    let ctrl_c = key(KeyCode::Char('c'), KeyModifiers::control());
    assert_eq!(handle_key(ctrl_c, &Mode::Normal), Action::Quit);
    assert_eq!(handle_key(ctrl_c, &Mode::Search), Action::Quit);
    assert_eq!(handle_md_viewer_key(ctrl_c), Action::Quit);
}

#[test]
fn normal_mode_bindings() {
    let n = KeyModifiers::none();
    let m = Mode::Normal;
    assert_eq!(handle_key(key(KeyCode::Char('q'), n), &m), Action::Quit);
    assert_eq!(handle_key(key(KeyCode::Char('j'), n), &m), Action::MoveDown);
    assert_eq!(handle_key(key(KeyCode::Up, n), &m), Action::MoveUp);
    assert_eq!(handle_key(key(KeyCode::Right, n), &m), Action::Open);
    assert_eq!(handle_key(key(KeyCode::Enter, n), &m), Action::Select);
    assert_eq!(handle_key(key(KeyCode::Backspace, n), &m), Action::GoBack);
    assert_eq!(handle_key(key(KeyCode::Char('h'), n), &m), Action::GoBack);
    assert_eq!(handle_key(key(KeyCode::Char('~'), n), &m), Action::GoHome);
    assert_eq!(handle_key(key(KeyCode::Char('g'), n), &m), Action::GoTop);
    assert_eq!(handle_key(key(KeyCode::Char('G'), n), &m), Action::GoBottom);
    assert_eq!(handle_key(key(KeyCode::Char('.'), n), &m), Action::ToggleHidden);
    assert_eq!(handle_key(key(KeyCode::Char('/'), n), &m), Action::EnterSearch);
    assert_eq!(handle_key(key(KeyCode::Char('z'), n), &m), Action::Nothing);
    // Control with another letter is no interrupt.
    assert_eq!(handle_key(key(KeyCode::Char('q'), KeyModifiers::control()), &m), Action::Quit);
}

#[test]
fn search_mode_bindings() {
    let n = KeyModifiers::none();
    let m = Mode::Search;
    assert_eq!(handle_key(key(KeyCode::Esc, n), &m), Action::SearchCancel);
    assert_eq!(handle_key(key(KeyCode::Enter, n), &m), Action::SearchConfirm);
    assert_eq!(handle_key(key(KeyCode::Backspace, n), &m), Action::SearchBackspace);
    assert_eq!(handle_key(key(KeyCode::Down, n), &m), Action::MoveDown);
    assert_eq!(handle_key(key(KeyCode::Char('q'), n), &m), Action::SearchInput('q'));
    assert_eq!(handle_key(key(KeyCode::Tab, n), &m), Action::Nothing);
}

#[test]
fn viewer_bindings() {
    let n = KeyModifiers::none();
    assert_eq!(handle_md_viewer_key(key(KeyCode::Esc, n)), Action::CloseRight);
    assert_eq!(handle_md_viewer_key(key(KeyCode::Char(' '), n)), Action::MdPageDown);
    assert_eq!(handle_md_viewer_key(key(KeyCode::PageUp, n)), Action::MdPageUp);
    assert_eq!(handle_md_viewer_key(key(KeyCode::Home, n)), Action::MdTop);
    assert_eq!(handle_md_viewer_key(key(KeyCode::Char('G'), n)), Action::MdBottom);
    assert_eq!(handle_md_viewer_key(key(KeyCode::Char('x'), n)), Action::Nothing);
}

#[test]
fn global_bindings_need_alt() {
    let a = KeyModifiers::alt();
    assert_eq!(global_action(key(KeyCode::Char('H'), a)), Some(Action::ResizeShrink));
    assert_eq!(global_action(key(KeyCode::Right, a)), Some(Action::ResizeGrow));
    assert_eq!(global_action(key(KeyCode::Char('M'), a)), Some(Action::ToggleMouseCapture));
    assert!(global_action(key(KeyCode::Char('x'), a)).is_none());
    assert!(global_action(key(KeyCode::Char('l'), KeyModifiers::control())).is_none());
}

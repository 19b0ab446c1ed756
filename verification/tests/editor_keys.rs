use phosphor::editor::{escape_for_vim_edit, key_to_bytes, open_command};
use phosphor::input::{KeyCode, KeyEvent, KeyModifiers};

fn k(code: KeyCode, mods: KeyModifiers) -> KeyEvent {
    KeyEvent::new(code, mods)
}

#[test]
fn plain_char_passes_through() {
    assert_eq!(key_to_bytes(k(KeyCode::Char('a'), KeyModifiers::none())), b"a");
}

#[test]
fn ctrl_letter_is_control_code() {
    assert_eq!(
        key_to_bytes(k(KeyCode::Char('c'), KeyModifiers::control())),
        vec![0x03],
    );
}

#[test]
fn ctrl_space_is_nul() {
    assert_eq!(
        key_to_bytes(k(KeyCode::Char(' '), KeyModifiers::control())),
        vec![0x00],
    );
}

#[test]
fn alt_letter_is_esc_prefix() {
    assert_eq!(
        key_to_bytes(k(KeyCode::Char('c'), KeyModifiers::alt())),
        vec![0x1b, b'c'],
    );
}

#[test]
fn enter_is_carriage_return() {
    assert_eq!(key_to_bytes(k(KeyCode::Enter, KeyModifiers::none())), vec![b'\r']);
}

#[test]
fn esc_is_one_byte() {
    assert_eq!(key_to_bytes(k(KeyCode::Esc, KeyModifiers::none())), vec![0x1b]);
}

#[test]
fn backspace_is_del() {
    assert_eq!(
        key_to_bytes(k(KeyCode::Backspace, KeyModifiers::none())),
        vec![0x7f],
    );
}

#[test]
fn tab_is_horizontal_tab() {
    assert_eq!(key_to_bytes(k(KeyCode::Tab, KeyModifiers::none())), vec![b'\t']);
}

#[test]
fn arrows_are_csi_sequences() {
    assert_eq!(key_to_bytes(k(KeyCode::Up, KeyModifiers::none())), b"\x1b[A");
    assert_eq!(key_to_bytes(k(KeyCode::Down, KeyModifiers::none())), b"\x1b[B");
    assert_eq!(key_to_bytes(k(KeyCode::Right, KeyModifiers::none())), b"\x1b[C");
    assert_eq!(key_to_bytes(k(KeyCode::Left, KeyModifiers::none())), b"\x1b[D");
}

#[test]
fn f1_is_ss3_prefix() {
    assert_eq!(key_to_bytes(k(KeyCode::F(1), KeyModifiers::none())), b"\x1bOP");
}

#[test]
fn f5_is_csi_prefix() {
    assert_eq!(
        key_to_bytes(k(KeyCode::F(5), KeyModifiers::none())),
        b"\x1b[15~",
    );
}

#[test]
fn vim_escape_passes_safe_chars() {
    assert_eq!(escape_for_vim_edit("foo.rs").as_deref(), Some("foo.rs"));
    assert_eq!(
        escape_for_vim_edit("path/to/file.rs").as_deref(),
        Some("path/to/file.rs"),
    );
}

#[test]
fn vim_escape_handles_space_and_tab() {
    assert_eq!(escape_for_vim_edit("a b").as_deref(), Some("a\\ b"));
    assert_eq!(escape_for_vim_edit("a\tb").as_deref(), Some("a\\\tb"));
}

#[test]
fn vim_escape_handles_pipe_and_quote() {
    assert_eq!(escape_for_vim_edit("foo|bar").as_deref(), Some("foo\\|bar"));
    assert_eq!(escape_for_vim_edit("foo\"bar").as_deref(), Some("foo\\\"bar"));
}

#[test]
fn vim_escape_handles_backslash() {
    assert_eq!(escape_for_vim_edit("a\\b").as_deref(), Some("a\\\\b"));
}

#[test]
fn vim_escape_handles_glob_chars() {
    assert_eq!(escape_for_vim_edit("a*b?c[d").as_deref(), Some("a\\*b\\?c\\[d"));
}

#[test]
fn vim_escape_rejects_control_chars() {
    assert!(escape_for_vim_edit("foo\nbar").is_none());
    assert!(escape_for_vim_edit("foo\rbar").is_none());
    assert!(escape_for_vim_edit("foo\0bar").is_none());
    assert!(escape_for_vim_edit("foo\x1bbar").is_none());
}

#[test]
fn vim_escape_covers_every_special_char() {
    assert_eq!(
        escape_for_vim_edit(" \t\\|\"%#*?[{`$!<'").as_deref(),
        Some("\\ \\\t\\\\\\|\\\"\\%\\#\\*\\?\\[\\{\\`\\$\\!\\<\\'"),
    );
    assert_eq!(escape_for_vim_edit("]})>&~").as_deref(), Some("]})>&~"));
    assert_eq!(escape_for_vim_edit("").as_deref(), Some(""));
    assert_eq!(escape_for_vim_edit("日本 語").as_deref(), Some("日本\\ 語"));
}

/// How vim reads an escaped name back: a backslash takes the next character.
fn unescape(s: &str) -> String {
    let cs: Vec<char> = s.chars().collect();
    let mut out = String::new();
    let mut i = 0;
    while i < cs.len() {
        if cs[i] == '\\' && i + 1 < cs.len() {
            out.push(cs[i + 1]);
            i += 2;
        } else {
            out.push(cs[i]);
            i += 1;
        }
    }
    out
}

#[test]
fn vim_escape_round_trips() {
    for p in ["a b\\c", "\\\\", "x|y%z#", "ends with \\", "plain", "$HOME/*.rs"] {
        let e = escape_for_vim_edit(p).unwrap();
        assert_eq!(unescape(&e), p);
        assert!(!e.contains('\n') && !e.contains('\r') && !e.contains('\x1b'));
    }
}

#[test]
fn open_command_wraps_escaped_path() {
    assert_eq!(open_command("a b.txt").as_deref(), Some("\x1b:e a\\ b.txt\r"));
    assert_eq!(open_command("/tmp/x").as_deref(), Some("\x1b:e /tmp/x\r"));
    assert!(open_command("bad\npath").is_none());
}

#[test]
fn ctrl_keys_follow_caret_notation() {
    assert_eq!(key_to_bytes(k(KeyCode::Char('A'), KeyModifiers::control())), vec![0x01]);
    assert_eq!(key_to_bytes(k(KeyCode::Char('['), KeyModifiers::control())), vec![0x1b]);
    assert_eq!(key_to_bytes(k(KeyCode::Char('_'), KeyModifiers::control())), vec![0x1f]);
    assert_eq!(key_to_bytes(k(KeyCode::Char('1'), KeyModifiers::control())), vec![b'1']);
    // Only the low byte of a wide character's code is looked at.
    assert_eq!(key_to_bytes(k(KeyCode::Char('\u{151}'), KeyModifiers::control())), vec![0x11]);
    let both = KeyModifiers { control: true, alt: true };
    assert_eq!(key_to_bytes(k(KeyCode::Char('x'), both)), vec![0x1b, 0x18]);
}

#[test]
fn wide_chars_are_utf8() {
    assert_eq!(key_to_bytes(k(KeyCode::Char('é'), KeyModifiers::none())), "é".as_bytes());
    assert_eq!(key_to_bytes(k(KeyCode::Char('€'), KeyModifiers::none())), "€".as_bytes());
    assert_eq!(key_to_bytes(k(KeyCode::Char('😀'), KeyModifiers::alt())), b"\x1b\xf0\x9f\x98\x80");
}

#[test]
fn other_keys_have_their_sequences() {
    let none = KeyModifiers::none();
    assert_eq!(key_to_bytes(k(KeyCode::BackTab, none)), b"\x1b[Z");
    assert_eq!(key_to_bytes(k(KeyCode::Home, none)), b"\x1b[H");
    assert_eq!(key_to_bytes(k(KeyCode::End, none)), b"\x1b[F");
    assert_eq!(key_to_bytes(k(KeyCode::PageUp, none)), b"\x1b[5~");
    assert_eq!(key_to_bytes(k(KeyCode::PageDown, none)), b"\x1b[6~");
    assert_eq!(key_to_bytes(k(KeyCode::Delete, none)), b"\x1b[3~");
    assert_eq!(key_to_bytes(k(KeyCode::Insert, none)), b"\x1b[2~");
    assert_eq!(key_to_bytes(k(KeyCode::F(12), none)), b"\x1b[24~");
    assert_eq!(key_to_bytes(k(KeyCode::F(11), none)), b"\x1b[23~");
    assert!(key_to_bytes(k(KeyCode::F(13), none)).is_empty());
    assert!(key_to_bytes(k(KeyCode::Other, none)).is_empty());
}

//! What the embedded editor is sent: escaped `:e` commands and the bytes a
//! terminal delivers for a key press.
use vstd::prelude::*;
use vstd::utf8::encode_scalar;
use vstd::utf8::encode_utf8;
use crate::input::KeyCode;
use crate::input::KeyEvent;
use crate::input::KeyModifiers;
use crate::text::chars_of;

verus! {

/// A character that would end or reinterpret vim's command line.
pub open spec fn is_command_breaker(c: char) -> bool {
    c == '\n' || c == '\r' || c == '\0' || c == '\x1b'
}

/// A character that vim's command line reads specially, and that
/// `fnameescape()` prefixes with a backslash.
pub open spec fn is_cmdline_special(c: char) -> bool {
    ||| c == ' '
    ||| c == '\t'
    ||| c == '\\'
    ||| c == '|'
    ||| c == '"'
    ||| c == '%'
    ||| c == '#'
    ||| c == '*'
    ||| c == '?'
    ||| c == '['
    ||| c == '{'
    ||| c == '`'
    ||| c == '$'
    ||| c == '!'
    ||| c == '<'
    ||| c == '\''
}

/// One character as it is written on the command line.
pub open spec fn escape_char(c: char) -> Seq<char> {
    if is_cmdline_special(c) {
        seq!['\\', c]
    } else {
        seq![c]
    }
}

/// `s` with every special character prefixed by a backslash.
pub open spec fn fn_escaped(s: Seq<char>) -> Seq<char>
    decreases s.len(),
{
    if s.len() == 0 {
        seq![]
    } else {
        escape_char(s[0]) + fn_escaped(s.drop_first())
    }
}

/// Whether `s` holds a character that would break the command line.
pub open spec fn has_command_breaker(s: Seq<char>) -> bool {
    exists|i: int| 0 <= i < s.len() && is_command_breaker(#[trigger] s[i])
}

/// The path as it may be pasted after `:e`, or `None` where it cannot be.
pub open spec fn vim_escaped(s: Seq<char>) -> Option<Seq<char>> {
    if has_command_breaker(s) {
        None
    } else {
        Some(fn_escaped(s))
    }
}

/// How vim reads an escaped file name back: a backslash takes the next
/// character literally.
pub open spec fn unescaped(s: Seq<char>) -> Seq<char>
    decreases s.len(),
{
    if s.len() == 0 {
        seq![]
    } else if s[0] == '\\' && s.len() >= 2 {
        seq![s[1]] + unescaped(s.skip(2))
    } else {
        seq![s[0]] + unescaped(s.drop_first())
    }
}

proof fn lemma_escaped_push(s: Seq<char>, c: char)
    ensures
        fn_escaped(s.push(c)) == fn_escaped(s) + escape_char(c),
    decreases s.len(),
{
    if s.len() == 0 {
        assert(s.push(c).drop_first() =~= s);
        assert(fn_escaped(s.push(c)) =~= escape_char(c) + fn_escaped(s));
        assert(fn_escaped(s) =~= seq![]);
        assert(escape_char(c) + seq![] =~= escape_char(c));
    } else {
        assert(s.push(c).drop_first() =~= s.drop_first().push(c));
        lemma_escaped_push(s.drop_first(), c);
        assert(fn_escaped(s.push(c)) =~= escape_char(s[0]) + (fn_escaped(s.drop_first()) + escape_char(c)));
    }
}

/// Escaping can be undone: vim reads back exactly the path that was escaped.
pub proof fn lemma_unescape_escaped(s: Seq<char>)
    ensures
        unescaped(fn_escaped(s)) == s,
    decreases s.len(),
{
    if s.len() > 0 {
        let rest = fn_escaped(s.drop_first());
        let e = fn_escaped(s);
        lemma_unescape_escaped(s.drop_first());
        if is_cmdline_special(s[0]) {
            assert(e =~= seq!['\\', s[0]] + rest);
            assert(e.skip(2) =~= rest);
            assert(unescaped(e) =~= seq![s[0]] + s.drop_first());
        } else {
            assert(e =~= seq![s[0]] + rest);
            assert(e.drop_first() =~= rest);
            assert(unescaped(e) =~= seq![s[0]] + s.drop_first());
        }
        assert(seq![s[0]] + s.drop_first() =~= s);
    }
}

/// Every character of an escaped name is a backslash or a character of the
/// name itself.
proof fn lemma_escaped_chars(s: Seq<char>)
    ensures
        forall|i: int| 0 <= i < fn_escaped(s).len() ==>
            #[trigger] fn_escaped(s)[i] == '\\' || s.contains(fn_escaped(s)[i]),
    decreases s.len(),
{
    if s.len() > 0 {
        lemma_escaped_chars(s.drop_first());
        let head = escape_char(s[0]);
        let rest = fn_escaped(s.drop_first());
        assert(fn_escaped(s) == head + rest);
        assert forall|i: int| 0 <= i < fn_escaped(s).len() implies
            #[trigger] fn_escaped(s)[i] == '\\' || s.contains(fn_escaped(s)[i]) by {
            if i < head.len() {
                if fn_escaped(s)[i] != '\\' {
                    assert(fn_escaped(s)[i] == s[0]);
                }
            } else {
                assert(fn_escaped(s)[i] == rest[i - head.len()]);
                if rest[i - head.len()] != '\\' {
                    let k = choose|k: int| 0 <= k < s.drop_first().len()
                        && s.drop_first()[k] == rest[i - head.len()];
                    assert(s[k + 1] == s.drop_first()[k]);
                }
            }
        }
    }
}

/// What is accepted is safe to paste: an escaped path holds no character that
/// would end or reinterpret the command line.
pub proof fn lemma_escaped_is_safe(s: Seq<char>)
    ensures
        vim_escaped(s) matches Some(e) ==> !has_command_breaker(e),
{
    if !has_command_breaker(s) {
        lemma_escaped_chars(s);
        let e = fn_escaped(s);
        assert forall|i: int| 0 <= i < e.len() implies !is_command_breaker(#[trigger] e[i]) by {
            if e[i] != '\\' {
                let k = choose|k: int| 0 <= k < s.len() && s[k] == e[i];
                assert(!is_command_breaker(s[k]));
            }
        }
    }
}

/// Escape a path so it is safe to paste into vim's `:e <path>` command.
/// Returns `None` if the path contains a character that would terminate or
/// reinterpret the command line (CR, LF, NUL, ESC), which we refuse to send.
/// Otherwise prefixes vim cmdline metacharacters with a backslash, matching
/// the behaviour of vim's own `fnameescape()` function.
pub fn escape_for_vim_edit(path: &str) -> (r: Option<String>)
    ensures
        match r {
            Some(e) => vim_escaped(path@) == Some(e@),
            None => vim_escaped(path@) is None,
        },
{
    let cs = chars_of(path);
    let mut out = String::new();
    let mut i: usize = 0;
    while i < cs.len()
        invariant
            i <= cs@.len(),
            cs@ == path@,
            out@ == fn_escaped(cs@.take(i as int)),
            forall|k: int| 0 <= k < i ==> !is_command_breaker(#[trigger] cs@[k]),
        decreases cs@.len() - i,
    {
        let c = cs[i];
        if c == '\n' || c == '\r' || c == '\0' || c == '\x1b' {
            assert(is_command_breaker(cs@[i as int]));
            return None;
        }
        if c == ' ' || c == '\t' || c == '\\' || c == '|' || c == '"' || c == '%' || c == '#'
            || c == '*' || c == '?' || c == '[' || c == '{' || c == '`' || c == '$' || c == '!'
            || c == '<' || c == '\'' {
            out.push('\\');
        }
        out.push(c);
        proof {
            lemma_escaped_push(cs@.take(i as int), c);
            assert(cs@.take(i + 1) =~= cs@.take(i as int).push(c));
            assert(out@ =~= fn_escaped(cs@.take(i as int)) + escape_char(c));
        }
        i = i + 1;
    }
    assert(cs@.take(cs@.len() as int) =~= cs@);
    assert(!has_command_breaker(path@));
    Some(out)
}

/// The keys that send `:e <path>` and Enter to vim, after Escape puts it in
/// normal mode.
pub open spec fn edit_command_text(escaped: Seq<char>) -> Seq<char> {
    seq!['\x1b', ':', 'e', ' '] + escaped + seq!['\r']
}

/// The command that makes the editor open `path`, or `None` where the path
/// holds a character that would break the command line.
pub fn open_command(path: &str) -> (r: Option<String>)
    ensures
        match vim_escaped(path@) {
            Some(e) => r matches Some(cmd) && cmd@ == edit_command_text(e),
            None => r is None,
        },
{
    match escape_for_vim_edit(path) {
        None => None,
        Some(escaped) => {
            let mut cmd = String::new();
            cmd.push('\x1b');
            cmd.push(':');
            cmd.push('e');
            cmd.push(' ');
            let ec = chars_of(escaped.as_str());
            let mut i: usize = 0;
            while i < ec.len()
                invariant
                    i <= ec@.len(),
                    cmd@ == seq!['\x1b', ':', 'e', ' '] + ec@.take(i as int),
                decreases ec@.len() - i,
            {
                cmd.push(ec[i]);
                i = i + 1;
                assert(cmd@ =~= seq!['\x1b', ':', 'e', ' '] + ec@.take(i as int));
            }
            cmd.push('\r');
            assert(ec@.take(ec@.len() as int) =~= ec@);
            assert(cmd@ =~= edit_command_text(escaped@));
            Some(cmd)
        },
    }
}

/// The low byte of the code of `c` after ASCII upper-casing:
/// `c.to_ascii_uppercase() as u8`.
pub open spec fn upper_byte(c: char) -> u8 {
    let code = c as u32;
    if 0x61 <= code <= 0x7a {
        (code - 0x20) as u8
    } else {
        code as u8
    }
}

/// The byte that Control with the character `c` sends: `A`..`_` (after
/// upper-casing) map to 1..31, Control-Space to NUL, anything else to the low
/// byte of its code.
pub open spec fn control_byte(c: char) -> u8 {
    let upper = upper_byte(c);
    if 0x41 <= upper <= 0x5f {
        (upper - 0x40) as u8
    } else if c == ' ' {
        0
    } else {
        c as u8
    }
}

/// The escape sequence of a function key, empty beyond F12.
pub open spec fn function_key_bytes(n: u8) -> Seq<u8> {
    if n == 1 {
        seq![0x1bu8, 0x4f, 0x50]
    } else if n == 2 {
        seq![0x1bu8, 0x4f, 0x51]
    } else if n == 3 {
        seq![0x1bu8, 0x4f, 0x52]
    } else if n == 4 {
        seq![0x1bu8, 0x4f, 0x53]
    } else if n == 5 {
        seq![0x1bu8, 0x5b, 0x31, 0x35, 0x7e]
    } else if n == 6 {
        seq![0x1bu8, 0x5b, 0x31, 0x37, 0x7e]
    } else if n == 7 {
        seq![0x1bu8, 0x5b, 0x31, 0x38, 0x7e]
    } else if n == 8 {
        seq![0x1bu8, 0x5b, 0x31, 0x39, 0x7e]
    } else if n == 9 {
        seq![0x1bu8, 0x5b, 0x32, 0x30, 0x7e]
    } else if n == 10 {
        seq![0x1bu8, 0x5b, 0x32, 0x31, 0x7e]
    } else if n == 11 {
        seq![0x1bu8, 0x5b, 0x32, 0x33, 0x7e]
    } else if n == 12 {
        seq![0x1bu8, 0x5b, 0x32, 0x34, 0x7e]
    } else {
        seq![]
    }
}

/// The bytes a terminal emulator delivers to the process on its pty for `key`:
/// a character as UTF-8 (or its control byte with Control), preceded by ESC
/// with Alt; Enter, Backspace, Tab and Escape as single bytes; the other keys
/// as their xterm escape sequences; nothing for a key without one.
pub open spec fn key_bytes(key: KeyEvent) -> Seq<u8> {
    match key.code {
        KeyCode::Char(c) => {
            let prefix: Seq<u8> = if key.modifiers.alt { seq![0x1bu8] } else { seq![] };
            if key.modifiers.control {
                prefix.push(control_byte(c))
            } else {
                prefix + encode_scalar(c as u32)
            }
        },
        KeyCode::Enter => seq![0x0du8],
        KeyCode::Backspace => seq![0x7fu8],
        KeyCode::Tab => seq![0x09u8],
        KeyCode::BackTab => seq![0x1bu8, 0x5b, 0x5a],
        KeyCode::Esc => seq![0x1bu8],
        KeyCode::Up => seq![0x1bu8, 0x5b, 0x41],
        KeyCode::Down => seq![0x1bu8, 0x5b, 0x42],
        KeyCode::Right => seq![0x1bu8, 0x5b, 0x43],
        KeyCode::Left => seq![0x1bu8, 0x5b, 0x44],
        KeyCode::Home => seq![0x1bu8, 0x5b, 0x48],
        KeyCode::End => seq![0x1bu8, 0x5b, 0x46],
        KeyCode::PageUp => seq![0x1bu8, 0x5b, 0x35, 0x7e],
        KeyCode::PageDown => seq![0x1bu8, 0x5b, 0x36, 0x7e],
        KeyCode::Delete => seq![0x1bu8, 0x5b, 0x33, 0x7e],
        KeyCode::Insert => seq![0x1bu8, 0x5b, 0x32, 0x7e],
        KeyCode::F(n) => function_key_bytes(n),
        KeyCode::Other => seq![],
    }
}

/// Alt with a character sends ESC followed by exactly what the character
/// sends without Alt.
pub proof fn lemma_alt_prefixes_escape(c: char, control: bool)
    ensures
        key_bytes(KeyEvent { code: KeyCode::Char(c), modifiers: KeyModifiers { control, alt: true } })
            == seq![0x1bu8] + key_bytes(
            KeyEvent { code: KeyCode::Char(c), modifiers: KeyModifiers { control, alt: false } },
        ),
{
    let plain: Seq<u8> = seq![];
    assert(plain.push(control_byte(c)) =~= seq![control_byte(c)]);
    assert(plain + encode_scalar(c as u32) =~= encode_scalar(c as u32));
    assert(seq![0x1bu8].push(control_byte(c)) =~= seq![0x1bu8] + seq![control_byte(c)]);
}

/// Control with a letter, of either case, sends the letter's place in the
/// alphabet: 1 for `a` or `A` up to 26 for `z` or `Z`.
pub proof fn lemma_control_letters(c: char)
    requires
        'a' <= c <= 'z' || 'A' <= c <= 'Z',
    ensures
        key_bytes(KeyEvent { code: KeyCode::Char(c), modifiers: KeyModifiers { control: true, alt: false } })
            == seq![(if 'a' <= c <= 'z' { (c as u32) - 0x60 } else { (c as u32) - 0x40 }) as u8],
        1 <= (if 'a' <= c <= 'z' { (c as u32) - 0x60 } else { (c as u32) - 0x40 }) <= 26,
{
    let code = c as u32;
    let up: u32 = if 0x61 <= code <= 0x7a { (code - 0x20) as u32 } else { code };
    assert(0x41 <= up <= 0x5a);
    assert((up as u8) as u32 == up) by (bit_vector)
        requires
            up <= 0xff,
    ;
    assert(upper_byte(c) == up as u8);
    let b = upper_byte(c);
    assert(0x41 <= b <= 0x5f);
    let empty: Seq<u8> = seq![];
    assert(empty.push(control_byte(c)) =~= seq![control_byte(c)]);
}

/// A plain ASCII character without modifiers sends its own code as one byte.
pub proof fn lemma_ascii_chars(c: char)
    requires
        (c as u32) < 0x80,
    ensures
        key_bytes(KeyEvent { code: KeyCode::Char(c), modifiers: KeyModifiers { control: false, alt: false } })
            == seq![(c as u32) as u8],
        ((c as u32) as u8) as u32 == c as u32,
{
    let code = c as u32;
    assert((code & 0x7F) as u8 == code as u8) by (bit_vector)
        requires
            code < 0x80,
    ;
    assert((code as u8) as u32 == code) by (bit_vector)
        requires
            code < 0x80,
    ;
    let empty: Seq<u8> = seq![];
    assert(empty + encode_scalar(code) =~= encode_scalar(code));
    assert(encode_scalar(code) =~= seq![code as u8]);
}

/// The UTF-8 encoding of one character.
fn utf8_of(c: char) -> (r: Vec<u8>)
    ensures
        r@ == encode_scalar(c as u32),
{
    let mut s = String::new();
    s.push(c);
    let bytes = s.as_str().as_bytes();
    let mut out: Vec<u8> = Vec::new();
    out.extend_from_slice(bytes);
    proof {
        assert(s@ =~= seq![c]);
        assert(seq![c].drop_first() =~= Seq::<char>::empty());
        assert(encode_utf8(Seq::<char>::empty()) =~= Seq::<u8>::empty());
        assert(encode_utf8(seq![c]) =~= encode_scalar(c as u32));
    }
    out
}

/// The control byte of `c` (see `control_byte`).
fn control_code(c: char) -> (r: u8)
    ensures
        r == control_byte(c),
{
    let code = c as u32;
    let upper: u8 = if 0x61 <= code && code <= 0x7a {
        (code - 0x20) as u8
    } else {
        code as u8
    };
    if 0x41 <= upper && upper <= 0x5f {
        upper - 0x40
    } else if c == ' ' {
        0
    } else {
        c as u8
    }
}

/// Translate a key event into the byte sequence a terminal emulator would
/// deliver to a process attached to its pty.
pub fn key_to_bytes(key: KeyEvent) -> (r: Vec<u8>)
    ensures
        r@ == key_bytes(key),
{
    match key.code {
        KeyCode::Char(c) => {
            let mut out: Vec<u8> = Vec::new();
            if key.modifiers.alt {
                out.push(0x1b);
            }
            if key.modifiers.control {
                out.push(control_code(c));
            } else {
                let enc = utf8_of(c);
                out.extend_from_slice(enc.as_slice());
            }
            proof {
                if key.modifiers.alt {
                    assert(out@.take(1) =~= seq![0x1bu8]);
                }
            }
            assert(out@ =~= key_bytes(key));
            out
        },
        KeyCode::Enter => vec![0x0d],
        KeyCode::Backspace => vec![0x7f],
        KeyCode::Tab => vec![0x09],
        KeyCode::BackTab => vec![0x1b, 0x5b, 0x5a],
        KeyCode::Esc => vec![0x1b],
        KeyCode::Up => vec![0x1b, 0x5b, 0x41],
        KeyCode::Down => vec![0x1b, 0x5b, 0x42],
        KeyCode::Right => vec![0x1b, 0x5b, 0x43],
        KeyCode::Left => vec![0x1b, 0x5b, 0x44],
        KeyCode::Home => vec![0x1b, 0x5b, 0x48],
        KeyCode::End => vec![0x1b, 0x5b, 0x46],
        KeyCode::PageUp => vec![0x1b, 0x5b, 0x35, 0x7e],
        KeyCode::PageDown => vec![0x1b, 0x5b, 0x36, 0x7e],
        KeyCode::Delete => vec![0x1b, 0x5b, 0x33, 0x7e],
        KeyCode::Insert => vec![0x1b, 0x5b, 0x32, 0x7e],
        KeyCode::F(n) => {
            if n == 1 {
                vec![0x1b, 0x4f, 0x50]
            } else if n == 2 {
                vec![0x1b, 0x4f, 0x51]
            } else if n == 3 {
                vec![0x1b, 0x4f, 0x52]
            } else if n == 4 {
                vec![0x1b, 0x4f, 0x53]
            } else if n == 5 {
                vec![0x1b, 0x5b, 0x31, 0x35, 0x7e]
            } else if n == 6 {
                vec![0x1b, 0x5b, 0x31, 0x37, 0x7e]
            } else if n == 7 {
                vec![0x1b, 0x5b, 0x31, 0x38, 0x7e]
            } else if n == 8 {
                vec![0x1b, 0x5b, 0x31, 0x39, 0x7e]
            } else if n == 9 {
                vec![0x1b, 0x5b, 0x32, 0x30, 0x7e]
            } else if n == 10 {
                vec![0x1b, 0x5b, 0x32, 0x31, 0x7e]
            } else if n == 11 {
                vec![0x1b, 0x5b, 0x32, 0x33, 0x7e]
            } else if n == 12 {
                vec![0x1b, 0x5b, 0x32, 0x34, 0x7e]
            } else {
                Vec::new()
            }
        },
        KeyCode::Other => Vec::new(),
    }
}

} // verus!

//! What the screen shows, as text and the role that picks its style: the
//! panel layout, the file list, the metadata line and the footer.
use vstd::prelude::*;
use vstd::utf8::{decode_utf8, encode_utf8, is_char_boundary};
use vstd::string::StringSliceAdditionalSpecFns;
use crate::app::{count_kind, indices_ok, right_active, sat_sub, App, AppView, Focus, Mode};
use crate::nav::{
    age_text, detect_type, format_age, format_perms, format_size, perm_text, size_text, type_label,
    FileEntry,
};
use crate::paths::{file_name, parent, path_extension, path_parent};
use crate::tree::root_name;
use crate::text::{chars_of, decimal, decimal_chars, push_all, string_of};

verus! {

/// The rows of the header with the wordmark and the current path.
pub const HEADER_HEIGHT: u16 = 5;

/// The row of the column headers.
pub const COLUMN_HEADER_HEIGHT: u16 = 1;

/// The rows of the metadata line and its border.
pub const METADATA_HEIGHT: u16 = 3;

/// The rows of the footer and its border.
pub const FOOTER_HEIGHT: u16 = 3;

/// The rows everything but the panels takes.
pub const CHROME_HEIGHT: u16 = HEADER_HEIGHT + COLUMN_HEADER_HEIGHT + METADATA_HEIGHT + FOOTER_HEIGHT;

/// What a piece of text is, which decides how it is styled.
#[derive(Clone, Copy, PartialEq, Eq, Structural, Debug)]
pub enum Role {
    Text,
    TextDim,
    DirEntry,
    DirEntryDim,
    Selected,
    SelectedDir,
    Status,
    KeyHint,
    Error,
    SearchInput,
    Title,
}

/// A piece of text and its role.
#[derive(Debug)]
pub struct Piece {
    pub text: String,
    pub role: Role,
}

/// A piece as values.
pub type PieceView = (Seq<char>, Role);

/// The values of each piece.
pub open spec fn piece_views(v: Seq<Piece>) -> Seq<PieceView> {
    v.map_values(|p: Piece| (p.text@, p.role))
}

fn piece(text: &str, role: Role) -> (r: Piece)
    ensures
        r.text@ == text@,
        r.role == role,
{
    let cs = chars_of(text);
    Piece { text: string_of(cs.as_slice()), role }
}

fn piece_of(cs: &Vec<char>, role: Role) -> (r: Piece)
    ensures
        r.text@ == cs@,
        r.role == role,
{
    Piece { text: string_of(cs.as_slice()), role }
}

// ---------------------------------------------------------------------
// Layout
// ---------------------------------------------------------------------

/// The widths, in percent, of the panels side by side: tree, list and,
/// while it shows something, the right panel; the list takes what the
/// others leave.
pub open spec fn panel_widths(tree_pct: u16, right_pct: u16, right: bool) -> Seq<u16> {
    if right {
        seq![tree_pct, sat_sub(sat_sub(100, tree_pct as int), right_pct as int) as u16, right_pct]
    } else {
        seq![tree_pct, sat_sub(100, tree_pct as int) as u16]
    }
}

/// The widths, in percent, of the panels (see `panel_widths`).
pub fn panel_percentages(tree_pct: u16, right_pct: u16, right: bool) -> (r: Vec<u16>)
    ensures
        r@ == panel_widths(tree_pct, right_pct, right),
{
    let rest: u16 = if tree_pct <= 100 {
        100 - tree_pct
    } else {
        0
    };
    if right {
        let list: u16 = if right_pct <= rest {
            rest - right_pct
        } else {
            0
        };
        vec![tree_pct, list, right_pct]
    } else {
        vec![tree_pct, rest]
    }
}

/// The columns and rows of the editor in the right panel, for a terminal of
/// `width` by `height` and a right panel of `right_pct` percent: the panel's
/// width less one (the product saturating at `u16::MAX` before it is divided),
/// and the height the chrome leaves.
pub open spec fn editor_size(width: u16, height: u16, right_pct: u16) -> (u16, u16) {
    let product = if width * right_pct > u16::MAX {
        u16::MAX as int
    } else {
        width * right_pct
    };
    (sat_sub(product / 100, 1) as u16, sat_sub(height as int, CHROME_HEIGHT as int) as u16)
}

/// Compute (cols, rows) for the embedded editor given the full terminal size
/// and the current `right_pct` from the app. Mirrors the layout split of the
/// screen so the pty is sized to match the panel.
pub fn right_panel_size(width: u16, height: u16, right_pct: u16) -> (r: (u16, u16))
    ensures
        r == editor_size(width, height, right_pct),
{
    let main_height = height.saturating_sub(CHROME_HEIGHT);
    assert((width as u64) * (right_pct as u64) <= 0xFFFF_FFFF) by (nonlinear_arith)
        requires
            width <= 0xFFFF,
            right_pct <= 0xFFFF,
    ;
    let wide: u64 = (width as u64) * (right_pct as u64);
    let product: u16 = if wide > 65535 {
        65535
    } else {
        wide as u16
    };
    let editor_width = product / 100;
    (editor_width.saturating_sub(1), main_height)
}

/// The first row of the list shown in `height` rows, so that the cursor is
/// on the last row once it would fall below it.
pub open spec fn first_row(cursor: usize, height: usize) -> usize {
    if cursor >= height {
        (cursor - height + 1) as usize
    } else {
        0
    }
}

/// The first row of the list shown in `height` rows (see `first_row`).
pub fn list_offset(cursor: usize, height: usize) -> (r: usize)
    requires
        height > 0 || cursor < usize::MAX,
    ensures
        r == first_row(cursor, height),
{
    if cursor >= height {
        cursor - height + 1
    } else {
        0
    }
}

// ---------------------------------------------------------------------
// Padding
// ---------------------------------------------------------------------

/// `n` spaces.
pub open spec fn spaces(n: nat) -> Seq<char> {
    Seq::new(n, |i: int| ' ')
}

/// `s` padded with spaces on the right to `width` characters, as
/// `format!("{:<width$}", s)` does.
pub open spec fn padded(s: Seq<char>, width: nat) -> Seq<char> {
    if s.len() >= width {
        s
    } else {
        s + spaces((width - s.len()) as nat)
    }
}

fn pad_to(out: &mut Vec<char>, s: &[char], width: usize)
    ensures
        final(out)@ == old(out)@ + padded(s@, width as nat),
{
    push_all(out, s);
    let mut n = s.len();
    let ghost base = out@;
    while n < width
        invariant
            s@.len() <= n <= width || (n == s@.len() && n >= width),
            base == old(out)@ + s@,
            out@ == base + spaces((n - s@.len()) as nat),
        decreases width - n,
    {
        out.push(' ');
        n = n + 1;
        assert(out@ =~= base + spaces((n - s@.len()) as nat));
    }
    if s.len() >= width {
        assert(out@ =~= old(out)@ + s@);
    } else {
        assert(out@ =~= old(out)@ + (s@ + spaces((width - s@.len()) as nat)));
    }
}

/// The column headers for a list `width` columns wide.
pub open spec fn column_header(width: nat) -> Seq<char> {
    "  "@ + padded("Name"@, sat_sub(width as int, 9) as nat) + "  "@ + "Size"@
}

/// The column headers for a list `width` columns wide.
pub fn column_header_text(width: usize) -> (r: String)
    ensures
        r@ == column_header(width as nat),
{
    let name_width: usize = if width >= 9 {
        width - 9
    } else {
        0
    };
    let mut out: Vec<char> = chars_of("  ");
    let name = chars_of("Name");
    pad_to(&mut out, name.as_slice(), name_width);
    let gap = chars_of("  ");
    push_all(&mut out, gap.as_slice());
    let size = chars_of("Size");
    push_all(&mut out, size.as_slice());
    string_of(out.as_slice())
}

// ---------------------------------------------------------------------
// The file list
// ---------------------------------------------------------------------

/// The name shown for an entry: a directory gets a trailing slash.
pub open spec fn shown_name(e: FileEntry) -> Seq<char> {
    if e.is_dir {
        e.name@.push('/')
    } else {
        e.name@
    }
}

/// The size column of an entry: empty for a directory.
pub open spec fn size_column(e: FileEntry) -> Seq<char> {
    if e.is_dir {
        seq![]
    } else {
        size_text(e.size as nat)
    }
}

/// The room left for the name in a row `width` columns wide.
pub open spec fn name_room(e: FileEntry, width: nat) -> nat {
    sat_sub(width as int, size_column(e).len() + 4int) as nat
}

/// Whether the row of `e` can be drawn: a name longer (in UTF-8 bytes) than
/// its room is cut there, which must fall between two characters.
pub open spec fn row_drawable(e: FileEntry, width: nat) -> bool {
    let bytes = encode_utf8(shown_name(e));
    bytes.len() > name_room(e, width) ==> is_char_boundary(bytes, name_room(e, width) as int)
}

/// The name column of a row: the shown name cut to its room's first bytes
/// when it is longer in bytes, else padded to that many characters.
pub open spec fn name_column(e: FileEntry, width: nat) -> Seq<char> {
    let bytes = encode_utf8(shown_name(e));
    if bytes.len() > name_room(e, width) {
        decode_utf8(bytes.subrange(0, name_room(e, width) as int))
    } else {
        padded(shown_name(e), name_room(e, width))
    }
}

/// The row of an entry: a bar in front of the selected one, then its name
/// and size columns.
pub open spec fn row_text(e: FileEntry, selected: bool, width: nat) -> Seq<char> {
    (if selected {
        "\u{2590} "@
    } else {
        "  "@
    }) + name_column(e, width) + "  "@ + size_column(e)
}

/// The role of a row: the selection band, else directories and files, odd
/// rows dimmed.
pub open spec fn row_role(e: FileEntry, selected: bool, odd: bool) -> Role {
    if selected {
        if e.is_dir {
            Role::SelectedDir
        } else {
            Role::Selected
        }
    } else if e.is_dir {
        if odd {
            Role::DirEntryDim
        } else {
            Role::DirEntry
        }
    } else if odd {
        Role::TextDim
    } else {
        Role::Text
    }
}

/// The row of `e` in a list `width` columns wide, or `None` where its name
/// would be cut inside a character.
pub fn list_row(e: &FileEntry, selected: bool, odd: bool, width: usize) -> (r: Option<Piece>)
    ensures
        match r {
            Some(p) => row_drawable(*e, width as nat) && p.text@ == row_text(*e, selected, width as nat)
                && p.role == row_role(*e, selected, odd),
            None => !row_drawable(*e, width as nat),
        },
{
    let mut shown = chars_of(e.name.as_str());
    if e.is_dir {
        shown.push('/');
    }
    let shown_str = string_of(shown.as_slice());
    let size_col: Vec<char> = if e.is_dir {
        Vec::new()
    } else {
        let s = format_size(e.size);
        chars_of(s.as_str())
    };
    let room: usize = if width >= size_col.len() && width - size_col.len() >= 4 {
        width - size_col.len() - 4
    } else {
        0
    };
    assert(shown_str@ == shown_name(*e));
    assert(room == name_room(*e, width as nat));
    let mut out: Vec<char> = if selected {
        chars_of("\u{2590} ")
    } else {
        chars_of("  ")
    };
    let byte_len = shown_str.as_str().as_bytes().len();
    if byte_len > room {
        if !shown_str.as_str().is_char_boundary(room) {
            return None;
        }
        let (head, _) = shown_str.as_str().split_at(room);
        proof {
            vstd::utf8::encode_utf8_decode_utf8(head@);
            assert(head.spec_bytes() == encode_utf8(head@));
            assert(head@ == decode_utf8(encode_utf8(shown_name(*e)).subrange(0, room as int)));
        }
        let hc = chars_of(head);
        push_all(&mut out, hc.as_slice());
        assert(out@ == (if selected { "\u{2590} "@ } else { "  "@ }) + name_column(*e, width as nat));
    } else {
        pad_to(&mut out, shown.as_slice(), room);
        assert(out@ == (if selected { "\u{2590} "@ } else { "  "@ }) + name_column(*e, width as nat));
    }
    let gap = chars_of("  ");
    push_all(&mut out, gap.as_slice());
    push_all(&mut out, size_col.as_slice());
    let role = if selected {
        if e.is_dir {
            Role::SelectedDir
        } else {
            Role::Selected
        }
    } else if e.is_dir {
        if odd {
            Role::DirEntryDim
        } else {
            Role::DirEntry
        }
    } else if odd {
        Role::TextDim
    } else {
        Role::Text
    };
    Some(piece_of(&out, role))
}

/// The panels share the width: with the right panel shown, tree, list and
/// right panel add up to the whole when the tree and right panel leave room,
/// and without it tree and list do.
pub proof fn lemma_panels_share_width(tree_pct: u16, right_pct: u16)
    ensures
        tree_pct + right_pct <= 100 ==> panel_widths(tree_pct, right_pct, true)[0]
            + panel_widths(tree_pct, right_pct, true)[1] + panel_widths(tree_pct, right_pct, true)[2]
            == 100,
        tree_pct <= 100 ==> panel_widths(tree_pct, right_pct, false)[0] + panel_widths(
            tree_pct,
            right_pct,
            false,
        )[1] == 100,
        panel_widths(tree_pct, right_pct, true).len() == 3,
        panel_widths(tree_pct, right_pct, false).len() == 2,
        panel_widths(tree_pct, right_pct, true)[0] == tree_pct,
        panel_widths(tree_pct, right_pct, true)[2] == right_pct,
{
}

/// The list scrolls so that the cursor is always on screen: in a list of
/// `height` rows, the cursor lies between the first row shown and the last.
pub proof fn lemma_cursor_on_screen(cursor: usize, height: usize)
    requires
        height > 0,
    ensures
        first_row(cursor, height) <= cursor < first_row(cursor, height) + height,
        cursor < height ==> first_row(cursor, height) == 0,
{
}

proof fn lemma_utf8_at_least_chars(s: Seq<char>)
    ensures
        encode_utf8(s).len() >= s.len(),
    decreases s.len(),
{
    if s.len() > 0 {
        lemma_utf8_at_least_chars(s.drop_first());
        assert(vstd::utf8::encode_scalar(s[0] as u32).len() >= 1);
    }
}

/// A row whose name fits is exactly as wide as the list: the marker, the
/// name padded to its room, two spaces and the size column fill the width.
pub proof fn lemma_row_fills_width(e: FileEntry, selected: bool, width: nat)
    requires
        width >= size_column(e).len() + 4,
        encode_utf8(shown_name(e)).len() <= name_room(e, width),
    ensures
        row_text(e, selected, width).len() == width,
{
    lemma_utf8_at_least_chars(shown_name(e));
    reveal_strlit("\u{2590} ");
    reveal_strlit("  ");
}

/// The rows of the list shown in `height` rows: from the first row on, as
/// many as fit.
pub open spec fn window_len(v: AppView, height: usize) -> nat {
    let off = first_row(v.cursor, height);
    if off >= v.visible.len() {
        0
    } else if v.visible.len() - off < height {
        (v.visible.len() - off) as nat
    } else {
        height as nat
    }
}

/// The entry on the `k`-th row of the window.
pub open spec fn window_entry(v: AppView, height: usize, k: int) -> FileEntry {
    v.entries[v.visible[first_row(v.cursor, height) + k] as int]
}

/// Whether every visible index in the window names an entry.
pub open spec fn window_ok(v: AppView, height: usize) -> bool {
    forall|k: int|
        0 <= k < window_len(v, height) ==> #[trigger] v.visible[first_row(v.cursor, height) + k]
            < v.entries.len()
}

/// Whether every row of the window can be drawn.
pub open spec fn window_drawable(v: AppView, height: usize, width: usize) -> bool {
    forall|k: int|
        0 <= k < window_len(v, height) ==> row_drawable(
            #[trigger] window_entry(v, height, k),
            width as nat,
        )
}

/// The rows of the window.
pub open spec fn window_rows(v: AppView, height: usize, width: usize) -> Seq<PieceView> {
    Seq::new(
        window_len(v, height),
        |k: int|
            {
                let i = first_row(v.cursor, height) + k;
                (
                    row_text(window_entry(v, height, k), i == v.cursor, width as nat),
                    row_role(window_entry(v, height, k), i == v.cursor, i % 2 == 1),
                )
            },
    )
}

/// What the list panel shows.
#[derive(Debug)]
pub enum ListContent {
    /// A line saying why nothing is listed.
    Message(Piece),
    /// The rows in view.
    Rows(Vec<Piece>),
}

/// The line shown when nothing is listed.
pub open spec fn empty_message(v: AppView) -> Seq<char> {
    if v.entries.len() == 0 {
        "  (empty directory)"@
    } else {
        "  (no matches)"@
    }
}

/// What the list panel of `height` rows and `width` columns shows: a message
/// when nothing is visible, else the rows from `first_row` on; `None` where a
/// row's name would be cut inside a character.
pub fn list_content(app: &App, height: usize, width: usize) -> (r: Option<ListContent>)
    requires
        window_ok(app@, height),
        height > 0 || app.cursor < usize::MAX,
    ensures
        app@.visible.len() == 0 ==> (r matches Some(ListContent::Message(p)) && p.text@
            == empty_message(app@) && p.role == Role::TextDim),
        app@.visible.len() > 0 ==> match r {
            Some(ListContent::Rows(rows)) => window_drawable(app@, height, width) && piece_views(
                rows@,
            ) == window_rows(app@, height, width),
            Some(ListContent::Message(_)) => false,
            None => !window_drawable(app@, height, width),
        },
{
    if app.visible.len() == 0 {
        let msg = if app.entries.len() == 0 {
            piece("  (empty directory)", Role::TextDim)
        } else {
            piece("  (no matches)", Role::TextDim)
        };
        return Some(ListContent::Message(msg));
    }
    let ghost v = app@;
    let off = list_offset(app.cursor, height);
    let n: usize = if off >= app.visible.len() {
        0
    } else if app.visible.len() - off < height {
        app.visible.len() - off
    } else {
        height
    };
    assert(n == window_len(v, height));
    let mut rows: Vec<Piece> = Vec::new();
    let mut k: usize = 0;
    while k < n
        invariant
            v == app@,
            window_ok(v, height),
            off == first_row(v.cursor, height),
            n == window_len(v, height),
            k <= n,
            forall|j: int|
                0 <= j < k ==> row_drawable(#[trigger] window_entry(v, height, j), width as nat),
            piece_views(rows@) == window_rows(v, height, width).take(k as int),
        decreases n - k,
    {
        let i = off + k;
        assert(v.visible[off + k as int] < v.entries.len());
        let e = &app.entries[app.visible[i]];
        assert(*e == window_entry(v, height, k as int));
        match list_row(e, i == app.cursor, i % 2 == 1, width) {
            Some(p) => {
                let ghost before = piece_views(rows@);
                let ghost pv: PieceView = (p.text@, p.role);
                assert(pv == window_rows(v, height, width)[k as int]);
                rows.push(p);
                assert(piece_views(rows@) =~= before.push(pv));
            },
            None => {
                return None;
            },
        }
        k = k + 1;
        assert(piece_views(rows@) =~= window_rows(v, height, width).take(k as int));
    }
    assert(window_rows(v, height, width).take(n as int) =~= window_rows(v, height, width));
    Some(ListContent::Rows(rows))
}

// ---------------------------------------------------------------------
// The footer
// ---------------------------------------------------------------------

/// The focus marker of the footer: which side has the keys, while the right
/// panel shows the editor or the viewer.
pub open spec fn focus_marker(v: AppView) -> Seq<char> {
    if v.editor_alive {
        match v.focus {
            Focus::Left => " [browse]"@,
            Focus::Right => " [vim]"@,
        }
    } else if v.md_viewer is Some {
        match v.focus {
            Focus::Left => " [browse]"@,
            Focus::Right => " [view]"@,
        }
    } else {
        seq![]
    }
}

/// The counts of the footer: visible directories and files, `[H]` while
/// hidden entries are shown, and the focus marker.
pub open spec fn counts_text(v: AppView) -> Seq<char> {
    "  \u{2502} "@ + decimal(count_kind(v.visible, v.entries, true)) + " dirs, "@ + decimal(
        count_kind(v.visible, v.entries, false),
    ) + " files"@ + (if v.show_hidden {
        " [H]"@
    } else {
        seq![]
    }) + focus_marker(v)
}

/// The key hints and counts of the footer in normal mode.
pub open spec fn footer_hints(v: AppView) -> Seq<PieceView> {
    seq![
        ("  "@, Role::Status),
        ("</>"@, Role::KeyHint),
        ("search "@, Role::Status),
        ("<.>"@, Role::KeyHint),
        ("hidden "@, Role::Status),
        ("<A-h/l>"@, Role::KeyHint),
        ("resize "@, Role::Status),
        ("<C-Space>"@, Role::KeyHint),
        ("focus "@, Role::Status),
    ] + (if v.md_viewer is Some && v.focus == Focus::Right {
        seq![("<e>"@, Role::KeyHint), ("edit "@, Role::Status)]
    } else {
        seq![]
    }) + seq![("<q>"@, Role::KeyHint), ("quit"@, Role::Status), (counts_text(v), Role::Status)] + (
    if v.search_query.len() > 0 {
        seq![("  filter: \""@ + v.search_query + "\""@, Role::Status)]
    } else {
        seq![]
    })
}

/// The footer: the query and the number of matches while searching, else
/// the status message where there is one, else the key hints and counts.
pub open spec fn footer(v: AppView) -> Seq<PieceView> {
    match v.mode {
        Mode::Search => seq![
            ("  /"@ + v.search_query + "\u{2588}"@, Role::SearchInput),
            ("  "@ + decimal(v.visible.len()) + " matches"@, Role::Status),
        ],
        Mode::Normal => match v.status_message {
            Some(err) => seq![("  \u{26a0} "@ + err, Role::Error)],
            None => footer_hints(v),
        },
    }
}

/// `a`, then the characters of `b`, then `c`.
fn framed(a: &str, b: &[char], c: &str) -> (r: Vec<char>)
    ensures
        r@ == a@ + b@ + c@,
{
    let mut out = chars_of(a);
    push_all(&mut out, b);
    let tail = chars_of(c);
    push_all(&mut out, tail.as_slice());
    out
}

/// The footer of the browser (see `footer`).
pub fn footer_pieces(app: &App) -> (r: Vec<Piece>)
    requires
        indices_ok(app@),
    ensures
        piece_views(r@) == footer(app@),
{
    let mut out: Vec<Piece> = Vec::new();
    let query = chars_of(app.search_query.as_str());
    match app.mode {
        Mode::Search => {
            out.push(piece_of(&framed("  /", query.as_slice(), "\u{2588}"), Role::SearchInput));
            let n = decimal_chars(app.visible.len() as u64);
            out.push(piece_of(&framed("  ", n.as_slice(), " matches"), Role::Status));
            assert(piece_views(out@) =~= footer(app@));
            return out;
        },
        Mode::Normal => {},
    }
    if let Some(err) = &app.status_message {
        let mut text = chars_of("  \u{26a0} ");
        let ec = chars_of(err.as_str());
        push_all(&mut text, ec.as_slice());
        out.push(piece_of(&text, Role::Error));
        assert(piece_views(out@) =~= footer(app@));
        return out;
    }
    out.push(piece("  ", Role::Status));
    out.push(piece("</>", Role::KeyHint));
    out.push(piece("search ", Role::Status));
    out.push(piece("<.>", Role::KeyHint));
    out.push(piece("hidden ", Role::Status));
    out.push(piece("<A-h/l>", Role::KeyHint));
    out.push(piece("resize ", Role::Status));
    out.push(piece("<C-Space>", Role::KeyHint));
    out.push(piece("focus ", Role::Status));
    if app.md_viewer.is_some() && app.focus == Focus::Right {
        out.push(piece("<e>", Role::KeyHint));
        out.push(piece("edit ", Role::Status));
    }
    out.push(piece("<q>", Role::KeyHint));
    out.push(piece("quit", Role::Status));
    let dirs = app.dir_count();
    let files = app.file_count();
    let dc = decimal_chars(dirs as u64);
    let fc = decimal_chars(files as u64);
    let mut counts = framed("  \u{2502} ", dc.as_slice(), " dirs, ");
    push_all(&mut counts, fc.as_slice());
    let files_word = chars_of(" files");
    push_all(&mut counts, files_word.as_slice());
    if app.show_hidden {
        let h = chars_of(" [H]");
        push_all(&mut counts, h.as_slice());
    }
    let marker: Option<&str> = if app.editor_alive {
        match app.focus {
            Focus::Left => Some(" [browse]"),
            Focus::Right => Some(" [vim]"),
        }
    } else if app.md_viewer.is_some() {
        match app.focus {
            Focus::Left => Some(" [browse]"),
            Focus::Right => Some(" [view]"),
        }
    } else {
        None
    };
    if let Some(m) = marker {
        let mc = chars_of(m);
        push_all(&mut counts, mc.as_slice());
    }
    assert(counts@ =~= counts_text(app@));
    out.push(piece_of(&counts, Role::Status));
    if query.len() > 0 {
        out.push(piece_of(&framed("  filter: \"", query.as_slice(), "\""), Role::Status));
    }
    assert(piece_views(out@) =~= footer(app@));
    out
}

// ---------------------------------------------------------------------
// The metadata line
// ---------------------------------------------------------------------

/// The separator between the facts of the metadata line.
pub open spec fn separator() -> PieceView {
    ("  \u{00b7}  "@, Role::TextDim)
}

/// The facts of the metadata line for the selected entry `e`: its name, its
/// size (files only), its permissions and age where its metadata could be
/// read (`stat`: the mode, and the age in seconds where the modification
/// time could be read, `None` for one in the future), and its type.
pub open spec fn metadata(e: Option<FileEntry>, stat: Option<(u32, Option<Option<u64>>)>) -> Seq<PieceView> {
    match e {
        None => seq![("  (nothing selected)"@, Role::TextDim)],
        Some(e) => {
            let name = if e.is_dir {
                ("  "@ + e.name@ + "/"@, Role::DirEntry)
            } else {
                ("  "@ + e.name@, Role::Text)
            };
            let size = if e.is_dir {
                seq![]
            } else {
                seq![separator(), (size_text(e.size as nat), Role::Status)]
            };
            let facts = match stat {
                Some((mode, modified)) => seq![separator(), (perm_text(mode), Role::Status)]
                    + match modified {
                    Some(age) => seq![separator(), (age_text(age), Role::Status)],
                    None => seq![],
                },
                None => seq![],
            };
            let kind = if e.is_dir {
                "directory"@
            } else {
                type_label(path_extension(e.path@))
            };
            seq![name] + size + facts + seq![separator(), (kind, Role::KeyHint)]
        },
    }
}

fn push_piece(out: &mut Vec<Piece>, p: Piece)
    ensures
        piece_views(final(out)@) == piece_views(old(out)@).push((p.text@, p.role)),
{
    let ghost pv: PieceView = (p.text@, p.role);
    out.push(p);
    assert(piece_views(out@) =~= piece_views(old(out)@).push(pv));
}

fn push_separator(out: &mut Vec<Piece>)
    ensures
        piece_views(final(out)@) == piece_views(old(out)@).push(separator()),
{
    out.push(piece("  \u{00b7}  ", Role::TextDim));
    assert(piece_views(out@) =~= piece_views(old(out)@).push(separator()));
}

/// The values of an optional entry.
pub open spec fn opt_entry(e: Option<&FileEntry>) -> Option<FileEntry> {
    match e {
        Some(e) => Some(*e),
        None => None,
    }
}

/// The metadata line of the selected entry (see `metadata`).
pub fn metadata_pieces(entry: Option<&FileEntry>, stat: Option<(u32, Option<Option<u64>>)>) -> (r: Vec<Piece>)
    ensures
        piece_views(r@) == metadata(opt_entry(entry), stat),
{
    let mut out: Vec<Piece> = Vec::new();
    match entry {
        None => {
            push_piece(&mut out, piece("  (nothing selected)", Role::TextDim));
            assert(piece_views(out@) =~= metadata(None, stat));
            out
        },
        Some(e) => {
            let ghost name_piece: PieceView = if e.is_dir {
                ("  "@ + e.name@ + "/"@, Role::DirEntry)
            } else {
                ("  "@ + e.name@, Role::Text)
            };
            let ghost size: Seq<PieceView> = if e.is_dir {
                seq![]
            } else {
                seq![separator(), (size_text(e.size as nat), Role::Status)]
            };
            let name = chars_of(e.name.as_str());
            if e.is_dir {
                push_piece(&mut out, piece_of(&framed("  ", name.as_slice(), "/"), Role::DirEntry));
            } else {
                let mut text = chars_of("  ");
                push_all(&mut text, name.as_slice());
                push_piece(&mut out, piece_of(&text, Role::Text));
                push_separator(&mut out);
                let size_str = format_size(e.size);
                push_piece(&mut out, piece(size_str.as_str(), Role::Status));
            }
            assert(piece_views(out@) =~= seq![name_piece] + size);
            let ghost head = piece_views(out@);
            match stat {
                Some((mode, modified)) => {
                    push_separator(&mut out);
                    let perms = format_perms(mode);
                    push_piece(&mut out, piece(perms.as_str(), Role::Status));
                    match modified {
                        Some(age) => {
                            push_separator(&mut out);
                            let text = format_age(age);
                            push_piece(&mut out, piece(text.as_str(), Role::Status));
                        },
                        None => {},
                    }
                },
                None => {},
            }
            let ghost facts: Seq<PieceView> = match stat {
                Some((mode, modified)) => seq![separator(), (perm_text(mode), Role::Status)]
                    + match modified {
                    Some(age) => seq![separator(), (age_text(age), Role::Status)],
                    None => seq![],
                },
                None => seq![],
            };
            assert(piece_views(out@) =~= head + facts);
            push_separator(&mut out);
            if e.is_dir {
                push_piece(&mut out, piece("directory", Role::KeyHint));
            } else {
                let kind = detect_type(e.path.as_str());
                push_piece(&mut out, piece(kind.as_str(), Role::KeyHint));
            }
            assert(piece_views(out@) =~= metadata(Some(*e), stat));
            out
        },
    }
}

// ---------------------------------------------------------------------
// The markdown viewer and the editor
// ---------------------------------------------------------------------

/// The title of the viewer of the file `path`: its file name, or the path
/// where it has none, between a marker and a hint.
pub open spec fn viewer_title(path: Seq<char>) -> Seq<PieceView> {
    seq![
        (" \u{2592} "@, Role::TextDim),
        (root_name(path), Role::Title),
        ("  read-only \u{2014} press <e> to edit "@, Role::TextDim),
    ]
}

/// The title of the viewer of the file `path` (see `viewer_title`).
pub fn viewer_title_pieces(path: &str) -> (r: Vec<Piece>)
    ensures
        piece_views(r@) == viewer_title(path@),
{
    let name = match file_name(path) {
        Some(n) => n,
        None => string_of(chars_of(path).as_slice()),
    };
    let mut out: Vec<Piece> = Vec::new();
    out.push(piece(" \u{2592} ", Role::TextDim));
    out.push(piece(name.as_str(), Role::Title));
    out.push(piece("  read-only \u{2014} press <e> to edit ", Role::TextDim));
    assert(piece_views(out@) =~= viewer_title(path@));
    out
}

/// The directory the editor of `file` starts in: the file's parent, unless
/// that is empty.
pub open spec fn editor_start_dir(file: Seq<char>) -> Option<Seq<char>> {
    match path_parent(file) {
        Some(p) => if p.len() > 0 {
            Some(p)
        } else {
            None
        },
        None => None,
    }
}

/// The directory the editor of `file` starts in (see `editor_start_dir`).
pub fn editor_dir(file: &str) -> (r: Option<String>)
    ensures
        match editor_start_dir(file@) {
            Some(d) => r matches Some(s) && s@ == d,
            None => r is None,
        },
{
    match parent(file) {
        Some(p) => {
            if p.as_str().is_empty() {
                None
            } else {
                Some(p)
            }
        },
        None => None,
    }
}

} // verus!

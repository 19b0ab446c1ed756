//! The browser's state and how each action changes it.
//!
//! Reading the file system is left to the caller: an action that needs a
//! read returns an `Effect` naming it, and the caller hands the result back
//! through `load_directory`, `rebuild_tree` or `show_markdown`.
use vstd::prelude::*;
use crate::fuzzy::{entry_scores, filter_entries, lemma_rank_order, lemma_ranking_exists, rank_order};
use crate::input::Action;
use crate::md::{is_markdown, markdown_extension, max_scroll, MdViewer};
use crate::nav::FileEntry;
use crate::paths::{home_dir, parent, path_extension, path_parent};
use crate::text::{chars_of, slice_chars, string_of};
use crate::tree::{build, node_views, tree_nodes, NodeSpec, RawEntry, TreeNode};

verus! {

/// Whether keys browse or edit the search query.
#[derive(Clone, Copy, PartialEq, Eq, Structural, Debug)]
pub enum Mode {
    Normal,
    Search,
}

/// Which side has the keyboard.
#[derive(Clone, Copy, PartialEq, Eq, Structural, Debug)]
pub enum Focus {
    Left,
    Right,
}

/// The narrowest the tree panel gets, in percent of the width.
pub const TREE_PCT_MIN: u16 = 10;

/// The widest the tree panel gets, in percent of the width.
pub const TREE_PCT_MAX: u16 = 50;

/// The narrowest the right panel gets, in percent of the width.
pub const RIGHT_PCT_MIN: u16 = 20;

/// The widest the right panel gets, in percent of the width.
pub const RIGHT_PCT_MAX: u16 = 75;

/// The least share of the width a resize leaves to the list.
pub const LIST_PCT_MIN: u16 = 15;

/// How many percent one resize moves a panel's edge.
pub const RESIZE_STEP: u16 = 5;

/// A read the browser needs after an action before its state is complete.
#[derive(Debug)]
pub enum Effect {
    /// Nothing to read.
    Nothing,
    /// Read the listing and the tree of `current_dir`, then call
    /// `load_directory`.
    ReadDirectory,
    /// Read the tree of `current_dir`, then call `rebuild_tree`.
    ReadTree,
    /// Read this markdown file, then call `show_markdown`.
    ReadMarkdown(String),
}

/// An effect as values.
pub enum Request {
    Nothing,
    ReadDirectory,
    ReadTree,
    ReadMarkdown(Seq<char>),
}

impl View for Effect {
    type V = Request;

    open spec fn view(&self) -> Request {
        match self {
            Effect::Nothing => Request::Nothing,
            Effect::ReadDirectory => Request::ReadDirectory,
            Effect::ReadTree => Request::ReadTree,
            Effect::ReadMarkdown(p) => Request::ReadMarkdown(p@),
        }
    }
}

/// The markdown viewer as values: path, content and scroll position.
pub type ViewerView = (Seq<char>, Seq<char>, u16);

/// The browser's state as values.
#[verifier::ext_equal]
pub struct AppView {
    pub current_dir: Seq<char>,
    pub entries: Seq<FileEntry>,
    pub visible: Seq<usize>,
    pub cursor: usize,
    pub mode: Mode,
    pub search_query: Seq<char>,
    pub show_hidden: bool,
    pub status_message: Option<Seq<char>>,
    pub should_quit: bool,
    pub selected_path: Option<Seq<char>>,
    pub open_in_editor: Option<Seq<char>>,
    pub focus: Focus,
    pub editor_alive: bool,
    pub tree: Seq<NodeSpec>,
    pub md_viewer: Option<ViewerView>,
    pub tree_pct: u16,
    pub right_pct: u16,
}

/// The state of the browser.
pub struct App {
    pub current_dir: String,
    pub entries: Vec<FileEntry>,
    /// Indices into `entries` that are currently visible (after hidden filter + fuzzy search).
    pub visible: Vec<usize>,
    /// Cursor position within `visible`.
    pub cursor: usize,
    pub mode: Mode,
    pub search_query: String,
    pub show_hidden: bool,
    pub status_message: Option<String>,
    pub should_quit: bool,
    pub selected_path: Option<String>,
    pub open_in_editor: Option<String>,
    pub focus: Focus,
    pub editor_alive: bool,
    pub tree: Vec<TreeNode>,
    pub md_viewer: Option<MdViewer>,
    pub tree_pct: u16,
    pub right_pct: u16,
}

/// The characters of an optional string.
pub open spec fn opt_chars(o: Option<String>) -> Option<Seq<char>> {
    match o {
        Some(s) => Some(s@),
        None => None,
    }
}

/// The values of an optional viewer.
pub open spec fn viewer_view(m: Option<MdViewer>) -> Option<ViewerView> {
    match m {
        Some(v) => Some((v.path@, v.content@, v.scroll)),
        None => None,
    }
}

impl View for App {
    type V = AppView;

    open spec fn view(&self) -> AppView {
        AppView {
            current_dir: self.current_dir@,
            entries: self.entries@,
            visible: self.visible@,
            cursor: self.cursor,
            mode: self.mode,
            search_query: self.search_query@,
            show_hidden: self.show_hidden,
            status_message: opt_chars(self.status_message),
            should_quit: self.should_quit,
            selected_path: opt_chars(self.selected_path),
            open_in_editor: opt_chars(self.open_in_editor),
            focus: self.focus,
            editor_alive: self.editor_alive,
            tree: node_views(self.tree@),
            md_viewer: viewer_view(self.md_viewer),
            tree_pct: self.tree_pct,
            right_pct: self.right_pct,
        }
    }
}

// ---------------------------------------------------------------------
// What is visible
// ---------------------------------------------------------------------

/// The positions of the entries the hidden filter lets through, in order.
pub open spec fn shown_positions(entries: Seq<FileEntry>, show_hidden: bool) -> Seq<usize>
    decreases entries.len(),
{
    if entries.len() == 0 {
        seq![]
    } else {
        let before = shown_positions(entries.drop_last(), show_hidden);
        if show_hidden || !entries.last().is_hidden {
            before.push((entries.len() - 1) as usize)
        } else {
            before
        }
    }
}

/// The entries the hidden filter lets through, in order.
pub open spec fn shown_entries(entries: Seq<FileEntry>, show_hidden: bool) -> Seq<FileEntry> {
    shown_positions(entries, show_hidden).map_values(|k: usize| entries[k as int])
}

/// The positions of the entries shown for `query`: those the hidden filter
/// lets through, in listing order for an empty query, else ranked by their
/// fuzzy score.
pub open spec fn visible_for(entries: Seq<FileEntry>, show_hidden: bool, query: Seq<char>) -> Seq<usize> {
    let pos = shown_positions(entries, show_hidden);
    if query.len() == 0 {
        pos
    } else {
        rank_order(entry_scores(shown_entries(entries, show_hidden), query)).map_values(
            |j: usize| pos[j as int],
        )
    }
}

proof fn lemma_shown_positions(entries: Seq<FileEntry>, show_hidden: bool)
    requires
        entries.len() <= usize::MAX,
    ensures
        forall|k: int| 0 <= k < shown_positions(entries, show_hidden).len() ==>
            #[trigger] shown_positions(entries, show_hidden)[k] < entries.len()
            && (show_hidden || !entries[shown_positions(entries, show_hidden)[k] as int].is_hidden),
        shown_positions(entries, show_hidden).len() <= entries.len(),
        forall|a: int, b: int|
            0 <= a < b < shown_positions(entries, show_hidden).len() ==> #[trigger] shown_positions(
                entries,
                show_hidden,
            )[a] < #[trigger] shown_positions(entries, show_hidden)[b],
    decreases entries.len(),
{
    if entries.len() > 0 {
        lemma_shown_positions(entries.drop_last(), show_hidden);
    }
}

/// A sequence of positions that strictly grows, mapped through `ranking`
/// entries that are all different, holds no position twice.
proof fn lemma_distinct_through(pos: Seq<usize>, ranking: Seq<usize>)
    requires
        forall|a: int, b: int| 0 <= a < b < pos.len() ==> #[trigger] pos[a] < #[trigger] pos[b],
        forall|k: int| 0 <= k < ranking.len() ==> #[trigger] ranking[k] < pos.len(),
        ranking.no_duplicates(),
    ensures
        ranking.map_values(|j: usize| pos[j as int]).no_duplicates(),
{
    let m = ranking.map_values(|j: usize| pos[j as int]);
    assert forall|a: int, b: int| 0 <= a < m.len() && 0 <= b < m.len() && a != b implies m[a] != m[b] by {
        let x = ranking[a] as int;
        let y = ranking[b] as int;
        assert(x != y);
        if x < y {
            assert(pos[x] < pos[y]);
        } else {
            assert(pos[y] < pos[x]);
        }
    }
}

/// A ranking holds no position twice.
proof fn lemma_ranked_distinct(r: Seq<usize>, s: Seq<Option<u32>>)
    requires
        crate::fuzzy::ranked(r, s),
    ensures
        r.no_duplicates(),
{
    assert forall|a: int, b: int| 0 <= a < r.len() && 0 <= b < r.len() && a != b implies r[a] != r[b] by {
        if a < b {
            assert(crate::fuzzy::outranks(s, r[a], r[b]));
        } else {
            assert(crate::fuzzy::outranks(s, r[b], r[a]));
        }
    }
}

/// The positions of the entries shown for `query` (see `visible_for`).
fn visible_indices(entries: &Vec<FileEntry>, show_hidden: bool, query: &str) -> (r: Vec<usize>)
    ensures
        r@ == visible_for(entries@, show_hidden, query@),
        forall|k: int| 0 <= k < r@.len() ==> #[trigger] r@[k] < entries@.len()
            && (show_hidden || !entries@[r@[k] as int].is_hidden),
        r@.no_duplicates(),
{
    let mut pos: Vec<usize> = Vec::new();
    let mut filtered: Vec<FileEntry> = Vec::new();
    let mut i: usize = 0;
    while i < entries.len()
        invariant
            i <= entries@.len(),
            pos@ == shown_positions(entries@.take(i as int), show_hidden),
            filtered@ == pos@.map_values(|k: usize| entries@[k as int]),
        decreases entries@.len() - i,
    {
        proof {
            lemma_shown_positions(entries@.take(i as int), show_hidden);
            assert(entries@.take(i + 1).drop_last() =~= entries@.take(i as int));
        }
        if show_hidden || !entries[i].is_hidden {
            pos.push(i);
            filtered.push(entries[i].copy());
        }
        i = i + 1;
        assert(filtered@ =~= pos@.map_values(|k: usize| entries@[k as int]));
    }
    assert(entries@.take(entries@.len() as int) =~= entries@);
    proof {
        lemma_shown_positions(entries@, show_hidden);
    }
    if query.is_empty() {
        assert(pos@.no_duplicates()) by {
            assert forall|a: int, b: int|
                0 <= a < pos@.len() && 0 <= b < pos@.len() && a != b implies pos@[a] != pos@[b] by {
                if a < b {
                    assert(pos@[a] < pos@[b]);
                } else {
                    assert(pos@[b] < pos@[a]);
                }
            }
        }
        return pos;
    }
    let fi = filter_entries(filtered.as_slice(), query);
    proof {
        lemma_rank_order(fi@, entry_scores(filtered@, query@));
        lemma_ranked_distinct(fi@, entry_scores(filtered@, query@));
    }
    let mut out: Vec<usize> = Vec::new();
    let mut k: usize = 0;
    while k < fi.len()
        invariant
            k <= fi@.len(),
            forall|j: int| 0 <= j < fi@.len() ==> #[trigger] fi@[j] < pos@.len(),
            out@ == fi@.take(k as int).map_values(|j: usize| pos@[j as int]),
        decreases fi@.len() - k,
    {
        out.push(pos[fi[k]]);
        k = k + 1;
        assert(out@ =~= fi@.take(k as int).map_values(|j: usize| pos@[j as int]));
    }
    assert(fi@.take(fi@.len() as int) =~= fi@);
    assert forall|k: int| 0 <= k < out@.len() implies #[trigger] out@[k] < entries@.len()
        && (show_hidden || !entries@[out@[k] as int].is_hidden) by {
        assert(out@[k] == pos@[fi@[k] as int]);
    }
    proof {
        lemma_distinct_through(pos@, fi@);
    }
    out
}

// ---------------------------------------------------------------------
// How each action changes the state
// ---------------------------------------------------------------------

/// Every visible index names an entry.
pub open spec fn indices_ok(v: AppView) -> bool {
    forall|k: int| 0 <= k < v.visible.len() ==> #[trigger] v.visible[k] < v.entries.len()
}

/// The visible index under the cursor, if there is one, names an entry.
pub open spec fn cursor_entry_ok(v: AppView) -> bool {
    v.cursor < v.visible.len() ==> v.visible[v.cursor as int] < v.entries.len()
}

/// The cursor is on a visible entry, or at the top when nothing is visible.
pub open spec fn cursor_ok(v: AppView) -> bool {
    if v.visible.len() == 0 {
        v.cursor == 0
    } else {
        v.cursor < v.visible.len()
    }
}

/// With hidden entries filtered out, none of them is visible.
pub open spec fn hidden_ok(v: AppView) -> bool {
    !v.show_hidden ==> forall|k: int| 0 <= k < v.visible.len() ==> !(
    #[trigger] v.entries[v.visible[k] as int]).is_hidden
}

/// What holds of the state between actions: every visible index names an
/// entry and none is listed twice, the cursor is on one of them (or at the
/// top when there are none), and no hidden entry is visible while they are
/// filtered out.
pub open spec fn consistent(v: AppView) -> bool {
    indices_ok(v) && v.visible.no_duplicates() && cursor_ok(v) && hidden_ok(v)
}

/// Moving the cursor keeps the visible indices valid and the hidden entries
/// out of sight.
proof fn lemma_cursor_moved(v: AppView, w: AppView)
    requires
        w == (AppView { cursor: w.cursor, ..v }),
        indices_ok(v),
        hidden_ok(v),
    ensures
        indices_ok(w),
        hidden_ok(w),
        w.visible == v.visible,
{
}

/// The visible entries are those the hidden filter and the query select.
pub open spec fn synced(v: AppView) -> bool {
    v.visible == visible_for(v.entries, v.show_hidden, v.search_query)
}

/// The state with its visible entries recomputed and the cursor at the top.
pub open spec fn refiltered(v: AppView) -> AppView {
    AppView { visible: visible_for(v.entries, v.show_hidden, v.search_query), cursor: 0, ..v }
}

/// The state after moving to the directory `dir`: the search is cleared and
/// the directory is still to be read.
pub open spec fn navigated(v: AppView, dir: Seq<char>) -> AppView {
    AppView { current_dir: dir, search_query: seq![], mode: Mode::Normal, ..v }
}

/// Whether the path names a markdown file, by its extension.
pub open spec fn markdown_path(path: Seq<char>) -> bool {
    path_extension(path) matches Some(e) && markdown_extension(e)
}

/// Opening the file `path`: markdown is read for the viewer, everything else
/// goes to the editor.
pub open spec fn opened(v: AppView, path: Seq<char>) -> (AppView, Request) {
    if markdown_path(path) {
        (v, Request::ReadMarkdown(path))
    } else {
        (AppView { open_in_editor: Some(path), ..v }, Request::Nothing)
    }
}

/// The entry under the cursor, if there is one.
pub open spec fn entry_under_cursor(v: AppView) -> Option<FileEntry> {
    if v.cursor < v.visible.len() {
        Some(v.entries[v.visible[v.cursor as int] as int])
    } else {
        None
    }
}

/// `a - b`, or 0 where that is negative (`u16::saturating_sub`).
pub open spec fn sat_sub(a: int, b: int) -> int {
    if a >= b {
        a - b
    } else {
        0
    }
}

/// `x` clamped to `min..=max`.
pub open spec fn clamped(x: int, min: int, max: int) -> int {
    if x < min {
        min
    } else if x > max {
        max
    } else {
        x
    }
}

/// Whether something is shown in the right panel.
pub open spec fn right_active(v: AppView) -> bool {
    v.editor_alive || v.md_viewer is Some
}

/// The state after applying `delta` percent to the panel of the focused
/// side: the tree within `TREE_PCT_MIN..=TREE_PCT_MAX`, the right panel (only
/// while it shows something) within `RIGHT_PCT_MIN..=RIGHT_PCT_MAX`, and no
/// change that would leave the list less than `LIST_PCT_MIN`.
pub open spec fn resized(v: AppView, delta: int) -> AppView {
    match v.focus {
        Focus::Left => {
            let new = clamped(v.tree_pct + delta, TREE_PCT_MIN as int, TREE_PCT_MAX as int);
            let right = if right_active(v) {
                v.right_pct as int
            } else {
                0
            };
            if sat_sub(sat_sub(100, new), right) >= LIST_PCT_MIN {
                AppView { tree_pct: new as u16, ..v }
            } else {
                v
            }
        },
        Focus::Right => {
            if !right_active(v) {
                v
            } else {
                let new = clamped(v.right_pct + delta, RIGHT_PCT_MIN as int, RIGHT_PCT_MAX as int);
                if sat_sub(sat_sub(100, v.tree_pct as int), new) >= LIST_PCT_MIN {
                    AppView { right_pct: new as u16, ..v }
                } else {
                    v
                }
            }
        },
    }
}

/// The viewer scrolled `n` lines down, stopping at its last line.
pub open spec fn viewer_down(m: Option<ViewerView>, n: u16) -> Option<ViewerView> {
    match m {
        Some((p, c, s)) => Some(
            (p, c, if s + n > max_scroll(c) {
                max_scroll(c)
            } else {
                (s + n) as u16
            }),
        ),
        None => None,
    }
}

/// The viewer scrolled `n` lines up, stopping at its first line.
pub open spec fn viewer_up(m: Option<ViewerView>, n: u16) -> Option<ViewerView> {
    match m {
        Some((p, c, s)) => Some(
            (p, c, if s >= n {
                (s - n) as u16
            } else {
                0
            }),
        ),
        None => None,
    }
}

/// The viewer scrolled to its last line (`bottom`) or to its first.
pub open spec fn viewer_at(m: Option<ViewerView>, bottom: bool) -> Option<ViewerView> {
    match m {
        Some((p, c, s)) => Some(
            (p, c, if bottom {
                max_scroll(c)
            } else {
                0
            }),
        ),
        None => None,
    }
}

/// The cursor after the visible entries changed to `visible`: where it was,
/// as far as the last of them, or at the top when there are none.
pub open spec fn clamped_cursor(cursor: usize, visible: Seq<usize>) -> usize {
    if visible.len() > 0 {
        if cursor > visible.len() - 1 {
            (visible.len() - 1) as usize
        } else {
            cursor
        }
    } else {
        0
    }
}

/// The state after `action`, and what is to be read before it is complete.
/// `home` is the home directory, which only `GoHome` looks at.
pub open spec fn step(v: AppView, action: Action, home: Option<Seq<char>>) -> (AppView, Request) {
    match action {
        Action::Quit => (AppView { should_quit: true, ..v }, Request::Nothing),
        Action::MoveUp => (
            AppView {
                cursor: if v.cursor > 0 {
                    (v.cursor - 1) as usize
                } else {
                    v.cursor
                },
                ..v
            },
            Request::Nothing,
        ),
        Action::MoveDown => (
            AppView {
                cursor: if v.visible.len() > 0 && v.cursor < v.visible.len() - 1 {
                    (v.cursor + 1) as usize
                } else {
                    v.cursor
                },
                ..v
            },
            Request::Nothing,
        ),
        Action::Open => match entry_under_cursor(v) {
            Some(e) => if e.is_dir {
                (navigated(v, e.path@), Request::ReadDirectory)
            } else {
                opened(v, e.path@)
            },
            None => (v, Request::Nothing),
        },
        Action::Select => match entry_under_cursor(v) {
            Some(e) => if e.is_dir {
                (AppView { selected_path: Some(e.path@), should_quit: true, ..v }, Request::Nothing)
            } else {
                opened(v, e.path@)
            },
            None => (v, Request::Nothing),
        },
        Action::GoBack => match path_parent(v.current_dir) {
            Some(p) => (navigated(v, p), Request::ReadDirectory),
            None => (v, Request::Nothing),
        },
        Action::GoHome => match home {
            Some(h) => (navigated(v, h), Request::ReadDirectory),
            None => (v, Request::Nothing),
        },
        Action::GoTop => (AppView { cursor: 0, ..v }, Request::Nothing),
        Action::GoBottom => (
            AppView {
                cursor: if v.visible.len() > 0 {
                    (v.visible.len() - 1) as usize
                } else {
                    v.cursor
                },
                ..v
            },
            Request::Nothing,
        ),
        Action::ToggleHidden => {
            let visible = visible_for(v.entries, !v.show_hidden, v.search_query);
            (
                AppView {
                    show_hidden: !v.show_hidden,
                    visible,
                    cursor: clamped_cursor(v.cursor, visible),
                    ..v
                },
                Request::ReadTree,
            )
        },
        Action::EnterSearch => (
            refiltered(AppView { mode: Mode::Search, search_query: seq![], ..v }),
            Request::Nothing,
        ),
        Action::SearchInput(c) => (
            refiltered(AppView { search_query: v.search_query.push(c), ..v }),
            Request::Nothing,
        ),
        Action::SearchBackspace => (
            refiltered(
                AppView {
                    search_query: if v.search_query.len() > 0 {
                        v.search_query.drop_last()
                    } else {
                        v.search_query
                    },
                    ..v
                },
            ),
            Request::Nothing,
        ),
        Action::SearchConfirm => (AppView { mode: Mode::Normal, ..v }, Request::Nothing),
        Action::SearchCancel => (
            refiltered(AppView { mode: Mode::Normal, search_query: seq![], ..v }),
            Request::Nothing,
        ),
        Action::MdScrollDown => (
            AppView { md_viewer: viewer_down(v.md_viewer, 1), ..v },
            Request::Nothing,
        ),
        Action::MdScrollUp => (AppView { md_viewer: viewer_up(v.md_viewer, 1), ..v }, Request::Nothing),
        Action::MdPageDown => (
            AppView { md_viewer: viewer_down(v.md_viewer, 10), ..v },
            Request::Nothing,
        ),
        Action::MdPageUp => (
            AppView { md_viewer: viewer_up(v.md_viewer, 10), ..v },
            Request::Nothing,
        ),
        Action::MdTop => (
            AppView { md_viewer: viewer_at(v.md_viewer, false), ..v },
            Request::Nothing,
        ),
        Action::MdBottom => (
            AppView { md_viewer: viewer_at(v.md_viewer, true), ..v },
            Request::Nothing,
        ),
        Action::MdEdit => match v.md_viewer {
            Some((p, c, s)) => (AppView { open_in_editor: Some(p), ..v }, Request::Nothing),
            None => (v, Request::Nothing),
        },
        Action::CloseRight => (
            AppView { md_viewer: None, focus: Focus::Left, ..v },
            Request::Nothing,
        ),
        Action::ResizeShrink => (resized(v, -(RESIZE_STEP as int)), Request::Nothing),
        Action::ResizeGrow => (resized(v, RESIZE_STEP as int), Request::Nothing),
        Action::ToggleMouseCapture => (v, Request::Nothing),
        Action::Nothing => (v, Request::Nothing),
    }
}

/// A listing as values: its entries, or the message of the error that
/// stopped the read.
pub open spec fn listing_view(listing: Result<Vec<FileEntry>, String>) -> Result<Seq<FileEntry>, Seq<char>> {
    match listing {
        Ok(v) => Ok(v@),
        Err(m) => Err(m@),
    }
}

/// The share of the width left to the list: what the tree and, while it
/// shows something, the right panel leave of it.
pub open spec fn list_share(v: AppView) -> int {
    100 - v.tree_pct - if right_active(v) {
        v.right_pct as int
    } else {
        0
    }
}

/// Resizing keeps each panel within its bounds: the tree within
/// `TREE_PCT_MIN..=TREE_PCT_MAX`, the right panel within
/// `RIGHT_PCT_MIN..=RIGHT_PCT_MAX`.
pub proof fn lemma_resize_keeps_bounds(v: AppView, action: Action)
    requires
        action is ResizeShrink || action is ResizeGrow,
        TREE_PCT_MIN <= v.tree_pct <= TREE_PCT_MAX,
        RIGHT_PCT_MIN <= v.right_pct <= RIGHT_PCT_MAX,
    ensures
        TREE_PCT_MIN <= step(v, action, None).0.tree_pct <= TREE_PCT_MAX,
        RIGHT_PCT_MIN <= step(v, action, None).0.right_pct <= RIGHT_PCT_MAX,
{
}

/// Resizing never collapses the list: where it had at least `LIST_PCT_MIN`
/// percent of the width, it keeps that much.
pub proof fn lemma_resize_keeps_list(v: AppView, action: Action)
    requires
        action is ResizeShrink || action is ResizeGrow,
        list_share(v) >= LIST_PCT_MIN,
    ensures
        list_share(step(v, action, None).0) >= LIST_PCT_MIN,
{
}

/// Toggling the hidden filter twice brings back the entries that were
/// visible.
pub proof fn lemma_toggle_hidden_twice(v: AppView)
    requires
        synced(v),
    ensures
        step(step(v, Action::ToggleHidden, None).0, Action::ToggleHidden, None).0.visible == v.visible,
        step(step(v, Action::ToggleHidden, None).0, Action::ToggleHidden, None).0.show_hidden
            == v.show_hidden,
{
}

/// Typing a character into the search and erasing it gives back the query
/// and the entries that were visible.
pub proof fn lemma_type_then_erase(v: AppView, c: char)
    requires
        synced(v),
    ensures
        step(step(v, Action::SearchInput(c), None).0, Action::SearchBackspace, None).0.search_query
            == v.search_query,
        step(step(v, Action::SearchInput(c), None).0, Action::SearchBackspace, None).0.visible
            == v.visible,
{
    assert(v.search_query.push(c).drop_last() =~= v.search_query);
}

/// The visible entries are always those the hidden filter and the query
/// select, except after a move to another directory, until it is read.
pub proof fn lemma_step_keeps_synced(v: AppView, action: Action, home: Option<Seq<char>>)
    requires
        synced(v),
        !(step(v, action, home).1 is ReadDirectory),
    ensures
        synced(step(v, action, home).0),
{
}

/// A directory just read shows what the hidden filter and the query select.
pub proof fn lemma_loaded_is_synced(v: AppView, listing: Result<Seq<FileEntry>, Seq<char>>, raw: Seq<RawEntry>)
    ensures
        synced(loaded(v, listing, raw)),
{
}

/// Every position that `visible_for` lists names an entry, and with hidden
/// entries filtered out none of them is hidden.
pub proof fn lemma_visible_for_valid(entries: Seq<FileEntry>, show_hidden: bool, query: Seq<char>)
    requires
        entries.len() <= usize::MAX,
    ensures
        forall|k: int|
            0 <= k < visible_for(entries, show_hidden, query).len() ==> #[trigger] visible_for(
                entries,
                show_hidden,
                query,
            )[k] < entries.len() && (show_hidden
                || !entries[visible_for(entries, show_hidden, query)[k] as int].is_hidden),
        visible_for(entries, show_hidden, query).no_duplicates(),
{
    lemma_shown_positions(entries, show_hidden);
    let pos = shown_positions(entries, show_hidden);
    if query.len() > 0 {
        let sc = entry_scores(shown_entries(entries, show_hidden), query);
        lemma_ranking_exists(sc);
        let r = rank_order(sc);
        assert forall|k: int| 0 <= k < r.len() implies #[trigger] r[k] < pos.len() by {}
        lemma_ranked_distinct(r, sc);
        lemma_distinct_through(pos, r);
    } else {
        assert forall|a: int, b: int|
            0 <= a < pos.len() && 0 <= b < pos.len() && a != b implies pos[a] != pos[b] by {
            if a < b {
                assert(pos[a] < pos[b]);
            } else {
                assert(pos[b] < pos[a]);
            }
        }
    }
}

/// Whether two states agree on the entries, what is visible, the cursor and
/// the hidden filter.
pub open spec fn same_listing(v: AppView, w: AppView) -> bool {
    v.entries == w.entries && v.visible == w.visible && v.cursor == w.cursor && v.show_hidden
        == w.show_hidden
}

proof fn lemma_same_listing(v: AppView, w: AppView)
    requires
        same_listing(v, w),
        consistent(v),
    ensures
        consistent(w),
{
}

/// Every action keeps the state consistent (see `consistent`).
#[verifier::spinoff_prover]
pub proof fn lemma_step_keeps_consistent(v: AppView, action: Action, home: Option<Seq<char>>)
    requires
        consistent(v),
        v.entries.len() <= usize::MAX,
    ensures
        consistent(step(v, action, home).0),
{
    match action {
        Action::ToggleHidden => {
            lemma_visible_for_valid(v.entries, !v.show_hidden, v.search_query);
        },
        Action::EnterSearch | Action::SearchCancel => {
            lemma_visible_for_valid(v.entries, v.show_hidden, seq![]);
        },
        Action::SearchInput(c) => {
            lemma_visible_for_valid(v.entries, v.show_hidden, v.search_query.push(c));
        },
        Action::SearchBackspace => {
            let q = if v.search_query.len() > 0 {
                v.search_query.drop_last()
            } else {
                v.search_query
            };
            lemma_visible_for_valid(v.entries, v.show_hidden, q);
        },
        Action::MoveUp | Action::MoveDown | Action::GoTop | Action::GoBottom => {},
        _ => {
            assert(same_listing(v, step(v, action, home).0));
            lemma_same_listing(v, step(v, action, home).0);
        },
    }
}

/// A directory just read leaves the state consistent.
pub proof fn lemma_loaded_is_consistent(v: AppView, listing: Result<Seq<FileEntry>, Seq<char>>, raw: Seq<RawEntry>)
    requires
        listing matches Ok(e) ==> e.len() <= usize::MAX,
    ensures
        consistent(loaded(v, listing, raw)),
{
    match listing {
        Ok(e) => lemma_visible_for_valid(e, v.show_hidden, v.search_query),
        Err(m) => lemma_visible_for_valid(Seq::<FileEntry>::empty(), v.show_hidden, v.search_query),
    }
}

/// Moving down puts the cursor on the next entry, one further than it was,
/// unless it is on the last one (or nothing is visible); nothing else changes.
pub proof fn lemma_move_down(v: AppView, home: Option<Seq<char>>)
    ensures
        v.visible.len() > 0 && v.cursor + 1 < v.visible.len() ==> step(v, Action::MoveDown, home).0
            == (AppView { cursor: (v.cursor + 1) as usize, ..v }),
        !(v.visible.len() > 0 && v.cursor + 1 < v.visible.len()) ==> step(
            v,
            Action::MoveDown,
            home,
        ).0 == v,
        step(v, Action::MoveDown, home).1 is Nothing,
{
}

/// Moving up puts the cursor on the entry before, one less than it was,
/// unless it is at the top; nothing else changes.
pub proof fn lemma_move_up(v: AppView, home: Option<Seq<char>>)
    ensures
        v.cursor > 0 ==> step(v, Action::MoveUp, home).0 == (AppView {
            cursor: (v.cursor - 1) as usize,
            ..v
        }),
        v.cursor == 0 ==> step(v, Action::MoveUp, home).0 == v,
        step(v, Action::MoveUp, home).1 is Nothing,
{
}

/// Moving down and then up returns to the same entry, when there was one
/// below.
pub proof fn lemma_down_then_up(v: AppView)
    requires
        v.cursor + 1 < v.visible.len(),
        v.visible.len() <= usize::MAX,
    ensures
        step(step(v, Action::MoveDown, None).0, Action::MoveUp, None).0 == v,
{
    lemma_move_down(v, None);
    let w = step(v, Action::MoveDown, None).0;
    lemma_move_up(w, None);
    assert(step(w, Action::MoveUp, None).0 =~= v);
}

/// The top is the first entry; the bottom is the last one, where there is
/// any; only the cursor moves.
pub proof fn lemma_top_and_bottom(v: AppView, home: Option<Seq<char>>)
    ensures
        step(v, Action::GoTop, home).0 == (AppView { cursor: 0usize, ..v }),
        v.visible.len() > 0 ==> step(v, Action::GoBottom, home).0 == (AppView {
            cursor: (v.visible.len() - 1) as usize,
            ..v
        }),
        v.visible.len() == 0 ==> step(v, Action::GoBottom, home).0 == v,
{
}

/// Enter on a directory records its path and quits, so that the shell can
/// change to it; on a file it opens it as `Open` does. Nothing is read.
pub proof fn lemma_select(v: AppView, home: Option<Seq<char>>)
    requires
        v.cursor < v.visible.len(),
    ensures
        ({
            let e = v.entries[v.visible[v.cursor as int] as int];
            let (w, req) = step(v, Action::Select, home);
            &&& e.is_dir ==> w.should_quit && w.selected_path == Some(e.path@) && req is Nothing
                && w.current_dir == v.current_dir && w.visible == v.visible
            &&& !e.is_dir ==> (w, req) == step(v, Action::Open, home)
        }),
{
}

/// Opening a directory moves into it: the directory becomes the current one,
/// the search is cleared and its listing is asked for. Opening a file sends
/// markdown to the viewer (by asking for the file) and anything else to the
/// editor. With nothing under the cursor, nothing happens.
pub proof fn lemma_open(v: AppView, home: Option<Seq<char>>)
    ensures
        ({
            let (w, req) = step(v, Action::Open, home);
            if v.cursor < v.visible.len() {
                let e = v.entries[v.visible[v.cursor as int] as int];
                &&& e.is_dir ==> w.current_dir == e.path@ && w.search_query.len() == 0 && w.mode
                    == Mode::Normal && req == Request::ReadDirectory && !w.should_quit == !v.should_quit
                &&& !e.is_dir && markdown_path(e.path@) ==> w == v && req == Request::ReadMarkdown(
                    e.path@,
                )
                &&& !e.is_dir && !markdown_path(e.path@) ==> w.open_in_editor == Some(e.path@)
                    && req is Nothing && w.current_dir == v.current_dir
            } else {
                w == v && req is Nothing
            }
        }),
{
}

/// Going back moves to the parent directory and asks for its listing; at
/// the root nothing happens. Going home does the same with the home
/// directory.
pub proof fn lemma_go_back_and_home(v: AppView, home: Option<Seq<char>>)
    ensures
        path_parent(v.current_dir) matches Some(p) ==> step(v, Action::GoBack, home).0.current_dir
            == p && step(v, Action::GoBack, home).1 == Request::ReadDirectory,
        path_parent(v.current_dir) is None ==> step(v, Action::GoBack, home) == (v, Request::Nothing),
        home matches Some(h) ==> step(v, Action::GoHome, home).0.current_dir == h && step(
            v,
            Action::GoHome,
            home,
        ).1 == Request::ReadDirectory && step(v, Action::GoHome, home).0.search_query.len() == 0,
        home is None ==> step(v, Action::GoHome, home) == (v, Request::Nothing),
{
}

/// The search: starting it enters search mode with an empty query; a typed
/// character is appended to the query; Backspace removes the last one;
/// Enter keeps the query and returns to normal mode; Escape clears it and
/// returns to normal mode. Each edit of the query puts the cursor at the top
/// and shows what the new query selects.
pub proof fn lemma_search_edits(v: AppView, c: char, home: Option<Seq<char>>)
    ensures
        step(v, Action::EnterSearch, home).0.mode == Mode::Search,
        step(v, Action::EnterSearch, home).0.search_query.len() == 0,
        step(v, Action::SearchInput(c), home).0.search_query == v.search_query + seq![c],
        v.search_query.len() > 0 ==> step(v, Action::SearchBackspace, home).0.search_query
            == v.search_query.take(v.search_query.len() - 1),
        v.search_query.len() == 0 ==> step(v, Action::SearchBackspace, home).0.search_query.len()
            == 0,
        step(v, Action::SearchConfirm, home).0 == (AppView { mode: Mode::Normal, ..v }),
        step(v, Action::SearchCancel, home).0.mode == Mode::Normal,
        step(v, Action::SearchCancel, home).0.search_query.len() == 0,
        step(v, Action::SearchInput(c), home).0.cursor == 0,
        synced(step(v, Action::SearchInput(c), home).0),
        synced(step(v, Action::SearchBackspace, home).0),
        synced(step(v, Action::SearchCancel, home).0),
        synced(step(v, Action::EnterSearch, home).0),
{
    assert(v.search_query.push(c) =~= v.search_query + seq![c]);
    assert(v.search_query.len() > 0 ==> v.search_query.drop_last() =~= v.search_query.take(
        v.search_query.len() - 1,
    ));
}

/// Toggling hidden entries flips the filter and asks for the tree again;
/// quitting quits; closing the right panel drops the viewer and gives the
/// keys to the browser; editing from the viewer hands its file to the editor.
pub proof fn lemma_other_actions(v: AppView, home: Option<Seq<char>>)
    ensures
        step(v, Action::ToggleHidden, home).0.show_hidden == !v.show_hidden,
        step(v, Action::ToggleHidden, home).1 == Request::ReadTree,
        step(v, Action::Quit, home).0 == (AppView { should_quit: true, ..v }),
        step(v, Action::CloseRight, home).0.md_viewer is None,
        step(v, Action::CloseRight, home).0.focus == Focus::Left,
        v.md_viewer matches Some((p, c, s)) ==> step(v, Action::MdEdit, home).0 == (AppView {
            open_in_editor: Some(p),
            ..v
        }),
        v.md_viewer is None ==> step(v, Action::MdEdit, home).0 == v,
        step(v, Action::Nothing, home) == (v, Request::Nothing),
{
}

/// Scrolling the viewer by `n` lines moves it by exactly `n` where the
/// document allows, else to its last (or first) line; the path and content
/// stay.
pub proof fn lemma_scroll_by(p: Seq<char>, c: Seq<char>, s: u16, n: u16)
    ensures
        s + n <= max_scroll(c) ==> viewer_down(Some((p, c, s)), n) == Some((p, c, (s + n) as u16)),
        s + n > max_scroll(c) ==> viewer_down(Some((p, c, s)), n) == Some((p, c, max_scroll(c))),
        s >= n ==> viewer_up(Some((p, c, s)), n) == Some((p, c, (s - n) as u16)),
        s < n ==> viewer_up(Some((p, c, s)), n) == Some((p, c, 0u16)),
        viewer_down(None, n) is None && viewer_up(None, n) is None,
{
}

proof fn lemma_shown_positions_complete(entries: Seq<FileEntry>, show_hidden: bool, i: int)
    requires
        entries.len() <= usize::MAX,
        0 <= i < entries.len(),
        show_hidden || !entries[i].is_hidden,
    ensures
        shown_positions(entries, show_hidden).contains(i as usize),
    decreases entries.len(),
{
    let before = shown_positions(entries.drop_last(), show_hidden);
    if i == entries.len() - 1 {
        let sp = shown_positions(entries, show_hidden);
        assert(sp[sp.len() - 1] == i as usize);
    } else {
        lemma_shown_positions_complete(entries.drop_last(), show_hidden, i);
        let w = choose|w: int| 0 <= w < before.len() && before[w] == i as usize;
        assert(shown_positions(entries, show_hidden)[w] == i as usize);
    }
}

/// Without a query the listing shows, in listing order, exactly the entries
/// the hidden filter lets through: every position it lists passes the
/// filter, each comes after the one before, and no entry that passes is
/// left out.
pub proof fn lemma_listing_without_query(entries: Seq<FileEntry>, show_hidden: bool)
    requires
        entries.len() <= usize::MAX,
    ensures
        forall|k: int|
            0 <= k < visible_for(entries, show_hidden, Seq::<char>::empty()).len() ==> #[trigger] visible_for(
                entries,
                show_hidden,
                Seq::<char>::empty(),
            )[k] < entries.len() && (show_hidden || !entries[visible_for(
                entries,
                show_hidden,
                Seq::<char>::empty(),
            )[k] as int].is_hidden),
        forall|a: int, b: int|
            0 <= a < b < visible_for(entries, show_hidden, Seq::<char>::empty()).len() ==> #[trigger] visible_for(
                entries,
                show_hidden,
                Seq::<char>::empty(),
            )[a] < #[trigger] visible_for(entries, show_hidden, Seq::<char>::empty())[b],
        forall|i: usize|
            i < entries.len() && (show_hidden || !entries[i as int].is_hidden) ==> #[trigger] visible_for(
                entries,
                show_hidden,
                Seq::<char>::empty(),
            ).contains(i),
{
    lemma_shown_positions(entries, show_hidden);
    assert(visible_for(entries, show_hidden, Seq::<char>::empty()) == shown_positions(entries, show_hidden));
    assert forall|i: usize|
        i < entries.len() && (show_hidden || !entries[i as int].is_hidden) implies #[trigger] visible_for(
        entries,
        show_hidden,
        Seq::<char>::empty(),
    ).contains(i) by {
        lemma_shown_positions_complete(entries, show_hidden, i as int);
    }
}

/// With a query, the listing shows exactly the entries the hidden filter
/// lets through that match it, best match first: it is a ranking of the
/// scores of the filtered entries, read back as positions in the listing.
pub proof fn lemma_listing_with_query(entries: Seq<FileEntry>, show_hidden: bool, query: Seq<char>)
    requires
        entries.len() <= usize::MAX,
        query.len() > 0,
    ensures
        ({
            let pos = shown_positions(entries, show_hidden);
            let r = rank_order(entry_scores(shown_entries(entries, show_hidden), query));
            &&& crate::fuzzy::ranked(r, entry_scores(shown_entries(entries, show_hidden), query))
            &&& visible_for(entries, show_hidden, query) == r.map_values(|j: usize| pos[j as int])
        }),
{
    lemma_shown_positions(entries, show_hidden);
    lemma_ranking_exists(entry_scores(shown_entries(entries, show_hidden), query));
}

/// Scrolling never leaves the document: from a line within it, scrolling
/// either way by any amount, or to either end, stays within it.
pub proof fn lemma_scroll_stays_in_document(m: Option<ViewerView>, n: u16)
    requires
        m matches Some((p, c, s)) && s <= max_scroll(c),
    ensures
        viewer_down(m, n) matches Some((p, c, s)) && s <= max_scroll(c),
        viewer_up(m, n) matches Some((p, c, s)) && s <= max_scroll(c),
        viewer_at(m, true) matches Some((p, c, s)) && s <= max_scroll(c),
        viewer_at(m, false) matches Some((p, c, s)) && s <= max_scroll(c),
{
}

/// The state once the directory `current_dir` was read: its entries (none,
/// and the message shown, where it could not be read), its tree, everything
/// the filter and query let through, and the cursor at the top.
pub open spec fn loaded(v: AppView, listing: Result<Seq<FileEntry>, Seq<char>>, raw: Seq<RawEntry>) -> AppView {
    let entries = match listing {
        Ok(e) => e,
        Err(m) => Seq::<FileEntry>::empty(),
    };
    let status = match listing {
        Ok(e) => None,
        Err(m) => Some(m),
    };
    AppView {
        entries,
        status_message: status,
        tree: tree_nodes(v.current_dir, raw, v.show_hidden),
        visible: visible_for(entries, v.show_hidden, v.search_query),
        cursor: 0,
        ..v
    }
}

/// The state of a browser started in `start_dir`, before its directory is read.
pub open spec fn initial(start_dir: Seq<char>) -> AppView {
    AppView {
        current_dir: start_dir,
        entries: seq![],
        visible: seq![],
        cursor: 0,
        mode: Mode::Normal,
        search_query: seq![],
        show_hidden: true,
        status_message: None,
        should_quit: false,
        selected_path: None,
        open_in_editor: None,
        focus: Focus::Left,
        editor_alive: false,
        tree: seq![],
        md_viewer: None,
        tree_pct: 25,
        right_pct: 40,
    }
}

/// The text `md: ` followed by `message`.
pub open spec fn md_error(message: Seq<char>) -> Seq<char> {
    seq!['m', 'd', ':', ' '] + message
}

/// The state once the markdown file `path` was read: shown in the viewer
/// from its first line, or the error shown where it could not be read.
pub open spec fn markdown_shown(v: AppView, path: Seq<char>, content: Result<Seq<char>, Seq<char>>) -> AppView {
    match content {
        Ok(c) => AppView { md_viewer: Some((path, c, 0u16)), status_message: None, ..v },
        Err(e) => AppView { status_message: Some(md_error(e)), ..v },
    }
}

/// The path lies inside the directory `h`: it starts with `h` and a `/`.
pub open spec fn inside(path: Seq<char>, h: Seq<char>) -> bool {
    h.is_prefix_of(path) && path.len() > h.len() && path[h.len() as int] == '/'
}

/// The path as it is shown, with the home directory replaced by `~`: `~`
/// for the home directory itself, `~` followed by the rest for a path inside
/// it, else the path unchanged.
pub open spec fn display_text(path: Seq<char>, home: Option<Seq<char>>) -> Seq<char> {
    match home {
        Some(h) => if path == h {
            seq!['~']
        } else if inside(path, h) {
            seq!['~'] + path.skip(h.len() as int)
        } else {
            path
        },
        None => path,
    }
}

/// How many of the entries at the positions `visible` are directories (or,
/// with `dirs` false, files).
pub open spec fn count_kind(visible: Seq<usize>, entries: Seq<FileEntry>, dirs: bool) -> nat
    decreases visible.len(),
{
    if visible.len() == 0 {
        0
    } else {
        count_kind(visible.drop_last(), entries, dirs) + if entries[visible.last() as int].is_dir
            == dirs {
            1nat
        } else {
            0nat
        }
    }
}

proof fn lemma_count_kind_bound(visible: Seq<usize>, entries: Seq<FileEntry>, dirs: bool)
    ensures
        count_kind(visible, entries, dirs) <= visible.len(),
    decreases visible.len(),
{
    if visible.len() > 0 {
        lemma_count_kind_bound(visible.drop_last(), entries, dirs);
    }
}

/// `s` without its last character, if it has one.
fn without_last(s: &str) -> (r: String)
    ensures
        r@ == (if s@.len() > 0 {
            s@.drop_last()
        } else {
            s@
        }),
{
    let cs = chars_of(s);
    if cs.len() == 0 {
        return String::new();
    }
    let head = slice_chars(cs.as_slice(), 0, cs.len() - 1);
    assert(cs@.subrange(0, cs@.len() - 1) =~= s@.drop_last());
    string_of(head.as_slice())
}

/// `current + delta` kept within `min..=max`.
fn clamp_pct(current: u16, delta: i16, min: u16, max: u16) -> (r: u16)
    requires
        min <= max,
    ensures
        r == clamped(current + delta, min as int, max as int),
{
    let signed: i32 = current as i32 + delta as i32;
    if signed < min as i32 {
        min
    } else if signed > max as i32 {
        max
    } else {
        signed as u16
    }
}

impl App {
    /// The browser started in `start_dir`, whose listing and tree are
    /// `listing` and `tree_listing`.
    pub fn new(start_dir: String, listing: Result<Vec<FileEntry>, String>, tree_listing: &Vec<RawEntry>) -> (app: App)
        ensures
            app@ == loaded(initial(start_dir@), listing_view(listing), tree_listing@),
            consistent(app@),
    {
        let mut app = App {
            current_dir: start_dir,
            entries: Vec::new(),
            visible: Vec::new(),
            cursor: 0,
            mode: Mode::Normal,
            search_query: String::new(),
            show_hidden: true,
            status_message: None,
            should_quit: false,
            selected_path: None,
            open_in_editor: None,
            focus: Focus::Left,
            editor_alive: false,
            tree: Vec::new(),
            md_viewer: None,
            tree_pct: 25,
            right_pct: 40,
        };
        assert(app@ =~= initial(start_dir@));
        app.load_directory(listing, tree_listing);
        app
    }

    /// Takes in the listing of `current_dir` (sorted, or the message of the
    /// error that stopped the read) and its tree.
    pub fn load_directory(&mut self, listing: Result<Vec<FileEntry>, String>, tree_listing: &Vec<RawEntry>)
        ensures
            final(self)@ == loaded(old(self)@, listing_view(listing), tree_listing@),
            consistent(final(self)@),
    {
        match listing {
            Ok(entries) => {
                self.entries = entries;
                self.status_message = None;
            },
            Err(msg) => {
                self.entries = Vec::new();
                self.status_message = Some(msg);
            },
        }
        self.tree = build(self.current_dir.as_str(), tree_listing, self.show_hidden);
        self.cursor = 0;
        self.recompute_visible();
    }

    /// Takes in the tree of `current_dir`, after the hidden filter changed.
    pub fn rebuild_tree(&mut self, tree_listing: &Vec<RawEntry>)
        ensures
            final(self)@ == (AppView {
                tree: tree_nodes(old(self)@.current_dir, tree_listing@, old(self)@.show_hidden),
                ..old(self)@
            }),
    {
        self.tree = build(self.current_dir.as_str(), tree_listing, self.show_hidden);
    }

    /// Takes in what reading the markdown file `path` gave.
    pub fn show_markdown(&mut self, path: String, content: Result<String, String>)
        ensures
            final(self)@ == markdown_shown(old(self)@, path@, listing_text(content)),
    {
        match content {
            Ok(c) => {
                self.md_viewer = Some(MdViewer { path, content: c, scroll: 0 });
                self.status_message = None;
            },
            Err(e) => {
                let mut msg = String::new();
                msg.push('m');
                msg.push('d');
                msg.push(':');
                msg.push(' ');
                let ec = chars_of(e.as_str());
                let mut i: usize = 0;
                while i < ec.len()
                    invariant
                        i <= ec@.len(),
                        msg@ == seq!['m', 'd', ':', ' '] + ec@.take(i as int),
                    decreases ec@.len() - i,
                {
                    msg.push(ec[i]);
                    i = i + 1;
                    assert(msg@ =~= seq!['m', 'd', ':', ' '] + ec@.take(i as int));
                }
                assert(ec@.take(ec@.len() as int) =~= ec@);
                self.status_message = Some(msg);
            },
        }
    }

    /// Recompute the visible indices based on hidden filter and search query.
    fn recompute_visible(&mut self)
        ensures
            final(self)@ == (AppView {
                visible: visible_for(old(self)@.entries, old(self)@.show_hidden, old(self)@.search_query),
                ..old(self)@
            }),
            indices_ok(final(self)@),
            hidden_ok(final(self)@),
            final(self)@.visible.no_duplicates(),
    {
        self.visible = visible_indices(&self.entries, self.show_hidden, self.search_query.as_str());
    }

    /// True if there is something to show in the right panel.
    pub fn has_right_panel(&self) -> (r: bool)
        ensures
            r == right_active(self@),
    {
        self.editor_alive || self.md_viewer.is_some()
    }

    /// Open the file `path`: markdown goes to the viewer, everything else to vim.
    fn open_file_path(&mut self, path: String) -> (eff: Effect)
        ensures
            final(self)@ == opened(old(self)@, path@).0,
            eff@ == opened(old(self)@, path@).1,
    {
        if is_markdown(path.as_str()) {
            Effect::ReadMarkdown(path)
        } else {
            self.open_in_editor = Some(path);
            Effect::Nothing
        }
    }

    /// Move to the directory `dir`, clearing the search.
    fn navigate(&mut self, dir: String) -> (eff: Effect)
        ensures
            final(self)@ == navigated(old(self)@, dir@),
            eff@ == Request::ReadDirectory,
    {
        self.current_dir = dir;
        self.search_query = String::new();
        self.mode = Mode::Normal;
        Effect::ReadDirectory
    }

    /// Go to the home directory `home`, where there is one.
    pub fn go_home(&mut self, home: Option<String>) -> (eff: Effect)
        ensures
            final(self)@ == step(old(self)@, Action::GoHome, opt_chars(home)).0,
            eff@ == step(old(self)@, Action::GoHome, opt_chars(home)).1,
    {
        match home {
            Some(h) => self.navigate(h),
            None => Effect::Nothing,
        }
    }

    /// Moves the cursor for `MoveUp`, `MoveDown`, `GoTop` and `GoBottom`.
    fn move_cursor(&mut self, action: Action)
        requires
            action is MoveUp || action is MoveDown || action is GoTop || action is GoBottom,
        ensures
            final(self)@ == step(old(self)@, action, None).0,
            consistent(old(self)@) ==> consistent(final(self)@),
    {
        match action {
            Action::MoveUp => {
                if self.cursor > 0 {
                    self.cursor = self.cursor - 1;
                }
            },
            Action::MoveDown => {
                if self.visible.len() > 0 && self.cursor < self.visible.len() - 1 {
                    self.cursor = self.cursor + 1;
                }
            },
            Action::GoTop => {
                self.cursor = 0;
            },
            _ => {
                if self.visible.len() > 0 {
                    self.cursor = self.visible.len() - 1;
                }
            },
        }
    }

    /// Opens (`Open`) or picks (`Select`) the entry under the cursor.
    fn act_on_entry(&mut self, action: Action) -> (eff: Effect)
        requires
            action is Open || action is Select,
            cursor_entry_ok(old(self)@),
        ensures
            final(self)@ == step(old(self)@, action, None).0,
            eff@ == step(old(self)@, action, None).1,
            consistent(old(self)@) ==> consistent(final(self)@),
    {
        if self.cursor < self.visible.len() {
            let idx = self.visible[self.cursor];
            assert(self@.visible[self.cursor as int] < self@.entries.len());
            let path = self.entries[idx].path.clone();
            if self.entries[idx].is_dir {
                if action == Action::Open {
                    self.navigate(path)
                } else {
                    self.selected_path = Some(path);
                    self.should_quit = true;
                    Effect::Nothing
                }
            } else {
                self.open_file_path(path)
            }
        } else {
            Effect::Nothing
        }
    }

    /// Toggles the hidden filter or edits the search, recomputing what is
    /// visible.
    fn refilter(&mut self, action: Action) -> (eff: Effect)
        requires
            action is ToggleHidden || action is EnterSearch || action is SearchInput
                || action is SearchBackspace || action is SearchConfirm || action is SearchCancel,
        ensures
            final(self)@ == step(old(self)@, action, None).0,
            eff@ == step(old(self)@, action, None).1,
            consistent(old(self)@) ==> consistent(final(self)@),
    {
        match action {
            Action::ToggleHidden => {
                self.show_hidden = !self.show_hidden;
                self.recompute_visible();
                let ghost mid = self@;
                if self.visible.len() > 0 {
                    if self.cursor > self.visible.len() - 1 {
                        self.cursor = self.visible.len() - 1;
                    }
                } else {
                    self.cursor = 0;
                }
                proof {
                    lemma_cursor_moved(mid, self@);
                }
                Effect::ReadTree
            },
            Action::SearchConfirm => {
                self.mode = Mode::Normal;
                Effect::Nothing
            },
            _ => {
                match action {
                    Action::EnterSearch => {
                        self.mode = Mode::Search;
                        self.search_query = String::new();
                    },
                    Action::SearchInput(c) => {
                        self.search_query.push(c);
                    },
                    Action::SearchBackspace => {
                        self.search_query = without_last(self.search_query.as_str());
                    },
                    _ => {
                        self.mode = Mode::Normal;
                        self.search_query = String::new();
                    },
                }
                self.cursor = 0;
                self.recompute_visible();
                Effect::Nothing
            },
        }
    }

    /// Scrolls the markdown viewer, hands its file to the editor, or closes it.
    fn viewer_action(&mut self, action: Action)
        requires
            action is MdScrollDown || action is MdScrollUp || action is MdPageDown
                || action is MdPageUp || action is MdTop || action is MdBottom || action is MdEdit
                || action is CloseRight,
        ensures
            final(self)@ == step(old(self)@, action, None).0,
            consistent(old(self)@) ==> consistent(final(self)@),
    {
        match action {
            Action::MdEdit => {
                if let Some(v) = &self.md_viewer {
                    self.open_in_editor = Some(v.path.clone());
                }
            },
            Action::CloseRight => {
                self.md_viewer = None;
                if self.focus == Focus::Right {
                    self.focus = Focus::Left;
                }
            },
            _ => {
                if let Some(v) = &mut self.md_viewer {
                    match action {
                        Action::MdScrollDown => v.scroll_down(1),
                        Action::MdScrollUp => v.scroll_up(1),
                        Action::MdPageDown => v.scroll_down(10),
                        Action::MdPageUp => v.scroll_up(10),
                        Action::MdTop => v.scroll_top(),
                        _ => v.scroll_bottom(),
                    }
                }
            },
        }
    }

    /// Process an action and update state; the effect says what is to be
    /// read before the state is complete. Only `GoHome` depends on the
    /// environment, through the home directory.
    pub fn update(&mut self, action: Action) -> (eff: Effect)
        requires
            action is Open || action is Select ==> cursor_entry_ok(old(self)@),
        ensures
            action != Action::GoHome ==> final(self)@ == step(old(self)@, action, None).0
                && eff@ == step(old(self)@, action, None).1,
            exists|home: Option<Seq<char>>|
                final(self)@ == step(old(self)@, action, home).0 && eff@ == step(old(self)@, action, home).1,
            consistent(old(self)@) ==> consistent(final(self)@),
    {
        let ghost pre = self@;
        let eff = match action {
            Action::Quit => {
                self.should_quit = true;
                Effect::Nothing
            },
            Action::MoveUp | Action::MoveDown | Action::GoTop | Action::GoBottom => {
                self.move_cursor(action);
                Effect::Nothing
            },
            Action::Open | Action::Select => self.act_on_entry(action),
            Action::GoBack => {
                match parent(self.current_dir.as_str()) {
                    Some(p) => self.navigate(p),
                    None => Effect::Nothing,
                }
            },
            Action::GoHome => {
                let home = home_dir();
                let e = self.go_home(home);
                assert(self@ == step(pre, action, opt_chars(home)).0 && e@ == step(pre, action, opt_chars(home)).1);
                e
            },
            Action::ToggleHidden | Action::EnterSearch | Action::SearchInput(_)
            | Action::SearchBackspace | Action::SearchConfirm | Action::SearchCancel => {
                self.refilter(action)
            },
            Action::MdScrollDown | Action::MdScrollUp | Action::MdPageDown | Action::MdPageUp
            | Action::MdTop | Action::MdBottom | Action::MdEdit | Action::CloseRight => {
                self.viewer_action(action);
                Effect::Nothing
            },
            Action::ResizeShrink => {
                self.resize_focused(-(RESIZE_STEP as i16));
                Effect::Nothing
            },
            Action::ResizeGrow => {
                self.resize_focused(RESIZE_STEP as i16);
                Effect::Nothing
            },
            Action::ToggleMouseCapture | Action::Nothing => Effect::Nothing,
        };
        proof {
            if action != Action::GoHome {
                assert(self@ == step(pre, action, None).0 && eff@ == step(pre, action, None).1);
            }
        }
        eff
    }

    /// Apply `delta` percent to the panel whose size belongs to the current focus.
    /// Constraints keep each panel within reasonable bounds and the list panel
    /// from collapsing below `LIST_PCT_MIN`.
    fn resize_focused(&mut self, delta: i16)
        ensures
            final(self)@ == resized(old(self)@, delta as int),
    {
        let right_active = self.has_right_panel();
        match self.focus {
            Focus::Left => {
                let new = clamp_pct(self.tree_pct, delta, TREE_PCT_MIN, TREE_PCT_MAX);
                let right: u16 = if right_active {
                    self.right_pct
                } else {
                    0
                };
                let rest: u16 = if 100 >= new {
                    100 - new
                } else {
                    0
                };
                let list: u16 = if rest >= right {
                    rest - right
                } else {
                    0
                };
                if list >= LIST_PCT_MIN {
                    self.tree_pct = new;
                }
            },
            Focus::Right => {
                if !right_active {
                    return ;
                }
                let new = clamp_pct(self.right_pct, delta, RIGHT_PCT_MIN, RIGHT_PCT_MAX);
                let rest: u16 = if 100 >= self.tree_pct {
                    100 - self.tree_pct
                } else {
                    0
                };
                let list: u16 = if rest >= new {
                    rest - new
                } else {
                    0
                };
                if list >= LIST_PCT_MIN {
                    self.right_pct = new;
                }
            },
        }
    }

    /// Get the currently selected entry, if any.
    pub fn selected_entry(&self) -> (r: Option<&FileEntry>)
        requires
            cursor_entry_ok(self@),
        ensures
            match r {
                Some(e) => entry_under_cursor(self@) == Some(*e),
                None => entry_under_cursor(self@) is None,
            },
    {
        if self.cursor < self.visible.len() {
            assert(self@.visible[self.cursor as int] < self@.entries.len());
            Some(&self.entries[self.visible[self.cursor]])
        } else {
            None
        }
    }

    fn count_visible(&self, dirs: bool) -> (r: usize)
        requires
            indices_ok(self@),
        ensures
            r == count_kind(self.visible@, self.entries@, dirs),
    {
        let mut n: usize = 0;
        let mut i: usize = 0;
        while i < self.visible.len()
            invariant
                i <= self.visible@.len(),
                indices_ok(self@),
                n == count_kind(self.visible@.take(i as int), self.entries@, dirs),
            decreases self.visible@.len() - i,
        {
            proof {
                lemma_count_kind_bound(self.visible@.take(i as int), self.entries@, dirs);
                assert(self.visible@.take(i + 1).drop_last() =~= self.visible@.take(i as int));
            }
            assert(self@.visible[i as int] < self@.entries.len());
            if self.entries[self.visible[i]].is_dir == dirs {
                n = n + 1;
            }
            i = i + 1;
        }
        assert(self.visible@.take(self.visible@.len() as int) =~= self.visible@);
        n
    }

    /// Count of visible directories.
    pub fn dir_count(&self) -> (r: usize)
        requires
            indices_ok(self@),
        ensures
            r == count_kind(self.visible@, self.entries@, true),
    {
        self.count_visible(true)
    }

    /// Count of visible files.
    pub fn file_count(&self) -> (r: usize)
        requires
            indices_ok(self@),
        ensures
            r == count_kind(self.visible@, self.entries@, false),
    {
        self.count_visible(false)
    }

    /// Format the current directory path, replacing the home directory with
    /// `~`. Which directory is home depends on the environment.
    pub fn display_path(&self) -> (r: String)
        ensures
            exists|home: Option<Seq<char>>| r@ == display_text(self.current_dir@, home),
    {
        let home = home_dir();
        display_path_with_home(self.current_dir.as_str(), &home)
    }
}

/// A result of reading text as values.
pub open spec fn listing_text(content: Result<String, String>) -> Result<Seq<char>, Seq<char>> {
    match content {
        Ok(c) => Ok(c@),
        Err(e) => Err(e@),
    }
}

/// The path `path` as it is shown when the home directory is `home` (see
/// `display_text`).
pub fn display_path_with_home(path: &str, home: &Option<String>) -> (r: String)
    ensures
        r@ == display_text(path@, opt_chars(*home)),
{
    let pc = chars_of(path);
    match home {
        None => string_of(pc.as_slice()),
        Some(h) => {
            let hc = chars_of(h.as_str());
            if hc.len() <= pc.len() {
                let head = slice_chars(pc.as_slice(), 0, hc.len());
                if crate::text::chars_eq(head.as_slice(), hc.as_slice()) {
                    assert(h@.is_prefix_of(path@));
                    if hc.len() == pc.len() {
                        assert(path@ =~= h@);
                        let mut t = String::new();
                        t.push('~');
                        return t;
                    }
                    if pc[hc.len()] != '/' {
                        assert(path@.len() != h@.len());
                        assert(path@ != h@);
                        return string_of(pc.as_slice());
                    }
                    let rest = slice_chars(pc.as_slice(), hc.len(), pc.len());
                    let mut t = String::new();
                    t.push('~');
                    let mut i: usize = 0;
                    while i < rest.len()
                        invariant
                            i <= rest@.len(),
                            t@ == seq!['~'] + rest@.take(i as int),
                        decreases rest@.len() - i,
                    {
                        t.push(rest[i]);
                        i = i + 1;
                        assert(t@ =~= seq!['~'] + rest@.take(i as int));
                    }
                    assert(rest@.take(rest@.len() as int) =~= rest@);
                    assert(rest@ =~= path@.skip(h@.len() as int));
                    assert(path@.len() != h@.len());
                    assert(path@ != h@);
                    return t;
                }
                assert(!inside(path@, h@)) by {
                    if h@.is_prefix_of(path@) {
                        assert(head@ =~= hc@);
                    }
                }
                assert(path@ != h@) by {
                    if path@ == h@ {
                        assert(head@ =~= hc@);
                    }
                }
            }
            string_of(pc.as_slice())
        },
    }
}

} // verus!

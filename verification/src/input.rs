//! Keys and the actions they stand for.
use vstd::prelude::*;
use crate::app::Mode;

verus! {

/// A key, as the terminal reports it.
#[derive(Clone, Copy, PartialEq, Eq, Structural, Debug)]
pub enum KeyCode {
    Char(char),
    Enter,
    Backspace,
    Tab,
    BackTab,
    Esc,
    Up,
    Down,
    Left,
    Right,
    Home,
    End,
    PageUp,
    PageDown,
    Delete,
    Insert,
    F(u8),
    /// Any other key.
    Other,
}

/// The modifier keys held with a key.
#[derive(Clone, Copy, PartialEq, Eq, Structural, Debug)]
pub struct KeyModifiers {
    pub control: bool,
    pub alt: bool,
}

impl KeyModifiers {
    /// No modifier.
    pub fn none() -> (r: KeyModifiers)
        ensures
            !r.control && !r.alt,
    {
        KeyModifiers { control: false, alt: false }
    }

    /// Control alone.
    pub fn control() -> (r: KeyModifiers)
        ensures
            r.control && !r.alt,
    {
        KeyModifiers { control: true, alt: false }
    }

    /// Alt alone.
    pub fn alt() -> (r: KeyModifiers)
        ensures
            !r.control && r.alt,
    {
        KeyModifiers { control: false, alt: true }
    }
}

/// A key press.
#[derive(Clone, Copy, PartialEq, Eq, Structural, Debug)]
pub struct KeyEvent {
    pub code: KeyCode,
    pub modifiers: KeyModifiers,
}

impl KeyEvent {
    /// The press of `code` with `modifiers`.
    pub fn new(code: KeyCode, modifiers: KeyModifiers) -> (r: KeyEvent)
        ensures
            r.code == code,
            r.modifiers == modifiers,
    {
        KeyEvent { code, modifiers }
    }
}

/// What the user asked for.
#[derive(Clone, Copy, PartialEq, Eq, Structural, Debug)]
pub enum Action {
    Quit,
    MoveUp,
    MoveDown,
    Open,
    Select,
    GoBack,
    GoHome,
    GoTop,
    GoBottom,
    ToggleHidden,
    EnterSearch,
    // Search mode actions
    SearchInput(char),
    SearchBackspace,
    SearchConfirm,
    SearchCancel,
    // Markdown viewer actions
    MdScrollDown,
    MdScrollUp,
    MdPageDown,
    MdPageUp,
    MdTop,
    MdBottom,
    MdEdit,
    CloseRight,
    // Layout actions
    ResizeShrink,
    ResizeGrow,
    ToggleMouseCapture,
    /// A key with no binding.
    Nothing,
}

/// Control-C, which quits everywhere.
pub open spec fn is_interrupt(key: KeyEvent) -> bool {
    key.modifiers.control && key.code == KeyCode::Char('c')
}

/// The action of a key in normal mode.
pub open spec fn normal_action(code: KeyCode) -> Action {
    match code {
        KeyCode::Char('q') => Action::Quit,
        KeyCode::Char('j') | KeyCode::Down => Action::MoveDown,
        KeyCode::Char('k') | KeyCode::Up => Action::MoveUp,
        KeyCode::Char('l') | KeyCode::Right => Action::Open,
        KeyCode::Enter => Action::Select,
        KeyCode::Backspace | KeyCode::Char('h') | KeyCode::Left => Action::GoBack,
        KeyCode::Char('~') => Action::GoHome,
        KeyCode::Char('g') => Action::GoTop,
        KeyCode::Char('G') => Action::GoBottom,
        KeyCode::Char('.') => Action::ToggleHidden,
        KeyCode::Char('/') => Action::EnterSearch,
        _ => Action::Nothing,
    }
}

/// The action of a key in search mode: characters extend the query.
pub open spec fn search_action(code: KeyCode) -> Action {
    match code {
        KeyCode::Esc => Action::SearchCancel,
        KeyCode::Enter => Action::SearchConfirm,
        KeyCode::Backspace => Action::SearchBackspace,
        KeyCode::Up => Action::MoveUp,
        KeyCode::Down => Action::MoveDown,
        KeyCode::Char(c) => Action::SearchInput(c),
        _ => Action::Nothing,
    }
}

/// The action of a key for the file browser in `mode`.
pub open spec fn browser_action(key: KeyEvent, mode: Mode) -> Action {
    if is_interrupt(key) {
        Action::Quit
    } else {
        match mode {
            Mode::Normal => normal_action(key.code),
            Mode::Search => search_action(key.code),
        }
    }
}

/// Map a key event to an action for the file browser.
pub fn handle_key(key: KeyEvent, mode: &Mode) -> (r: Action)
    ensures
        r == browser_action(key, *mode),
{
    if key.modifiers.control && key.code == KeyCode::Char('c') {
        return Action::Quit;
    }
    match mode {
        Mode::Normal => handle_normal(key),
        Mode::Search => handle_search(key),
    }
}

/// The normal-mode action of a key (see `normal_action`).
pub fn handle_normal(key: KeyEvent) -> (r: Action)
    ensures
        r == normal_action(key.code),
{
    match key.code {
        KeyCode::Char('q') => Action::Quit,
        KeyCode::Char('j') | KeyCode::Down => Action::MoveDown,
        KeyCode::Char('k') | KeyCode::Up => Action::MoveUp,
        KeyCode::Char('l') | KeyCode::Right => Action::Open,
        KeyCode::Enter => Action::Select,
        KeyCode::Backspace | KeyCode::Char('h') | KeyCode::Left => Action::GoBack,
        KeyCode::Char('~') => Action::GoHome,
        KeyCode::Char('g') => Action::GoTop,
        KeyCode::Char('G') => Action::GoBottom,
        KeyCode::Char('.') => Action::ToggleHidden,
        KeyCode::Char('/') => Action::EnterSearch,
        _ => Action::Nothing,
    }
}

/// The search-mode action of a key (see `search_action`).
pub fn handle_search(key: KeyEvent) -> (r: Action)
    ensures
        r == search_action(key.code),
{
    match key.code {
        KeyCode::Esc => Action::SearchCancel,
        KeyCode::Enter => Action::SearchConfirm,
        KeyCode::Backspace => Action::SearchBackspace,
        KeyCode::Up => Action::MoveUp,
        KeyCode::Down => Action::MoveDown,
        KeyCode::Char(c) => Action::SearchInput(c),
        _ => Action::Nothing,
    }
}

/// The action of a key while the markdown viewer is focused.
pub open spec fn viewer_action(key: KeyEvent) -> Action {
    if is_interrupt(key) {
        Action::Quit
    } else {
        match key.code {
            KeyCode::Char('q') => Action::CloseRight,
            KeyCode::Esc => Action::CloseRight,
            KeyCode::Char('e') => Action::MdEdit,
            KeyCode::Char('j') | KeyCode::Down => Action::MdScrollDown,
            KeyCode::Char('k') | KeyCode::Up => Action::MdScrollUp,
            KeyCode::Char('d') | KeyCode::PageDown => Action::MdPageDown,
            KeyCode::Char('u') | KeyCode::PageUp => Action::MdPageUp,
            KeyCode::Char(' ') => Action::MdPageDown,
            KeyCode::Char('g') | KeyCode::Home => Action::MdTop,
            KeyCode::Char('G') | KeyCode::End => Action::MdBottom,
            _ => Action::Nothing,
        }
    }
}

/// Control-C quits everywhere: in either mode of the browser and in the
/// viewer.
pub proof fn lemma_interrupt_quits(key: KeyEvent, mode: Mode)
    requires
        is_interrupt(key),
    ensures
        browser_action(key, mode) == Action::Quit,
        viewer_action(key) == Action::Quit,
{
}

/// The key with `code` and the modifiers `m`.
pub open spec fn press(code: KeyCode, m: KeyModifiers) -> KeyEvent {
    KeyEvent { code, modifiers: m }
}

/// The browsing keys, whatever modifiers are held (Control-C aside): `j`
/// and Down move down, `k` and Up move up, `l` and Right open, Enter
/// selects, `h`, Left and Backspace go to the parent, `~` home, `g` and `G`
/// to the top and bottom, `.` toggles hidden entries, `/` starts a search and
/// `q` quits.
pub proof fn lemma_normal_bindings(m: KeyModifiers)
    ensures
        browser_action(press(KeyCode::Char('j'), m), Mode::Normal) == Action::MoveDown,
        browser_action(press(KeyCode::Down, m), Mode::Normal) == Action::MoveDown,
        browser_action(press(KeyCode::Char('k'), m), Mode::Normal) == Action::MoveUp,
        browser_action(press(KeyCode::Up, m), Mode::Normal) == Action::MoveUp,
        browser_action(press(KeyCode::Char('l'), m), Mode::Normal) == Action::Open,
        browser_action(press(KeyCode::Right, m), Mode::Normal) == Action::Open,
        browser_action(press(KeyCode::Enter, m), Mode::Normal) == Action::Select,
        browser_action(press(KeyCode::Char('h'), m), Mode::Normal) == Action::GoBack,
        browser_action(press(KeyCode::Left, m), Mode::Normal) == Action::GoBack,
        browser_action(press(KeyCode::Backspace, m), Mode::Normal) == Action::GoBack,
        browser_action(press(KeyCode::Char('~'), m), Mode::Normal) == Action::GoHome,
        browser_action(press(KeyCode::Char('g'), m), Mode::Normal) == Action::GoTop,
        browser_action(press(KeyCode::Char('G'), m), Mode::Normal) == Action::GoBottom,
        browser_action(press(KeyCode::Char('.'), m), Mode::Normal) == Action::ToggleHidden,
        browser_action(press(KeyCode::Char('/'), m), Mode::Normal) == Action::EnterSearch,
        browser_action(press(KeyCode::Char('q'), m), Mode::Normal) == Action::Quit,
{
}

/// While searching, every character (Control-C aside) goes into the query,
/// Backspace deletes, Up and Down move, Enter confirms and Escape cancels.
pub proof fn lemma_search_bindings(c: char, m: KeyModifiers)
    requires
        !(m.control && c == 'c'),
    ensures
        browser_action(press(KeyCode::Char(c), m), Mode::Search) == Action::SearchInput(c),
        browser_action(press(KeyCode::Backspace, m), Mode::Search) == Action::SearchBackspace,
        browser_action(press(KeyCode::Up, m), Mode::Search) == Action::MoveUp,
        browser_action(press(KeyCode::Down, m), Mode::Search) == Action::MoveDown,
        browser_action(press(KeyCode::Enter, m), Mode::Search) == Action::SearchConfirm,
        browser_action(press(KeyCode::Esc, m), Mode::Search) == Action::SearchCancel,
{
}

/// In the viewer, `j`/Down and `k`/Up scroll a line, `d`/PageDown/Space and
/// `u`/PageUp a page, `g`/Home and `G`/End go to either end, `e` edits and
/// `q`/Escape close it.
pub proof fn lemma_viewer_bindings(m: KeyModifiers)
    ensures
        viewer_action(press(KeyCode::Char('j'), m)) == Action::MdScrollDown,
        viewer_action(press(KeyCode::Down, m)) == Action::MdScrollDown,
        viewer_action(press(KeyCode::Char('k'), m)) == Action::MdScrollUp,
        viewer_action(press(KeyCode::Up, m)) == Action::MdScrollUp,
        viewer_action(press(KeyCode::Char('d'), m)) == Action::MdPageDown,
        viewer_action(press(KeyCode::PageDown, m)) == Action::MdPageDown,
        viewer_action(press(KeyCode::Char(' '), m)) == Action::MdPageDown,
        viewer_action(press(KeyCode::Char('u'), m)) == Action::MdPageUp,
        viewer_action(press(KeyCode::PageUp, m)) == Action::MdPageUp,
        viewer_action(press(KeyCode::Char('g'), m)) == Action::MdTop,
        viewer_action(press(KeyCode::Home, m)) == Action::MdTop,
        viewer_action(press(KeyCode::Char('G'), m)) == Action::MdBottom,
        viewer_action(press(KeyCode::End, m)) == Action::MdBottom,
        viewer_action(press(KeyCode::Char('e'), m)) == Action::MdEdit,
        viewer_action(press(KeyCode::Char('q'), m)) == Action::CloseRight,
        viewer_action(press(KeyCode::Esc, m)) == Action::CloseRight,
{
}

/// With Alt held, `h`/`H`/Left shrink the focused panel, `l`/`L`/Right grow
/// it and `m`/`M` toggle mouse capture; without Alt no key is global.
pub proof fn lemma_global_bindings(control: bool, code: KeyCode)
    ensures
        global_binding(press(KeyCode::Char('h'), KeyModifiers { control, alt: true })) == Some(Action::ResizeShrink),
        global_binding(press(KeyCode::Char('H'), KeyModifiers { control, alt: true })) == Some(Action::ResizeShrink),
        global_binding(press(KeyCode::Left, KeyModifiers { control, alt: true })) == Some(Action::ResizeShrink),
        global_binding(press(KeyCode::Char('l'), KeyModifiers { control, alt: true })) == Some(Action::ResizeGrow),
        global_binding(press(KeyCode::Char('L'), KeyModifiers { control, alt: true })) == Some(Action::ResizeGrow),
        global_binding(press(KeyCode::Right, KeyModifiers { control, alt: true })) == Some(Action::ResizeGrow),
        global_binding(press(KeyCode::Char('m'), KeyModifiers { control, alt: true })) == Some(Action::ToggleMouseCapture),
        global_binding(press(KeyCode::Char('M'), KeyModifiers { control, alt: true })) == Some(Action::ToggleMouseCapture),
        global_binding(press(code, KeyModifiers { control, alt: false })) is None,
{
}

/// Map a key event to an action while the markdown viewer is focused.
pub fn handle_md_viewer_key(key: KeyEvent) -> (r: Action)
    ensures
        r == viewer_action(key),
{
    if key.modifiers.control && key.code == KeyCode::Char('c') {
        return Action::Quit;
    }
    match key.code {
        KeyCode::Char('q') => Action::CloseRight,
        KeyCode::Esc => Action::CloseRight,
        KeyCode::Char('e') => Action::MdEdit,
        KeyCode::Char('j') | KeyCode::Down => Action::MdScrollDown,
        KeyCode::Char('k') | KeyCode::Up => Action::MdScrollUp,
        KeyCode::Char('d') | KeyCode::PageDown => Action::MdPageDown,
        KeyCode::Char('u') | KeyCode::PageUp => Action::MdPageUp,
        KeyCode::Char(' ') => Action::MdPageDown,
        KeyCode::Char('g') | KeyCode::Home => Action::MdTop,
        KeyCode::Char('G') | KeyCode::End => Action::MdBottom,
        _ => Action::Nothing,
    }
}

/// The global action of a key: Alt with `h`/`H`/Left shrinks the focused
/// panel, with `l`/`L`/Right grows it, with `m`/`M` toggles mouse capture.
pub open spec fn global_binding(key: KeyEvent) -> Option<Action> {
    if !key.modifiers.alt {
        None
    } else {
        match key.code {
            KeyCode::Char('h') | KeyCode::Char('H') | KeyCode::Left => Some(Action::ResizeShrink),
            KeyCode::Char('l') | KeyCode::Char('L') | KeyCode::Right => Some(Action::ResizeGrow),
            KeyCode::Char('m') | KeyCode::Char('M') => Some(Action::ToggleMouseCapture),
            _ => None,
        }
    }
}

/// Detect a global keybinding (Alt-modified) regardless of focus. Currently
/// covers panel resize (`Alt+H/L`) and the mouse-capture toggle (`Alt+M`).
pub fn global_action(key: KeyEvent) -> (r: Option<Action>)
    ensures
        r == global_binding(key),
{
    if !key.modifiers.alt {
        return None;
    }
    match key.code {
        KeyCode::Char('h') | KeyCode::Char('H') | KeyCode::Left => Some(Action::ResizeShrink),
        KeyCode::Char('l') | KeyCode::Char('L') | KeyCode::Right => Some(Action::ResizeGrow),
        KeyCode::Char('m') | KeyCode::Char('M') => Some(Action::ToggleMouseCapture),
        _ => None,
    }
}

} // verus!

//! The embedded editor's screen, drawn as runs of equally styled text.
use vstd::prelude::*;
use crate::text::{chars_of, push_all, string_of};

verus! {

/// A colour as the terminal screen reports it.
#[derive(Clone, Copy, PartialEq, Eq, Structural, Debug)]
pub enum TermColor {
    Default,
    Idx(u8),
    Rgb(u8, u8, u8),
}

/// A colour as it is drawn.
#[derive(Clone, Copy, PartialEq, Eq, Structural, Debug)]
pub enum Tint {
    Indexed(u8),
    Rgb(u8, u8, u8),
}

/// How a cell is drawn: colours and attributes.
#[derive(Clone, Copy, PartialEq, Eq, Structural, Debug)]
pub struct Look {
    pub fg: Tint,
    pub bg: Tint,
    pub bold: bool,
    pub italic: bool,
    pub underline: bool,
    pub inverse: bool,
}

/// The standard phosphor green that text is drawn in.
pub open spec fn primary() -> Tint {
    Tint::Rgb(0, 230, 55)
}

/// The near-black background.
pub open spec fn background() -> Tint {
    Tint::Rgb(3, 8, 3)
}

/// The tint of a foreground colour: the default is the phosphor green.
pub open spec fn fg_tint(c: TermColor) -> Tint {
    match c {
        TermColor::Default => primary(),
        TermColor::Idx(i) => Tint::Indexed(i),
        TermColor::Rgb(r, g, b) => Tint::Rgb(r, g, b),
    }
}

/// The tint of a background colour: the default is the background.
pub open spec fn bg_tint(c: TermColor) -> Tint {
    match c {
        TermColor::Default => background(),
        TermColor::Idx(i) => Tint::Indexed(i),
        TermColor::Rgb(r, g, b) => Tint::Rgb(r, g, b),
    }
}

fn tint(c: TermColor, default: Tint) -> (r: Tint)
    ensures
        r == match c {
            TermColor::Default => default,
            TermColor::Idx(i) => Tint::Indexed(i),
            TermColor::Rgb(r, g, b) => Tint::Rgb(r, g, b),
        },
{
    match c {
        TermColor::Default => default,
        TermColor::Idx(i) => Tint::Indexed(i),
        TermColor::Rgb(r, g, b) => Tint::Rgb(r, g, b),
    }
}

/// The look of a cell with the given colours and attributes.
pub fn cell_look(fg: TermColor, bg: TermColor, bold: bool, italic: bool, underline: bool, inverse: bool) -> (r: Look)
    ensures
        r == (Look { fg: fg_tint(fg), bg: bg_tint(bg), bold, italic, underline, inverse }),
{
    Look {
        fg: tint(fg, Tint::Rgb(0, 230, 55)),
        bg: tint(bg, Tint::Rgb(3, 8, 3)),
        bold,
        italic,
        underline,
        inverse,
    }
}

/// The look of a position the screen has no cell for: plain text.
pub fn blank_look() -> (r: Look)
    ensures
        r == (Look {
            fg: primary(),
            bg: background(),
            bold: false,
            italic: false,
            underline: false,
            inverse: false,
        }),
{
    Look {
        fg: Tint::Rgb(0, 230, 55),
        bg: Tint::Rgb(3, 8, 3),
        bold: false,
        italic: false,
        underline: false,
        inverse: false,
    }
}

/// The text drawn for a cell: its contents, or a space when it has none.
pub fn cell_text(contents: &str) -> (r: String)
    ensures
        r@ == (if contents@.len() == 0 {
            seq![' ']
        } else {
            contents@
        }),
{
    let cs = chars_of(contents);
    if cs.len() == 0 {
        let mut s = String::new();
        s.push(' ');
        s
    } else {
        string_of(cs.as_slice())
    }
}

/// Text drawn with one look.
#[derive(Debug)]
pub struct Run {
    pub text: String,
    pub look: Look,
}

/// Text and look as values.
pub type RunView = (Seq<char>, Look);

/// The values of each run.
pub open spec fn run_views(v: Seq<Run>) -> Seq<RunView> {
    v.map_values(|r: Run| (r.text@, r.look))
}

/// The values of each cell.
pub open spec fn cell_views(v: Seq<(String, Look)>) -> Seq<RunView> {
    v.map_values(|c: (String, Look)| (c.0@, c.1))
}

/// The cells of a row gathered into runs: a cell with the look of the run
/// before it extends that run, any other starts a new one.
pub open spec fn runs(cells: Seq<RunView>) -> Seq<RunView>
    decreases cells.len(),
{
    if cells.len() == 0 {
        seq![]
    } else {
        let before = runs(cells.drop_last());
        let c = cells.last();
        if before.len() > 0 && before.last().1 == c.1 {
            before.update(before.len() - 1, (before.last().0 + c.0, c.1))
        } else {
            before.push(c)
        }
    }
}

/// All the text of a sequence of pieces, in order.
pub open spec fn all_text(s: Seq<RunView>) -> Seq<char>
    decreases s.len(),
{
    if s.len() == 0 {
        seq![]
    } else {
        all_text(s.drop_last()) + s.last().0
    }
}

/// Gathering cells into runs keeps every character, in order.
pub proof fn lemma_runs_keep_text(cells: Seq<RunView>)
    ensures
        all_text(runs(cells)) == all_text(cells),
    decreases cells.len(),
{
    if cells.len() > 0 {
        let before = runs(cells.drop_last());
        let c = cells.last();
        lemma_runs_keep_text(cells.drop_last());
        if before.len() > 0 && before.last().1 == c.1 {
            let r = runs(cells);
            assert(r.drop_last() =~= before.drop_last());
            assert(before.drop_last().push(before.last()) =~= before);
            assert(all_text(before) == all_text(before.drop_last()) + before.last().0);
            assert(all_text(r) == all_text(before.drop_last()) + (before.last().0 + c.0));
            assert(all_text(r) =~= all_text(before) + c.0);
        } else {
            assert(runs(cells).drop_last() =~= before);
        }
    }
}

/// Neighbouring runs differ in look.
pub proof fn lemma_runs_differ(cells: Seq<RunView>)
    ensures
        forall|i: int|
            0 <= i < runs(cells).len() - 1 ==> #[trigger] runs(cells)[i].1 != runs(cells)[i + 1].1,
    decreases cells.len(),
{
    if cells.len() > 0 {
        lemma_runs_differ(cells.drop_last());
        let b = runs(cells.drop_last());
        let r = runs(cells);
        let c = cells.last();
        if b.len() > 0 && b.last().1 == c.1 {
            assert forall|i: int| 0 <= i < r.len() implies #[trigger] r[i].1 == b[i].1 by {}
            assert forall|i: int| 0 <= i < r.len() - 1 implies #[trigger] r[i].1 != r[i + 1].1 by {
                assert(b[i].1 != b[i + 1].1);
            }
        } else {
            assert forall|i: int| 0 <= i < r.len() - 1 implies #[trigger] r[i].1 != r[i + 1].1 by {
                if i < b.len() - 1 {
                    assert(b[i].1 != b[i + 1].1);
                }
            }
        }
    }
}

/// The runs of a row of cells (see `runs`).
pub fn row_runs(cells: &Vec<(String, Look)>) -> (r: Vec<Run>)
    ensures
        run_views(r@) == runs(cell_views(cells@)),
{
    let ghost cv = cell_views(cells@);
    let mut out: Vec<Run> = Vec::new();
    let mut i: usize = 0;
    while i < cells.len()
        invariant
            i <= cells@.len(),
            cv == cell_views(cells@),
            run_views(out@) == runs(cv.take(i as int)),
        decreases cells@.len() - i,
    {
        let look = cells[i].1;
        let n = out.len();
        let ghost before = run_views(out@);
        assert(cv.take(i + 1).drop_last() =~= cv.take(i as int));
        assert(cv.take(i + 1).last() == cv[i as int]);
        if n > 0 && out[n - 1].look == look {
            let last = out.pop().unwrap();
            let mut cs = chars_of(last.text.as_str());
            let tc = chars_of(cells[i].0.as_str());
            push_all(&mut cs, tc.as_slice());
            out.push(Run { text: string_of(cs.as_slice()), look });
            assert(run_views(out@) =~= before.update(before.len() - 1, (before.last().0 + cv[i as int].0, look)));
        } else {
            let t = cells[i].0.clone();
            out.push(Run { text: t, look });
            assert(run_views(out@) =~= before.push(cv[i as int]));
        }
        i = i + 1;
    }
    assert(cv.take(cells@.len() as int) =~= cv);
    out
}

/// Where the editor's cursor is drawn: at column `col` and row `row` of the
/// panel at `x`, `y` that is `width` by `height`, when that lies inside it.
pub open spec fn cursor_spot(x: u16, y: u16, width: u16, height: u16, col: u16, row: u16) -> Option<(u16, u16)> {
    if col < width && row < height {
        Some(((x + col) as u16, (y + row) as u16))
    } else {
        None
    }
}

/// Where the editor's cursor is drawn (see `cursor_spot`).
pub fn cursor_cell(x: u16, y: u16, width: u16, height: u16, col: u16, row: u16) -> (r: Option<(u16, u16)>)
    requires
        x + col <= u16::MAX,
        y + row <= u16::MAX,
        x + width <= u16::MAX,
        y + height <= u16::MAX,
    ensures
        r == cursor_spot(x, y, width, height, col, row),
{
    let abs_x = x + col;
    let abs_y = y + row;
    if abs_x < x + width && abs_y < y + height {
        Some((abs_x, abs_y))
    } else {
        None
    }
}

} // verus!

use phosphor::term::{blank_look, cell_look, cell_text, cursor_cell, row_runs, TermColor, Tint};

#[test]
fn cells_with_one_look_form_one_run() {
    let plain = blank_look();
    let bold = cell_look(TermColor::Default, TermColor::Default, true, false, false, false);
    let cells = vec![
        ("a".to_string(), plain),
        ("b".to_string(), plain),
        ("c".to_string(), bold),
        ("d".to_string(), plain),
    ];
    let runs = row_runs(&cells);
    let texts: Vec<&str> = runs.iter().map(|r| r.text.as_str()).collect();
    assert_eq!(texts, vec!["ab", "c", "d"]);
    assert_eq!(runs[1].look, bold);
    assert!(row_runs(&Vec::new()).is_empty());
}

#[test]
fn default_colours_are_the_theme_colours() {
    let look = cell_look(TermColor::Default, TermColor::Default, false, false, false, false);
    assert_eq!(look, blank_look());
    assert_eq!(look.fg, Tint::Rgb(0, 230, 55));
    assert_eq!(look.bg, Tint::Rgb(3, 8, 3));
    let same = cell_look(TermColor::Rgb(0, 230, 55), TermColor::Rgb(3, 8, 3), false, false, false, false);
    assert_eq!(same, look);
    let idx = cell_look(TermColor::Idx(4), TermColor::Idx(0), false, true, true, true);
    assert_eq!(idx.fg, Tint::Indexed(4));
    assert!(idx.italic && idx.underline && idx.inverse && !idx.bold);
}

#[test]
fn empty_cells_draw_a_space() {
    assert_eq!(cell_text(""), " ");
    assert_eq!(cell_text("x"), "x");
    assert_eq!(cell_text("é"), "é");
}

#[test]
fn cursor_is_drawn_only_inside_the_panel() {
    assert_eq!(cursor_cell(10, 5, 20, 8, 3, 2), Some((13, 7)));
    assert_eq!(cursor_cell(10, 5, 20, 8, 20, 2), None);
    assert_eq!(cursor_cell(10, 5, 20, 8, 3, 8), None);
}

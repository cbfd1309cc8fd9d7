//! The tab bar: where the cells land.
//!
//! Cell layout is a function of its own rather than something the renderer
//! works out inline, because clicks are hit-tested against exactly these
//! rectangles.

use typ_app::layout::{split_tabs, Rect};
use typ_app::tabbar::{self, TabCell};

fn labels(names: &[&str]) -> Vec<String> {
    names.iter().map(|n| n.to_string()).collect()
}

#[test]
fn one_tab_gets_no_bar() {
    // A strip naming the only open file says nothing the file's own border does
    // not already say, and costs a row of the buffer to say it.
    let editor = Rect::new(0, 0, 40, 10);
    let (bar, rest) = split_tabs(editor, 1);

    assert_eq!(bar.height, 0);
    assert_eq!(rest, editor, "the editor gave up a row for an empty bar");
}

#[test]
fn two_tabs_take_a_row_off_the_top_of_the_editor() {
    let editor = Rect::new(4, 2, 40, 10);
    let (bar, rest) = split_tabs(editor, 2);

    assert_eq!(bar, Rect::new(4, 2, 40, 1));
    assert_eq!(rest, Rect::new(4, 3, 40, 9));
    assert_eq!(
        bar.height + rest.height,
        editor.height,
        "a row went missing between the two"
    );
}

#[test]
fn an_editor_too_short_to_spare_a_row_keeps_all_of_them() {
    // Two rows is a border and nothing else. Taking one for tabs leaves a panel
    // that cannot show a single line of the file it is naming.
    let editor = Rect::new(0, 0, 40, 2);
    let (bar, rest) = split_tabs(editor, 3);

    assert_eq!(bar.height, 0);
    assert_eq!(rest, editor);
}

#[test]
fn cells_run_left_to_right_without_gaps_or_overlap() {
    let cells = tabbar::cells(&labels(&["a.rs", "b.rs", "c.rs"]), 0, 60);

    assert_eq!(cells.len(), 3);
    for pair in cells.windows(2) {
        assert_eq!(
            pair[0].x + pair[0].width,
            pair[1].x,
            "cells {pair:?} do not abut"
        );
    }
}

#[test]
fn a_cell_is_wide_enough_for_its_name() {
    let cells = tabbar::cells(&labels(&["main.rs"]), 0, 60);

    assert!(
        cells[0].width as usize > "main.rs".len(),
        "a cell exactly as wide as the name leaves the tabs touching: {cells:?}"
    );
}

#[test]
fn the_active_tab_is_always_among_the_visible_cells() {
    // The promise the bar exists to make. Twenty tabs will not fit in forty
    // columns, and the one that must be on screen is the one being edited.
    let names: Vec<String> = (0..20).map(|i| format!("file{i}.rs")).collect();

    for active in [0, 7, 13, 19] {
        let cells = tabbar::cells(&names, active, 40);
        assert!(
            cells.iter().any(|c| c.index == active && c.width > 0),
            "tab {active} scrolled off the bar: {cells:?}"
        );
    }
}

#[test]
fn cells_never_run_past_the_bar() {
    let names: Vec<String> = (0..20).map(|i| format!("file{i}.rs")).collect();
    let cells = tabbar::cells(&names, 19, 40);

    for cell in &cells {
        assert!(
            cell.x + cell.width <= 40,
            "cell {cell:?} runs past a 40-column bar"
        );
    }
}

#[test]
fn a_name_longer_than_the_whole_bar_is_clipped_rather_than_dropped() {
    let long = "a-very-long-generated-file-name-nobody-would-type.rs";
    let cells = tabbar::cells(&labels(&[long]), 0, 20);

    assert_eq!(cells.len(), 1);
    assert_eq!(cells[0].width, 20);
}

#[test]
fn a_zero_width_bar_lays_out_nothing() {
    assert!(tabbar::cells(&labels(&["a.rs"]), 0, 0).is_empty());
}

#[test]
fn a_wide_grapheme_is_measured_by_its_columns_not_its_count() {
    // A CJK filename is two columns per character. Counting graphemes would lay
    // the next cell down on top of this one's second half.
    let cells = tabbar::cells(&labels(&["日本語.rs", "b.rs"]), 0, 60);

    assert!(
        cells[0].width >= 9,
        "three double-width graphemes plus `.rs` and padding is at least 9 columns: {cells:?}"
    );
    assert_eq!(cells[0].x + cells[0].width, cells[1].x);
}

#[test]
fn a_cell_knows_which_tab_it_is() {
    let names: Vec<String> = (0..20).map(|i| format!("file{i}.rs")).collect();
    let cells = tabbar::cells(&names, 19, 40);

    let first: &TabCell = &cells[0];
    assert!(
        first.index > 0,
        "the bar scrolled but the cells still claim to start at tab 0"
    );
}

fn shown(glyphs: &[tabbar::Glyph]) -> Vec<(u16, &str)> {
    glyphs.iter().map(|g| (g.x, g.symbol.as_str())).collect()
}

#[test]
fn a_cell_shows_a_space_its_name_and_a_space() {
    let names = labels(&["ab"]);
    let cell = tabbar::cells(&names, 0, 60)[0];
    let drawn = tabbar::glyphs(5, 65, cell, "ab");
    assert_eq!(shown(&drawn), [(5, " "), (6, "a"), (7, "b"), (8, " ")]);
}

#[test]
fn a_wide_grapheme_blanks_the_column_it_covers() {
    let names = labels(&["日x"]);
    let cell = tabbar::cells(&names, 0, 60)[0];
    let drawn = tabbar::glyphs(0, 60, cell, "日x");
    assert_eq!(shown(&drawn), [(0, " "), (1, "日"), (2, ""), (3, "x"), (4, " ")]);
}

#[test]
fn a_clipped_cell_stops_at_its_edge() {
    let cell = TabCell { index: 0, x: 0, width: 3 };
    let drawn = tabbar::glyphs(0, 60, cell, "abcdef");
    assert_eq!(shown(&drawn), [(0, " "), (1, "a"), (2, "b")]);
    let drawn = tabbar::glyphs(0, 2, cell, "abcdef");
    assert_eq!(shown(&drawn), [(0, " "), (1, "a")], "nor past the bar's");
}

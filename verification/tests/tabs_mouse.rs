//! Every tab interaction works with a mouse too.
//!
//! The hit test uses the cells `tabbar::cells` lays out, the same ones the
//! renderer draws into.

use typ_app::layout::Rect;
use typ_app::tabbar;
use typ_app::tabs::{bar_click, BarClick, Press};

#[test]
fn the_last_column_of_a_clipped_tab_is_not_a_close_box() {
    // A cell cut off by the bar's edge has no × in it, so the column that would
    // have held one is part of the name. Closing a file because its name ran
    // long is not a thing anyone should be able to do by accident.
    let long = "an-extremely-long-generated-file-name.rs".to_string();
    let cell = tabbar::cells(std::slice::from_ref(&long), 0, 12)[0];

    assert_eq!(cell.width, 12, "the fixture must produce a clipped cell");
    assert_eq!(tabbar::close_box_x(&cell, &long), None);
}

fn two_tabs() -> (Rect, Vec<String>, Vec<tabbar::TabCell>) {
    let bar = Rect::new(10, 2, 40, 1);
    let labels = vec!["a.rs".to_string(), "b.rs".to_string()];
    let cells = tabbar::cells(&labels, 0, bar.width);
    (bar, labels, cells)
}

#[test]
fn a_full_cell_has_its_close_box_two_columns_from_its_end() {
    let (_, labels, cells) = two_tabs();
    assert_eq!(cells[0].width, 8);
    assert_eq!(tabbar::close_box_x(&cells[0], &labels[0]), Some(6));
    assert_eq!(tabbar::close_box_x(&cells[1], &labels[1]), Some(14));
}

#[test]
fn a_left_press_on_the_close_box_closes_that_tab() {
    let (bar, labels, cells) = two_tabs();
    assert_eq!(bar_click(bar, &cells, &labels, 16, 2, Press::Left), BarClick::Close(0));
    assert_eq!(bar_click(bar, &cells, &labels, 24, 2, Press::Left), BarClick::Close(1));
}

#[test]
fn a_left_press_on_a_name_activates_that_tab() {
    let (bar, labels, cells) = two_tabs();
    assert_eq!(bar_click(bar, &cells, &labels, 11, 2, Press::Left), BarClick::Activate(0));
    assert_eq!(bar_click(bar, &cells, &labels, 19, 2, Press::Left), BarClick::Activate(1));
}

#[test]
fn a_middle_press_anywhere_on_a_cell_closes_it() {
    let (bar, labels, cells) = two_tabs();
    assert_eq!(bar_click(bar, &cells, &labels, 19, 2, Press::Middle), BarClick::Close(1));
}

#[test]
fn the_empty_end_of_the_bar_swallows_the_press() {
    let (bar, labels, cells) = two_tabs();
    assert_eq!(bar_click(bar, &cells, &labels, 40, 2, Press::Left), BarClick::Taken);
    assert_eq!(bar_click(bar, &cells, &labels, 11, 2, Press::Other), BarClick::Taken);
}

#[test]
fn a_press_off_the_bar_is_someone_elses() {
    let (bar, labels, cells) = two_tabs();
    assert_eq!(bar_click(bar, &cells, &labels, 11, 3, Press::Left), BarClick::Miss);
    assert_eq!(bar_click(bar, &cells, &labels, 9, 2, Press::Left), BarClick::Miss);
    assert_eq!(bar_click(bar, &cells, &labels, 50, 2, Press::Left), BarClick::Miss);
    let no_bar = Rect::new(10, 2, 40, 0);
    assert_eq!(bar_click(no_bar, &cells, &labels, 11, 2, Press::Left), BarClick::Miss);
}

//! Where each part of the frame goes.

use typ_app::events::Focus;
use typ_app::layout::{
    areas, centered, draw_order, frame_areas, hover_area, picker_area, split, split_frame, Layer, Rect,
};

#[test]
fn the_status_bar_is_the_last_row() {
    let (body, status) = split_frame(Rect::new(0, 0, 80, 24));
    assert_eq!(body, Rect::new(0, 0, 80, 23));
    assert_eq!(status, Rect::new(0, 23, 80, 1));
}

#[test]
fn the_tree_and_the_editor_share_a_border_column() {
    let (tree, editor) = split(Rect::new(0, 0, 100, 20));
    assert_eq!(tree, Rect::new(0, 0, 30, 20));
    assert_eq!(editor, Rect::new(29, 0, 71, 20));
}

#[test]
fn a_narrow_body_gives_the_tree_a_third() {
    let (tree, editor) = split(Rect::new(0, 0, 45, 20));
    assert_eq!(tree.width, 15);
    assert_eq!(editor.x, 14);
}

#[test]
fn with_two_tabs_the_editor_starts_below_the_bar() {
    let frame = Rect::new(0, 0, 100, 30);
    let one = frame_areas(frame, 1);
    let two = frame_areas(frame, 2);
    assert_eq!(one.bar.height, 0);
    assert_eq!(two.bar.height, 1);
    assert_eq!(two.editor.y, two.bar.y + 1);
    assert_eq!(two.editor.y, one.editor.y + 1);
    assert_eq!(two.editor.height, one.editor.height - 1);
    assert_eq!(areas(frame, 2), (two.tree, two.editor));
    assert_eq!(two.status, Rect::new(0, 29, 100, 1));
}

#[test]
fn the_picker_is_centred_and_fits_the_frame() {
    let frame = Rect::new(0, 0, 100, 40);
    let p = picker_area(frame);
    assert_eq!((p.width, p.height), (72, 18));
    assert_eq!(p.x, 14);
    let small = picker_area(Rect::new(0, 0, 20, 10));
    assert!(small.width <= 20 && small.height <= 10);
    let c = centered(Rect::new(10, 10, 20, 10), 4, 2);
    assert_eq!(c, Rect::new(18, 14, 4, 2));
}

#[test]
fn a_hover_box_sits_below_the_cursor_when_it_fits_and_above_when_not() {
    let frame = Rect::new(0, 0, 80, 24);
    let below = hover_area(frame, (10, 5), 3, 20);
    assert_eq!(below.y, 6);
    let above = hover_area(frame, (10, 22), 3, 20);
    assert!(above.y + above.height <= 22);
}

#[test]
fn the_focused_panel_and_then_the_overlay_draw_last() {
    assert_eq!(
        draw_order(Focus::Editor, false, true),
        vec![Layer::Tree, Layer::Editor, Layer::TabBar, Layer::StatusBar]
    );
    assert_eq!(
        draw_order(Focus::Tree, true, false),
        vec![Layer::Editor, Layer::Tree, Layer::StatusBar, Layer::Picker]
    );
}

//! A batch of input, folded and routed.

use typ_app::events::{
    batch_move, fold, BatchMove, Flow, input_changes, plan_mouse, plan_scroll, Button, Focus, Incoming, Input, MouseKind, Route,
    NOTCH,
};

fn wheel(column: u16, down: bool) -> Incoming {
    Incoming::Wheel { column, down }
}

#[test]
fn a_run_of_notches_over_one_panel_is_one_scroll() {
    let batch = vec![wheel(50, true), wheel(51, true), wheel(52, false), wheel(50, true)];
    let out = fold(&batch, 30);
    assert_eq!(out.len(), 1);
    assert_eq!((out[0].start, out[0].end), (0, 4));
    assert_eq!(out[0].scroll, Some((50, 2 * NOTCH)));
}

#[test]
fn a_key_between_notches_is_kept_in_its_place() {
    let batch = vec![wheel(50, true), Incoming::Other, wheel(50, true), wheel(50, true)];
    let out = fold(&batch, 30);
    let spans: Vec<(usize, usize)> = out.iter().map(|s| (s.start, s.end)).collect();
    assert_eq!(spans, [(0, 1), (1, 2), (2, 4)]);
    assert_eq!(out[1].scroll, None);
    assert_eq!(out[2].scroll, Some((50, 2 * NOTCH)));
}

#[test]
fn notches_over_different_panels_are_not_folded_together() {
    let batch = vec![wheel(5, true), wheel(50, true), wheel(6, false)];
    let out = fold(&batch, 30);
    let scrolls: Vec<Option<(u16, i32)>> = out.iter().map(|s| s.scroll).collect();
    assert_eq!(scrolls, [Some((5, NOTCH)), Some((50, NOTCH)), Some((6, -NOTCH))]);
}

#[test]
fn an_empty_batch_folds_to_nothing() {
    assert!(fold(&Vec::new(), 30).is_empty());
}

#[test]
fn motion_without_a_button_changes_nothing() {
    let plan = plan_mouse(MouseKind::Moved, 50, false, 30, Focus::Editor);
    assert!(!plan.changed);
    assert!(!plan.clear);
}

#[test]
fn the_picker_takes_every_mouse_event_while_it_is_up() {
    let plan = plan_mouse(MouseKind::Down(Button::Left), 5, true, 30, Focus::Tree);
    assert_eq!(plan.route, Route::Picker);
    assert!(plan.clear, "a press retires the status");
    assert!(!plan.refocus);
}

#[test]
fn a_click_focuses_the_panel_it_lands_on() {
    let plan = plan_mouse(MouseKind::Down(Button::Left), 5, false, 30, Focus::Editor);
    assert_eq!(plan.route, Route::Tree);
    assert!(plan.refocus);
    let plan = plan_mouse(MouseKind::Down(Button::Left), 50, false, 30, Focus::Editor);
    assert_eq!(plan.route, Route::Editor);
    assert!(!plan.refocus);
}

#[test]
fn the_wheel_scrolls_the_panel_under_the_pointer_by_a_notch() {
    let plan = plan_mouse(MouseKind::ScrollDown, 5, false, 30, Focus::Editor);
    assert_eq!(plan.route, Route::TreeScroll(NOTCH));
    assert!(!plan.refocus, "scrolling does not steal focus");
    let plan = plan_mouse(MouseKind::ScrollUp, 50, false, 30, Focus::Tree);
    assert_eq!(plan.route, Route::EditorScroll(-NOTCH));
}

#[test]
fn a_folded_scroll_goes_to_the_picker_first() {
    assert_eq!(plan_scroll(5, 9, true, 30), Route::Picker);
    assert_eq!(plan_scroll(5, 9, false, 30), Route::TreeScroll(9));
    assert_eq!(plan_scroll(40, -9, false, 30), Route::EditorScroll(-9));
}

#[test]
fn a_key_release_is_not_a_repaint() {
    assert!(input_changes(Input::KeyPress));
    assert!(!input_changes(Input::KeyRelease));
    assert!(input_changes(Input::Paste));
    assert!(input_changes(Input::Resize));
    assert!(!input_changes(Input::Unknown));
}

#[test]
fn cycling_focus_toggles_between_the_two_panels() {
    assert_eq!(Focus::Tree.cycled(), Focus::Editor);
    assert_eq!(Focus::Editor.cycled(), Focus::Tree);
    assert_eq!(Focus::Tree.cycled().cycled(), Focus::Tree);
}

#[test]
fn a_batch_stops_at_its_first_quit_and_settles_only_when_none_did() {
    // Three stretches, the second of which quits.
    let flows = [Flow::Continue, Flow::Quit, Flow::Continue];
    let mut done = 0;
    let mut last = Flow::Continue;
    let mut applied = Vec::new();
    let end = loop {
        match batch_move(flows.len(), done, last) {
            BatchMove::Apply(i) => {
                applied.push(i);
                last = flows[i];
                done += 1;
            }
            other => break other,
        }
    };
    assert_eq!(applied, vec![0, 1], "the stretch after the quit is left");
    assert_eq!(end, BatchMove::Stop);

    assert_eq!(batch_move(2, 2, Flow::Continue), BatchMove::Settle);
    assert_eq!(batch_move(0, 0, Flow::Continue), BatchMove::Settle, "an empty batch still settles");
    assert_eq!(batch_move(3, 1, Flow::Continue), BatchMove::Apply(1));
}

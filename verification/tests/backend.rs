//! The attribute and colour sequences a frame is drawn with.

use typ_app::backend::{
    attr_sequence, modifier_diff, underline_colour, AttrOp, Color, Pen, TypBackend, Underlines, BOLD, ITALIC,
    UNDERCURL, UNDERLINED,
};

#[test]
fn an_undercurl_cell_asks_for_the_styled_underline() {
    assert_eq!(modifier_diff(0, UNDERCURL, Underlines::Styled), [AttrOp::Undercurl]);
}

#[test]
fn a_terminal_without_styled_underlines_gets_a_plain_one() {
    assert_eq!(modifier_diff(0, UNDERCURL, Underlines::Plain), [AttrOp::Underlined]);
}

#[test]
fn an_undercurl_that_ends_is_turned_off() {
    assert_eq!(modifier_diff(UNDERCURL, 0, Underlines::Styled), [AttrOp::UnderlineStyleOff]);
    assert_eq!(modifier_diff(UNDERCURL, 0, Underlines::Plain), [AttrOp::NoUnderline]);
}

#[test]
fn ordinary_modifiers_still_work() {
    assert_eq!(
        modifier_diff(0, BOLD | ITALIC, Underlines::Styled),
        [AttrOp::Bold, AttrOp::Italic]
    );
    assert_eq!(modifier_diff(BOLD, 0, Underlines::Styled), [AttrOp::NormalIntensity]);
}

#[test]
fn losing_one_underline_restates_the_other() {
    assert_eq!(
        modifier_diff(UNDERCURL | UNDERLINED, UNDERLINED, Underlines::Styled),
        [AttrOp::UnderlineStyleOff, AttrOp::Underlined]
    );
}

#[test]
fn the_underline_colour_uses_the_colon_form() {
    assert_eq!(underline_colour(Color::Rgb(255, 0, 0)), "\x1b[58:2::255:0:0m");
    assert_eq!(underline_colour(Color::Rgb(0, 255, 0)), "\x1b[58:2::0:255:0m");
    assert_eq!(underline_colour(Color::Reset), "\x1b[59m");
    assert_eq!(underline_colour(Color::Indexed(42)), "\x1b[58:5:42m");
    assert_eq!(underline_colour(Color::Red), "\x1b[58:5:1m");
}

#[test]
fn a_contiguous_run_moves_the_cursor_once() {
    let mut pen = Pen::new();
    let mut moves = 0;
    for x in 0..4u16 {
        let plan = pen.plan_cell(x, 0, Color::Reset, Color::Reset, Color::Reset, 0, Underlines::Styled);
        if plan.move_to {
            moves += 1;
        }
        assert!(plan.attrs.is_empty());
        assert!(!plan.colours);
        assert!(plan.underline.is_none());
    }
    assert_eq!(moves, 1);
    assert!(pen.plan_cell(9, 0, Color::Reset, Color::Reset, Color::Reset, 0, Underlines::Styled).move_to);
    assert!(pen.plan_cell(10, 1, Color::Reset, Color::Reset, Color::Reset, 0, Underlines::Styled).move_to);
}

#[test]
fn a_cell_states_only_what_changed() {
    let mut pen = Pen::new();
    let first = pen.plan_cell(0, 0, Color::Red, Color::Reset, Color::Rgb(1, 2, 3), UNDERCURL, Underlines::Styled);
    assert!(first.colours);
    assert_eq!(first.attrs, [AttrOp::Undercurl]);
    assert_eq!(first.underline.as_deref(), Some("\x1b[58:2::1:2:3m"));
    let second = pen.plan_cell(1, 0, Color::Red, Color::Reset, Color::Rgb(1, 2, 3), UNDERCURL, Underlines::Styled);
    assert!(!second.colours);
    assert!(second.attrs.is_empty());
    assert!(second.underline.is_none());
    let third = pen.plan_cell(2, 0, Color::Red, Color::Reset, Color::Reset, 0, Underlines::Styled);
    assert_eq!(third.attrs, [AttrOp::UnderlineStyleOff]);
    assert_eq!(third.underline.as_deref(), Some("\x1b[59m"));
}

#[test]
fn a_frame_is_opened_once_and_closed_once() {
    let mut backend = TypBackend::new(Vec::<u8>::new(), Underlines::Plain);
    assert_eq!(backend.underlines(), Underlines::Plain);
    assert!(backend.begin_frame());
    assert!(!backend.begin_frame(), "a second draw inside one frame opens nothing");
    assert!(backend.end_frame());
    assert!(!backend.end_frame());
}

#[test]
fn each_attribute_change_has_its_sequence() {
    assert_eq!(attr_sequence(AttrOp::Bold), "\x1b[1m");
    assert_eq!(attr_sequence(AttrOp::NormalIntensity), "\x1b[22m");
    assert_eq!(attr_sequence(AttrOp::NoUnderline), "\x1b[24m");
    assert_eq!(attr_sequence(AttrOp::NoReverse), "\x1b[27m");
    assert_eq!(attr_sequence(AttrOp::Underlined), "\x1b[4m");
    assert_eq!(attr_sequence(AttrOp::UnderlineStyleOff), "\x1b[4:0m");
    assert_eq!(attr_sequence(AttrOp::Undercurl), "\x1b[4:3m");
    assert_eq!(attr_sequence(AttrOp::NotCrossedOut), "\x1b[29m");
}

#[test]
fn frames_open_and_close_in_turn() {
    let mut b = TypBackend::new(Vec::<u8>::new(), Underlines::Styled);
    assert!(!b.end_frame(), "a flush before any draw closes nothing");
    assert!(b.begin_frame());
    assert!(!b.begin_frame(), "a second draw in the same frame opens nothing");
    assert!(b.end_frame());
    assert!(!b.end_frame());
    assert!(b.begin_frame());
}

//! What the terminal backend writes, decided ahead of the writing.
//!
//! The backend draws a frame cell by cell. For each cell it decides whether
//! the cursor has to be moved, which text attributes change and how, whether
//! the colours change, and whether the underline colour changes. Those
//! decisions live here, over plain values; writing the bytes is the caller's.
//!
//! Two sequences are spelled by hand rather than through a terminal library,
//! both in the colon form that the library does not write: the styled
//! underline (`CSI 4:0 m`, `CSI 4:3 m`) and the underline colour (`CSI 58:…m`).

use crate::text::{decimal, push_decimal};
use vstd::prelude::*;

verus! {

/// Whether this terminal can draw a shape other than a straight line.
#[derive(Debug, Clone, Copy, PartialEq, Eq, Structural)]
pub enum Underlines {
    /// `CSI 4:3 m` draws a curl.
    Styled,
    /// Only `CSI 4 m`: a curl is drawn as a straight underline.
    Plain,
}

/// A backend over any writer, with an undercurl.
pub struct TypBackend<W> {
    writer: W,
    underlines: Underlines,
    /// Whether a frame is open, so the closing sequence is never written
    /// unpaired.
    in_frame: bool,
}

impl<W> TypBackend<W> {
    pub closed spec fn spec_underlines(&self) -> Underlines {
        self.underlines
    }

    pub closed spec fn spec_in_frame(&self) -> bool {
        self.in_frame
    }

    pub closed spec fn spec_writer(&self) -> W {
        self.writer
    }

    pub fn new(writer: W, underlines: Underlines) -> (b: Self)
        ensures
            b.spec_writer() == writer,
            b.spec_underlines() == underlines,
            !b.spec_in_frame(),
    {
        TypBackend { writer, underlines, in_frame: false }
    }

    /// What this backend decided the terminal can draw.
    pub fn underlines(&self) -> (u: Underlines)
        ensures
            u == self.spec_underlines(),
    {
        self.underlines
    }

    /// The writer the frame goes to.
    pub fn writer_mut(&mut self) -> (w: &mut W)
        ensures
            *w == old(self).spec_writer(),
            final(self).spec_writer() == *final(w),
            final(self).spec_underlines() == old(self).spec_underlines(),
            final(self).spec_in_frame() == old(self).spec_in_frame(),
    {
        &mut self.writer
    }

    /// A frame is being drawn. Returns whether the synchronized-output opening
    /// sequence (`CSI ?2026 h`) has to be written: only when no frame is open.
    pub fn begin_frame(&mut self) -> (open: bool)
        ensures
            open == !old(self).spec_in_frame(),
            final(self).spec_in_frame(),
            frame_step(FrameCall::Draw, old(self).spec_in_frame()) == (
                mark_if(open, true),
                final(self).spec_in_frame(),
            ),
            final(self).spec_writer() == old(self).spec_writer(),
            final(self).spec_underlines() == old(self).spec_underlines(),
    {
        let open = !self.in_frame;
        self.in_frame = true;
        open
    }

    /// The frame is being flushed. Returns whether the closing sequence
    /// (`CSI ?2026 l`) has to be written: only when a frame was opened.
    pub fn end_frame(&mut self) -> (close: bool)
        ensures
            close == old(self).spec_in_frame(),
            !final(self).spec_in_frame(),
            frame_step(FrameCall::Flush, old(self).spec_in_frame()) == (
                mark_if(close, false),
                final(self).spec_in_frame(),
            ),
            final(self).spec_writer() == old(self).spec_writer(),
            final(self).spec_underlines() == old(self).spec_underlines(),
    {
        let close = self.in_frame;
        self.in_frame = false;
        close
    }
}

/// A call on the backend, as far as frames go.
#[derive(Debug, Clone, Copy, PartialEq, Eq, Structural)]
pub enum FrameCall {
    /// `draw`, which calls [`TypBackend::begin_frame`].
    Draw,
    /// `flush`, which calls [`TypBackend::end_frame`].
    Flush,
}

/// The synchronized-output marks a run of calls writes, from a backend
/// whose frame is `open` or not: `true` for `CSI ?2026 h`, `false` for
/// `CSI ?2026 l`. A draw writes the opening mark when no frame is open, as
/// `begin_frame` answers, and a flush the closing one when one is, as
/// `end_frame` answers.
pub open spec fn frame_marks(calls: Seq<FrameCall>, open: bool) -> Seq<bool>
    decreases calls.len(),
{
    if calls.len() == 0 {
        Seq::empty()
    } else {
        let (marks, next) = frame_step(calls[0], open);
        marks + frame_marks(calls.drop_first(), next)
    }
}

/// What one call writes, and whether a frame is open after it.
pub open spec fn frame_step(call: FrameCall, open: bool) -> (Seq<bool>, bool) {
    match call {
        FrameCall::Draw => (if open {
            Seq::empty()
        } else {
            seq![true]
        }, true),
        FrameCall::Flush => (if open {
            seq![false]
        } else {
            Seq::empty()
        }, false),
    }
}

/// The marks written for a call that writes one exactly when `written`.
pub open spec fn mark_if(written: bool, mark: bool) -> Seq<bool> {
    if written {
        seq![mark]
    } else {
        Seq::empty()
    }
}

/// Whether marks alternate, the first being `first`.
pub open spec fn alternates(marks: Seq<bool>, first: bool) -> bool {
    forall|i: int| 0 <= i < marks.len() ==> #[trigger] marks[i] == (if i % 2 == 0 {
        first
    } else {
        !first
    })
}

proof fn lemma_frame_marks(calls: Seq<FrameCall>, open: bool)
    ensures
        alternates(frame_marks(calls, open), !open),
    decreases calls.len(),
{
    if calls.len() > 0 {
        let rest = calls.drop_first();
        let next = match calls[0] {
            FrameCall::Draw => true,
            FrameCall::Flush => false,
        };
        lemma_frame_marks(rest, next);
        let tail = frame_marks(rest, next);
        if next == open {
            assert(frame_marks(calls, open) =~= tail);
        } else {
            assert(frame_marks(calls, open) =~= seq![next] + tail);
            let m = seq![next] + tail;
            assert forall|i: int| 0 <= i < m.len() implies #[trigger] m[i] == (if i % 2 == 0 {
                !open
            } else {
                open
            }) by {
                if i > 0 {
                    assert(m[i] == tail[i - 1]);
                }
            }
        }
    }
}

/// From a new backend, whatever run of draws and flushes follows, the
/// opening and closing marks alternate, the opening one first: no closing
/// mark is ever written without an opening one before it.
pub proof fn law_frames_alternate(calls: Seq<FrameCall>)
    ensures
        alternates(frame_marks(calls, false), true),
{
    lemma_frame_marks(calls, false);
}

/// A terminal colour, as the screen buffer names it.
#[derive(Debug, Clone, Copy, PartialEq, Eq, Structural)]
pub enum Color {
    Reset,
    Black,
    Red,
    Green,
    Yellow,
    Blue,
    Magenta,
    Cyan,
    Gray,
    DarkGray,
    LightRed,
    LightGreen,
    LightYellow,
    LightBlue,
    LightMagenta,
    LightCyan,
    White,
    Rgb(u8, u8, u8),
    Indexed(u8),
}

/// A named colour's index in the terminal's palette.
pub open spec fn spec_ansi_index(colour: Color) -> u8 {
    match colour {
        Color::Black => 0,
        Color::Red => 1,
        Color::Green => 2,
        Color::Yellow => 3,
        Color::Blue => 4,
        Color::Magenta => 5,
        Color::Cyan => 6,
        Color::Gray => 7,
        Color::DarkGray => 8,
        Color::LightRed => 9,
        Color::LightGreen => 10,
        Color::LightYellow => 11,
        Color::LightBlue => 12,
        Color::LightMagenta => 13,
        Color::LightCyan => 14,
        Color::White => 15,
        Color::Indexed(i) => i,
        _ => 7,
    }
}

/// A named ANSI colour as its palette index. `Reset` and `Rgb` have none and
/// answer the default foreground's index.
pub fn ansi_index(colour: Color) -> (i: u8)
    ensures
        i == spec_ansi_index(colour),
{
    match colour {
        Color::Black => 0,
        Color::Red => 1,
        Color::Green => 2,
        Color::Yellow => 3,
        Color::Blue => 4,
        Color::Magenta => 5,
        Color::Cyan => 6,
        Color::Gray => 7,
        Color::DarkGray => 8,
        Color::LightRed => 9,
        Color::LightGreen => 10,
        Color::LightYellow => 11,
        Color::LightBlue => 12,
        Color::LightMagenta => 13,
        Color::LightCyan => 14,
        Color::White => 15,
        Color::Indexed(i) => i,
        _ => 7,
    }
}

/// The escape character.
pub open spec fn esc() -> Seq<char> {
    seq!['\x1b', '[']
}

/// The underline-colour sequence for a colour, in the colon form.
pub open spec fn spec_underline_colour(colour: Color) -> Seq<char> {
    match colour {
        Color::Reset => esc() + seq!['5', '9', 'm'],
        Color::Rgb(r, g, b) => esc() + seq!['5', '8', ':', '2', ':', ':'] + decimal(r as nat) + seq![
            ':',
        ] + decimal(g as nat) + seq![':'] + decimal(b as nat) + seq!['m'],
        _ => esc() + seq!['5', '8', ':', '5', ':'] + decimal(spec_ansi_index(colour) as nat) + seq![
            'm',
        ],
    }
}

/// The sixteen named colours are the terminal's sixteen palette entries in
/// their standard order, each light one eight past its dark one (black 0,
/// red 1, green 2, yellow 3, blue 4, magenta 5, cyan 6, gray 7, and 8 to 15
/// for dark gray and the light ones), and an indexed colour is its index.
/// The underline colour is `CSI 59 m` to reset it, `CSI 58:2::r:g:b m` for a
/// true colour, components in that order, and `CSI 58:5:n m` for palette
/// entry `n`.
pub proof fn law_underline_colours(colour: Color)
    ensures
        spec_ansi_index(Color::Black) == 0,
        spec_ansi_index(Color::Red) == 1,
        spec_ansi_index(Color::Green) == 2,
        spec_ansi_index(Color::Yellow) == 3,
        spec_ansi_index(Color::Blue) == 4,
        spec_ansi_index(Color::Magenta) == 5,
        spec_ansi_index(Color::Cyan) == 6,
        spec_ansi_index(Color::Gray) == 7,
        spec_ansi_index(Color::DarkGray) == spec_ansi_index(Color::Black) + 8,
        spec_ansi_index(Color::LightRed) == spec_ansi_index(Color::Red) + 8,
        spec_ansi_index(Color::LightGreen) == spec_ansi_index(Color::Green) + 8,
        spec_ansi_index(Color::LightYellow) == spec_ansi_index(Color::Yellow) + 8,
        spec_ansi_index(Color::LightBlue) == spec_ansi_index(Color::Blue) + 8,
        spec_ansi_index(Color::LightMagenta) == spec_ansi_index(Color::Magenta) + 8,
        spec_ansi_index(Color::LightCyan) == spec_ansi_index(Color::Cyan) + 8,
        spec_ansi_index(Color::White) == spec_ansi_index(Color::Gray) + 8,
        colour matches Color::Indexed(i) ==> spec_ansi_index(colour) == i,
        spec_underline_colour(Color::Reset) == seq!['\x1b', '[', '5', '9', 'm'],
        colour matches Color::Rgb(r, g, b) ==> spec_underline_colour(colour) == seq![
            '\x1b',
            '[',
            '5',
            '8',
            ':',
            '2',
            ':',
            ':',
        ] + decimal(r as nat) + seq![':'] + decimal(g as nat) + seq![':'] + decimal(b as nat) + seq![
            'm',
        ],
        !(colour is Reset || colour is Rgb) ==> spec_underline_colour(colour) == seq![
            '\x1b',
            '[',
            '5',
            '8',
            ':',
            '5',
            ':',
        ] + decimal(spec_ansi_index(colour) as nat) + seq!['m'],
{
    assert(esc() + seq!['5', '9', 'm'] =~= seq!['\x1b', '[', '5', '9', 'm']);
    assert(esc() + seq!['5', '8', ':', '2', ':', ':'] =~= seq!['\x1b', '[', '5', '8', ':', '2', ':', ':']);
    assert(esc() + seq!['5', '8', ':', '5', ':'] =~= seq!['\x1b', '[', '5', '8', ':', '5', ':']);
}

/// Underline colour, in the colon form.
///
/// Not `CSI 58 ; 2 ; r ; g ; b m`: one terminal in wide use accepts only the
/// colon form and mangles the semicolon one, and the colon form is what the
/// curl's inventors document.
pub fn underline_colour(colour: Color) -> (s: String)
    ensures
        s@ == spec_underline_colour(colour),
{
    let mut s = String::new();
    s.push('\x1b');
    s.push('[');
    match colour {
        Color::Reset => {
            s.push('5');
            s.push('9');
            s.push('m');
        },
        Color::Rgb(r, g, b) => {
            s.push('5');
            s.push('8');
            s.push(':');
            s.push('2');
            s.push(':');
            s.push(':');
            push_decimal(&mut s, r as u64);
            s.push(':');
            push_decimal(&mut s, g as u64);
            s.push(':');
            push_decimal(&mut s, b as u64);
            s.push('m');
        },
        _ => {
            s.push('5');
            s.push('8');
            s.push(':');
            s.push('5');
            s.push(':');
            let index = ansi_index(colour);
            push_decimal(&mut s, index as u64);
            s.push('m');
        },
    }
    assert(s@ =~= spec_underline_colour(colour));
    s
}


/// Text attributes, one bit each, laid out as the screen buffer lays them out.
pub const BOLD: u16 = 0x0001;
pub const DIM: u16 = 0x0002;
pub const ITALIC: u16 = 0x0004;
pub const UNDERLINED: u16 = 0x0008;
pub const SLOW_BLINK: u16 = 0x0010;
pub const RAPID_BLINK: u16 = 0x0020;
pub const REVERSED: u16 = 0x0040;
pub const HIDDEN: u16 = 0x0080;
pub const CROSSED_OUT: u16 = 0x0100;
/// The editor's own attribute: a curly underline, for diagnostics.
pub const UNDERCURL: u16 = 0x0200;

/// Whether a set of attributes holds one of them.
pub open spec fn holds(m: u16, flag: u16) -> bool {
    m & flag != 0
}

/// Whether `flag` is in `from` and not in `to`.
pub open spec fn gone(from: u16, to: u16, flag: u16) -> bool {
    holds(from, flag) && !holds(to, flag)
}

/// One attribute sequence the backend writes.
#[derive(Debug, Clone, Copy, PartialEq, Eq, Structural)]
pub enum AttrOp {
    NoReverse,
    /// Clears bold and dim together.
    NormalIntensity,
    NoItalic,
    NotCrossedOut,
    NoHidden,
    /// Clears both blink speeds.
    NoBlink,
    /// `CSI 24 m`: clears every underline.
    NoUnderline,
    /// `CSI 4:0 m`, written by hand: clears every underline style.
    UnderlineStyleOff,
    Reverse,
    Bold,
    Dim,
    Italic,
    SlowBlink,
    RapidBlink,
    Hidden,
    CrossedOut,
    /// `CSI 4 m`: a straight underline.
    Underlined,
    /// `CSI 4:3 m`, written by hand: a curly underline.
    Undercurl,
}

/// The SGR parameter of an attribute sequence: the numbers `crossterm`
/// writes for the standard ones, and the colon forms of the underline styles.
pub open spec fn sgr(op: AttrOp) -> Seq<char> {
    match op {
        AttrOp::NoReverse => seq!['2', '7'],
        AttrOp::NormalIntensity => seq!['2', '2'],
        AttrOp::NoItalic => seq!['2', '3'],
        AttrOp::NotCrossedOut => seq!['2', '9'],
        AttrOp::NoHidden => seq!['2', '8'],
        AttrOp::NoBlink => seq!['2', '5'],
        AttrOp::NoUnderline => seq!['2', '4'],
        AttrOp::UnderlineStyleOff => seq!['4', ':', '0'],
        AttrOp::Reverse => seq!['7'],
        AttrOp::Bold => seq!['1'],
        AttrOp::Dim => seq!['2'],
        AttrOp::Italic => seq!['3'],
        AttrOp::SlowBlink => seq!['5'],
        AttrOp::RapidBlink => seq!['6'],
        AttrOp::Hidden => seq!['8'],
        AttrOp::CrossedOut => seq!['9'],
        AttrOp::Underlined => seq!['4'],
        AttrOp::Undercurl => seq!['4', ':', '3'],
    }
}

/// The bytes of one attribute sequence: `CSI <sgr> m`.
pub open spec fn spec_attr_sequence(op: AttrOp) -> Seq<char> {
    esc() + sgr(op) + seq!['m']
}

/// The sequence one attribute change is written as.
pub fn attr_sequence(op: AttrOp) -> (s: String)
    ensures
        s@ == spec_attr_sequence(op),
{
    let mut s = String::new();
    s.push('\x1b');
    s.push('[');
    match op {
        AttrOp::NoReverse => {
            s.push('2');
            s.push('7');
        },
        AttrOp::NormalIntensity => {
            s.push('2');
            s.push('2');
        },
        AttrOp::NoItalic => {
            s.push('2');
            s.push('3');
        },
        AttrOp::NotCrossedOut => {
            s.push('2');
            s.push('9');
        },
        AttrOp::NoHidden => {
            s.push('2');
            s.push('8');
        },
        AttrOp::NoBlink => {
            s.push('2');
            s.push('5');
        },
        AttrOp::NoUnderline => {
            s.push('2');
            s.push('4');
        },
        AttrOp::UnderlineStyleOff => {
            s.push('4');
            s.push(':');
            s.push('0');
        },
        AttrOp::Reverse => {
            s.push('7');
        },
        AttrOp::Bold => {
            s.push('1');
        },
        AttrOp::Dim => {
            s.push('2');
        },
        AttrOp::Italic => {
            s.push('3');
        },
        AttrOp::SlowBlink => {
            s.push('5');
        },
        AttrOp::RapidBlink => {
            s.push('6');
        },
        AttrOp::Hidden => {
            s.push('8');
        },
        AttrOp::CrossedOut => {
            s.push('9');
        },
        AttrOp::Underlined => {
            s.push('4');
        },
        AttrOp::Undercurl => {
            s.push('4');
            s.push(':');
            s.push('3');
        },
    }
    s.push('m');
    assert(s@ =~= spec_attr_sequence(op));
    s
}

/// Each attribute change is written as its ECMA-48 select-graphic-rendition
/// code: an attribute is turned on by its own digit (1 bold, 2 dim, 3
/// italic, 4 underline, 5 slow blink, 6 rapid blink, 7 reverse, 8 hidden, 9
/// crossed out) and off by that digit after a 2, where 22 turns off bold and
/// dim together and 25 both blinks; an underline style is `4:` and its number,
/// 0 for none and 3 for a curl; and the whole is `CSI <code> m`.
pub proof fn law_attribute_codes()
    ensures
        sgr(AttrOp::Bold) == seq!['1'],
        sgr(AttrOp::Dim) == seq!['2'],
        sgr(AttrOp::Italic) == seq!['3'],
        sgr(AttrOp::Underlined) == seq!['4'],
        sgr(AttrOp::SlowBlink) == seq!['5'],
        sgr(AttrOp::RapidBlink) == seq!['6'],
        sgr(AttrOp::Reverse) == seq!['7'],
        sgr(AttrOp::Hidden) == seq!['8'],
        sgr(AttrOp::CrossedOut) == seq!['9'],
        sgr(AttrOp::NormalIntensity) == seq!['2'] + sgr(AttrOp::Dim),
        sgr(AttrOp::NoItalic) == seq!['2'] + sgr(AttrOp::Italic),
        sgr(AttrOp::NoUnderline) == seq!['2'] + sgr(AttrOp::Underlined),
        sgr(AttrOp::NoBlink) == seq!['2'] + sgr(AttrOp::SlowBlink),
        sgr(AttrOp::NoReverse) == seq!['2'] + sgr(AttrOp::Reverse),
        sgr(AttrOp::NoHidden) == seq!['2'] + sgr(AttrOp::Hidden),
        sgr(AttrOp::NotCrossedOut) == seq!['2'] + sgr(AttrOp::CrossedOut),
        sgr(AttrOp::UnderlineStyleOff) == sgr(AttrOp::Underlined) + seq![':', '0'],
        sgr(AttrOp::Undercurl) == sgr(AttrOp::Underlined) + seq![':', '3'],
        forall|op: AttrOp|
            #[trigger] spec_attr_sequence(op) == seq!['\x1b', '['] + sgr(op) + seq!['m'],
{
    assert(seq!['2'] + seq!['2'] =~= seq!['2', '2']);
    assert(seq!['2'] + seq!['3'] =~= seq!['2', '3']);
    assert(seq!['2'] + seq!['4'] =~= seq!['2', '4']);
    assert(seq!['2'] + seq!['5'] =~= seq!['2', '5']);
    assert(seq!['2'] + seq!['7'] =~= seq!['2', '7']);
    assert(seq!['2'] + seq!['8'] =~= seq!['2', '8']);
    assert(seq!['2'] + seq!['9'] =~= seq!['2', '9']);
    assert(seq!['4'] + seq![':', '0'] =~= seq!['4', ':', '0']);
    assert(seq!['4'] + seq![':', '3'] =~= seq!['4', ':', '3']);
}

/// The attribute changes between two cells, each with whether it is written,
/// in the order they are written: removals first, then additions, because the
/// sequence that clears bold also clears dim and the one that clears any
/// underline clears the curl, so an attribute that survives the change has to
/// be restated after the clear that took it away.
pub open spec fn diff_plan(from: u16, to: u16, underlines: Underlines) -> Seq<(bool, AttrOp)> {
    Seq::new(19, |k: int| plan_step(from, to, underlines, k))
}

/// Step `k` of [`diff_plan`].
pub open spec fn plan_step(from: u16, to: u16, underlines: Underlines, k: int) -> (bool, AttrOp) {
    let styled = underlines == Underlines::Styled;
    let intensity_reset = gone(from, to, BOLD) || gone(from, to, DIM);
    let underline_lost = gone(from, to, UNDERLINED) || gone(from, to, UNDERCURL);
    let curl = holds(to, UNDERCURL) && (gone(to, from, UNDERCURL) || underline_lost);
    let straight = !curl && holds(to, UNDERLINED) && (gone(to, from, UNDERLINED) || underline_lost);
    if k == 0 {
        (gone(from, to, REVERSED), AttrOp::NoReverse)
    } else if k == 1 {
        (intensity_reset, AttrOp::NormalIntensity)
    } else if k == 2 {
        (gone(from, to, ITALIC), AttrOp::NoItalic)
    } else if k == 3 {
        (gone(from, to, CROSSED_OUT), AttrOp::NotCrossedOut)
    } else if k == 4 {
        (gone(from, to, HIDDEN), AttrOp::NoHidden)
    } else if k == 5 {
        (gone(from, to, SLOW_BLINK) || gone(from, to, RAPID_BLINK), AttrOp::NoBlink)
    } else if k == 6 {
        (underline_lost && styled, AttrOp::UnderlineStyleOff)
    } else if k == 7 {
        (underline_lost && !styled, AttrOp::NoUnderline)
    } else if k == 8 {
        (gone(to, from, REVERSED), AttrOp::Reverse)
    } else if k == 9 {
        (holds(to, BOLD) && (gone(to, from, BOLD) || intensity_reset), AttrOp::Bold)
    } else if k == 10 {
        (holds(to, DIM) && (gone(to, from, DIM) || intensity_reset), AttrOp::Dim)
    } else if k == 11 {
        (gone(to, from, ITALIC), AttrOp::Italic)
    } else if k == 12 {
        (gone(to, from, SLOW_BLINK), AttrOp::SlowBlink)
    } else if k == 13 {
        (gone(to, from, RAPID_BLINK), AttrOp::RapidBlink)
    } else if k == 14 {
        (gone(to, from, HIDDEN), AttrOp::Hidden)
    } else if k == 15 {
        (gone(to, from, CROSSED_OUT), AttrOp::CrossedOut)
    } else if k == 16 {
        (curl && styled, AttrOp::Undercurl)
    } else if k == 17 {
        (curl && !styled, AttrOp::Underlined)
    } else {
        (straight, AttrOp::Underlined)
    }
}

/// The operations of a plan that are written, in order.
pub open spec fn kept(plan: Seq<(bool, AttrOp)>) -> Seq<AttrOp> {
    written(plan, plan.len() as int)
}

/// The operations among the first `n` of a plan that are written, in order.
pub open spec fn written(plan: Seq<(bool, AttrOp)>, n: int) -> Seq<AttrOp>
    decreases n,
{
    if n <= 0 {
        Seq::empty()
    } else if plan[n - 1].0 {
        written(plan, n - 1).push(plan[n - 1].1)
    } else {
        written(plan, n - 1)
    }
}

proof fn lemma_bit_gone(a: u16, b: u16, f: u16)
    by (bit_vector)
    requires
        f == 0x0001 || f == 0x0002 || f == 0x0004 || f == 0x0008 || f == 0x0010 || f == 0x0020
            || f == 0x0040 || f == 0x0080 || f == 0x0100 || f == 0x0200,
    ensures
        ((a & !b) & f != 0) == (a & f != 0 && !(b & f != 0)),
{
}

/// Whether `flag` is in `from` and not in `to`, by the bits.
fn lost(from: u16, to: u16, flag: u16) -> (b: bool)
    requires
        flag == BOLD || flag == DIM || flag == ITALIC || flag == UNDERLINED || flag == SLOW_BLINK
            || flag == RAPID_BLINK || flag == REVERSED || flag == HIDDEN || flag == CROSSED_OUT
            || flag == UNDERCURL,
    ensures
        b == gone(from, to, flag),
{
    proof {
        lemma_bit_gone(from, to, flag);
    }
    (from & !to) & flag != 0
}

/// Whether a set of attributes holds `flag`, by the bit.
fn contains(m: u16, flag: u16) -> (b: bool)
    ensures
        b == holds(m, flag),
{
    m & flag != 0
}

/// The attribute sequences that take a cell drawn with `from` to one drawn
/// with `to`.
#[verifier::rlimit(60)]
pub fn modifier_diff(from: u16, to: u16, underlines: Underlines) -> (ops: Vec<AttrOp>)
    ensures
        ops@ == kept(diff_plan(from, to, underlines)),
{
    let styled = match underlines {
        Underlines::Styled => true,
        Underlines::Plain => false,
    };
    // One sequence clears both intensities, so losing either means restating
    // whichever is left.
    let intensity_reset = lost(from, to, BOLD) || lost(from, to, DIM);
    // `CSI 4:0 m` turns off every underline style, the curl included.
    let underline_lost = lost(from, to, UNDERLINED) || lost(from, to, UNDERCURL);
    let curl = contains(to, UNDERCURL) && (lost(to, from, UNDERCURL) || underline_lost);
    let straight = !curl && contains(to, UNDERLINED) && (lost(to, from, UNDERLINED)
        || underline_lost);

    let plan: Vec<(bool, AttrOp)> = vec![
        (lost(from, to, REVERSED), AttrOp::NoReverse),
        (intensity_reset, AttrOp::NormalIntensity),
        (lost(from, to, ITALIC), AttrOp::NoItalic),
        (lost(from, to, CROSSED_OUT), AttrOp::NotCrossedOut),
        (lost(from, to, HIDDEN), AttrOp::NoHidden),
        (lost(from, to, SLOW_BLINK) || lost(from, to, RAPID_BLINK), AttrOp::NoBlink),
        (underline_lost && styled, AttrOp::UnderlineStyleOff),
        (underline_lost && !styled, AttrOp::NoUnderline),
        (lost(to, from, REVERSED), AttrOp::Reverse),
        (contains(to, BOLD) && (lost(to, from, BOLD) || intensity_reset), AttrOp::Bold),
        (contains(to, DIM) && (lost(to, from, DIM) || intensity_reset), AttrOp::Dim),
        (lost(to, from, ITALIC), AttrOp::Italic),
        (lost(to, from, SLOW_BLINK), AttrOp::SlowBlink),
        (lost(to, from, RAPID_BLINK), AttrOp::RapidBlink),
        (lost(to, from, HIDDEN), AttrOp::Hidden),
        (lost(to, from, CROSSED_OUT), AttrOp::CrossedOut),
        (curl && styled, AttrOp::Undercurl),
        (curl && !styled, AttrOp::Underlined),
        (straight, AttrOp::Underlined),
    ];
    assert(plan@ =~= diff_plan(from, to, underlines));
    keep_written(&plan)
}

/// The operations of a plan that are written, in order.
fn keep_written(plan: &Vec<(bool, AttrOp)>) -> (ops: Vec<AttrOp>)
    ensures
        ops@ == kept(plan@),
{
    let mut ops: Vec<AttrOp> = Vec::new();
    let mut i: usize = 0;
    while i < plan.len()
        invariant
            i <= plan@.len(),
            ops@ == written(plan@, i as int),
        decreases plan@.len() - i,
    {
        let (write, op) = plan[i];
        if write {
            ops.push(op);
        }
        i = i + 1;
    }
    ops
}

/// How a terminal draws an underline.
#[derive(PartialEq, Eq, Structural)]
pub enum Shape {
    Absent,
    Straight,
    Curl,
}

/// What a terminal shows: the state its attribute sequences set.
pub struct Look {
    pub bold: bool,
    pub dim: bool,
    pub italic: bool,
    pub slow_blink: bool,
    pub rapid_blink: bool,
    pub reversed: bool,
    pub hidden: bool,
    pub crossed_out: bool,
    pub underline: Shape,
}

/// What a cell with attributes `m` looks like on a terminal that draws
/// `underlines`: a curl is a straight line where no curl can be drawn.
pub open spec fn look(m: u16, underlines: Underlines) -> Look {
    Look {
        bold: holds(m, BOLD),
        dim: holds(m, DIM),
        italic: holds(m, ITALIC),
        slow_blink: holds(m, SLOW_BLINK),
        rapid_blink: holds(m, RAPID_BLINK),
        reversed: holds(m, REVERSED),
        hidden: holds(m, HIDDEN),
        crossed_out: holds(m, CROSSED_OUT),
        underline: if holds(m, UNDERCURL) {
            if underlines == Underlines::Styled {
                Shape::Curl
            } else {
                Shape::Straight
            }
        } else if holds(m, UNDERLINED) {
            Shape::Straight
        } else {
            Shape::Absent
        },
    }
}

/// What one attribute sequence does to what a terminal shows.
pub open spec fn apply(l: Look, op: AttrOp) -> Look {
    match op {
        AttrOp::NoReverse => Look { reversed: false, ..l },
        AttrOp::NormalIntensity => Look { bold: false, dim: false, ..l },
        AttrOp::NoItalic => Look { italic: false, ..l },
        AttrOp::NotCrossedOut => Look { crossed_out: false, ..l },
        AttrOp::NoHidden => Look { hidden: false, ..l },
        AttrOp::NoBlink => Look { slow_blink: false, rapid_blink: false, ..l },
        AttrOp::NoUnderline => Look { underline: Shape::Absent, ..l },
        AttrOp::UnderlineStyleOff => Look { underline: Shape::Absent, ..l },
        AttrOp::Reverse => Look { reversed: true, ..l },
        AttrOp::Bold => Look { bold: true, ..l },
        AttrOp::Dim => Look { dim: true, ..l },
        AttrOp::Italic => Look { italic: true, ..l },
        AttrOp::SlowBlink => Look { slow_blink: true, ..l },
        AttrOp::RapidBlink => Look { rapid_blink: true, ..l },
        AttrOp::Hidden => Look { hidden: true, ..l },
        AttrOp::CrossedOut => Look { crossed_out: true, ..l },
        AttrOp::Underlined => Look { underline: Shape::Straight, ..l },
        AttrOp::Undercurl => Look { underline: Shape::Curl, ..l },
    }
}

/// What a terminal shows after a run of sequences.
pub open spec fn shown_after(l: Look, ops: Seq<AttrOp>) -> Look
    decreases ops.len(),
{
    if ops.len() == 0 {
        l
    } else {
        apply(shown_after(l, ops.drop_last()), ops.last())
    }
}

/// The first `n` steps of a plan run against a terminal, writing the
/// operations marked written.
pub open spec fn run_plan(l: Look, plan: Seq<(bool, AttrOp)>, n: int) -> Look
    decreases n,
{
    if n <= 0 {
        l
    } else if plan[n - 1].0 {
        apply(run_plan(l, plan, n - 1), plan[n - 1].1)
    } else {
        run_plan(l, plan, n - 1)
    }
}

proof fn lemma_written_runs(l: Look, plan: Seq<(bool, AttrOp)>, n: int)
    ensures
        shown_after(l, written(plan, n)) == run_plan(l, plan, n),
    decreases n,
{
    if n > 0 {
        lemma_written_runs(l, plan, n - 1);
        if plan[n - 1].0 {
            assert(written(plan, n).drop_last() =~= written(plan, n - 1));
        }
    }
}

/// The two changes the sequences cannot make: a blink that stays on while
/// the other speed goes (the one clear takes both speeds and only the new one
/// is written), and a straight underline added under a curl that stays on a
/// terminal that draws curls (`CSI 4 m` replaces the curl with a line).
pub open spec fn unreachable_change(from: u16, to: u16, underlines: Underlines) -> bool {
    ||| (gone(from, to, SLOW_BLINK) || gone(from, to, RAPID_BLINK)) && ((holds(from, SLOW_BLINK)
        && holds(to, SLOW_BLINK)) || (holds(from, RAPID_BLINK) && holds(to, RAPID_BLINK)))
    ||| underlines == Underlines::Styled && holds(from, UNDERCURL) && holds(to, UNDERCURL) && gone(
        to,
        from,
        UNDERLINED,
    )
}

/// Writing the sequences `modifier_diff` chooses for `from` to `to` leaves a
/// terminal showing `from` showing `to`, for every change but the two named
/// by `unreachable_change`.
pub proof fn lemma_diff_draws_target(from: u16, to: u16, underlines: Underlines)
    requires
        !unreachable_change(from, to, underlines),
    ensures
        shown_after(look(from, underlines), kept(diff_plan(from, to, underlines))) == look(
            to,
            underlines,
        ),
{
    let plan = diff_plan(from, to, underlines);
    let start = look(from, underlines);
    lemma_written_runs(start, plan, plan.len() as int);
    lemma_removals(from, to, underlines);
    lemma_emphasis(from, to, underlines);
    lemma_additions(from, to, underlines);
    lemma_underline(from, to, underlines);
}

/// What a terminal shows once the removals, the first eight steps, are written.
pub open spec fn after_removals(from: u16, to: u16, underlines: Underlines) -> Look {
    let intensity_reset = gone(from, to, BOLD) || gone(from, to, DIM);
    let blink_reset = gone(from, to, SLOW_BLINK) || gone(from, to, RAPID_BLINK);
    let underline_lost = gone(from, to, UNDERLINED) || gone(from, to, UNDERCURL);
    Look {
        bold: holds(from, BOLD) && !intensity_reset,
        dim: holds(from, DIM) && !intensity_reset,
        italic: holds(from, ITALIC) && holds(to, ITALIC),
        slow_blink: holds(from, SLOW_BLINK) && !blink_reset,
        rapid_blink: holds(from, RAPID_BLINK) && !blink_reset,
        reversed: holds(from, REVERSED) && holds(to, REVERSED),
        hidden: holds(from, HIDDEN) && holds(to, HIDDEN),
        crossed_out: holds(from, CROSSED_OUT) && holds(to, CROSSED_OUT),
        underline: if underline_lost {
            Shape::Absent
        } else {
            look(from, underlines).underline
        },
    }
}

#[verifier::spinoff_prover]
#[verifier::rlimit(40)]
proof fn lemma_removals(from: u16, to: u16, underlines: Underlines)
    ensures
        run_plan(look(from, underlines), diff_plan(from, to, underlines), 8) == after_removals(
            from,
            to,
            underlines,
        ),
{
    reveal_with_fuel(run_plan, 9);
}

/// What a terminal shows once the additions other than the underline, steps
/// eight to fifteen, are written.
pub open spec fn after_additions(from: u16, to: u16, underlines: Underlines) -> Look {
    Look { underline: after_removals(from, to, underlines).underline, ..look(to, underlines) }
}

/// What a terminal shows once steps eight to eleven are written: reverse,
/// intensity and italic are as wanted.
pub open spec fn after_emphasis(from: u16, to: u16, underlines: Underlines) -> Look {
    let l = look(to, underlines);
    Look {
        reversed: l.reversed,
        bold: l.bold,
        dim: l.dim,
        italic: l.italic,
        ..after_removals(from, to, underlines)
    }
}

proof fn lemma_emphasis(from: u16, to: u16, underlines: Underlines)
    requires
        run_plan(look(from, underlines), diff_plan(from, to, underlines), 8) == after_removals(
            from,
            to,
            underlines,
        ),
    ensures
        run_plan(look(from, underlines), diff_plan(from, to, underlines), 12) == after_emphasis(
            from,
            to,
            underlines,
        ),
{
    reveal_with_fuel(run_plan, 5);
}

proof fn lemma_additions(from: u16, to: u16, underlines: Underlines)
    requires
        !unreachable_change(from, to, underlines),
        run_plan(look(from, underlines), diff_plan(from, to, underlines), 12) == after_emphasis(
            from,
            to,
            underlines,
        ),
    ensures
        run_plan(look(from, underlines), diff_plan(from, to, underlines), 16) == after_additions(
            from,
            to,
            underlines,
        ),
{
    reveal_with_fuel(run_plan, 5);
}

proof fn lemma_underline(from: u16, to: u16, underlines: Underlines)
    requires
        !unreachable_change(from, to, underlines),
        run_plan(look(from, underlines), diff_plan(from, to, underlines), 16) == after_additions(
            from,
            to,
            underlines,
        ),
    ensures
        run_plan(look(from, underlines), diff_plan(from, to, underlines), 19) == look(to, underlines),
{
    reveal_with_fuel(run_plan, 4);
}

/// Whether an operation is one of the two hand-written styled sequences.
pub open spec fn is_styled_sequence(op: AttrOp) -> bool {
    op == AttrOp::UnderlineStyleOff || op == AttrOp::Undercurl
}

/// A terminal that draws only straight lines is never sent the hand-written
/// styled sequences, which it would print as text.
pub proof fn lemma_plain_gets_no_styled_sequence(from: u16, to: u16)
    ensures
        forall|i: int|
            0 <= i < kept(diff_plan(from, to, Underlines::Plain)).len() ==> !is_styled_sequence(
                #[trigger] kept(diff_plan(from, to, Underlines::Plain))[i],
            ),
{
    let plan = diff_plan(from, to, Underlines::Plain);
    lemma_written_unstyled(plan, plan.len() as int);
}

proof fn lemma_written_unstyled(plan: Seq<(bool, AttrOp)>, n: int)
    requires
        n <= plan.len(),
        forall|j: int| 0 <= j < plan.len() && plan[j].0 ==> !is_styled_sequence(plan[j].1),
    ensures
        forall|i: int| 0 <= i < written(plan, n).len() ==> !is_styled_sequence(#[trigger] written(plan, n)[i]),
    decreases n,
{
    if n > 0 {
        lemma_written_unstyled(plan, n - 1);
        assert(plan[n - 1].0 ==> !is_styled_sequence(plan[n - 1].1));
        assert forall|i: int| 0 <= i < written(plan, n).len() implies !is_styled_sequence(
            #[trigger] written(plan, n)[i],
        ) by {
            if i < written(plan, n - 1).len() {
                assert(written(plan, n)[i] == written(plan, n - 1)[i]);
            }
        }
    }
}

/// What the backend has written so far in a frame: the colours, the
/// attributes, and where the last cell went.
#[derive(Debug, Clone, Copy)]
pub struct Pen {
    pub fg: Color,
    pub bg: Color,
    pub underline: Color,
    pub modifier: u16,
    pub last: Option<(u16, u16)>,
}

/// What to write before one cell's symbol.
pub struct CellPlan {
    /// Whether the cursor has to be moved to the cell: only when the run of
    /// cells breaks, since re-addressing every cell is most of a frame's bytes.
    pub move_to: bool,
    /// The attribute sequences, in order.
    pub attrs: Vec<AttrOp>,
    /// Whether the foreground and background have to be set.
    pub colours: bool,
    /// The underline-colour sequence, when it changes.
    pub underline: Option<String>,
}

/// Whether a cell at `(x, y)` continues the run that ended at `last`.
pub open spec fn continues_run(last: Option<(u16, u16)>, x: u16, y: u16) -> bool {
    match last {
        Some(p) => y == p.1 && x == p.0 + 1,
        None => false,
    }
}

impl Pen {
    /// A frame starts with every colour reset, no attribute, and nowhere.
    pub fn new() -> (pen: Pen)
        ensures
            pen == (Pen {
                fg: Color::Reset,
                bg: Color::Reset,
                underline: Color::Reset,
                modifier: 0,
                last: None,
            }),
    {
        Pen { fg: Color::Reset, bg: Color::Reset, underline: Color::Reset, modifier: 0, last: None }
    }

    /// What to write before a cell at `(x, y)` drawn in `fg` on `bg`, with an
    /// underline in `underline` and attributes `modifier`. Afterwards the pen
    /// holds exactly what the cell was drawn with.
    pub fn plan_cell(
        &mut self,
        x: u16,
        y: u16,
        fg: Color,
        bg: Color,
        underline: Color,
        modifier: u16,
        underlines: Underlines,
    ) -> (plan: CellPlan)
        ensures
            plan.move_to == !continues_run(old(self).last, x, y),
            plan.attrs@ == (if modifier != old(self).modifier {
                kept(diff_plan(old(self).modifier, modifier, underlines))
            } else {
                Seq::empty()
            }),
            plan.colours == (fg != old(self).fg || bg != old(self).bg),
            match plan.underline {
                Some(s) => underline != old(self).underline && s@ == spec_underline_colour(underline),
                None => underline == old(self).underline,
            },
            *final(self) == (Pen { fg, bg, underline, modifier, last: Some((x, y)) }),
    {
        let move_to = match self.last {
            Some(p) => !(y == p.1 && p.0 < u16::MAX && x == p.0 + 1),
            None => true,
        };
        self.last = Some((x, y));
        let attrs = if modifier != self.modifier {
            let ops = modifier_diff(self.modifier, modifier, underlines);
            self.modifier = modifier;
            ops
        } else {
            Vec::new()
        };
        let colours = fg != self.fg || bg != self.bg;
        if colours {
            self.fg = fg;
            self.bg = bg;
        }
        let underline_seq = if underline != self.underline {
            self.underline = underline;
            Some(underline_colour(underline))
        } else {
            None
        };
        CellPlan { move_to, attrs, colours, underline: underline_seq }
    }
}

} // verus!

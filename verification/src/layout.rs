//! Where each part of the screen goes.
//!
//! Every split is one function that both drawing and hit-testing call, so the
//! two cannot drift by a cell.

use crate::events::Focus;
use vstd::prelude::*;

verus! {

/// A rectangle of terminal cells.
#[derive(Debug, Clone, Copy, PartialEq, Eq, Structural, Default)]
pub struct Rect {
    pub x: u16,
    pub y: u16,
    pub width: u16,
    pub height: u16,
}

/// The extent `[start, start + len)`, clamped to what a column can hold.
pub open spec fn clamp_len(start: u16, len: u16) -> u16 {
    if start + len > u16::MAX {
        (u16::MAX - start) as u16
    } else {
        len
    }
}

/// A rectangle lies inside the coordinate space.
pub open spec fn bounded(r: Rect) -> bool {
    r.x + r.width <= u16::MAX && r.y + r.height <= u16::MAX
}

/// `inner` lies inside `outer`.
pub open spec fn within(inner: Rect, outer: Rect) -> bool {
    &&& outer.x <= inner.x
    &&& inner.x + inner.width <= outer.x + outer.width
    &&& outer.y <= inner.y
    &&& inner.y + inner.height <= outer.y + outer.height
}

pub open spec fn min16(a: u16, b: u16) -> u16 {
    if a <= b {
        a
    } else {
        b
    }
}

fn min(a: u16, b: u16) -> (m: u16)
    ensures
        m == min16(a, b),
{
    if a <= b {
        a
    } else {
        b
    }
}

impl Rect {
    /// A rectangle, with its width and height clamped so it does not run past
    /// the last column or row.
    pub fn new(x: u16, y: u16, width: u16, height: u16) -> (r: Rect)
        ensures
            r == (Rect { x, y, width: clamp_len(x, width), height: clamp_len(y, height) }),
            bounded(r),
    {
        let width = x.saturating_add(width) - x;
        let height = y.saturating_add(height) - y;
        Rect { x, y, width, height }
    }

    /// One past the last column.
    pub fn right(&self) -> (r: u16)
        ensures
            r == (if self.x + self.width > u16::MAX {
                u16::MAX
            } else {
                (self.x + self.width) as u16
            }),
    {
        self.x.saturating_add(self.width)
    }
}

/// Preferred sidebar width in columns.
pub const SIDEBAR_WIDTH: u16 = 30;

/// Below this total width the sidebar takes a share instead of a fixed size.
pub const NARROW_THRESHOLD: u16 = 60;

/// Preferred picker size, clamped to the frame.
pub const PICKER_WIDTH: u16 = 72;

pub const PICKER_HEIGHT: u16 = 18;

/// Wide enough for a signature, short enough to leave the code visible.
pub const HOVER_MAX_WIDTH: u16 = 64;

pub const HOVER_MAX_HEIGHT: u16 = 12;

/// Split the frame into `(body, status_bar)`: the status bar is the last row,
/// and it is never optional.
pub fn split_frame(area: Rect) -> (parts: (Rect, Rect))
    requires
        area.y + area.height <= u16::MAX,
    ensures
        ({
            let bh: u16 = if area.height == 0 {
                0
            } else {
                (area.height - 1) as u16
            };
            parts.0 == Rect::new_spec(area.x, area.y, area.width, bh) && parts.1 == Rect::new_spec(
                area.x,
                (area.y + bh) as u16,
                area.width,
                1,
            )
        }),
        area.height > 0 ==> parts.0.height + 1 == area.height && parts.1.y == area.y
            + parts.0.height,
{
    let body_height = area.height.saturating_sub(1);
    let body = Rect::new(area.x, area.y, area.width, body_height);
    let status = Rect::new(area.x, area.y + body_height, area.width, 1);
    (body, status)
}

impl Rect {
    /// What [`Rect::new`] builds.
    pub open spec fn new_spec(x: u16, y: u16, width: u16, height: u16) -> Rect {
        Rect { x, y, width: clamp_len(x, width), height: clamp_len(y, height) }
    }
}

/// The offset that centres `len` in `room`: the remainder goes to the far
/// side.
pub open spec fn centre_offset(room: u16, len: u16) -> u16 {
    ((room - len) / 2) as u16
}

/// A `width` by `height` rect centred in `area`, never larger than it.
pub fn centered(area: Rect, width: u16, height: u16) -> (r: Rect)
    requires
        area.x + centre_offset(area.width, min16(width, area.width)) <= u16::MAX,
        area.y + centre_offset(area.height, min16(height, area.height)) <= u16::MAX,
    ensures
        ({
            let w = min16(width, area.width);
            let h = min16(height, area.height);
            r == Rect::new_spec(
                (area.x + centre_offset(area.width, w)) as u16,
                (area.y + centre_offset(area.height, h)) as u16,
                w,
                h,
            )
        }),
        bounded(area) ==> within(r, area),
{
    let width = min(width, area.width);
    let height = min(height, area.height);
    Rect::new(area.x + (area.width - width) / 2, area.y + (area.height - height) / 2, width, height)
}

/// Where the picker overlay lands in a frame.
pub fn picker_area(frame: Rect) -> (r: Rect)
    requires
        bounded(frame),
    ensures
        r == Rect::new_spec(
            (frame.x + centre_offset(frame.width, min16(PICKER_WIDTH, frame.width))) as u16,
            (frame.y + centre_offset(frame.height, min16(PICKER_HEIGHT, frame.height))) as u16,
            min16(PICKER_WIDTH, frame.width),
            min16(PICKER_HEIGHT, frame.height),
        ),
        within(r, frame),
{
    centered(frame, PICKER_WIDTH, PICKER_HEIGHT)
}

/// `v` kept between `lo` and `hi`.
pub open spec fn clamp16(v: u16, lo: u16, hi: u16) -> u16 {
    if v < lo {
        lo
    } else if v > hi {
        hi
    } else {
        v
    }
}

/// The hover box's width for text `longest` columns wide.
pub open spec fn hover_width(frame: Rect, longest: usize) -> u16 {
    min16(clamp16(((longest as u16) + 2) as u16, 3, HOVER_MAX_WIDTH), frame.width)
}

/// The hover box's height for `lines` lines of text.
pub open spec fn hover_height(frame: Rect, lines: usize) -> u16 {
    min16(clamp16(((lines as u16) + 2) as u16, 3, HOVER_MAX_HEIGHT), frame.height)
}

/// The hover box's row in the frame: below the cursor when it fits, above it
/// otherwise.
pub open spec fn hover_row(frame: Rect, cy: u16, height: u16) -> u16 {
    if cy + 1 + height <= frame.height {
        (cy + 1) as u16
    } else if cy >= height {
        (cy - height) as u16
    } else {
        0
    }
}

/// A hover box sits on the row under the cursor when it fits there and
/// otherwise ends on the row above it; it is its text's width and height
/// plus a border each way, at least three and at most 64 columns and 12
/// rows, and never more than the frame.
pub proof fn law_where_a_hover_box_goes(frame: Rect, cy: u16, lines: usize, longest: usize)
    requires
        (longest as u16) < u16::MAX - 1,
        (lines as u16) < u16::MAX - 1,
    ensures
        ({
            let h = hover_height(frame, lines);
            let w = hover_width(frame, longest);
            &&& cy + 1 + h <= frame.height ==> hover_row(frame, cy, h) == cy + 1
            &&& cy + 1 + h > frame.height && cy >= h ==> hover_row(frame, cy, h) + h == cy
            &&& w <= frame.width && h <= frame.height
            &&& w <= 64 && h <= 12
            &&& (3 <= longest + 2 <= 64 && longest + 2 <= frame.width ==> w == longest + 2)
            &&& (3 <= lines + 2 <= 12 && lines + 2 <= frame.height ==> h == lines + 2)
        }),
{
}

/// Where a hover box goes, given where the cursor is and how much it says:
/// under the cursor when there is room and above it when there is not,
/// clamped into the frame on both axes.
pub fn hover_area(frame: Rect, cursor: (u16, u16), lines: usize, longest: usize) -> (r: Rect)
    requires
        (longest as u16) < u16::MAX - 1,
        (lines as u16) < u16::MAX - 1,
        cursor.1 + 1 + hover_height(frame, lines) <= u16::MAX,
        frame.x + frame.width <= u16::MAX,
        frame.y + hover_row(frame, cursor.1, hover_height(frame, lines)) <= u16::MAX,
    ensures
        ({
            let w = hover_width(frame, longest);
            let h = hover_height(frame, lines);
            r == (Rect {
                x: (frame.x + min16(cursor.0, (frame.width - w) as u16)) as u16,
                y: (frame.y + hover_row(frame, cursor.1, h)) as u16,
                width: w,
                height: h,
            })
        }),
        cursor.1 < frame.height && bounded(frame) ==> within(r, frame),
{
    let wanted_w = (longest as u16) + 2;
    let width = min(
        if wanted_w < 3 {
            3
        } else if wanted_w > HOVER_MAX_WIDTH {
            HOVER_MAX_WIDTH
        } else {
            wanted_w
        },
        frame.width,
    );
    let wanted_h = (lines as u16) + 2;
    let height = min(
        if wanted_h < 3 {
            3
        } else if wanted_h > HOVER_MAX_HEIGHT {
            HOVER_MAX_HEIGHT
        } else {
            wanted_h
        },
        frame.height,
    );

    let (cx, cy) = cursor;
    let x = min(cx, frame.width - width);
    // Below when it fits, above when it does not.
    let y = if cy + 1 + height <= frame.height {
        cy + 1
    } else {
        cy.saturating_sub(height)
    };

    Rect { x: frame.x + x, y: frame.y + y, width, height }
}

/// Split the editor's rect into `(tab_bar, editor)`.
///
/// A single tab gets no bar, and neither does an editor of two rows or fewer:
/// that is a border and nothing else.
pub fn split_tabs(editor: Rect, tab_count: usize) -> (parts: (Rect, Rect))
    requires
        tab_count >= 2 && editor.height >= 3 ==> editor.y < u16::MAX,
    ensures
        tab_count < 2 || editor.height < 3 ==> parts == (
            Rect::new_spec(editor.x, editor.y, editor.width, 0),
            editor,
        ),
        tab_count >= 2 && editor.height >= 3 ==> parts == (
            Rect::new_spec(editor.x, editor.y, editor.width, 1),
            Rect::new_spec(editor.x, (editor.y + 1) as u16, editor.width, (editor.height - 1) as u16),
        ),
        bounded(editor) ==> parts.0.height + parts.1.height == editor.height,
{
    if tab_count < 2 || editor.height < 3 {
        return (Rect::new(editor.x, editor.y, editor.width, 0), editor);
    }
    let bar = Rect::new(editor.x, editor.y, editor.width, 1);
    let rest = Rect::new(editor.x, editor.y + 1, editor.width, editor.height - 1);
    (bar, rest)
}

/// The sidebar's width in a body `width` columns wide: fixed, or a third of
/// the width on a narrow terminal.
pub open spec fn sidebar_width(width: u16) -> u16 {
    if width < NARROW_THRESHOLD {
        if width / 3 >= 1 {
            (width / 3) as u16
        } else {
            1
        }
    } else {
        SIDEBAR_WIDTH
    }
}

/// Split the body into `(tree_area, editor_area)`.
///
/// The editor starts on the tree's last column, so the two borders share one
/// vertical line instead of drawing two touching rules.
pub fn split(area: Rect) -> (parts: (Rect, Rect))
    requires
        area.x + sidebar_width(area.width) - 1 <= u16::MAX,
    ensures
        ({
            let s = sidebar_width(area.width);
            let shared = (s - 1) as u16;
            parts == (
                Rect::new_spec(area.x, area.y, s, area.height),
                Rect::new_spec(
                    (area.x + shared) as u16,
                    area.y,
                    (if area.width >= shared {
                        area.width - shared
                    } else {
                        0
                    }) as u16,
                    area.height,
                ),
            )
        }),
{
    let sidebar = if area.width < NARROW_THRESHOLD {
        let third = area.width / 3;
        if third >= 1 {
            third
        } else {
            1
        }
    } else {
        SIDEBAR_WIDTH
    };
    let tree = Rect::new(area.x, area.y, sidebar, area.height);
    let shared = sidebar.saturating_sub(1);
    let editor = Rect::new(area.x + shared, area.y, area.width.saturating_sub(shared), area.height);
    (tree, editor)
}

/// Where everything goes in a frame.
#[derive(Debug, Clone, Copy, PartialEq, Eq, Structural)]
pub struct FrameAreas {
    pub tree: Rect,
    pub bar: Rect,
    pub editor: Rect,
    pub status: Rect,
}

/// The frame's parts: the status bar's row, then the body split between the
/// tree and the pane, and the pane split between the tab bar and the editor.
pub open spec fn spec_frame_areas(frame: Rect, tab_count: usize) -> FrameAreas {
    let bh: u16 = if frame.height == 0 {
        0
    } else {
        (frame.height - 1) as u16
    };
    let body = Rect::new_spec(frame.x, frame.y, frame.width, bh);
    let status = Rect::new_spec(frame.x, (frame.y + bh) as u16, frame.width, 1);
    let s = sidebar_width(body.width);
    let shared = (s - 1) as u16;
    let tree = Rect::new_spec(body.x, body.y, s, body.height);
    let pane = Rect::new_spec(
        (body.x + shared) as u16,
        body.y,
        (if body.width >= shared {
            body.width - shared
        } else {
            0
        }) as u16,
        body.height,
    );
    if tab_count < 2 || pane.height < 3 {
        FrameAreas { tree, bar: Rect::new_spec(pane.x, pane.y, pane.width, 0), editor: pane, status }
    } else {
        FrameAreas {
            tree,
            bar: Rect::new_spec(pane.x, pane.y, pane.width, 1),
            editor: Rect::new_spec(pane.x, (pane.y + 1) as u16, pane.width, (pane.height - 1) as u16),
            status,
        }
    }
}

/// How a frame is divided: the status bar is its last row, full width; the
/// tree is 30 columns wide, or a third of a frame under 60 columns (at least
/// one); the editor's pane starts on the tree's last column, so they share a
/// border, and runs to the frame's right edge; the tab bar is the pane's
/// first row exactly when two or more files are open and the pane has three
/// rows or more; and the tree, and the bar with the editor, take every row
/// but the status bar's.
pub proof fn law_how_a_frame_is_divided(frame: Rect, tab_count: usize)
    requires
        bounded(frame),
        frame.height > 0,
        frame.width > 0,
    ensures
        ({
            let a = spec_frame_areas(frame, tab_count);
            &&& a.status.x == frame.x && a.status.y == frame.y + frame.height - 1
            &&& a.status.width == frame.width && a.status.height == 1
            &&& a.tree.x == frame.x && a.tree.y == frame.y && a.tree.height == frame.height - 1
            &&& a.tree.width == (if frame.width < 60 {
                if frame.width / 3 >= 1 { frame.width / 3 } else { 1 }
            } else {
                30
            })
            &&& a.editor.x == a.tree.x + a.tree.width - 1
            &&& a.bar.x == a.editor.x && a.bar.width == a.editor.width
            &&& (a.tree.width <= frame.width ==> a.editor.x + a.editor.width == frame.x + frame.width)
            &&& a.bar.height == (if tab_count >= 2 && frame.height - 1 >= 3 { 1u16 } else { 0u16 })
            &&& a.bar.y == frame.y && a.editor.y == frame.y + a.bar.height
            &&& a.bar.height + a.editor.height == frame.height - 1
        }),
{
}

/// Where the tree, the tab bar, the editor and the status bar go in a frame.
/// Rendering and hit-testing both ask this, so a click lands where the panel
/// it names was drawn: the editor starts below the tab bar, not under it,
/// and the bar and the editor together take the tree's height.
pub fn frame_areas(frame: Rect, tab_count: usize) -> (a: FrameAreas)
    requires
        bounded(frame),
    ensures
        a == spec_frame_areas(frame, tab_count),
        a.bar.height + a.editor.height == a.tree.height,
        a.editor.y == a.bar.y + a.bar.height,
        frame.height > 0 ==> a.status.height == 1 && a.status.y + 1 == frame.y + frame.height,
{
    let (body, status) = split_frame(frame);
    let (tree, pane) = split(body);
    let (bar, editor) = split_tabs(pane, tab_count);
    FrameAreas { tree, bar, editor, status }
}

/// The tree's and the editor's rects, for hit-testing mouse events: the
/// same [`frame_areas`] draws into, without the status bar's row, so a click
/// on it hits neither panel.
pub fn areas(frame: Rect, tab_count: usize) -> (r: (Rect, Rect))
    requires
        bounded(frame),
    ensures
        r == (spec_frame_areas(frame, tab_count).tree, spec_frame_areas(frame, tab_count).editor),
{
    let a = frame_areas(frame, tab_count);
    (a.tree, a.editor)
}

/// A hover box is never drawn over the cursor's row, which it is about:
/// below it when it fits there, else ending at or above it; whenever there
/// is room above for the whole box.
pub proof fn lemma_hover_never_over_the_cursor(frame: Rect, cy: u16, lines: usize)
    requires
        cy + 1 + hover_height(frame, lines) <= frame.height || cy >= hover_height(frame, lines),
    ensures
        ({
            let h = hover_height(frame, lines);
            let y = hover_row(frame, cy, h);
            y > cy || y + h <= cy
        }),
{
}

/// What a frame draws, each a layer over what came before.
#[derive(Debug, Clone, Copy, PartialEq, Eq, Structural)]
pub enum Layer {
    Tree,
    Editor,
    TabBar,
    StatusBar,
    Picker,
}

/// The order a frame is drawn in. The two panels share a column, and a
/// shared border cell cannot be two colours: the focused panel draws second
/// and gives it its colour. The tab bar, when it has a row, and the status
/// bar follow; the picker draws last of all, over the body and the status
/// bar, so a tall picker on a short terminal covers the bar rather than
/// being clipped by it.
pub open spec fn spec_draw_order(focus: Focus, picker_open: bool, bar_shown: bool) -> Seq<Layer> {
    let panels = match focus {
        Focus::Editor => seq![Layer::Tree, Layer::Editor],
        Focus::Tree => seq![Layer::Editor, Layer::Tree],
    };
    let bar = if bar_shown {
        seq![Layer::TabBar]
    } else {
        Seq::empty()
    };
    let overlay = if picker_open {
        seq![Layer::Picker]
    } else {
        Seq::empty()
    };
    panels + bar + seq![Layer::StatusBar] + overlay
}

/// The layers of a frame, in the order they are drawn.
pub fn draw_order(focus: Focus, picker_open: bool, bar_shown: bool) -> (order: Vec<Layer>)
    ensures
        order@ == spec_draw_order(focus, picker_open, bar_shown),
{
    let mut order: Vec<Layer> = Vec::new();
    match focus {
        Focus::Editor => {
            order.push(Layer::Tree);
            order.push(Layer::Editor);
        },
        Focus::Tree => {
            order.push(Layer::Editor);
            order.push(Layer::Tree);
        },
    }
    if bar_shown {
        order.push(Layer::TabBar);
    }
    order.push(Layer::StatusBar);
    if picker_open {
        order.push(Layer::Picker);
    }
    assert(order@ =~= spec_draw_order(focus, picker_open, bar_shown));
    order
}

/// The focused panel is drawn after the other one, and an open picker is
/// the last thing drawn.
pub proof fn law_focused_and_overlay_draw_last(focus: Focus, picker_open: bool, bar_shown: bool)
    ensures
        ({
            let o = spec_draw_order(focus, picker_open, bar_shown);
            let focused = match focus {
                Focus::Tree => Layer::Tree,
                Focus::Editor => Layer::Editor,
            };
            &&& o[1] == focused
            &&& o[0] != focused
            &&& picker_open ==> o.last() == Layer::Picker
            &&& o.contains(Layer::StatusBar)
        }),
{
    let o = spec_draw_order(focus, picker_open, bar_shown);
    let n = if bar_shown { 3int } else { 2int };
    assert(o[n] == Layer::StatusBar);
}

} // verus!

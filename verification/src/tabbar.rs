//! The strip of open files above the editor: where each tab's cell lands.
//!
//! Rendering and hit-testing both ask [`cells`] the same question, so a click
//! resolves to the tab under the pointer by construction.
//!
//! A cell reads ` name × `: a space, the name, a space, the close box and a
//! space. The layout is stateless: the window is recomputed from the active
//! tab on every call, scrolled by the smallest amount that keeps the active
//! tab on screen.

use crate::text::{display_width, display_width_of, graphemes, graphemes_of};
use vstd::prelude::*;

verus! {

/// Columns a cell spends on something other than the name: a space either
/// side of it, the close box and the space before the box.
pub const CHROME: u16 = 4;

/// Where one tab sits in the bar.
#[derive(Debug, Clone, Copy, PartialEq, Eq, Structural)]
pub struct TabCell {
    /// Index into the list of tabs, not into the returned cells.
    pub index: usize,
    /// Column offset from the bar's left edge.
    pub x: u16,
    /// Columns the cell was given; the last visible cell may be clipped.
    pub width: u16,
}

/// `a + b`, stopping at `u16::MAX`.
pub open spec fn sat_add(a: u16, b: u16) -> u16 {
    if a as int + b as int > u16::MAX as int {
        u16::MAX
    } else {
        (a + b) as u16
    }
}

/// The smaller of two columns.
pub open spec fn min16(a: u16, b: u16) -> u16 {
    if a <= b {
        a
    } else {
        b
    }
}

/// Columns a label's cell wants: its display width, capped to what a column
/// count can hold, plus the chrome.
pub open spec fn wanted(label: Seq<char>) -> u16 {
    let w = display_width_of(label);
    let text: u16 = if w > u16::MAX as usize {
        u16::MAX
    } else {
        w as u16
    };
    sat_add(text, CHROME)
}

/// The cell widths a list of labels wants.
pub open spec fn widths_of(labels: Seq<String>) -> Seq<u16> {
    labels.map_values(|l: String| wanted(l@))
}

/// The column the cell for tab `i` starts at when the bar begins at `start`.
pub open spec fn offset(widths: Seq<u16>, start: int, i: int) -> u16
    decreases i - start,
{
    if i <= start {
        0
    } else {
        sat_add(offset(widths, start, i - 1), widths[i - 1])
    }
}

/// Whether tab `active` gets a column when the bar begins at `start`.
pub open spec fn fits(widths: Seq<u16>, start: int, active: int, width: u16) -> bool {
    offset(widths, start, active) < width
}

/// `start` is the leftmost first tab that still gives `active` a column, or
/// `active` itself when none does.
pub open spec fn is_scroll_start(widths: Seq<u16>, start: int, active: int, width: u16) -> bool {
    &&& 0 <= start <= active
    &&& forall|s: int| 0 <= s < start ==> !fits(widths, s, active, width)
    &&& fits(widths, start, active, width) || start == active
}

/// The cell tab `i` gets when the bar begins at `start`.
pub open spec fn cell_at(widths: Seq<u16>, start: int, i: int, width: u16) -> TabCell {
    let x = offset(widths, start, i);
    TabCell { index: i as usize, x, width: min16(widths[i], (width - x) as u16) }
}

/// `cells` is every tab from `start` on that begins inside the bar.
pub open spec fn lays_out(widths: Seq<u16>, start: int, width: u16, cells: Seq<TabCell>) -> bool {
    &&& 0 <= start
    &&& start + cells.len() <= widths.len()
    &&& forall|k: int|
        0 <= k < cells.len() ==> offset(widths, start, start + k) < width && #[trigger] cells[k]
            == cell_at(widths, start, start + k, width)
    &&& start + cells.len() == widths.len() || offset(widths, start, start + cells.len()) >= width
}

/// A cell wants its name's width and four columns more: a space before the
/// name, a space after it, the close box and a space after that. Each cell
/// starts where the one before it ends. A cell begins with a space.
pub proof fn law_a_cell_is_the_name_and_four_columns(label: Seq<char>, widths: Seq<u16>, start: int, i: int, x: int, end: int)
    requires
        start < i,
    ensures
        display_width_of(label) + 4 <= u16::MAX ==> wanted(label) == display_width_of(label) + 4,
        offset(widths, start, i) as int + widths[i - 1] as int <= u16::MAX ==> offset(widths, start, i)
            == offset(widths, start, i - 1) + widths[i - 1],
        x < end ==> put_all(x, end, cell_symbols(label))[0] == (x, seq![' ']),
{
    let syms = cell_symbols(label);
    if x < end {
        assert(syms[0] == seq![' ']);
    }
}

/// Offsets only grow as the bar runs right.
proof fn lemma_offset_monotone(widths: Seq<u16>, start: int, i: int, j: int)
    requires
        start <= i <= j,
    ensures
        offset(widths, start, i) <= offset(widths, start, j),
    decreases j - i,
{
    if i < j {
        lemma_offset_monotone(widths, start, i, j - 1);
    }
}

/// Columns a label wants, padding and close box included.
fn cell_width(label: &str) -> (w: u16)
    ensures
        w == wanted(label@),
{
    let measured = display_width(label);
    let text: u16 = if measured > 65535 {
        u16::MAX
    } else {
        measured as u16
    };
    text.saturating_add(CHROME)
}

/// The leftmost tab that can be first while `active` still gets a column.
///
/// Scrolls by the smallest amount that keeps the promise, so moving one tab to
/// the right shifts the bar by one tab rather than paging it.
fn first_visible(widths: &Vec<u16>, active: usize, width: u16) -> (start: usize)
    requires
        active < widths@.len(),
    ensures
        is_scroll_start(widths@, start as int, active as int, width),
{
    let mut start: usize = 0;
    while start <= active
        invariant
            start <= active + 1,
            active < widths@.len(),
            forall|s: int| 0 <= s < start ==> !fits(widths@, s, active as int, width),
        decreases active + 1 - start,
    {
        let mut x: u16 = 0;
        let mut index: usize = start;
        while index < widths.len() && x < width
            invariant
                start <= index <= active,
                active < widths@.len(),
                x == offset(widths@, start as int, index as int),
                forall|s: int| 0 <= s < start ==> !fits(widths@, s, active as int, width),
            decreases widths@.len() - index,
        {
            if index == active {
                return start;
            }
            x = x.saturating_add(widths[index]);
            index = index + 1;
        }
        proof {
            lemma_offset_monotone(widths@, start as int, index as int, active as int);
        }
        start = start + 1;
    }
    active
}

/// The visible cells, scrolled so `active` is one of them.
///
/// Beyond the exact layout, the contract states what the bar promises: the
/// active tab (clamped to the last) always gets a column, no cell runs past
/// the bar, cells run left to right from column zero without gaps, and only
/// the last visible cell can be narrower than its name wants.
pub fn cells(labels: &[String], active: usize, width: u16) -> (cells: Vec<TabCell>)
    ensures
        labels@.len() == 0 || width == 0 ==> cells@.len() == 0,
        labels@.len() > 0 && width > 0 ==> {
            let widths = widths_of(labels@);
            let a: int = if active < labels@.len() {
                active as int
            } else {
                labels@.len() - 1
            };
            &&& cells@.len() > 0
            &&& is_scroll_start(widths, cells@[0].index as int, a, width)
            &&& lays_out(widths, cells@[0].index as int, width, cells@)
            &&& exists|k: int|
                0 <= k < cells@.len() && cells@[k].index == a && #[trigger] cells@[k].width > 0
            &&& cells@[0].x == 0
            &&& forall|k: int|
                0 <= k < cells@.len() ==> #[trigger] cells@[k].x + cells@[k].width <= width
            &&& forall|k: int|
                0 <= k < cells@.len() - 1 ==> #[trigger] cells@[k].x + cells@[k].width == cells@[k
                    + 1].x && cells@[k].width == widths[cells@[k].index as int]
        },
{
    if labels.len() == 0 || width == 0 {
        return Vec::new();
    }
    let mut widths: Vec<u16> = Vec::new();
    let mut i: usize = 0;
    while i < labels.len()
        invariant
            i <= labels@.len(),
            widths@.len() == i,
            forall|j: int| 0 <= j < i ==> widths@[j] == wanted(labels@[j]@),
        decreases labels@.len() - i,
    {
        widths.push(cell_width(labels[i].as_str()));
        i = i + 1;
    }
    assert(widths@ =~= widths_of(labels@));
    let last = labels.len() - 1;
    let a: usize = if active < last {
        active
    } else {
        last
    };
    let start = first_visible(&widths, a, width);

    let mut out: Vec<TabCell> = Vec::new();
    let mut x: u16 = 0;
    let mut index: usize = start;
    while index < widths.len() && x < width
        invariant
            start <= index <= widths@.len(),
            start <= a < widths@.len(),
            x == offset(widths@, start as int, index as int),
            out@.len() == index - start,
            forall|k: int| 0 <= k < out@.len() ==> #[trigger] offset(widths@, start as int, start + k) < width,
            forall|k: int|
                0 <= k < out@.len() ==> #[trigger] out@[k] == cell_at(widths@, start as int, start + k, width),
        decreases widths@.len() - index,
    {
        let wanted_here = widths[index];
        let room = width - x;
        let given = if wanted_here < room {
            wanted_here
        } else {
            room
        };
        let ghost before = out@;
        out.push(TabCell { index, x, width: given });
        proof {
            let k = before.len() as int;
            assert(start + k == index);
            assert(offset(widths@, start as int, index as int) < width);
            assert(offset(widths@, start as int, start + k) < width);
            assert(out@[k] == cell_at(widths@, start as int, start + k, width));
            assert forall|j: int| 0 <= j < out@.len() implies #[trigger] out@[j] == cell_at(widths@, start as int, start + j, width) by {
                if j < k {
                    assert(out@[j] == before[j]);
                }
            }
            assert forall|j: int| 0 <= j < out@.len() implies #[trigger] offset(widths@, start as int, start + j) < width by {
                if j < k {
                    assert(before[j] == before[j]);
                }
            }
        }
        x = x.saturating_add(wanted_here);
        index = index + 1;
    }
    proof {
        let ws = widths@;
        let s = start as int;
        // The active tab fits, so every tab up to it begins inside the bar.
        assert(fits(ws, s, a as int, width));
        if index <= a {
            lemma_offset_monotone(ws, s, index as int, a as int);
        }
        assert(index > a);
        let k = a - s;
        assert(out@[k].index == a);
        assert(out@[k].width > 0);
        assert forall|k: int| 0 <= k < out@.len() - 1 implies #[trigger] out@[k].x + out@[k].width
            == out@[k + 1].x && out@[k].width == ws[out@[k].index as int] by {
            assert(out@[k + 1] == cell_at(ws, s, s + k + 1, width));
            assert(offset(ws, s, s + k + 1) == sat_add(offset(ws, s, s + k), ws[s + k]));
        }
    }
    out
}

/// The column of a cell's close box, relative to the bar, if it shows one.
///
/// A cell clipped by the bar's edge has no box: the column that would have
/// held it is part of the name, and closing a file because its name ran long
/// is not something anyone should be able to do by accident.
pub fn close_box_x(cell: &TabCell, label: &str) -> (x: Option<u16>)
    requires
        cell.x + cell.width <= u16::MAX,
    ensures
        x == (if cell.width >= wanted(label@) {
            Some((cell.x + cell.width - 2) as u16)
        } else {
            None::<u16>
        }),
        x matches Some(col) ==> cell.x <= col < cell.x + cell.width,
{
    let full = cell_width(label);
    if cell.width >= full {
        Some(cell.x + cell.width - 2)
    } else {
        None
    }
}

/// One symbol of the bar and the column it is written at; an empty symbol
/// blanks a column a wide grapheme before it covers.
#[derive(Debug, Clone, PartialEq, Eq)]
pub struct Glyph {
    pub x: u16,
    pub symbol: String,
}

/// Columns a symbol takes: its display width, at least one, and one when
/// the width does not fit a column count.
pub open spec fn columns_of(symbol: Seq<char>) -> int {
    let w = display_width_of(symbol);
    if w > u16::MAX as usize || w == 0 {
        1
    } else {
        w as int
    }
}

/// One symbol put at column `x` of a cell ending at `end`: written there,
/// with the columns its width covers blanked, unless the cell is already
/// full; and the column after it.
pub open spec fn put(x: int, end: int, symbol: Seq<char>) -> (int, Seq<(int, Seq<char>)>) {
    if x < end {
        let c = columns_of(symbol);
        let covered = if c - 1 < end - x - 1 {
            c - 1
        } else {
            end - x - 1
        };
        (
            if x + c > u16::MAX {
                u16::MAX as int
            } else {
                x + c
            },
            seq![(x, symbol)] + Seq::new(covered as nat, |t: int| (x + 1 + t, Seq::<char>::empty())),
        )
    } else {
        (x, Seq::empty())
    }
}

/// Symbols put one after another from column `x`.
pub open spec fn put_all(x: int, end: int, symbols: Seq<Seq<char>>) -> Seq<(int, Seq<char>)>
    decreases symbols.len(),
{
    if symbols.len() == 0 {
        Seq::empty()
    } else {
        let (next, written) = put(x, end, symbols[0]);
        written + put_all(next, end, symbols.drop_first())
    }
}

/// What a cell shows: a space, as much of the name as fits, a space.
pub open spec fn cell_symbols(label: Seq<char>) -> Seq<Seq<char>> {
    seq![seq![' ']] + graphemes_of(label) + seq![seq![' ']]
}

/// The glyphs as (column, symbol) pairs.
pub open spec fn glyph_views(g: Seq<Glyph>) -> Seq<(int, Seq<char>)> {
    g.map_values(|g: Glyph| (g.x as int, g.symbol@))
}

proof fn lemma_put_all_step(x: int, end: int, symbols: Seq<Seq<char>>, i: int)
    requires
        0 <= i < symbols.len(),
    ensures
        put_all(x, end, symbols.skip(i)) == put(x, end, symbols[i]).1 + put_all(
            put(x, end, symbols[i]).0,
            end,
            symbols.skip(i + 1),
        ),
{
    assert(symbols.skip(i)[0] == symbols[i]);
    assert(symbols.skip(i).drop_first() =~= symbols.skip(i + 1));
}

/// The glyphs for one tab's cell in a bar that starts at column `left` and
/// ends before `right`. A double-width grapheme owns the next column too, and
/// that column is blanked, or a name in wide script grows a stray glyph.
pub fn glyphs(left: u16, right: u16, cell: TabCell, label: &str) -> (out: Vec<Glyph>)
    requires
        left + cell.x + cell.width <= u16::MAX,
    ensures
        glyph_views(out@) == put_all(
            left + cell.x,
            if left + cell.x + cell.width < right {
                (left + cell.x + cell.width) as int
            } else {
                right as int
            },
            cell_symbols(label@),
        ),
{
    let start: u16 = left + cell.x;
    let full: u16 = start + cell.width;
    let end: u16 = if full < right {
        full
    } else {
        right
    };
    let parts = graphemes(label);
    let mut symbols: Vec<String> = Vec::new();
    symbols.push(" ".to_owned());
    proof {
        reveal_strlit(" ");
    }
    let mut k: usize = 0;
    while k < parts.len()
        invariant
            k <= parts@.len(),
            symbols@.len() == k + 1,
            symbols@[0]@ == seq![' '],
            forall|j: int| 0 <= j < k ==> #[trigger] symbols@[j + 1]@ == parts@[j]@,
        decreases parts@.len() - k,
    {
        symbols.push(parts[k].clone());
        k = k + 1;
    }
    symbols.push(" ".to_owned());
    let ghost syms = symbols@.map_values(|s: String| s@);
    proof {
        reveal_strlit(" ");
        assert(syms =~= cell_symbols(label@)) by {
            assert(parts@.map_values(|p: String| p@) == graphemes_of(label@));
            assert forall|j: int| 0 <= j < syms.len() implies syms[j] == cell_symbols(label@)[j] by {
                if j == 0 {
                } else if j < syms.len() - 1 {
                    assert(symbols@[(j - 1) + 1]@ == parts@[j - 1]@);
                }
            }
        }
    }
    let mut out: Vec<Glyph> = Vec::new();
    let mut x: u16 = start;
    let mut i: usize = 0;
    assert(syms.skip(0) =~= syms);
    while i < symbols.len()
        invariant
            i <= symbols@.len(),
            syms == symbols@.map_values(|s: String| s@),
            end <= u16::MAX,
            glyph_views(out@) + put_all(x as int, end as int, syms.skip(i as int)) == put_all(
                start as int,
                end as int,
                syms,
            ),
        decreases symbols@.len() - i,
    {
        proof {
            lemma_put_all_step(x as int, end as int, syms, i as int);
        }
        let symbol = symbols[i].as_str();
        if x < end {
            let w = display_width(symbol);
            let columns: u16 = if w > 65535 || w == 0 {
                1
            } else {
                w as u16
            };
            let ghost before = glyph_views(out@);
            out.push(Glyph { x, symbol: symbol.to_owned() });
            let mut t: u16 = 1;
            while t < columns && (x as u32) + (t as u32) < (end as u32)
                invariant
                    1 <= t <= columns,
                    i < symbols@.len(),
                    x < end,
                    (x as u32) + (t as u32) <= (end as u32),
                    glyph_views(out@) == before + seq![(x as int, symbols@[i as int]@)] + Seq::new(
                        (t - 1) as nat,
                        |j: int| (x + 1 + j, Seq::<char>::empty()),
                    ),
                decreases columns - t,
            {
                let ghost prev = glyph_views(out@);
                out.push(Glyph { x: x + t, symbol: String::new() });
                proof {
                    assert(glyph_views(out@) =~= prev.push((x + t, Seq::<char>::empty())));
                    assert(glyph_views(out@) =~= before + seq![(x as int, symbols@[i as int]@)]
                        + Seq::new(t as nat, |j: int| (x + 1 + j, Seq::<char>::empty())));
                }
                t = t + 1;
            }
            proof {
                let c = columns_of(syms[i as int]);
                assert(c == columns as int);
                let covered = if c - 1 < end - x - 1 {
                    c - 1
                } else {
                    end - x - 1
                };
                assert(t - 1 == covered);
                assert(glyph_views(out@) =~= before + put(x as int, end as int, syms[i as int]).1);
            }
            x = x.saturating_add(columns);
        }
        i = i + 1;
    }
    assert(syms.skip(symbols@.len() as int) =~= Seq::<Seq<char>>::empty());
    assert(glyph_views(out@) + Seq::<(int, Seq<char>)>::empty() =~= glyph_views(out@));
    out
}

} // verus!

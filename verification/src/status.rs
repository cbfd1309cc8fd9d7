//! What the status bar says, as a list of named segments.
//!
//! Segments that cannot be answered honestly are omitted rather than filled
//! with a placeholder: a status bar that says `--` has spent a cell to tell
//! you nothing.

use crate::path::{extension, extension_of, lowercase_of, to_lowercase};
use crate::text::{decimal, push_decimal};
use vstd::prelude::*;

verus! {

/// Names a segment, so a click can be routed back to whatever produced it.
#[derive(Debug, Clone, Copy, PartialEq, Eq, Structural)]
pub enum SegmentId {
    FileName,
    FileType,
    LineEnding,
    Indent,
    Selections,
    Diagnostics,
    Progress,
    Position,
    Percentage,
}

/// How loudly a segment is drawn: a ranking, not a palette.
#[derive(Debug, Clone, Copy, PartialEq, Eq, Structural)]
pub enum Emphasis {
    /// Identity and position: what a user looks for deliberately.
    Normal,
    /// Facts that matter when they are wrong and never otherwise.
    Quiet,
    /// Something is unusual and worth noticing.
    Accent,
}

#[derive(Debug, Clone, PartialEq, Eq)]
pub struct Segment {
    pub id: SegmentId,
    pub text: String,
    pub emphasis: Emphasis,
}

/// Everything the right-hand segments are built from: plain facts rather than
/// a borrow of the application.
pub struct StatusFacts<'a> {
    /// What language servers say they are doing, the longest-running first.
    pub progress: &'a [&'a str],
    /// Diagnostics of error severity in the open file.
    pub errors: usize,
    /// Diagnostics of warning severity in the open file.
    pub warnings: usize,
    pub file_name: &'a str,
    pub modified: bool,
    /// `None` for a file with no extension.
    pub file_type: Option<&'a str>,
    pub line_ending: &'a str,
    pub indent_width: usize,
    pub selection_count: usize,
    /// Zero-based.
    pub line: usize,
    pub col: usize,
    pub total_lines: usize,
}

/// A segment as its parts.
pub open spec fn seg_view(s: Segment) -> (SegmentId, Seq<char>, Emphasis) {
    (s.id, s.text@, s.emphasis)
}

/// `x` when `c`, nothing otherwise.
pub open spec fn when<T>(c: bool, x: T) -> Seq<T> {
    if c {
        seq![x]
    } else {
        Seq::empty()
    }
}

/// How far through the file the cursor is, 0 to 100.
pub open spec fn spec_percentage(line: nat, total_lines: nat) -> nat {
    if total_lines <= 1 {
        100
    } else {
        let p = (line + 1) * 100 / total_lines;
        if p < 100 {
            p
        } else {
            100
        }
    }
}

/// The percentage is the share of the file up to and including the cursor's
/// line, rounded down and never past 100: for a file of more than one line,
/// `p` hundredths of the file's lines are at most the lines so far, and one
/// hundredth more would be past them, unless the share reaches 100; a file
/// of one line (or none) is all on screen and reads 100. It grows as the
/// cursor moves down.
pub proof fn law_percentage_is_the_share_of_the_file(line: nat, total_lines: nat, later: nat)
    ensures
        spec_percentage(line, total_lines) <= 100,
        total_lines <= 1 ==> spec_percentage(line, total_lines) == 100,
        total_lines > 1 && spec_percentage(line, total_lines) < 100 ==> spec_percentage(line, total_lines)
            * total_lines <= (line + 1) * 100 < (spec_percentage(line, total_lines) + 1) * total_lines,
        total_lines > 1 && spec_percentage(line, total_lines) == 100 ==> (line + 1) * 100 >= 100
            * total_lines,
        line <= later ==> spec_percentage(line, total_lines) <= spec_percentage(later, total_lines),
{
    if total_lines > 1 {
        let n = (line + 1) * 100;
        let m = (later + 1) * 100;
        let d = total_lines;
        let q = n / d;
        assert(q * d <= n < (q + 1) * d) by (nonlinear_arith)
            requires
                d > 1,
                q == n / d,
        ;
        if q >= 100 {
            assert(100 * d <= n) by (nonlinear_arith)
                requires
                    q >= 100,
                    q * d <= n,
                    d > 1,
            ;
        }
        if line <= later {
            assert(n / d <= m / d) by (nonlinear_arith)
                requires
                    n <= m,
                    d > 1,
            ;
        }
    }
}

/// What the status bar says, segment by segment, whatever the facts: a
/// background job first when there is one; then the file's name, marked
/// ` *` and loud exactly when it is unsaved; the diagnostic counts only when
/// there are any, loud exactly when one is an error; the file type only when
/// it has one; the line ending and `Spaces: <width>` quietly; the cursor
/// count only for more than one; and last the position, counted from one,
/// and how far through the file it is.
pub proof fn law_what_the_status_bar_says(f: StatusFacts)
    ensures
        ({
            let s = spec_segments(f);
            let k: int = if f.progress@.len() > 0 { 1 } else { 0 };
            let d: int = if f.errors > 0 || f.warnings > 0 { 1 } else { 0 };
            let t: int = if f.file_type is Some { 1 } else { 0 };
            let c: int = if f.selection_count > 1 { 1 } else { 0 };
            &&& s.len() == k + d + t + c + 5
            &&& k == 1 ==> s[0] == (SegmentId::Progress, f.progress@[0]@, Emphasis::Quiet)
            &&& s[k].0 == SegmentId::FileName
            &&& (f.modified ==> s[k].1 == f.file_name@ + seq![' ', '*'] && s[k].2 == Emphasis::Accent)
            &&& (!f.modified ==> s[k].1 == f.file_name@ && s[k].2 == Emphasis::Normal)
            &&& d == 1 ==> s[k + 1].0 == SegmentId::Diagnostics && (s[k + 1].2 == Emphasis::Accent
                <==> f.errors > 0)
            &&& d == 1 && f.errors > 0 && f.warnings > 0 ==> s[k + 1].1 == decimal(f.errors as nat)
                + seq!['E', ' '] + decimal(f.warnings as nat) + seq!['W']
            &&& d == 1 && f.errors > 0 && f.warnings == 0 ==> s[k + 1].1 == decimal(f.errors as nat)
                + seq!['E']
            &&& d == 1 && f.errors == 0 ==> s[k + 1].1 == decimal(f.warnings as nat) + seq!['W']
            &&& t == 1 ==> s[k + 1 + d] == (
                SegmentId::FileType,
                f.file_type.unwrap()@,
                Emphasis::Quiet,
            )
            &&& s[k + 1 + d + t] == (SegmentId::LineEnding, f.line_ending@, Emphasis::Quiet)
            &&& s[k + 2 + d + t] == (
                SegmentId::Indent,
                seq!['S', 'p', 'a', 'c', 'e', 's', ':', ' '] + decimal(f.indent_width as nat),
                Emphasis::Quiet,
            )
            &&& c == 1 ==> s[k + 3 + d + t] == (
                SegmentId::Selections,
                decimal(f.selection_count as nat) + seq![' ', 'c', 'u', 'r', 's', 'o', 'r', 's'],
                Emphasis::Accent,
            )
            &&& s[s.len() - 2] == (
                SegmentId::Position,
                decimal(f.line as nat + 1) + seq![':'] + decimal(f.col as nat + 1),
                Emphasis::Normal,
            )
            &&& s[s.len() - 1] == (
                SegmentId::Percentage,
                decimal(spec_percentage(f.line as nat, f.total_lines as nat)) + seq!['%'],
                Emphasis::Quiet,
            )
        }),
{
    let s = spec_segments(f);
    let p = progress_part(f);
    let n = name_part(f);
    let dg = diagnostics_part(f);
    let ty = type_part(f);
    let fm = format_part(f);
    let se = selections_part(f);
    let po = position_part(f);
    assert(s =~= p + n + dg + ty + fm + se + po);
}

/// The diagnostic counts, `2E 3W`, leaving out a kind with none.
pub open spec fn diagnostics_text(errors: nat, warnings: nat) -> Seq<char> {
    if errors > 0 && warnings > 0 {
        decimal(errors) + seq!['E', ' '] + decimal(warnings) + seq!['W']
    } else if errors > 0 {
        decimal(errors) + seq!['E']
    } else {
        decimal(warnings) + seq!['W']
    }
}

/// The right-hand segments, in order.
///
/// What a background job is doing is the outermost thing on the bar; then the
/// file and its state, its diagnostic counts beside it; then the facts that
/// only matter when wrong; then where the cursor is, counted from one.
pub open spec fn spec_segments(f: StatusFacts) -> Seq<(SegmentId, Seq<char>, Emphasis)> {
    progress_part(f) + name_part(f) + diagnostics_part(f) + type_part(f) + format_part(f)
        + selections_part(f) + position_part(f)
}

pub open spec fn progress_part(f: StatusFacts) -> Seq<(SegmentId, Seq<char>, Emphasis)> {
    when(f.progress@.len() > 0, (SegmentId::Progress, f.progress@[0]@, Emphasis::Quiet))
}

pub open spec fn name_part(f: StatusFacts) -> Seq<(SegmentId, Seq<char>, Emphasis)> {
    seq![
        (
            SegmentId::FileName,
            if f.modified {
                f.file_name@ + seq![' ', '*']
            } else {
                f.file_name@
            },
            if f.modified {
                Emphasis::Accent
            } else {
                Emphasis::Normal
            },
        ),
    ]
}

pub open spec fn diagnostics_part(f: StatusFacts) -> Seq<(SegmentId, Seq<char>, Emphasis)> {
    when(
        f.errors > 0 || f.warnings > 0,
        (
            SegmentId::Diagnostics,
            diagnostics_text(f.errors as nat, f.warnings as nat),
            if f.errors > 0 {
                Emphasis::Accent
            } else {
                Emphasis::Quiet
            },
        ),
    )
}

pub open spec fn type_part(f: StatusFacts) -> Seq<(SegmentId, Seq<char>, Emphasis)> {
    when(f.file_type is Some, (SegmentId::FileType, f.file_type.unwrap()@, Emphasis::Quiet))
}

pub open spec fn format_part(f: StatusFacts) -> Seq<(SegmentId, Seq<char>, Emphasis)> {
    seq![
        (SegmentId::LineEnding, f.line_ending@, Emphasis::Quiet),
        (
            SegmentId::Indent,
            seq!['S', 'p', 'a', 'c', 'e', 's', ':', ' '] + decimal(f.indent_width as nat),
            Emphasis::Quiet,
        ),
    ]
}

pub open spec fn selections_part(f: StatusFacts) -> Seq<(SegmentId, Seq<char>, Emphasis)> {
    when(
        f.selection_count > 1,
        (
            SegmentId::Selections,
            decimal(f.selection_count as nat) + seq![' ', 'c', 'u', 'r', 's', 'o', 'r', 's'],
            Emphasis::Accent,
        ),
    )
}

pub open spec fn position_part(f: StatusFacts) -> Seq<(SegmentId, Seq<char>, Emphasis)> {
    seq![
        (
            SegmentId::Position,
            decimal((f.line + 1) as nat) + seq![':'] + decimal((f.col + 1) as nat),
            Emphasis::Normal,
        ),
        (
            SegmentId::Percentage,
            decimal(spec_percentage(f.line as nat, f.total_lines as nat)) + seq!['%'],
            Emphasis::Quiet,
        ),
    ]
}

proof fn lemma_push_view(s: Seq<Segment>, x: Segment)
    ensures
        s.push(x).map_values(|s: Segment| seg_view(s)) == s.map_values(|s: Segment| seg_view(s)).push(
            seg_view(x),
        ),
{
    assert(s.push(x).map_values(|s: Segment| seg_view(s)) =~= s.map_values(|s: Segment| seg_view(s)).push(
        seg_view(x),
    ));
}

/// Appends a segment.
fn push_segment(out: &mut Vec<Segment>, seg: Segment)
    ensures
        final(out)@.map_values(|s: Segment| seg_view(s)) == old(out)@.map_values(
            |s: Segment| seg_view(s),
        ).push(seg_view(seg)),
{
    proof {
        lemma_push_view(out@, seg);
    }
    out.push(seg);
}

/// The file's name, marked when unsaved.
fn name_segment(facts: &StatusFacts) -> (seg: Segment)
    ensures
        seg_view(seg) == name_part(*facts)[0],
{
    let mut name = facts.file_name.to_owned();
    if facts.modified {
        name.push(' ');
        name.push('*');
    }
    // Unsaved work is the one piece of state here that a user needs to notice
    // without looking for it.
    let emphasis = if facts.modified {
        Emphasis::Accent
    } else {
        Emphasis::Normal
    };
    assert(name@ =~= name_part(*facts)[0].1);
    Segment { id: SegmentId::FileName, text: name, emphasis }
}

/// The diagnostic counts; only called when there is something to count.
fn diagnostics_segment(facts: &StatusFacts) -> (seg: Segment)
    requires
        facts.errors > 0 || facts.warnings > 0,
    ensures
        seg_view(seg) == diagnostics_part(*facts)[0],
{
    let mut text = String::new();
    if facts.errors > 0 {
        push_decimal(&mut text, facts.errors as u64);
        text.push('E');
    }
    if facts.errors > 0 && facts.warnings > 0 {
        text.push(' ');
    }
    if facts.warnings > 0 {
        push_decimal(&mut text, facts.warnings as u64);
        text.push('W');
    }
    assert(text@ =~= diagnostics_text(facts.errors as nat, facts.warnings as nat));
    // An error changes what a user does next; a warning alone does not.
    let emphasis = if facts.errors > 0 {
        Emphasis::Accent
    } else {
        Emphasis::Quiet
    };
    Segment { id: SegmentId::Diagnostics, text, emphasis }
}

/// The indent width, stated rather than assumed.
fn indent_segment(facts: &StatusFacts) -> (seg: Segment)
    ensures
        seg_view(seg) == format_part(*facts)[1],
{
    let mut indent = String::new();
    indent.append("Spaces: ");
    proof {
        reveal_strlit("Spaces: ");
    }
    push_decimal(&mut indent, facts.indent_width as u64);
    assert(indent@ =~= format_part(*facts)[1].1);
    Segment { id: SegmentId::Indent, text: indent, emphasis: Emphasis::Quiet }
}

/// The cursor count; only called when there are several.
fn selections_segment(facts: &StatusFacts) -> (seg: Segment)
    requires
        facts.selection_count > 1,
    ensures
        seg_view(seg) == selections_part(*facts)[0],
{
    let mut text = String::new();
    push_decimal(&mut text, facts.selection_count as u64);
    text.append(" cursors");
    proof {
        reveal_strlit(" cursors");
    }
    assert(text@ =~= selections_part(*facts)[0].1);
    // Thirty cursors is a state you can forget you are in, and the next
    // keystroke edits in thirty places.
    Segment { id: SegmentId::Selections, text, emphasis: Emphasis::Accent }
}

/// Where the cursor is, counted from one the way every compiler error does.
fn position_segment(facts: &StatusFacts) -> (seg: Segment)
    requires
        facts.line < usize::MAX,
        facts.col < usize::MAX,
    ensures
        seg_view(seg) == position_part(*facts)[0],
{
    let mut position = String::new();
    push_decimal(&mut position, (facts.line + 1) as u64);
    position.push(':');
    push_decimal(&mut position, (facts.col + 1) as u64);
    assert(position@ =~= position_part(*facts)[0].1);
    Segment { id: SegmentId::Position, text: position, emphasis: Emphasis::Normal }
}

/// How far through the file the cursor is.
fn percentage_segment(facts: &StatusFacts) -> (seg: Segment)
    requires
        facts.total_lines > 1 ==> (facts.line + 1) * 100 <= usize::MAX,
    ensures
        seg_view(seg) == position_part(*facts)[1],
{
    let mut percent = String::new();
    push_decimal(&mut percent, percentage(facts.line, facts.total_lines) as u64);
    percent.push('%');
    assert(percent@ =~= position_part(*facts)[1].1);
    Segment { id: SegmentId::Percentage, text: percent, emphasis: Emphasis::Quiet }
}

/// The right-hand segments, in order.
pub fn segments(facts: &StatusFacts) -> (out: Vec<Segment>)
    requires
        facts.line < usize::MAX,
        facts.col < usize::MAX,
        facts.total_lines > 1 ==> (facts.line + 1) * 100 <= usize::MAX,
    ensures
        out@.map_values(|s: Segment| seg_view(s)) == spec_segments(*facts),
{
    let mut out: Vec<Segment> = Vec::new();
    let ghost f = *facts;
    let ghost view = |s: Segment| seg_view(s);
    assert(out@.map_values(view) =~= Seq::<(SegmentId, Seq<char>, Emphasis)>::empty());

    if facts.progress.len() > 0 {
        let text = facts.progress[0].to_owned();
        push_segment(&mut out, Segment { id: SegmentId::Progress, text, emphasis: Emphasis::Quiet });
    }
    let ghost v1 = out@.map_values(view);
    assert(v1 =~= progress_part(f));

    push_segment(&mut out, name_segment(facts));
    let ghost v2 = out@.map_values(view);
    assert(v2 =~= v1 + name_part(f));

    if facts.errors > 0 || facts.warnings > 0 {
        push_segment(&mut out, diagnostics_segment(facts));
    }
    let ghost v3 = out@.map_values(view);
    assert(v3 =~= v2 + diagnostics_part(f));

    if let Some(file_type) = facts.file_type {
        let text = file_type.to_owned();
        push_segment(&mut out, Segment { id: SegmentId::FileType, text, emphasis: Emphasis::Quiet });
    }
    let ghost v4 = out@.map_values(view);
    assert(v4 =~= v3 + type_part(f));

    let ending = facts.line_ending.to_owned();
    push_segment(&mut out, Segment { id: SegmentId::LineEnding, text: ending, emphasis: Emphasis::Quiet });
    push_segment(&mut out, indent_segment(facts));
    let ghost v5 = out@.map_values(view);
    assert(v5 =~= v4 + format_part(f));

    if facts.selection_count > 1 {
        push_segment(&mut out, selections_segment(facts));
    }
    let ghost v6 = out@.map_values(view);
    assert(v6 =~= v5 + selections_part(f));

    push_segment(&mut out, position_segment(facts));
    push_segment(&mut out, percentage_segment(facts));
    assert(out@.map_values(view) =~= v6 + position_part(f));
    out
}

/// How far through the file the cursor is, 0 to 100.
///
/// A one-line file is entirely on screen, so it is at 100.
fn percentage(line: usize, total_lines: usize) -> (p: usize)
    requires
        total_lines > 1 ==> (line + 1) * 100 <= usize::MAX,
    ensures
        p == spec_percentage(line as nat, total_lines as nat),
        p <= 100,
{
    if total_lines <= 1 {
        return 100;
    }
    let p = (line + 1) * 100 / total_lines;
    if p < 100 {
        p
    } else {
        100
    }
}

/// The filetype shown for a path: its extension, lower-cased, not a language
/// name.
pub fn file_type_of(path: Option<&str>) -> (file_type: Option<String>)
    ensures
        match path {
            None => file_type is None,
            Some(p) => match extension_of(p@) {
                None => file_type is None,
                Some(e) => file_type is Some && file_type.unwrap()@ == lowercase_of(e),
            },
        },
{
    match path {
        None => None,
        Some(p) => match extension(p) {
            None => None,
            Some(e) => Some(to_lowercase(e.as_str())),
        },
    }
}

} // verus!

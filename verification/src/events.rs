//! A batch of input, as the event loop applies it.
//!
//! The loop blocks for one event and takes everything queued behind it. A
//! run of wheel notches over one panel is folded into one scroll; only a
//! consecutive run, so nothing is reordered and nothing is dropped: the batch
//! is a vector being folded, not a queue being drained past.

use vstd::prelude::*;

verus! {

/// Rows one notch of the wheel moves.
pub const NOTCH: i32 = 3;

/// An event of a batch, as far as folding cares.
#[derive(Debug, Clone, Copy, PartialEq, Eq, Structural)]
pub enum Incoming {
    /// One notch of the wheel at this column, down or up.
    Wheel { column: u16, down: bool },
    /// Anything else.
    Other,
}

/// A stretch of the batch to apply as one step: the events from `start` up
/// to `end`, and for a run of wheel notches, the column of the first and the
/// rows of them all.
#[derive(Debug, Clone, Copy)]
pub struct Stretch {
    pub start: usize,
    pub end: usize,
    pub scroll: Option<(u16, i32)>,
}

/// Rows one notch asks for.
pub open spec fn notch(e: Incoming) -> int {
    match e {
        Incoming::Wheel { down, .. } => if down {
            NOTCH as int
        } else {
            -NOTCH
        },
        Incoming::Other => 0,
    }
}

/// A notch of the wheel down asks for three rows further into the file,
/// one up for three rows back, and anything else for none; a run of notches
/// asks for the sum of them, so folding them loses no row.
pub proof fn law_notches_add_up(events: Seq<Incoming>, a: int, b: int, column: u16)
    requires
        a <= b,
    ensures
        notch(Incoming::Wheel { column, down: true }) == 3,
        notch(Incoming::Wheel { column, down: false }) == -3,
        notch(Incoming::Other) == 0,
        a < b ==> rows(events, a, b) == rows(events, a, b - 1) + notch(events[b - 1]),
        rows(events, a, a) == 0,
        !same_panel_wheel(Incoming::Other, column, 0),
        forall|c: u16, down: bool, side: u16|
            #[trigger] same_panel_wheel(Incoming::Wheel { column: c, down }, column, side) <==> ((c < side)
                == (column < side)),
{
}

/// Whether an event is a notch over the same panel as one at `column`, the
/// panels being split at `side`.
pub open spec fn same_panel_wheel(e: Incoming, column: u16, side: u16) -> bool {
    match e {
        Incoming::Wheel { column: c, .. } => (c < side) == (column < side),
        Incoming::Other => false,
    }
}

/// The rows of the events from `a` up to `b`.
pub open spec fn rows(events: Seq<Incoming>, a: int, b: int) -> int
    decreases b - a,
{
    if b <= a {
        0
    } else {
        rows(events, a, b - 1) + notch(events[b - 1])
    }
}

/// One stretch is right for the batch: an event that is not a notch goes
/// alone; a notch takes every notch after it over the same panel, up to the
/// first event that is not one, and asks for their rows together.
pub open spec fn stretch_ok(events: Seq<Incoming>, s: Stretch, side: u16) -> bool {
    &&& s.start < s.end <= events.len()
    &&& match events[s.start as int] {
        Incoming::Other => s.end == s.start + 1 && s.scroll is None,
        Incoming::Wheel { column, .. } => {
            &&& (forall|k: int| s.start < k < s.end ==> same_panel_wheel(#[trigger] events[k], column, side))
            &&& (s.end == events.len() || !same_panel_wheel(events[s.end as int], column, side))
            &&& s.scroll == Some((column, rows(events, s.start as int, s.end as int) as i32))
        },
    }
}

/// The stretches cover the batch in order, each one right.
pub open spec fn folds(events: Seq<Incoming>, out: Seq<Stretch>, side: u16) -> bool {
    &&& (out.len() == 0 <==> events.len() == 0)
    &&& out.len() > 0 ==> out[0].start == 0 && out.last().end == events.len()
    &&& forall|k: int| 0 <= k < out.len() - 1 ==> #[trigger] out[k].end == out[k + 1].start
    &&& forall|k: int| 0 <= k < out.len() ==> stretch_ok(events, #[trigger] out[k], side)
}

proof fn lemma_rows_bound(events: Seq<Incoming>, a: int, b: int)
    requires
        a <= b,
    ensures
        -(NOTCH as int) * (b - a) <= rows(events, a, b) <= (NOTCH as int) * (b - a),
    decreases b - a,
{
    if a < b {
        lemma_rows_bound(events, a, b - 1);
    }
}

fn same_panel(e: Incoming, column: u16, side: u16) -> (b: bool)
    ensures
        b == same_panel_wheel(e, column, side),
{
    match e {
        Incoming::Wheel { column: c, .. } => (c < side) == (column < side),
        Incoming::Other => false,
    }
}

/// Fold a batch: `side` is the column where the tree's panel ends and the
/// editor's begins. A batch is shorter than would make a run's rows overflow
/// an `i32`.
pub fn fold(events: &Vec<Incoming>, side: u16) -> (out: Vec<Stretch>)
    requires
        events@.len() <= 715_827_882,
    ensures
        folds(events@, out@, side),
{
    let n = events.len();
    let mut out: Vec<Stretch> = Vec::new();
    let mut i: usize = 0;
    while i < n
        invariant
            i <= n,
            n == events@.len(),
            n <= 715_827_882,
            out@.len() == 0 <==> i == 0,
            out@.len() > 0 ==> out@[0].start == 0 && out@.last().end == i,
            forall|k: int| 0 <= k < out@.len() - 1 ==> #[trigger] out@[k].end == out@[k + 1].start,
            forall|k: int| 0 <= k < out@.len() ==> stretch_ok(events@, #[trigger] out@[k], side),
        decreases n - i,
    {
        let ghost before = out@;
        match events[i] {
            Incoming::Other => {
                out.push(Stretch { start: i, end: i + 1, scroll: None });
                i = i + 1;
            },
            Incoming::Wheel { column, down } => {
                let mut delta: i32 = if down {
                    NOTCH
                } else {
                    -NOTCH
                };
                let mut j = i + 1;
                proof {
                    assert(rows(events@, i as int, j as int) == rows(events@, i as int, i as int) + notch(events@[i as int]));
                }
                while j < n && same_panel(events[j], column, side)
                    invariant
                        i < j <= n,
                        n == events@.len(),
                        n <= 715_827_882,
                        events@[i as int] == (Incoming::Wheel { column, down }),
                        forall|k: int| i < k < j ==> same_panel_wheel(#[trigger] events@[k], column, side),
                        delta == rows(events@, i as int, j as int),
                    decreases n - j,
                {
                    proof {
                        lemma_rows_bound(events@, i as int, j as int + 1);
                        assert(3 * (j + 1 - i) <= 2_147_483_646) by (nonlinear_arith)
                            requires
                                j + 1 - i <= 715_827_882,
                        ;
                    }
                    let step: i32 = match events[j] {
                        Incoming::Wheel { down: d, .. } => if d {
                            NOTCH
                        } else {
                            -NOTCH
                        },
                        Incoming::Other => 0,
                    };
                    delta = delta + step;
                    j = j + 1;
                }
                out.push(Stretch { start: i, end: j, scroll: Some((column, delta)) });
                i = j;
            },
        }
        proof {
            assert(out@.drop_last() =~= before);
            assert forall|k: int| 0 <= k < out@.len() implies stretch_ok(events@, #[trigger] out@[k], side) by {
                if k < before.len() {
                    assert(out@[k] == before[k]);
                }
            }
            assert forall|k: int| 0 <= k < out@.len() - 1 implies #[trigger] out@[k].end == out@[k + 1].start by {
                if k + 1 < before.len() {
                    assert(out@[k] == before[k] && out@[k + 1] == before[k + 1]);
                } else {
                    assert(out@[k] == before[k]);
                }
            }
        }
    }
    out
}

/// Whether one of the first `n` stretches holds event `i`.
pub open spec fn covers(out: Seq<Stretch>, n: int, i: int) -> bool {
    exists|j: int| 0 <= j < n && out[j].start <= i < #[trigger] out[j].end
}

proof fn lemma_cover(events: Seq<Incoming>, out: Seq<Stretch>, side: u16, k: int)
    requires
        folds(events, out, side),
        0 < k <= out.len(),
    ensures
        forall|i: int| 0 <= i < out[k - 1].end ==> #[trigger] covers(out, k, i),
    decreases k,
{
    if k > 1 {
        lemma_cover(events, out, side, k - 1);
        assert(out[k - 2].end == out[k - 1].start);
        assert forall|i: int| 0 <= i < out[k - 1].end implies #[trigger] covers(out, k, i) by {
            if i >= out[k - 1].start {
                assert(out[k - 1].start <= i < out[k - 1].end);
            } else {
                assert(covers(out, k - 1, i));
                let j = choose|j: int| 0 <= j < k - 1 && out[j].start <= i < #[trigger] out[j].end;
                assert(out[j].start <= i < out[j].end);
            }
        }
    } else {
        assert(out[0].start == 0);
        assert forall|i: int| 0 <= i < out[0].end implies #[trigger] covers(out, 1, i) by {
            assert(out[0].start <= i < out[0].end);
        }
    }
}

/// Folding drops nothing and reorders nothing: every event of the batch
/// lies in a stretch, the stretches follow one another in batch order, and
/// an event that is not a notch of the wheel is a stretch of its own, applied
/// as it came.
pub proof fn lemma_fold_keeps_every_event(events: Seq<Incoming>, out: Seq<Stretch>, side: u16)
    requires
        folds(events, out, side),
    ensures
        forall|i: int| 0 <= i < events.len() ==> #[trigger] covers(out, out.len() as int, i),
        forall|j: int| 0 <= j < out.len() ==> #[trigger] out[j].start < out[j].end,
        forall|i: int|
            0 <= i < events.len() && #[trigger] events[i] == Incoming::Other ==> exists|j: int|
                0 <= j < out.len() && #[trigger] out[j].start == i && out[j].end == i + 1
                    && out[j].scroll is None,
{
    if out.len() > 0 {
        lemma_cover(events, out, side, out.len() as int);
    }
    assert forall|j: int| 0 <= j < out.len() implies #[trigger] out[j].start < out[j].end by {
        assert(stretch_ok(events, out[j], side));
    }
    assert forall|i: int| 0 <= i < events.len() && #[trigger] events[i] == Incoming::Other implies exists|j: int|
        0 <= j < out.len() && #[trigger] out[j].start == i && out[j].end == i + 1
            && out[j].scroll is None by {
        assert(covers(out, out.len() as int, i));
        let j = choose|j: int| 0 <= j < out.len() && out[j].start <= i < #[trigger] out[j].end;
        assert(stretch_ok(events, out[j], side));
        if out[j].start < i {
            match events[out[j].start as int] {
                Incoming::Other => {},
                Incoming::Wheel { column, .. } => {
                    assert(same_panel_wheel(events[i], column, side));
                },
            }
        }
    }
}

/// Whether the loop goes on after a step.
#[derive(Debug, Clone, Copy, PartialEq, Eq, Structural)]
pub enum Flow {
    Continue,
    Quit,
}

/// What the loop does next with a folded batch.
#[derive(Debug, Clone, Copy, PartialEq, Eq, Structural)]
pub enum BatchMove {
    /// Apply the stretch at this index, as one step.
    Apply(usize),
    /// Every stretch is applied: bring the language servers up to date, once
    /// for the whole batch, and go on.
    Settle,
    /// A step quit: the rest of the batch is left, and nothing is synced.
    Stop,
}

pub open spec fn spec_batch_move(count: nat, done: nat, last: Flow) -> BatchMove {
    if done > 0 && last == Flow::Quit {
        BatchMove::Stop
    } else if done < count {
        BatchMove::Apply(done as usize)
    } else {
        BatchMove::Settle
    }
}

/// The next move through a batch of `count` stretches, `done` of them
/// applied and the last of those having come to `last`.
pub fn batch_move(count: usize, done: usize, last: Flow) -> (m: BatchMove)
    requires
        done <= count,
    ensures
        m == spec_batch_move(count as nat, done as nat, last),
{
    if done > 0 && last == Flow::Quit {
        BatchMove::Stop
    } else if done < count {
        BatchMove::Apply(done)
    } else {
        BatchMove::Settle
    }
}

/// How many stretches a batch applies, given what each one's step comes
/// to: every one up to and including the first that quits.
pub open spec fn applied(flows: Seq<Flow>) -> nat
    decreases flows.len(),
{
    if flows.len() == 0 {
        0
    } else if flows[0] == Flow::Quit {
        1
    } else {
        1 + applied(flows.drop_first())
    }
}

/// The loop driven by [`batch_move`] from `done` stretches applied, the
/// last having come to `last`, each step coming to what `flows` says: how
/// many stretches it applies in all, and whether it ends by quitting.
pub open spec fn drive(flows: Seq<Flow>, done: nat, last: Flow) -> (nat, bool)
    decreases flows.len() - done,
{
    if done > flows.len() {
        (done, false)
    } else {
        match spec_batch_move(flows.len(), done, last) {
            BatchMove::Apply(_) => drive(flows, done + 1, flows[done as int]),
            BatchMove::Settle => (done, false),
            BatchMove::Stop => (done, true),
        }
    }
}

proof fn lemma_drive(flows: Seq<Flow>, done: nat, last: Flow)
    requires
        done <= flows.len(),
        done == 0 || last == flows[done - 1],
        forall|k: int| 0 <= k < done - 1 ==> flows[k] == Flow::Continue,
    ensures
        drive(flows, done, last) == (
            if done > 0 && last == Flow::Quit {
                done
            } else {
                done + applied(flows.skip(done as int))
            },
            (done > 0 && last == Flow::Quit) || flows.skip(done as int).contains(Flow::Quit),
        ),
    decreases flows.len() - done,
{
    let rest = flows.skip(done as int);
    if done > 0 && last == Flow::Quit {
    } else if done < flows.len() {
        lemma_drive(flows, done + 1, flows[done as int]);
        assert(rest.drop_first() =~= flows.skip(done as int + 1));
        assert(rest[0] == flows[done as int]);
        if flows[done as int] == Flow::Quit {
            assert(rest.contains(Flow::Quit));
        } else {
            assert(rest.contains(Flow::Quit) == rest.drop_first().contains(Flow::Quit)) by {
                if rest.contains(Flow::Quit) {
                    let k = choose|k: int| 0 <= k < rest.len() && rest[k] == Flow::Quit;
                    assert(k > 0);
                    assert(rest.drop_first()[k - 1] == Flow::Quit);
                }
                if rest.drop_first().contains(Flow::Quit) {
                    let k = choose|k: int|
                        0 <= k < rest.drop_first().len() && rest.drop_first()[k] == Flow::Quit;
                    assert(rest[k + 1] == Flow::Quit);
                }
            }
        }
    } else {
        assert(rest.len() == 0);
        assert(!rest.contains(Flow::Quit));
    }
}

/// A batch is applied up to its first step that quits and no further, and
/// settles (one sync for the whole batch) only when no step quit.
pub proof fn law_batch_stops_at_the_first_quit(flows: Seq<Flow>)
    ensures
        drive(flows, 0, Flow::Continue) == (applied(flows), flows.contains(Flow::Quit)),
        forall|k: int| 0 <= k < applied(flows) - 1 ==> flows[k] == Flow::Continue,
        applied(flows) <= flows.len(),
        applied(flows) < flows.len() ==> flows[applied(flows) - 1] == Flow::Quit,
{
    lemma_drive(flows, 0, Flow::Continue);
    assert(flows.skip(0) =~= flows);
    lemma_applied(flows);
}

proof fn lemma_applied(flows: Seq<Flow>)
    ensures
        forall|k: int| 0 <= k < applied(flows) - 1 ==> flows[k] == Flow::Continue,
        applied(flows) <= flows.len(),
        applied(flows) < flows.len() ==> flows[applied(flows) - 1] == Flow::Quit,
        flows.len() > 0 ==> applied(flows) > 0,
    decreases flows.len(),
{
    if flows.len() > 0 && flows[0] != Flow::Quit {
        lemma_applied(flows.drop_first());
        assert forall|k: int| 0 <= k < applied(flows) - 1 implies flows[k] == Flow::Continue by {
            if k > 0 {
                assert(flows[k] == flows.drop_first()[k - 1]);
            }
        }
        if applied(flows) < flows.len() {
            assert(flows[applied(flows) - 1] == flows.drop_first()[applied(flows.drop_first()) - 1]);
        }
    }
}

/// Which panel has the keyboard.
#[derive(Debug, Clone, Copy, PartialEq, Eq, Structural)]
pub enum Focus {
    Tree,
    Editor,
}

impl Focus {
    /// The other panel: with two, cycling is a toggle, and twice is back.
    pub fn cycled(self) -> (f: Focus)
        ensures
            f != self,
            f == (match self {
                Focus::Tree => Focus::Editor,
                Focus::Editor => Focus::Tree,
            }),
    {
        match self {
            Focus::Tree => Focus::Editor,
            Focus::Editor => Focus::Tree,
        }
    }
}

/// A mouse button.
#[derive(Debug, Clone, Copy, PartialEq, Eq, Structural)]
pub enum Button {
    Left,
    Right,
    Middle,
}

/// What the mouse did.
#[derive(Debug, Clone, Copy, PartialEq, Eq, Structural)]
pub enum MouseKind {
    Down(Button),
    Up(Button),
    Drag(Button),
    /// Motion with no button held.
    Moved,
    ScrollDown,
    ScrollUp,
}

/// Where a mouse event goes.
#[derive(Debug, Clone, Copy, PartialEq, Eq, Structural)]
pub enum Route {
    /// The overlay, which is drawn over both panels and so is ahead of them.
    Picker,
    /// Scroll the tree by this many rows.
    TreeScroll(i32),
    /// Scroll the editor by this many rows.
    EditorScroll(i32),
    /// Give the event to the tree.
    Tree,
    /// Give the event to the editor.
    Editor,
}

/// What one mouse event does: whether the frame changes, whether the status
/// and any pending confirmation are retired first, whether focus moves to
/// the panel the event lands on, and where it goes.
#[derive(Debug, Clone, Copy, PartialEq, Eq, Structural)]
pub struct MousePlan {
    pub changed: bool,
    pub clear: bool,
    pub refocus: bool,
    pub route: Route,
}

/// The plan for a mouse event the tab bar did not take. Motion with no button
/// changes nothing. A press retires the status. With the picker up, every
/// event is the picker's. Otherwise the wheel scrolls the panel under the
/// pointer by a notch, and anything else both focuses that panel and is
/// delivered to it, so clicking into an unfocused panel takes one click.
pub open spec fn spec_plan_mouse(kind: MouseKind, column: u16, picker_open: bool, tree_width: u16, focus: Focus) -> MousePlan {
    let changed = kind != MouseKind::Moved;
    let clear = kind is Down;
    if picker_open {
        MousePlan { changed, clear, refocus: false, route: Route::Picker }
    } else {
        let in_tree = column < tree_width;
        match kind {
            MouseKind::ScrollDown => MousePlan {
                changed,
                clear,
                refocus: false,
                route: if in_tree {
                    Route::TreeScroll(NOTCH)
                } else {
                    Route::EditorScroll(NOTCH)
                },
            },
            MouseKind::ScrollUp => MousePlan {
                changed,
                clear,
                refocus: false,
                route: if in_tree {
                    Route::TreeScroll((-NOTCH) as i32)
                } else {
                    Route::EditorScroll((-NOTCH) as i32)
                },
            },
            _ => if in_tree {
                MousePlan { changed, clear, refocus: focus != Focus::Tree, route: Route::Tree }
            } else {
                MousePlan { changed, clear, refocus: focus != Focus::Editor, route: Route::Editor }
            },
        }
    }
}

/// The panel under a column, the tree's being the columns before `tree_width`.
pub open spec fn panel_at(column: u16, tree_width: u16) -> Focus {
    if column < tree_width {
        Focus::Tree
    } else {
        Focus::Editor
    }
}

/// What a mouse event does, over every event: with the picker up, every
/// event is the picker's and focus stays; otherwise a notch of the wheel
/// scrolls the panel under the pointer (down by a notch's rows, up by as many
/// back) and leaves focus alone, and anything else goes to the panel under
/// the pointer and moves focus there exactly when it was elsewhere, so after
/// a click the focused panel is the one clicked. Only motion with no button
/// changes nothing, and only a press retires the status.
pub proof fn law_a_click_focuses_the_panel_it_lands_on(
    kind: MouseKind,
    column: u16,
    picker_open: bool,
    tree_width: u16,
    focus: Focus,
)
    ensures
        ({
            let p = spec_plan_mouse(kind, column, picker_open, tree_width, focus);
            let target = panel_at(column, tree_width);
            let scroll = kind == MouseKind::ScrollDown || kind == MouseKind::ScrollUp;
            &&& p.changed <==> kind != MouseKind::Moved
            &&& p.clear <==> kind is Down
            &&& picker_open ==> p.route == Route::Picker && !p.refocus
            &&& !picker_open && !scroll ==> {
                &&& p.refocus <==> focus != target
                &&& (if p.refocus {
                    match focus {
                        Focus::Tree => Focus::Editor,
                        Focus::Editor => Focus::Tree,
                    }
                } else {
                    focus
                }) == target
                &&& p.route == (if target == Focus::Tree { Route::Tree } else { Route::Editor })
            }
            &&& !picker_open && scroll ==> {
                &&& !p.refocus
                &&& p.route == (if target == Focus::Tree {
                    Route::TreeScroll(if kind == MouseKind::ScrollDown { 3i32 } else { -3i32 })
                } else {
                    Route::EditorScroll(if kind == MouseKind::ScrollDown { 3i32 } else { -3i32 })
                })
            }
        }),
{
}

/// Plan a mouse event the tab bar did not take.
pub fn plan_mouse(kind: MouseKind, column: u16, picker_open: bool, tree_width: u16, focus: Focus) -> (p: MousePlan)
    ensures
        p == spec_plan_mouse(kind, column, picker_open, tree_width, focus),
{
    let changed = match kind {
        MouseKind::Moved => false,
        _ => true,
    };
    let clear = match kind {
        MouseKind::Down(_) => true,
        _ => false,
    };
    if picker_open {
        return MousePlan { changed, clear, refocus: false, route: Route::Picker };
    }
    let in_tree = column < tree_width;
    match kind {
        MouseKind::ScrollDown => MousePlan {
            changed,
            clear,
            refocus: false,
            route: if in_tree {
                Route::TreeScroll(NOTCH)
            } else {
                Route::EditorScroll(NOTCH)
            },
        },
        MouseKind::ScrollUp => MousePlan {
            changed,
            clear,
            refocus: false,
            route: if in_tree {
                Route::TreeScroll(-NOTCH)
            } else {
                Route::EditorScroll(-NOTCH)
            },
        },
        _ => if in_tree {
            MousePlan { changed, clear, refocus: focus != Focus::Tree, route: Route::Tree }
        } else {
            MousePlan { changed, clear, refocus: focus != Focus::Editor, route: Route::Editor }
        },
    }
}

/// Where a folded run of notches goes: the picker when it is up, since
/// scrolling the file under a modal is what every other program treats as a
/// bug; otherwise the panel under the pointer.
pub fn plan_scroll(column: u16, rows: i32, picker_open: bool, tree_width: u16) -> (r: Route)
    ensures
        r == (if picker_open {
            Route::Picker
        } else if column < tree_width {
            Route::TreeScroll(rows)
        } else {
            Route::EditorScroll(rows)
        }),
{
    if picker_open {
        Route::Picker
    } else if column < tree_width {
        Route::TreeScroll(rows)
    } else {
        Route::EditorScroll(rows)
    }
}

/// An input event, as far as repainting cares.
#[derive(Debug, Clone, Copy, PartialEq, Eq, Structural)]
pub enum Input {
    KeyPress,
    /// The other half of a press already handled: under the kitty keyboard
    /// protocol these arrive for every key.
    KeyRelease,
    Paste,
    Resize,
    /// An escape sequence nobody claimed, a focus report.
    Unknown,
}

/// Whether an input event, other than the mouse, can change the frame. A
/// resize does, since the panels learn their size when drawn.
pub fn input_changes(input: Input) -> (b: bool)
    ensures
        b == (input == Input::KeyPress || input == Input::Paste || input == Input::Resize),
{
    match input {
        Input::KeyPress | Input::Paste | Input::Resize => true,
        Input::KeyRelease | Input::Unknown => false,
    }
}

} // verus!

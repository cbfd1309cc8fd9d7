//! Tabs: the list of open files, and everything that changes which one is
//! on screen.
//!
//! The list is never empty: closing the last tab leaves an empty buffer, the
//! one the editor starts with. Every tab is stamped each time it becomes
//! active, and closing the active tab goes back to the one used last, which
//! is where the user was working.

use crate::layout::Rect;
use crate::tabbar::{cells, close_box_x, TabCell};
use vstd::prelude::*;

verus! {

/// One open file and the parse state that belongs to it.
#[derive(Debug)]
pub struct Tab<T> {
    pub panel: T,
    /// Stamped every time this tab becomes active.
    pub last_used: u64,
    /// The buffer revision the last parse was requested for.
    pub parsed_revision: Option<u64>,
    /// The generation of the only parse result this tab will accept.
    pub awaited_generation: Option<u64>,
}

impl<T> Tab<T> {
    pub fn new(panel: T) -> (t: Tab<T>)
        ensures
            t == (Tab { panel, last_used: 0, parsed_revision: None, awaited_generation: None }),
    {
        Tab { panel, last_used: 0, parsed_revision: None, awaited_generation: None }
    }
}

/// Every open tab, which one is active, and the close waiting for its
/// confirmation.
#[derive(Debug)]
pub struct Tabs<T> {
    tabs: Vec<Tab<T>>,
    active: usize,
    next_use: u64,
    close_pending: Option<usize>,
}

/// The tabs as their parts.
pub struct TabsView<T> {
    pub tabs: Seq<Tab<T>>,
    pub active: int,
    pub next_use: u64,
    pub close_pending: Option<usize>,
}

impl<T> View for Tabs<T> {
    type V = TabsView<T>;

    closed spec fn view(&self) -> TabsView<T> {
        TabsView {
            tabs: self.tabs@,
            active: self.active as int,
            next_use: self.next_use,
            close_pending: self.close_pending,
        }
    }
}

/// Never empty, the active tab is one of them, and no stamp is ahead of the
/// counter.
pub open spec fn tabs_wf<T>(v: TabsView<T>) -> bool {
    &&& v.tabs.len() > 0
    &&& 0 <= v.active < v.tabs.len()
    &&& forall|i: int| 0 <= i < v.tabs.len() ==> #[trigger] v.tabs[i].last_used <= v.next_use
}

/// The tab with the highest stamp; of several, the last, as `max_by_key`
/// picks.
pub open spec fn mru<T>(tabs: Seq<Tab<T>>) -> int
    decreases tabs.len(),
{
    if tabs.len() <= 1 {
        0
    } else {
        let m = mru(tabs.drop_last());
        if tabs.last().last_used >= tabs[m].last_used {
            tabs.len() - 1
        } else {
            m
        }
    }
}

proof fn lemma_mru<T>(tabs: Seq<Tab<T>>)
    ensures
        tabs.len() > 0 ==> 0 <= mru(tabs) < tabs.len() && forall|j: int|
            0 <= j < tabs.len() ==> #[trigger] tabs[j].last_used <= tabs[mru(tabs)].last_used,
    decreases tabs.len(),
{
    if tabs.len() > 1 {
        let init = tabs.drop_last();
        lemma_mru(init);
        assert forall|j: int| 0 <= j < tabs.len() implies #[trigger] tabs[j].last_used <= tabs[mru(
            tabs,
        )].last_used by {
            if j < tabs.len() - 1 {
                assert(init[j] == tabs[j]);
            }
            assert(init[mru(init)] == tabs[mru(init)]);
        }
    }
}

/// The tabs once `active` has been made the visible one: it gets the next
/// stamp.
pub open spec fn settled<T>(v: TabsView<T>) -> TabsView<T> {
    let stamp = (v.next_use + 1) as u64;
    TabsView {
        tabs: v.tabs.update(v.active, Tab { last_used: stamp, ..v.tabs[v.active] }),
        next_use: stamp,
        ..v
    }
}

/// What closing a tab did.
#[derive(Debug, Clone, Copy, PartialEq, Eq, Structural)]
pub enum Closed {
    /// There was no such tab.
    Ignored,
    /// It was the only one, and an empty buffer took its place.
    Reset,
    /// It was one of several and is gone; `switched` when it was the one on
    /// screen and another became active.
    Removed { switched: bool },
}

/// What closing the tab at `index` does: nothing to a tab that is not there;
/// the last tab gives way to `blank`; a tab off screen goes without changing
/// what is on screen (the active index moves down when an earlier tab goes);
/// the active tab gives way to the one used last.
pub open spec fn spec_close<T>(v: TabsView<T>, index: int, blank: T) -> (TabsView<T>, Closed) {
    if index >= v.tabs.len() {
        (v, Closed::Ignored)
    } else if v.tabs.len() == 1 {
        (settled(TabsView { tabs: seq![Tab { panel: blank, last_used: 0, parsed_revision: None, awaited_generation: None }], ..v }), Closed::Reset)
    } else {
        let rest = v.tabs.remove(index);
        if index != v.active {
            let active = if index < v.active {
                v.active - 1
            } else {
                v.active
            };
            (TabsView { tabs: rest, active, ..v }, Closed::Removed { switched: false })
        } else {
            (settled(TabsView { tabs: rest, active: mru(rest), ..v }), Closed::Removed { switched: true })
        }
    }
}

/// What a close gesture does.
#[derive(Debug)]
pub enum CloseRequest {
    /// There was no such tab.
    Ignored,
    /// The tab holds unsaved work: this is the question to put, and the next
    /// close of the same tab discards it.
    Asked(String),
    /// It was closed.
    Done(Closed),
}

impl<T> Tabs<T> {
    /// One tab, holding `panel`, on screen.
    pub fn new(panel: T) -> (t: Tabs<T>)
        ensures
            t@ == (TabsView {
                tabs: seq![Tab { panel, last_used: 0, parsed_revision: None, awaited_generation: None }],
                active: 0,
                next_use: 0,
                close_pending: None,
            }),
            tabs_wf(t@),
    {
        let mut tabs: Vec<Tab<T>> = Vec::new();
        tabs.push(Tab::new(panel));
        let t = Tabs { tabs, active: 0, next_use: 0, close_pending: None };
        assert(t@.tabs =~= seq![Tab { panel, last_used: 0, parsed_revision: None, awaited_generation: None }]);
        t
    }

    /// How many files are open. Never zero.
    pub fn count(&self) -> (n: usize)
        ensures
            n == self@.tabs.len(),
    {
        self.tabs.len()
    }

    /// Index of the active tab.
    pub fn active(&self) -> (i: usize)
        ensures
            i == self@.active,
    {
        self.active
    }

    /// One tab by position.
    pub fn tab(&self, index: usize) -> (t: &Tab<T>)
        requires
            index < self@.tabs.len(),
        ensures
            *t == self@.tabs[index as int],
    {
        &self.tabs[index]
    }

    /// The active tab.
    pub fn current(&self) -> (t: &Tab<T>)
        requires
            tabs_wf(self@),
        ensures
            *t == self@.tabs[self@.active],
    {
        &self.tabs[self.active]
    }

    /// The close that is waiting for its confirmation.
    pub fn close_pending(&self) -> (p: Option<usize>)
        ensures
            p == self@.close_pending,
    {
        self.close_pending
    }

    /// Forget the close that was waiting: any gesture that is not an answer
    /// retires the question.
    pub fn clear_pending(&mut self)
        requires
            tabs_wf(old(self)@),
        ensures
            final(self)@ == (TabsView { close_pending: None, ..old(self)@ }),
            tabs_wf(final(self)@),
    {
        self.close_pending = None;
    }

    /// Stamp the active tab as used now.
    fn settle(&mut self)
        requires
            tabs_wf(old(self)@),
            old(self)@.next_use < u64::MAX,
        ensures
            final(self)@ == settled(old(self)@),
            tabs_wf(final(self)@),
    {
        let ghost before = self@;
        self.next_use = self.next_use + 1;
        let i = self.active;
        let t = self.tabs.remove(i);
        let stamped = Tab { last_used: self.next_use, ..t };
        self.tabs.insert(i, stamped);
        proof {
            assert(self@.tabs =~= before.tabs.update(before.active, Tab { last_used: self.next_use, ..before.tabs[before.active] }));
        }
    }

    /// Make the tab at `index` the visible one. Returns whether anything
    /// changed: not for a tab that is not there, nor for the one already on
    /// screen.
    pub fn activate(&mut self, index: usize) -> (changed: bool)
        requires
            tabs_wf(old(self)@),
            old(self)@.next_use < u64::MAX,
        ensures
            changed == (index < old(self)@.tabs.len() && index != old(self)@.active),
            final(self)@ == (if changed {
                settled(TabsView { active: index as int, ..old(self)@ })
            } else {
                old(self)@
            }),
            tabs_wf(final(self)@),
    {
        if index >= self.tabs.len() || index == self.active {
            return false;
        }
        self.active = index;
        self.settle();
        true
    }

    /// The next open file, wrapping at the end.
    pub fn next(&mut self) -> (changed: bool)
        requires
            tabs_wf(old(self)@),
            old(self)@.next_use < u64::MAX,
        ensures
            ({
                let n = old(self)@.tabs.len();
                let to = (old(self)@.active + 1) % (n as int);
                &&& changed == (to != old(self)@.active)
                &&& final(self)@ == (if changed {
                    settled(TabsView { active: to, ..old(self)@ })
                } else {
                    old(self)@
                })
            }),
            tabs_wf(final(self)@),
    {
        let n = self.tabs.len();
        let next = if self.active + 1 == n {
            0
        } else {
            self.active + 1
        };
        proof {
            let a = self.active as int;
            if a + 1 == n {
                assert((a + 1) % (n as int) == 0) by (nonlinear_arith)
                    requires
                        a + 1 == n,
                        n > 0,
                ;
            } else {
                assert((a + 1) % (n as int) == a + 1) by (nonlinear_arith)
                    requires
                        0 <= a + 1 < n,
                ;
            }
        }
        self.activate(next)
    }

    /// The previous open file, wrapping at the start.
    pub fn prev(&mut self) -> (changed: bool)
        requires
            tabs_wf(old(self)@),
            old(self)@.next_use < u64::MAX,
        ensures
            ({
                let n = old(self)@.tabs.len();
                let to = (old(self)@.active + n - 1) % (n as int);
                &&& changed == (to != old(self)@.active)
                &&& final(self)@ == (if changed {
                    settled(TabsView { active: to, ..old(self)@ })
                } else {
                    old(self)@
                })
            }),
            tabs_wf(final(self)@),
    {
        let n = self.tabs.len();
        let previous = if self.active == 0 {
            n - 1
        } else {
            self.active - 1
        };
        proof {
            let a = self.active as int;
            if a == 0 {
                assert((a + n - 1) % (n as int) == n - 1) by (nonlinear_arith)
                    requires
                        a == 0,
                        n > 0,
                ;
            } else {
                assert((a + n - 1) % (n as int) == a - 1) by (nonlinear_arith)
                    requires
                        1 <= a < n,
                ;
            }
        }
        self.activate(previous)
    }

    /// Open `panel` beside the others and switch to it.
    pub fn push(&mut self, panel: T)
        requires
            tabs_wf(old(self)@),
            old(self)@.next_use < u64::MAX,
        ensures
            final(self)@ == settled(
                TabsView {
                    tabs: old(self)@.tabs.push(Tab { panel, last_used: 0, parsed_revision: None, awaited_generation: None }),
                    active: old(self)@.tabs.len() as int,
                    ..old(self)@
                },
            ),
            tabs_wf(final(self)@),
    {
        self.tabs.push(Tab::new(panel));
        self.active = self.tabs.len() - 1;
        self.settle();
    }

    /// Put `panel` in place of the only tab, as opening a file over the
    /// untouched empty buffer the editor starts with does.
    pub fn replace_only(&mut self, panel: T)
        requires
            tabs_wf(old(self)@),
            old(self)@.tabs.len() == 1,
            old(self)@.next_use < u64::MAX,
        ensures
            final(self)@ == settled(
                TabsView {
                    tabs: seq![Tab { panel, last_used: 0, parsed_revision: None, awaited_generation: None }],
                    ..old(self)@
                },
            ),
            tabs_wf(final(self)@),
    {
        let ghost before = self@;
        self.tabs.pop();
        self.tabs.push(Tab::new(panel));
        assert(self@.tabs =~= seq![Tab { panel, last_used: 0, parsed_revision: None, awaited_generation: None }]);
        self.settle();
    }

    /// The tab used most recently.
    pub fn most_recently_used(&self) -> (i: usize)
        ensures
            i == mru(self@.tabs),
    {
        let mut best: usize = 0;
        let mut i: usize = 1;
        if self.tabs.len() == 0 {
            return 0;
        }
        assert(self.tabs@.take(1).len() == 1);
        while i < self.tabs.len()
            invariant
                1 <= i <= self.tabs@.len(),
                best < i,
                best == mru(self.tabs@.take(i as int)),
            decreases self.tabs@.len() - i,
        {
            proof {
                let p = self.tabs@.take(i as int + 1);
                assert(p.drop_last() =~= self.tabs@.take(i as int));
                assert(p.last() == self.tabs@[i as int]);
                assert(p[best as int] == self.tabs@[best as int]);
            }
            if self.tabs[i].last_used >= self.tabs[best].last_used {
                best = i;
            }
            i = i + 1;
        }
        assert(self.tabs@.take(self.tabs@.len() as int) =~= self.tabs@);
        best
    }

    /// Close the tab at `index`, whether or not it is the active one, with no
    /// question asked: a caller that reaches this has asked already.
    /// `blank` is the empty buffer that replaces the last tab.
    pub fn close(&mut self, index: usize, blank: T) -> (c: Closed)
        requires
            tabs_wf(old(self)@),
            old(self)@.next_use < u64::MAX,
        ensures
            (final(self)@, c) == spec_close(old(self)@, index as int, blank),
            tabs_wf(final(self)@),
    {
        if index >= self.tabs.len() {
            return Closed::Ignored;
        }
        if self.tabs.len() == 1 {
            self.replace_only(blank);
            return Closed::Reset;
        }
        let ghost before = self@;
        self.tabs.remove(index);
        if index != self.active {
            if index < self.active {
                self.active = self.active - 1;
            }
            proof {
                assert forall|i: int| 0 <= i < self@.tabs.len() implies #[trigger] self@.tabs[i].last_used
                    <= self@.next_use by {
                    if i < index {
                        assert(self@.tabs[i] == before.tabs[i]);
                    } else {
                        assert(self@.tabs[i] == before.tabs[i + 1]);
                    }
                }
            }
            return Closed::Removed { switched: false };
        }
        proof {
            lemma_mru(self.tabs@);
            assert forall|i: int| 0 <= i < self@.tabs.len() implies #[trigger] self@.tabs[i].last_used
                <= self@.next_use by {
                if i < index {
                    assert(self@.tabs[i] == before.tabs[i]);
                } else {
                    assert(self@.tabs[i] == before.tabs[i + 1]);
                }
            }
        }
        self.active = self.most_recently_used();
        self.settle();
        Closed::Removed { switched: true }
    }

    /// Close the tab at `index`, asking first if it holds unsaved work.
    ///
    /// `confirmation` is what the tab's buffer says about its unsaved work,
    /// if it has any; `name` is its file's name. The question is asked once:
    /// the next close of the same tab, with nothing in between, is the answer.
    pub fn request_close(&mut self, index: usize, confirmation: Option<&str>, name: &str, blank: T) -> (r: CloseRequest)
        requires
            tabs_wf(old(self)@),
            old(self)@.next_use < u64::MAX,
        ensures
            tabs_wf(final(self)@),
            index >= old(self)@.tabs.len() ==> r is Ignored && final(self)@ == old(self)@,
            index < old(self)@.tabs.len() && old(self)@.close_pending != Some(index)
                && confirmation is Some ==> (r matches CloseRequest::Asked(q) && q@ == confirmation.unwrap()@
                + "  Close "@ + name@ + " again to discard, Ctrl+S to save."@) && final(self)@ == (TabsView {
                close_pending: Some(index),
                ..old(self)@
            }),
            index < old(self)@.tabs.len() && !(old(self)@.close_pending != Some(index)
                && confirmation is Some) ==> (r matches CloseRequest::Done(c) && (final(self)@, c)
                == spec_close(old(self)@, index as int, blank)),
    {
        if index >= self.tabs.len() {
            return CloseRequest::Ignored;
        }
        if self.close_pending != Some(index) {
            match confirmation {
                Some(message) => {
                    let mut q = message.to_owned();
                    q.append("  Close ");
                    q.append(name);
                    q.append(" again to discard, Ctrl+S to save.");
                    self.close_pending = Some(index);
                    return CloseRequest::Asked(q);
                },
                None => {},
            }
        }
        CloseRequest::Done(self.close(index, blank))
    }

    /// Whether the active tab needs a parse for its buffer at `revision`.
    pub fn needs_parse(&self, revision: u64) -> (b: bool)
        requires
            tabs_wf(self@),
        ensures
            b == (self@.tabs[self@.active].parsed_revision != Some(revision)),
    {
        self.tabs[self.active].parsed_revision != Some(revision)
    }

    /// A parse of the active tab at `revision` was asked for, as `generation`.
    pub fn parse_requested(&mut self, revision: u64, generation: u64)
        requires
            tabs_wf(old(self)@),
        ensures
            final(self)@ == (TabsView {
                tabs: old(self)@.tabs.update(
                    old(self)@.active,
                    Tab {
                        parsed_revision: Some(revision),
                        awaited_generation: Some(generation),
                        ..old(self)@.tabs[old(self)@.active]
                    },
                ),
                ..old(self)@
            }),
            tabs_wf(final(self)@),
    {
        let ghost before = self@;
        let i = self.active;
        let t = self.tabs.remove(i);
        self.tabs.insert(i, Tab { parsed_revision: Some(revision), awaited_generation: Some(generation), ..t });
        proof {
            assert(self@.tabs =~= before.tabs.update(
                before.active,
                Tab {
                    parsed_revision: Some(revision),
                    awaited_generation: Some(generation),
                    ..before.tabs[before.active]
                },
            ));
        }
    }

    /// A parse result for `generation` arrived: the tab waiting for it, if
    /// any, stops waiting. The result goes to the tab that asked, which is not
    /// always the one on screen.
    pub fn parse_arrived(&mut self, generation: u64) -> (to: Option<usize>)
        requires
            tabs_wf(old(self)@),
        ensures
            tabs_wf(final(self)@),
            match to {
                Some(i) => i < old(self)@.tabs.len() && old(self)@.tabs[i as int].awaited_generation == Some(
                    generation,
                ) && (forall|j: int|
                    0 <= j < i ==> old(self)@.tabs[j].awaited_generation != Some(generation))
                    && final(self)@ == (TabsView {
                    tabs: old(self)@.tabs.update(
                        i as int,
                        Tab { awaited_generation: None, ..old(self)@.tabs[i as int] },
                    ),
                    ..old(self)@
                }),
                None => final(self)@ == old(self)@ && forall|j: int|
                    0 <= j < old(self)@.tabs.len() ==> old(self)@.tabs[j].awaited_generation != Some(
                        generation,
                    ),
            },
    {
        let mut i: usize = 0;
        while i < self.tabs.len()
            invariant
                i <= self.tabs@.len(),
                self@ == old(self)@,
                tabs_wf(old(self)@),
                forall|j: int| 0 <= j < i ==> self.tabs@[j].awaited_generation != Some(generation),
            decreases self.tabs@.len() - i,
        {
            if self.tabs[i].awaited_generation == Some(generation) {
                let ghost before = self@;
                let t = self.tabs.remove(i);
                self.tabs.insert(i, Tab { awaited_generation: None, ..t });
                proof {
                    assert(self@.tabs =~= before.tabs.update(
                        i as int,
                        Tab { awaited_generation: None, ..before.tabs[i as int] },
                    ));
                    assert forall|j: int| 0 <= j < self@.tabs.len() implies #[trigger] self@.tabs[j].last_used
                        <= self@.next_use by {
                        assert(self@.tabs[j].last_used == before.tabs[j].last_used);
                    }
                }
                return Some(i);
            }
            i = i + 1;
        }
        None
    }

    /// The panel of the tab at `index`, to change it in place.
    pub fn panel_mut(&mut self, index: usize) -> (p: &mut T)
        requires
            index < old(self)@.tabs.len(),
        ensures
            *p == old(self)@.tabs[index as int].panel,
            final(self)@ == (TabsView {
                tabs: old(self)@.tabs.update(index as int, Tab { panel: *final(p), ..old(self)@.tabs[index as int] }),
                ..old(self)@
            }),
    {
        &mut self.tabs[index].panel
    }
}

/// Quitting, unless something holds unsaved work: then the first thing that
/// does is named and the next quit, with nothing in between, is the answer.
#[derive(Debug)]
pub enum QuitStep {
    Quit,
    Ask(String),
}

/// What a quit does, as its message: `None` to quit, `Some` to ask.
pub open spec fn step_view(q: QuitStep) -> Option<Seq<char>> {
    match q {
        QuitStep::Quit => None,
        QuitStep::Ask(m) => Some(m@),
    }
}

/// What a quit does, given whether the question was already put and what
/// the first buffer with unsaved work says: quit when the question stands
/// or nothing is unsaved, else ask, naming the work and the way out.
pub open spec fn quit_outcome(pending: bool, blocker: Option<Seq<char>>) -> Option<Seq<char>> {
    if pending {
        None
    } else {
        match blocker {
            Some(message) => Some(message + "  Ctrl+Q again to discard, Ctrl+S to save."@),
            None => None,
        }
    }
}

/// Whether the question stands after a quit: only when it was just put.
pub open spec fn pending_after(pending: bool, blocker: Option<Seq<char>>) -> bool {
    !pending && blocker is Some
}

/// A borrowed message as its characters.
pub open spec fn opt_str(o: Option<&str>) -> Option<Seq<char>> {
    match o {
        Some(s) => Some(s@),
        None => None,
    }
}

/// What a quit does, given whether the question was already put and what
/// the first buffer with unsaved work says, if one has any.
pub fn request_quit(quit_pending: bool, blocker: Option<&str>) -> (q: QuitStep)
    ensures
        step_view(q) == quit_outcome(quit_pending, opt_str(blocker)),
{
    if quit_pending {
        return QuitStep::Quit;
    }
    match blocker {
        Some(message) => {
            let mut m = message.to_owned();
            m.append("  Ctrl+Q again to discard, Ctrl+S to save.");
            QuitStep::Ask(m)
        },
        None => QuitStep::Quit,
    }
}

/// A quit request from the shell's state: what it does, and whether the
/// question stands afterwards. Any other input takes the question back, so
/// the state the next quit sees is then `false`.
pub fn quit_step(quit_pending: bool, blocker: Option<&str>) -> (r: (QuitStep, bool))
    ensures
        step_view(r.0) == quit_outcome(quit_pending, opt_str(blocker)),
        r.1 == pending_after(quit_pending, opt_str(blocker)),
{
    let pending = !quit_pending && blocker.is_some();
    (request_quit(quit_pending, blocker), pending)
}

/// Quitting with unsaved work asks first and names it; a second quit with
/// nothing in between quits, whatever is still unsaved; a quit after any
/// other input asks again; with nothing unsaved one quit is enough.
pub proof fn law_quit_question(blocker: Seq<char>, later: Option<Seq<char>>)
    ensures
        quit_outcome(false, Some(blocker)) == Some(
            blocker + "  Ctrl+Q again to discard, Ctrl+S to save."@,
        ),
        pending_after(false, Some(blocker)),
        quit_outcome(pending_after(false, Some(blocker)), later) is None,
        quit_outcome(false, None) is None,
        !pending_after(false, None),
        !pending_after(true, later),
{
}

/// A mouse button, as far as the tab bar cares.
#[derive(Debug, Clone, Copy, PartialEq, Eq, Structural)]
pub enum Press {
    Left,
    Middle,
    /// Any other button, a release, a drag, a wheel.
    Other,
}

/// What a mouse event on the tab bar comes to.
#[derive(Debug, Clone, Copy, PartialEq, Eq, Structural)]
pub enum BarClick {
    /// Not on the bar: someone else's event.
    Miss,
    /// On the bar but on no action: consumed, since under the bar is the
    /// editor's first line and moving the caret there is not what anyone
    /// aiming at a tab strip meant.
    Taken,
    /// Close the tab at this index, asking first if it holds unsaved work.
    Close(usize),
    /// Make the tab at this index the visible one.
    Activate(usize),
}

/// Whether a point is on the bar.
pub open spec fn on_bar(bar: Rect, column: u16, row: u16) -> bool {
    bar.height > 0 && row == bar.y && bar.x <= column && column < bar.x + bar.width
}

/// The first cell that covers column `x` of the bar.
pub open spec fn cell_under(laid: Seq<TabCell>, x: int) -> Option<int>
    decreases laid.len(),
{
    if laid.len() == 0 {
        None
    } else {
        match cell_under(laid.drop_last(), x) {
            Some(k) => Some(k),
            None => if laid.last().x <= x < laid.last().x + laid.last().width {
                Some(laid.len() - 1)
            } else {
                None
            },
        }
    }
}

/// What a press at (`column`, `row`) does, given the bar and the cells laid
/// out in it: a middle press closes the tab under it; a left press on its
/// close box closes it and elsewhere activates it.
pub open spec fn spec_bar_click(bar: Rect, laid: Seq<TabCell>, labels: Seq<String>, column: u16, row: u16, press: Press) -> BarClick {
    if !on_bar(bar, column, row) {
        BarClick::Miss
    } else {
        match cell_under(laid, column - bar.x) {
            None => BarClick::Taken,
            Some(k) => {
                let cell = laid[k];
                match press {
                    Press::Middle => BarClick::Close(cell.index),
                    Press::Left => if cell.width >= crate::tabbar::wanted(labels[cell.index as int]@)
                        && column - bar.x == cell.x + cell.width - 2 {
                        BarClick::Close(cell.index)
                    } else {
                        BarClick::Activate(cell.index)
                    },
                    Press::Other => BarClick::Taken,
                }
            },
        }
    }
}

/// A press off the bar is someone else's; on the bar but off every cell it
/// is taken and does nothing; on a cell, a middle press closes that tab, a
/// left press on its close box (two columns in from the cell's right edge,
/// shown only when the whole cell fits) closes it and anywhere else on it
/// brings it up; any other press on a cell is taken and does nothing.
pub proof fn law_a_press_on_the_bar(
    bar: Rect,
    laid: Seq<TabCell>,
    labels: Seq<String>,
    column: u16,
    row: u16,
    press: Press,
    k: int,
)
    ensures
        !on_bar(bar, column, row) ==> spec_bar_click(bar, laid, labels, column, row, press) == BarClick::Miss,
        on_bar(bar, column, row) && cell_under(laid, column - bar.x) is None ==> spec_bar_click(
            bar,
            laid,
            labels,
            column,
            row,
            press,
        ) == BarClick::Taken,
        on_bar(bar, column, row) && cell_under(laid, column - bar.x) == Some(k) ==> {
            let c = spec_bar_click(bar, laid, labels, column, row, press);
            let cell = laid[k];
            let on_box = cell.width >= crate::tabbar::wanted(labels[cell.index as int]@) && column - bar.x
                == cell.x + cell.width - 2;
            &&& press == Press::Middle ==> c == BarClick::Close(cell.index)
            &&& press == Press::Left && on_box ==> c == BarClick::Close(cell.index)
            &&& press == Press::Left && !on_box ==> c == BarClick::Activate(cell.index)
            &&& press == Press::Other ==> c == BarClick::Taken
        },
{
}

/// Route a mouse press to the tab bar, whose cells are `laid` (those
/// [`cells`] gives the renderer, so the tab under the pointer is the tab
/// shown there by construction).
pub fn bar_click(bar: Rect, laid: &Vec<TabCell>, labels: &[String], column: u16, row: u16, press: Press) -> (c: BarClick)
    requires
        forall|k: int|
            #![trigger laid@[k]]
            0 <= k < laid@.len() ==> laid@[k].x + laid@[k].width <= u16::MAX && laid@[k].index
                < labels@.len(),
    ensures
        c == spec_bar_click(bar, laid@, labels@, column, row, press),
{
    if bar.height == 0 || row != bar.y || column < bar.x || (column as u32) >= (bar.x as u32) + (bar.width as u32) {
        return BarClick::Miss;
    }
    let x = column - bar.x;
    let mut i: usize = 0;
    while i < laid.len()
        invariant
            i <= laid@.len(),
            cell_under(laid@.take(i as int), x as int) is None,
            on_bar(bar, column, row),
            x == column - bar.x,
            forall|k: int|
                #![trigger laid@[k]]
                0 <= k < laid@.len() ==> laid@[k].x + laid@[k].width <= u16::MAX && laid@[k].index
                    < labels@.len(),
        decreases laid@.len() - i,
    {
        proof {
            assert(laid@.take(i as int + 1).drop_last() =~= laid@.take(i as int));
        }
        let cell = laid[i];
        assert(cell == laid@[i as int]);
        if cell.x <= x && (x as u32) < (cell.x as u32) + (cell.width as u32) {
            proof {
                lemma_cell_under_prefix(laid@, i as int + 1, x as int, i as int);
            }
            return match press {
                Press::Middle => BarClick::Close(cell.index),
                Press::Left => {
                    if close_box_x(&cell, labels[cell.index].as_str()) == Some(x) {
                        BarClick::Close(cell.index)
                    } else {
                        BarClick::Activate(cell.index)
                    }
                },
                Press::Other => BarClick::Taken,
            };
        }
        i = i + 1;
    }
    assert(laid@.take(laid@.len() as int) =~= laid@);
    BarClick::Taken
}

proof fn lemma_cell_under_prefix(laid: Seq<TabCell>, n: int, x: int, k: int)
    requires
        0 < n <= laid.len(),
        cell_under(laid.take(n), x) == Some(k),
    ensures
        cell_under(laid, x) == Some(k),
    decreases laid.len() - n,
{
    if n < laid.len() {
        assert(laid.take(n + 1).drop_last() =~= laid.take(n));
        assert(cell_under(laid.take(n + 1), x) == Some(k));
        lemma_cell_under_prefix(laid, n + 1, x, k);
    } else {
        assert(laid.take(n) =~= laid);
    }
}

/// Closing a tab that is not on screen does not change what is: the same
/// tab stays active, though its index moves down when an earlier one goes.
/// And whatever is closed, a tab stays open.
pub proof fn lemma_close_keeps_screen<T>(v: TabsView<T>, index: int, blank: T)
    requires
        tabs_wf(v),
        v.next_use < u64::MAX,
        0 <= index,
    ensures
        ({
            let (after, _) = spec_close(v, index, blank);
            &&& after.tabs.len() > 0
            &&& (index < v.tabs.len() && index != v.active && v.tabs.len() > 1) ==> after.tabs[after.active]
                == v.tabs[v.active]
        }),
{
    let (after, _) = spec_close(v, index, blank);
    if index < v.tabs.len() && index != v.active && v.tabs.len() > 1 {
        let rest = v.tabs.remove(index);
        if index < v.active {
            assert(rest[v.active - 1] == v.tabs[v.active]);
        } else {
            assert(rest[v.active] == v.tabs[v.active]);
        }
    }
    if index < v.tabs.len() && v.tabs.len() > 1 && index == v.active {
        lemma_mru(v.tabs.remove(index));
    }
}

/// What closing does, whatever the index: a tab that is not there leaves
/// everything as it was; the only tab gives way to `blank`, so one is always
/// open; any other goes and no other tab is lost or reordered; when it was
/// the one on screen, the tab used most recently among the rest comes up.
pub proof fn law_what_closing_does<T>(v: TabsView<T>, index: int, blank: T)
    requires
        tabs_wf(v),
        v.next_use < u64::MAX,
        0 <= index,
    ensures
        ({
            let (after, closed) = spec_close(v, index, blank);
            &&& index >= v.tabs.len() ==> after == v && closed == Closed::Ignored
            &&& index < v.tabs.len() && v.tabs.len() == 1 ==> closed == Closed::Reset
                && after.tabs.len() == 1 && after.tabs[0].panel == blank && after.active == 0
            &&& index < v.tabs.len() && v.tabs.len() > 1 ==> {
                &&& after.tabs.len() == v.tabs.len() - 1
                &&& forall|j: int| 0 <= j < after.tabs.len() ==> #[trigger] after.tabs[j].panel == (if j < index {
                    v.tabs[j].panel
                } else {
                    v.tabs[j + 1].panel
                })
                &&& closed == Closed::Removed { switched: index == v.active }
                &&& index == v.active ==> forall|j: int|
                    0 <= j < v.tabs.len() && j != index ==> #[trigger] v.tabs[j].last_used
                        <= v.tabs.remove(index)[after.active].last_used
            }
        }),
{
    if index < v.tabs.len() && v.tabs.len() > 1 {
        let rest = v.tabs.remove(index);
        lemma_mru(rest);
        let (after, closed) = spec_close(v, index, blank);
        if index == v.active {
            assert forall|j: int|
                0 <= j < v.tabs.len() && j != index implies #[trigger] v.tabs[j].last_used
                    <= rest[after.active].last_used by {
                if j < index {
                    assert(rest[j] == v.tabs[j]);
                } else {
                    assert(rest[j - 1] == v.tabs[j]);
                }
            }
        }
    }
}

} // verus!

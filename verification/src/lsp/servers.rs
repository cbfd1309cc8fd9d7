//! The language-server processes: which one a file goes to, and what becomes
//! of one when it exits.
//!
//! The crash policy is the sliding window of VS Code's language client, and
//! it needs no clock of its own: the restart is triggered by the exit itself,
//! so the only thing measured is the span between the exits on record.

use crate::text::{same_text, trim_seq, trim};
use vstd::prelude::*;

verus! {

/// How many exits are restarted before the window is consulted. The fifth
/// exit inside [`CRASH_WINDOW_MS`] is what stops a server.
pub const MAX_RESTARTS: usize = 4;

/// The span a crash loop is measured over, in milliseconds: three minutes.
pub const CRASH_WINDOW_MS: u64 = 180000;

/// What an exit leads to.
#[derive(Debug, Clone, Copy, PartialEq, Eq, Structural)]
pub enum AfterExit {
    /// Start it again.
    Restart,
    /// Give up on it; starting it again is then a thing the user asks for.
    Stop,
}

/// One server process slot and everything decided about it.
#[derive(Debug)]
pub struct ServerState {
    /// Which configuration it was started from.
    pub config: usize,
    /// The project root it serves.
    pub root: String,
    running: bool,
    /// When it has exited, oldest first, in milliseconds of a monotonic clock.
    exits: Vec<u64>,
    /// Whether it ever finished a handshake. One that dies before it is not
    /// installed rather than crashed.
    ever_ready: bool,
    /// Given up on.
    stopped: bool,
    /// Its last words, kept because the process goes with it.
    last_stderr: Vec<String>,
}

/// A server slot as its parts.
pub struct SlotView {
    pub config: usize,
    pub root: Seq<char>,
    pub running: bool,
    pub exits: Seq<u64>,
    pub ever_ready: bool,
    pub stopped: bool,
    pub last_stderr: Seq<Seq<char>>,
}

/// The texts of some strings.
pub open spec fn lines_view(v: Seq<String>) -> Seq<Seq<char>> {
    v.map_values(|s: String| s@)
}

impl View for ServerState {
    type V = SlotView;

    closed spec fn view(&self) -> SlotView {
        SlotView {
            config: self.config,
            root: self.root@,
            running: self.running,
            exits: self.exits@,
            ever_ready: self.ever_ready,
            stopped: self.stopped,
            last_stderr: lines_view(self.last_stderr@),
        }
    }
}

/// The exits are in the order they happened.
pub open spec fn in_order(exits: Seq<u64>) -> bool {
    forall|i: int, j: int| 0 <= i <= j < exits.len() ==> exits[i] <= exits[j]
}

/// A slot is well formed: its exits are in order, and a running server has
/// not been given up on and has at most [`MAX_RESTARTS`] exits on record.
pub open spec fn slot_wf(s: SlotView) -> bool {
    &&& in_order(s.exits)
    &&& s.running ==> !s.stopped && s.exits.len() <= MAX_RESTARTS
}

/// What an exit at `now` does to a slot, and what it leads to.
///
/// A server that never finished a handshake is stopped: restarting a binary
/// that is not there only burns the window. Otherwise it is restarted while at
/// most [`MAX_RESTARTS`] exits are on record; past that, it is stopped if the
/// whole run of them fits inside the window, and otherwise the oldest is
/// dropped and it is restarted. A server that dies once an hour is not a
/// crash loop.
pub open spec fn spec_exited(s: SlotView, now: u64, stderr: Seq<Seq<char>>) -> (SlotView, AfterExit) {
    let exits = s.exits.push(now);
    let gone = SlotView { running: false, exits, last_stderr: stderr, ..s };
    if !s.ever_ready {
        (SlotView { stopped: true, ..gone }, AfterExit::Stop)
    } else if exits.len() <= MAX_RESTARTS {
        (gone, AfterExit::Restart)
    } else if exits.last() - exits[0] <= CRASH_WINDOW_MS {
        (SlotView { stopped: true, ..gone }, AfterExit::Stop)
    } else {
        (SlotView { exits: exits.drop_first(), ..gone }, AfterExit::Restart)
    }
}

/// Why a server that has just exited did, in one line: its own last
/// non-blank line of stderr when it left one, since that says more than any
/// wording here could; otherwise whether it had ever started.
pub open spec fn spec_exit_reason(command: Seq<char>, ever_ready: bool, stderr: Seq<Seq<char>>) -> Seq<char> {
    match last_said(stderr) {
        Some(line) => command + ": "@ + line,
        None => if ever_ready {
            command + " exited."@
        } else {
            command + " did not start."@
        },
    }
}

/// The last line that is not blank.
pub open spec fn last_said(lines: Seq<Seq<char>>) -> Option<Seq<char>>
    decreases lines.len(),
{
    if lines.len() == 0 {
        None
    } else if trim_seq(lines.last()).len() > 0 {
        Some(lines.last())
    } else {
        last_said(lines.drop_last())
    }
}

impl ServerState {
    /// A slot for a server just spawned, or one that would not spawn, which is
    /// given up on from the start.
    pub fn new(config: usize, root: String, started: bool) -> (s: ServerState)
        ensures
            s@ == (SlotView {
                config,
                root: root@,
                running: started,
                exits: Seq::empty(),
                ever_ready: false,
                stopped: !started,
                last_stderr: Seq::empty(),
            }),
            slot_wf(s@),
    {
        let s = ServerState {
            config,
            root,
            running: started,
            exits: Vec::new(),
            ever_ready: false,
            stopped: !started,
            last_stderr: Vec::new(),
        };
        proof {
            assert(lines_view(s.last_stderr@) =~= Seq::<Seq<char>>::empty());
        }
        s
    }

    pub fn is_running(&self) -> (b: bool)
        ensures
            b == self@.running,
    {
        self.running
    }

    pub fn is_stopped(&self) -> (b: bool)
        ensures
            b == self@.stopped,
    {
        self.stopped
    }

    pub fn ever_ready(&self) -> (b: bool)
        ensures
            b == self@.ever_ready,
    {
        self.ever_ready
    }

    /// The server finished its handshake.
    pub fn mark_ready(&mut self)
        requires
            slot_wf(old(self)@),
        ensures
            final(self)@ == (SlotView { ever_ready: true, ..old(self)@ }),
            slot_wf(final(self)@),
    {
        self.ever_ready = true;
    }

    /// The server exited at `now`, leaving `stderr` behind: record it, and say
    /// whether to start it again.
    pub fn exited(&mut self, now: u64, stderr: Vec<String>) -> (next: AfterExit)
        requires
            slot_wf(old(self)@),
            old(self)@.running,
            old(self)@.exits.len() > 0 ==> old(self)@.exits.last() <= now,
        ensures
            (final(self)@, next) == spec_exited(old(self)@, now, lines_view(stderr@)),
            slot_wf(final(self)@),
    {
        let ghost before = self@;
        self.running = false;
        self.last_stderr = stderr;
        self.exits.push(now);
        let n = self.exits.len();
        proof {
            assert(self@.exits =~= before.exits.push(now));
        }
        if !self.ever_ready {
            self.stopped = true;
            return AfterExit::Stop;
        }
        if n <= MAX_RESTARTS {
            return AfterExit::Restart;
        }
        let span = self.exits[n - 1] - self.exits[0];
        if span <= CRASH_WINDOW_MS {
            self.stopped = true;
            AfterExit::Stop
        } else {
            self.exits.remove(0);
            proof {
                assert(self@.exits =~= before.exits.push(now).drop_first());
            }
            AfterExit::Restart
        }
    }

    /// A restart was tried: on success it runs again and has yet to finish
    /// its handshake; on failure it is given up on.
    pub fn restarted(&mut self, ok: bool)
        requires
            slot_wf(old(self)@),
            !old(self)@.running,
            ok ==> !old(self)@.stopped && old(self)@.exits.len() <= MAX_RESTARTS,
        ensures
            final(self)@ == (if ok {
                SlotView { running: true, ever_ready: false, ..old(self)@ }
            } else {
                SlotView { stopped: true, ..old(self)@ }
            }),
            slot_wf(final(self)@),
    {
        if ok {
            self.running = true;
            self.ever_ready = false;
        } else {
            self.stopped = true;
        }
    }

    /// The user asked for it back: the window is cleared, so the count
    /// starts again.
    pub fn forgive(&mut self)
        requires
            slot_wf(old(self)@),
        ensures
            final(self)@ == (SlotView { stopped: false, exits: Seq::empty(), ..old(self)@ }),
            slot_wf(final(self)@),
    {
        self.stopped = false;
        self.exits = Vec::new();
    }

    /// Asked to stop with the editor.
    pub fn shut_down(&mut self)
        requires
            slot_wf(old(self)@),
        ensures
            final(self)@ == (SlotView { running: false, stopped: true, ..old(self)@ }),
            slot_wf(final(self)@),
    {
        self.running = false;
        self.stopped = true;
    }

    /// Why the server exited, in one line, naming `command`.
    pub fn exit_reason(&self, command: &str) -> (r: String)
        ensures
            r@ == spec_exit_reason(command@, self@.ever_ready, self@.last_stderr),
    {
        let mut i = self.last_stderr.len();
        let ghost lines = lines_view(self.last_stderr@);
        assert(lines.take(i as int) =~= lines);
        while i > 0
            invariant
                i <= self.last_stderr@.len(),
                lines == lines_view(self.last_stderr@),
                last_said(lines) == last_said(lines.take(i as int)),
            decreases i,
        {
            let line = &self.last_stderr[i - 1];
            proof {
                assert(lines.take(i as int).drop_last() =~= lines.take(i - 1));
                assert(lines.take(i as int).last() == line@);
            }
            let t = trim(line.as_str());
            if t.unicode_len() > 0 {
                let mut r = command.to_owned();
                r.append(": ");
                r.append(line.as_str());
                return r;
            }
            i = i - 1;
        }
        assert(lines.take(0) =~= Seq::<Seq<char>>::empty());
        let mut r = command.to_owned();
        if self.ever_ready {
            r.append(" exited.");
        } else {
            r.append(" did not start.");
        }
        r
    }
}

/// Every exit that leads to a restart leaves at most [`MAX_RESTARTS`] exits
/// on record; an exit of a server that never finished a handshake always
/// stops it; and one that had, stops it only as the fifth exit inside the
/// window.
pub proof fn lemma_crash_window(s: SlotView, now: u64, stderr: Seq<Seq<char>>)
    requires
        slot_wf(s),
        s.running,
        s.exits.len() > 0 ==> s.exits.last() <= now,
    ensures
        ({
            let (after, next) = spec_exited(s, now, stderr);
            &&& next == AfterExit::Restart ==> after.exits.len() <= MAX_RESTARTS && !after.stopped
            &&& !s.ever_ready ==> next == AfterExit::Stop && after.stopped
            &&& s.ever_ready && next == AfterExit::Stop ==> after.exits.len() == MAX_RESTARTS + 1
                && after.exits.last() - after.exits[0] <= CRASH_WINDOW_MS
            &&& slot_wf(after)
        }),
{
}

/// Why a server exited, in one line: when it wrote anything that is not
/// blank, its command, `: ` and the last such line, word for word; when it
/// wrote nothing, `<command> exited.` if it had ever started and
/// `<command> did not start.` if not.
pub proof fn law_exit_reason(command: Seq<char>, ever_ready: bool, stderr: Seq<Seq<char>>, line: Seq<char>)
    ensures
        last_said(stderr) == Some(line) ==> spec_exit_reason(command, ever_ready, stderr) == command
            + seq![':', ' '] + line,
        last_said(stderr) is None && ever_ready ==> spec_exit_reason(command, ever_ready, stderr)
            == command + seq![' ', 'e', 'x', 'i', 't', 'e', 'd', '.'],
        last_said(stderr) is None && !ever_ready ==> spec_exit_reason(command, ever_ready, stderr)
            == command + seq![' ', 'd', 'i', 'd', ' ', 'n', 'o', 't', ' ', 's', 't', 'a', 'r', 't', '.'],
        last_said(stderr) matches Some(l) ==> stderr.contains(l),
        stderr.len() > 0 && crate::text::trim_seq(stderr.last()).len() > 0 ==> last_said(stderr)
            == Some(stderr.last()),
{
    reveal_strlit(": ");
    reveal_strlit(" exited.");
    reveal_strlit(" did not start.");
    assert(": "@ =~= seq![':', ' ']);
    assert(" exited."@ =~= seq![' ', 'e', 'x', 'i', 't', 'e', 'd', '.']);
    assert(" did not start."@ =~= seq![' ', 'd', 'i', 'd', ' ', 'n', 'o', 't', ' ', 's', 't', 'a', 'r', 't', '.']);
    lemma_last_said_is_a_line(stderr);
}

proof fn lemma_last_said_is_a_line(lines: Seq<Seq<char>>)
    ensures
        last_said(lines) matches Some(l) ==> lines.contains(l),
    decreases lines.len(),
{
    if lines.len() > 0 {
        lemma_last_said_is_a_line(lines.drop_last());
        if trim_seq(lines.last()).len() > 0 {
            assert(lines[lines.len() - 1] == lines.last());
        } else if last_said(lines.drop_last()) is Some {
            let l = last_said(lines.drop_last()).unwrap();
            let k = choose|k: int| 0 <= k < lines.drop_last().len() && lines.drop_last()[k] == l;
            assert(lines[k] == l);
        }
    }
}

/// Which server slot handles a file, as far as the table can say.
#[derive(Debug, Clone, Copy, PartialEq, Eq, Structural)]
pub enum Lookup {
    /// A running server already serves this configuration and root.
    Running(usize),
    /// One was started for it and has been given up on, or is down: stopped
    /// counts as present, or the next pass would start a fresh one and the
    /// crash guard would be bypassed by the thing it guards.
    Down,
    /// Nothing was ever started for it.
    Absent,
}

/// The first slot with this configuration and root.
pub open spec fn slot_for(servers: Seq<SlotView>, config: usize, root: Seq<char>) -> Option<int>
    decreases servers.len(),
{
    if servers.len() == 0 {
        None
    } else {
        match slot_for(servers.drop_last(), config, root) {
            Some(i) => Some(i),
            None => if servers.last().config == config && servers.last().root == root {
                Some(servers.len() - 1)
            } else {
                None
            },
        }
    }
}

/// What the table says about a configuration and root: one process per
/// `(configuration, root)`, not per language and not per file.
pub open spec fn spec_lookup(servers: Seq<SlotView>, config: usize, root: Seq<char>) -> Lookup {
    match slot_for(servers, config, root) {
        Some(i) => if servers[i].running {
            Lookup::Running(i as usize)
        } else {
            Lookup::Down
        },
        None => Lookup::Absent,
    }
}

/// One process per configuration and root: a lookup names the first slot
/// started for them and says it is running exactly when it is; a slot that
/// is stopped or down still counts, so nothing new is started in its place;
/// only when no slot was ever started for them is the answer `Absent`.
pub proof fn law_one_process_per_root(servers: Seq<SlotView>, config: usize, root: Seq<char>)
    requires
        servers.len() <= usize::MAX,
    ensures
        spec_lookup(servers, config, root) matches Lookup::Running(i) ==> 0 <= i < servers.len()
            && servers[i as int].running && servers[i as int].config == config && servers[i as int].root
            == root,
        spec_lookup(servers, config, root) == Lookup::Absent <==> forall|j: int|
            0 <= j < servers.len() ==> !(#[trigger] servers[j].config == config && servers[j].root == root),
        (exists|j: int| 0 <= j < servers.len() && #[trigger] servers[j].config == config && servers[j].root
            == root && servers[j].running && forall|k: int|
            0 <= k < j ==> !(#[trigger] servers[k].config == config && servers[k].root == root))
            ==> spec_lookup(servers, config, root) is Running,
{
    lemma_slot_for(servers, config, root);
    if exists|j: int| 0 <= j < servers.len() && #[trigger] servers[j].config == config && servers[j].root
        == root && servers[j].running && forall|k: int|
        0 <= k < j ==> !(#[trigger] servers[k].config == config && servers[k].root == root) {
        let j = choose|j: int| 0 <= j < servers.len() && #[trigger] servers[j].config == config
            && servers[j].root == root && servers[j].running && forall|k: int|
            0 <= k < j ==> !(#[trigger] servers[k].config == config && servers[k].root == root);
        let i = slot_for(servers, config, root).unwrap();
        assert(i == j) by {
            if i < j {
                assert(servers[i].config == config && servers[i].root == root);
            } else if j < i {
                assert(servers[j].config == config && servers[j].root == root);
            }
        }
    }
}

/// The slots as their parts.
pub open spec fn slots_view(v: Seq<ServerState>) -> Seq<SlotView> {
    v.map_values(|s: ServerState| s@)
}

/// How many slots hold a running server.
pub open spec fn running_count(servers: Seq<SlotView>) -> nat
    decreases servers.len(),
{
    if servers.len() == 0 {
        0
    } else {
        running_count(servers.drop_last()) + if servers.last().running {
            1nat
        } else {
            0nat
        }
    }
}

proof fn lemma_slot_for(servers: Seq<SlotView>, config: usize, root: Seq<char>)
    ensures
        match slot_for(servers, config, root) {
            Some(i) => 0 <= i < servers.len() && servers[i].config == config && servers[i].root
                == root && forall|j: int|
                0 <= j < i ==> !(servers[j].config == config && servers[j].root == root),
            None => forall|j: int|
                0 <= j < servers.len() ==> !(servers[j].config == config && servers[j].root == root),
        },
    decreases servers.len(),
{
    if servers.len() > 0 {
        lemma_slot_for(servers.drop_last(), config, root);
        assert forall|j: int| 0 <= j < servers.len() - 1 implies servers.drop_last()[j]
            == servers[j] by {}
    }
}

/// Look a configuration and root up among the slots.
pub fn lookup(servers: &Vec<ServerState>, config: usize, root: &str) -> (l: Lookup)
    ensures
        l == spec_lookup(slots_view(servers@), config, root@),
{
    let ghost views = slots_view(servers@);
    proof {
        lemma_slot_for(views, config, root@);
    }
    let mut i: usize = 0;
    while i < servers.len()
        invariant
            i <= servers@.len(),
            views == slots_view(servers@),
            forall|j: int| 0 <= j < i ==> !(views[j].config == config && views[j].root == root@),
        decreases servers@.len() - i,
    {
        let s = &servers[i];
        assert(views[i as int] == s@);
        if s.config == config && same_text(s.root.as_str(), root) {
            proof {
                lemma_slot_for(views, config, root@);
                match slot_for(views, config, root@) {
                    Some(p) => {
                        if p < i {
                            assert(views[p].config == config);
                        }
                        if p > i {
                            assert(views[i as int].config == config && views[i as int].root == root@);
                        }
                    },
                    None => {
                        assert(views[i as int].config == config && views[i as int].root == root@);
                    },
                }
            }
            if s.running {
                return Lookup::Running(i);
            } else {
                return Lookup::Down;
            }
        }
        i = i + 1;
    }
    Lookup::Absent
}

/// How many servers are running.
pub fn running(servers: &Vec<ServerState>) -> (n: usize)
    ensures
        n == running_count(slots_view(servers@)),
{
    let ghost views = slots_view(servers@);
    let mut n: usize = 0;
    let mut i: usize = 0;
    while i < servers.len()
        invariant
            i <= servers@.len(),
            views == slots_view(servers@),
            n == running_count(views.take(i as int)),
            n <= i,
        decreases servers@.len() - i,
    {
        assert(views.take(i as int + 1).drop_last() =~= views.take(i as int));
        if servers[i].running {
            n = n + 1;
        }
        i = i + 1;
    }
    assert(views.take(servers@.len() as int) =~= views);
    n
}

/// The slots a restart the user asked for applies to: every one given up
/// on or not running, in order.
pub open spec fn spec_restartable(servers: Seq<SlotView>) -> Seq<usize>
    decreases servers.len(),
{
    if servers.len() == 0 {
        Seq::empty()
    } else {
        let rest = spec_restartable(servers.drop_last());
        if servers.last().stopped || !servers.last().running {
            rest.push((servers.len() - 1) as usize)
        } else {
            rest
        }
    }
}

/// The slots to start again when the user asks for a restart.
pub fn restartable(servers: &Vec<ServerState>) -> (ids: Vec<usize>)
    ensures
        ids@ == spec_restartable(slots_view(servers@)),
{
    let ghost views = slots_view(servers@);
    let mut ids: Vec<usize> = Vec::new();
    let mut i: usize = 0;
    while i < servers.len()
        invariant
            i <= servers@.len(),
            views == slots_view(servers@),
            ids@ == spec_restartable(views.take(i as int)),
        decreases servers@.len() - i,
    {
        assert(views.take(i as int + 1).drop_last() =~= views.take(i as int));
        if servers[i].stopped || !servers[i].running {
            ids.push(i);
        }
        i = i + 1;
    }
    assert(views.take(servers@.len() as int) =~= views);
    ids
}

} // verus!

//! Every language server, every document, and the tally of what was sent.
//!
//! Nothing here may fail a keystroke: a server that is missing, crashed, slow
//! or wrong leaves the editor as it was. Spawning, sending and the clock are
//! the caller's; each step here takes what they gave back and decides.

use crate::lsp::answers::{may_ask, spec_may_ask, Ask, NoAnswer};
use crate::lsp::config::{add_config, configuration_for, first_handling, upsert, views, ServerConfig};
use crate::lsp::docs::{doc_for, index_of, one_revision_per_path, record_pass, lemma_exit_forgets_documents, spec_plan, without_server, DocView, Docs, SyncStep, SyncView};
use crate::lsp::json::Json;
use crate::lsp::progress::{belongs, lemma_forget_keeps_the_rest, spec_note, without, Progress};
use crate::lsp::requests::{count_of, first_with, of_kind, other_kinds, Pending, Requests, Tally};
use crate::lsp::servers::{
    lines_view, lookup, restartable, running, running_count, slot_wf, slots_view, spec_exited,
    spec_lookup, spec_restartable, AfterExit, Lookup, ServerState, SlotView,
};
use vstd::prelude::*;

verus! {

/// The language servers of one editor session, and what they were told.
pub struct Session<D> {
    configs: Vec<ServerConfig>,
    servers: Vec<ServerState>,
    docs: Docs<D>,
    requests: Requests,
    tally: Tally,
    progress: Progress,
}

/// Every slot is well formed.
pub open spec fn slots_wf(slots: Seq<SlotView>) -> bool {
    forall|i: int| 0 <= i < slots.len() ==> slot_wf(#[trigger] slots[i])
}

impl<D> Session<D> {
    /// The configurations, in order.
    pub closed spec fn configs(&self) -> Seq<crate::lsp::config::ServerView> {
        views(self.configs@)
    }

    /// The server slots; a slot's index is the server's id, and a slot is
    /// never removed, so an id keeps meaning the same server.
    pub closed spec fn slots(&self) -> Seq<SlotView> {
        slots_view(self.servers@)
    }

    /// What the servers were told about each document.
    pub closed spec fn docs(&self) -> Seq<DocView<D>> {
        self.docs@
    }

    /// The questions in flight.
    pub closed spec fn pending(&self) -> Seq<Pending> {
        self.requests@
    }

    /// How many of each notification went out.
    pub closed spec fn counts(&self) -> Seq<(Seq<char>, nat)> {
        self.tally@
    }

    /// The work the servers said they are doing.
    pub closed spec fn work(&self) -> Seq<(usize, Seq<char>, Seq<char>)> {
        self.progress@
    }

    /// The parts are well formed.
    pub closed spec fn wf(&self) -> bool {
        &&& self.docs.wf()
        &&& self.tally.wf()
        &&& slots_wf(self.slots())
    }

    /// A session with these configurations and nothing started.
    pub fn new(configs: Vec<ServerConfig>) -> (s: Session<D>)
        ensures
            s.wf(),
            s.configs() == views(configs@),
            s.slots().len() == 0,
            s.docs().len() == 0,
            s.pending().len() == 0,
            s.work().len() == 0,
            forall|m: Seq<char>| count_of(s.counts(), m) == 0,
    {
        let s = Session {
            configs,
            servers: Vec::new(),
            docs: Docs::new(),
            requests: Requests::new(),
            tally: Tally::new(),
            progress: Progress::new(),
        };
        assert(s.slots() =~= Seq::<SlotView>::empty());
        s
    }

    /// Add one configuration, replacing one of the same language.
    pub fn add(&mut self, config: ServerConfig)
        requires
            old(self).wf(),
        ensures
            final(self).wf(),
            final(self).configs() == upsert(old(self).configs(), config@),
            final(self).slots() == old(self).slots(),
            final(self).docs() == old(self).docs(),
    {
        add_config(&mut self.configs, config);
    }

    /// The configuration that handles a file: the first whose extensions
    /// name it.
    pub fn config_for(&self, path: &str) -> (i: Option<usize>)
        ensures
            match i {
                Some(k) => first_handling(self.configs(), path@) == Some(k as int),
                None => first_handling(self.configs(), path@) is None,
            },
    {
        configuration_for(&self.configs, path)
    }

    /// The markers that root a configuration's servers.
    pub fn roots(&self, config: usize) -> (r: &Vec<String>)
        requires
            config < self.configs().len(),
        ensures
            r@.map_values(|s: String| s@) == self.configs()[config as int].roots,
    {
        assert(self.configs()[config as int] == self.configs@[config as int]@);
        &self.configs[config].roots
    }

    /// The command and arguments that start a configuration's server.
    pub fn command(&self, config: usize) -> (c: (&str, &Vec<String>))
        requires
            config < self.configs().len(),
        ensures
            c.0@ == self.configs()[config as int].command,
            c.1@.map_values(|s: String| s@) == self.configs()[config as int].args,
    {
        assert(self.configs()[config as int] == self.configs@[config as int]@);
        (self.configs[config].command.as_str(), &self.configs[config].args)
    }

    /// Whether a server already serves this configuration and root. One
    /// that was given up on counts as present: otherwise the next pass
    /// starts a fresh one and the crash guard is bypassed by the thing it
    /// guards.
    pub fn lookup(&self, config: usize, root: &str) -> (l: Lookup)
        ensures
            l == spec_lookup(self.slots(), config, root@),
    {
        lookup(&self.servers, config, root)
    }

    /// A server was spawned for a configuration and root, or would not
    /// spawn. Returns its id when it runs.
    pub fn started(&mut self, config: usize, root: String, ok: bool) -> (id: Option<usize>)
        requires
            old(self).wf(),
        ensures
            final(self).wf(),
            final(self).slots() == old(self).slots().push(
                SlotView {
                    config,
                    root: root@,
                    running: ok,
                    exits: Seq::empty(),
                    ever_ready: false,
                    stopped: !ok,
                    last_stderr: Seq::empty(),
                },
            ),
            id == (if ok {
                Some(old(self).slots().len() as usize)
            } else {
                None::<usize>
            }),
            final(self).docs() == old(self).docs(),
            final(self).configs() == old(self).configs(),
    {
        let id = self.servers.len();
        let ghost before = self.slots();
        let slot = ServerState::new(config, root, ok);
        self.servers.push(slot);
        proof {
            assert(self.slots() =~= before.push(slot@));
            assert forall|i: int| 0 <= i < self.slots().len() implies slot_wf(#[trigger] self.slots()[i]) by {
                if i < before.len() {
                    assert(self.slots()[i] == before[i]);
                }
            }
        }
        if ok {
            Some(id)
        } else {
            None
        }
    }

    /// Replace one slot, through a function on it.
    fn slot_mut_replace(&mut self, id: usize, slot: ServerState)
        requires
            old(self).wf(),
            id < old(self).slots().len(),
            slot_wf(slot@),
        ensures
            final(self).wf(),
            final(self).slots() == old(self).slots().update(id as int, slot@),
            final(self).docs() == old(self).docs(),
            final(self).work() == old(self).work(),
            final(self).configs() == old(self).configs(),
            final(self).counts() == old(self).counts(),
            final(self).pending() == old(self).pending(),
    {
        let ghost before = self.slots();
        self.servers.remove(id);
        self.servers.insert(id, slot);
        proof {
            assert(self.slots() =~= before.update(id as int, slot@));
            assert forall|i: int| 0 <= i < self.slots().len() implies slot_wf(#[trigger] self.slots()[i]) by {
                if i != id {
                    assert(self.slots()[i] == before[i]);
                }
            }
        }
    }

    /// Take one slot out, leaving a placeholder; put back with
    /// [`Self::slot_mut_replace`].
    fn take_slot(&mut self, id: usize) -> (slot: ServerState)
        requires
            id < old(self).slots().len(),
        ensures
            slot@ == old(self).slots()[id as int],
            final(self).servers@.len() == old(self).servers@.len(),
            final(self).slots() == old(self).slots().update(id as int, final(self).slots()[id as int]),
            final(self).docs == old(self).docs,
            final(self).tally == old(self).tally,
            final(self).progress == old(self).progress,
            final(self).requests == old(self).requests,
            final(self).configs == old(self).configs,
            slot_wf(final(self).slots()[id as int]),
    {
        let ghost before = self.slots();
        let slot = self.servers.remove(id);
        self.servers.insert(id, ServerState::new(0, String::new(), false));
        proof {
            assert(self.slots() =~= before.update(id as int, self.slots()[id as int]));
        }
        slot
    }

    /// The server finished its handshake.
    pub fn mark_ready(&mut self, id: usize)
        requires
            old(self).wf(),
            id < old(self).slots().len(),
        ensures
            final(self).wf(),
            final(self).slots() == old(self).slots().update(
                id as int,
                SlotView { ever_ready: true, ..old(self).slots()[id as int] },
            ),
            final(self).docs() == old(self).docs(),
    {
        let ghost before = *self;
        let mut slot = self.take_slot(id);
        proof {
            assert(slot_wf(before.slots()[id as int]));
        }
        slot.mark_ready();
        let ghost mid = *self;
        proof {
            assert(mid.wf()) by {
                assert forall|i: int| 0 <= i < mid.slots().len() implies slot_wf(#[trigger] mid.slots()[i]) by {
                    if i != id {
                        assert(mid.slots()[i] == before.slots()[i]);
                    }
                }
            }
        }
        self.slot_mut_replace(id, slot);
        proof {
            assert(self.slots() =~= before.slots().update(
                id as int,
                SlotView { ever_ready: true, ..before.slots()[id as int] },
            ));
        }
    }

    /// A server exited at `now`, leaving `stderr`. Its documents were never
    /// closed politely and there is nobody left to tell, so they are
    /// forgotten, which is what lets a restart announce them again; its work
    /// is forgotten too. Returns whether to start it again.
    pub fn exited(&mut self, id: usize, now: u64, stderr: Vec<String>) -> (next: AfterExit)
        requires
            old(self).wf(),
            id < old(self).slots().len(),
            old(self).slots()[id as int].running,
            old(self).slots()[id as int].exits.len() > 0 ==> old(self).slots()[id as int].exits.last() <= now,
        ensures
            final(self).wf(),
            (final(self).slots()[id as int], next) == spec_exited(old(self).slots()[id as int], now, lines_view(stderr@)),
            final(self).slots() == old(self).slots().update(id as int, final(self).slots()[id as int]),
            final(self).docs() == without_server(old(self).docs(), id),
            final(self).work() == without(old(self).work(), id, None),
            final(self).configs() == old(self).configs(),
    {
        let ghost before = *self;
        self.docs.forget_server(id);
        self.progress.forget(id);
        let mut slot = self.take_slot(id);
        proof {
            assert(slot_wf(before.slots()[id as int]));
        }
        let next = slot.exited(now, stderr);
        let ghost mid = *self;
        proof {
            assert(mid.wf()) by {
                assert forall|i: int| 0 <= i < mid.slots().len() implies slot_wf(#[trigger] mid.slots()[i]) by {
                    if i != id {
                        assert(mid.slots()[i] == before.slots()[i]);
                    }
                }
            }
        }
        self.slot_mut_replace(id, slot);
        proof {
            assert(self.slots() =~= before.slots().update(id as int, self.slots()[id as int]));
        }
        next
    }

    /// A restart was tried: on success the server runs again; on failure it
    /// is given up on.
    pub fn restarted(&mut self, id: usize, ok: bool)
        requires
            old(self).wf(),
            id < old(self).slots().len(),
            !old(self).slots()[id as int].running,
            ok ==> !old(self).slots()[id as int].stopped && old(self).slots()[id as int].exits.len() <= crate::lsp::servers::MAX_RESTARTS,
        ensures
            final(self).wf(),
            final(self).slots() == old(self).slots().update(
                id as int,
                if ok {
                    SlotView { running: true, ever_ready: false, ..old(self).slots()[id as int] }
                } else {
                    SlotView { stopped: true, ..old(self).slots()[id as int] }
                },
            ),
            final(self).docs() == old(self).docs(),
    {
        let ghost before = *self;
        let mut slot = self.take_slot(id);
        proof {
            assert(slot_wf(before.slots()[id as int]));
        }
        slot.restarted(ok);
        let ghost mid = *self;
        proof {
            assert(mid.wf()) by {
                assert forall|i: int| 0 <= i < mid.slots().len() implies slot_wf(#[trigger] mid.slots()[i]) by {
                    if i != id {
                        assert(mid.slots()[i] == before.slots()[i]);
                    }
                }
            }
        }
        self.slot_mut_replace(id, slot);
        proof {
            assert(self.slots() =~= before.slots().update(id as int, self.slots()[id as int]));
        }
    }

    /// The user asked for the servers back: every slot that is down or
    /// given up on has its window cleared and is returned, to be started
    /// again.
    pub fn forgive_all(&mut self) -> (ids: Vec<usize>)
        requires
            old(self).wf(),
        ensures
            final(self).wf(),
            ids@ == spec_restartable(old(self).slots()),
            final(self).slots().len() == old(self).slots().len(),
            forall|i: int|
                0 <= i < old(self).slots().len() ==> #[trigger] final(self).slots()[i] == (if listed(ids@, ids@.len() as int, i) {
                    SlotView { stopped: false, exits: Seq::empty(), ..old(self).slots()[i] }
                } else {
                    old(self).slots()[i]
                }),
            final(self).docs() == old(self).docs(),
    {
        let ids = restartable(&self.servers);
        let count = self.servers.len();
        proof {
            assert(self.slots().len() == count);
            lemma_restartable_ids(self.slots());
        }
        let ghost start = *self;
        let mut k: usize = 0;
        while k < ids.len()
            invariant
                k <= ids@.len(),
                ids@ == spec_restartable(start.slots()),
                self.wf(),
                self.docs() == start.docs(),
                self.slots().len() == start.slots().len(),
                forall|j: int| 0 <= j < ids@.len() ==> #[trigger] ids@[j] < start.slots().len(),
                forall|a: int, b: int| 0 <= a < b < ids@.len() ==> ids@[a] < ids@[b],
                forall|i: int|
                    0 <= i < start.slots().len() ==> #[trigger] self.slots()[i] == (if listed(ids@, k as int, i) {
                        SlotView { stopped: false, exits: Seq::empty(), ..start.slots()[i] }
                    } else {
                        start.slots()[i]
                    }),
            decreases ids@.len() - k,
        {
            let id = ids[k];
            let ghost before = *self;
            let mut slot = self.take_slot(id);
            proof {
                assert(slot_wf(before.slots()[id as int]));
            }
            slot.forgive();
            let ghost mid = *self;
            proof {
                assert(mid.wf()) by {
                    assert forall|i: int| 0 <= i < mid.slots().len() implies slot_wf(#[trigger] mid.slots()[i]) by {
                        if i != id {
                            assert(mid.slots()[i] == before.slots()[i]);
                        }
                    }
                }
            }
            self.slot_mut_replace(id, slot);
            proof {
                assert(!listed(ids@, k as int, id as int)) by {
                    if listed(ids@, k as int, id as int) {
                        let j = choose|j: int| 0 <= j < k && ids@[j] == id as int;
                        assert(ids@[j] < ids@[k as int]);
                    }
                }
                assert forall|i: int| 0 <= i < start.slots().len() implies #[trigger] self.slots()[i] == (if listed(ids@, k as int + 1, i) {
                    SlotView { stopped: false, exits: Seq::empty(), ..start.slots()[i] }
                } else {
                    start.slots()[i]
                }) by {
                    if i == id {
                        assert(ids@[k as int] == i);
                        assert(listed(ids@, k as int + 1, i));
                    } else {
                        assert(self.slots()[i] == before.slots()[i]);
                        assert(listed(ids@, k as int + 1, i) == listed(ids@, k as int, i));
                    }
                }
            }
            k = k + 1;
        }
        ids
    }

    /// How many servers are running.
    pub fn running(&self) -> (n: usize)
        ensures
            n == running_count(self.slots()),
    {
        running(&self.servers)
    }

    /// What to send for a document now at `revision`.
    pub fn plan(&self, path: &str, revision: u64) -> (step: SyncStep)
        requires
            self.wf(),
            doc_for(self.docs(), path@) matches Some(d) ==> d.version < i32::MAX,
        ensures
            step@ == spec_plan(self.docs(), path@, revision),
    {
        self.docs.plan(path, revision)
    }

    /// A session's sync pass is idempotent: once each document of a pass has
    /// been recorded as [`Session::changed`] and [`Session::opened`] record
    /// it, planning the same documents at the same revisions again sends
    /// nothing, so a second pass adds nothing to any count.
    pub proof fn law_sync_twice_sends_nothing(&self, items: Seq<(Seq<char>, u64, usize, Seq<char>)>)
        requires
            self.wf(),
            one_revision_per_path(items),
        ensures
            forall|k: int|
                0 <= k < items.len() ==> #[trigger] spec_plan(
                    record_pass(self.docs(), items),
                    items[k].0,
                    items[k].1,
                ) == SyncView::Current,
    {
        crate::lsp::docs::law_sync_twice_sends_nothing(self.docs(), items);
    }

    /// A change went out, or failed to: the server holds `revision` as
    /// `version` either way, since a failed send means it is going away.
    pub fn changed(&mut self, path: &str, revision: u64, version: i32, sent: bool)
        requires
            old(self).wf(),
            count_of(old(self).counts(), "textDocument/didChange"@) < usize::MAX,
        ensures
            final(self).wf(),
            count_of(final(self).counts(), "textDocument/didChange"@) == count_of(old(self).counts(), "textDocument/didChange"@) + if sent {
                1nat
            } else {
                0nat
            },
            final(self).docs() == (match index_of(old(self).docs(), path@) {
                Some(i) => old(self).docs().update(
                    i,
                    DocView { version, synced: Some(revision), ..old(self).docs()[i] },
                ),
                None => old(self).docs(),
            }),
            final(self).slots() == old(self).slots(),
    {
        self.docs.changed(path, revision, version);
        self.tally.record("textDocument/didChange", sent);
    }

    /// A document was announced to server `id`.
    pub fn opened(&mut self, path: String, id: usize, uri: String, revision: u64)
        requires
            old(self).wf(),
            doc_for(old(self).docs(), path@) is None,
            count_of(old(self).counts(), "textDocument/didOpen"@) < usize::MAX,
        ensures
            final(self).wf(),
            final(self).docs() == old(self).docs().push(
                DocView { path: path@, server: id, uri: uri@, version: 0, synced: Some(revision), pushed: Seq::empty() },
            ),
            count_of(final(self).counts(), "textDocument/didOpen"@) == count_of(old(self).counts(), "textDocument/didOpen"@) + 1,
            final(self).slots() == old(self).slots(),
    {
        self.docs.opened(path, id, uri, revision);
        self.tally.record("textDocument/didOpen", true);
    }

    /// Whom to tell that a document is closed: it is kept, with its version,
    /// and shows nothing until reopened.
    pub fn closed(&mut self, path: &str) -> (whom: Option<(usize, String)>)
        requires
            old(self).wf(),
        ensures
            final(self).wf(),
            final(self).slots() == old(self).slots(),
            match index_of(old(self).docs(), path@) {
                Some(i) => final(self).docs() == old(self).docs().update(
                    i,
                    DocView { synced: None, pushed: Seq::empty(), ..old(self).docs()[i] },
                ) && (whom matches Some((server, uri)) && server == old(self).docs()[i].server && uri@
                    == old(self).docs()[i].uri),
                None => final(self).docs() == old(self).docs() && whom is None,
            },
    {
        self.docs.closed(path)
    }

    /// The paths a server holds open that no tab in `open` holds.
    pub fn absent(&self, open: &Vec<String>) -> (gone: Vec<String>)
        ensures
            gone@.map_values(|s: String| s@) == crate::lsp::docs::spec_absent(
                self.docs(),
                open@.map_values(|s: String| s@),
            ),
    {
        self.docs.absent(open)
    }

    /// Count a notification, if it went out.
    pub fn record(&mut self, method: &str, sent: bool)
        requires
            old(self).wf(),
            count_of(old(self).counts(), method@) < usize::MAX,
        ensures
            final(self).wf(),
            count_of(final(self).counts(), method@) == count_of(old(self).counts(), method@) + if sent {
                1nat
            } else {
                0nat
            },
            forall|m: Seq<char>| m != method@ ==> count_of(final(self).counts(), m) == count_of(old(self).counts(), m),
            final(self).slots() == old(self).slots(),
            final(self).docs() == old(self).docs(),
    {
        self.tally.record(method, sent);
    }

    /// How many of a notification went out.
    pub fn notifications_of(&self, method: &str) -> (n: usize)
        requires
            self.wf(),
        ensures
            n == count_of(self.counts(), method@),
    {
        self.tally.notifications_of(method)
    }

    /// The version a server holds for a document, if it holds one.
    pub fn version(&self, path: &str) -> (v: Option<i32>)
        requires
            self.wf(),
        ensures
            v == (match doc_for(self.docs(), path@) {
                Some(d) => Some(d.version),
                None => None,
            }),
    {
        self.docs.version(path)
    }

    /// The server and uri a document was announced under, for a save or a
    /// notification about it.
    pub fn owner(&self, path: &str) -> (o: Option<(usize, String)>)
        requires
            self.wf(),
        ensures
            match o {
                Some((server, uri)) => (doc_for(self.docs(), path@) matches Some(d) && d.server == server
                    && d.uri == uri@),
                None => doc_for(self.docs(), path@) is None,
            },
    {
        self.docs.owner(path)
    }

    /// Replace what a server has pushed about a document; dropped for a
    /// document nothing holds.
    pub fn set_pushed(&mut self, path: &str, pushed: Vec<D>)
        requires
            old(self).wf(),
        ensures
            final(self).wf(),
            final(self).docs() == (match index_of(old(self).docs(), path@) {
                Some(i) => old(self).docs().update(i, DocView { pushed: pushed@, ..old(self).docs()[i] }),
                None => old(self).docs(),
            }),
            final(self).slots() == old(self).slots(),
    {
        self.docs.set_pushed(path, pushed);
    }

    /// What is known about a document, for the frame that draws it.
    pub fn pushed(&self, path: &str) -> (p: &[D])
        requires
            self.wf(),
        ensures
            p@ == (match doc_for(self.docs(), path@) {
                Some(d) => d.pushed,
                None => Seq::empty(),
            }),
    {
        self.docs.pushed(path)
    }

    /// Whether a question about a document can be asked, and if so of which
    /// server and under what uri. There has to be a document, its server has
    /// to be running, to have finished its handshake, and to offer the
    /// question.
    pub fn ask(&self, path: &str, initialized: bool, supports: bool) -> (r: Result<(usize, String), NoAnswer>)
        requires
            self.wf(),
        ensures
            match doc_for(self.docs(), path@) {
                None => r == Err::<(usize, String), NoAnswer>(NoAnswer::NoServer),
                Some(d) => {
                    let up = d.server < self.slots().len() && self.slots()[d.server as int].running;
                    match spec_may_ask(true, up, initialized, supports) {
                        Ok(()) => r matches Ok((s, u)) && s == d.server && u@ == d.uri,
                        Err(e) => r == Err::<(usize, String), NoAnswer>(e),
                    }
                },
            },
    {
        let (id, uri) = match self.docs.owner(path) {
            Some(o) => o,
            None => return Err(NoAnswer::NoServer),
        };
        let up = id < self.servers.len() && self.servers[id].is_running();
        proof {
            if id < self.servers@.len() {
                assert(self.slots()[id as int] == self.servers@[id as int]@);
            }
        }
        match may_ask(true, up, initialized, supports) {
            Ok(()) => Ok((id, uri)),
            Err(e) => Err(e),
        }
    }

    /// A question went out.
    pub fn asked(&mut self, p: Pending)
        requires
            old(self).wf(),
        ensures
            final(self).wf(),
            final(self).pending() == old(self).pending().push(p),
    {
        self.requests.asked(p);
    }

    /// Abandon every question of `kind` still unanswered; returns whom to
    /// tell.
    pub fn cancel(&mut self, kind: Ask) -> (stale: Vec<(usize, i64)>)
        requires
            old(self).wf(),
        ensures
            final(self).wf(),
            stale@ == of_kind(old(self).pending(), kind),
            final(self).pending() == other_kinds(old(self).pending(), kind),
    {
        self.requests.cancel(kind)
    }

    /// The question an answer belongs to, if anyone still waits for it.
    pub fn take_pending(&mut self, id: i64) -> (p: Option<Pending>)
        requires
            old(self).wf(),
        ensures
            final(self).wf(),
            match first_with(old(self).pending(), id) {
                Some(i) => p == Some(old(self).pending()[i]) && final(self).pending() == old(self).pending().remove(i),
                None => p is None && final(self).pending() == old(self).pending(),
            },
    {
        self.requests.take(id)
    }

    /// Record a `$/progress` notification from server `id`. Returns whether
    /// the bar changed.
    pub fn note_progress(&mut self, id: usize, params: &Json) -> (changed: bool)
        requires
            old(self).wf(),
        ensures
            final(self).wf(),
            (final(self).work(), changed) == spec_note(old(self).work(), id, *params),
    {
        self.progress.note(id, params)
    }

    /// What the servers are busy with, oldest first.
    pub fn progress(&self) -> (texts: Vec<&str>)
        ensures
            texts@.len() == self.work().len(),
            forall|i: int| 0 <= i < texts@.len() ==> texts@[i]@ == self.work()[i].2,
    {
        self.progress.texts()
    }
}

/// Whether one of the first `k` ids is `i`.
pub open spec fn listed(ids: Seq<usize>, k: int, i: int) -> bool {
    exists|j: int| 0 <= j < k && ids[j] == i
}

proof fn lemma_restartable_ids(slots: Seq<SlotView>)
    requires
        slots.len() <= usize::MAX,
    ensures
        forall|j: int| 0 <= j < spec_restartable(slots).len() ==> #[trigger] spec_restartable(slots)[j] < slots.len(),
        forall|a: int, b: int| 0 <= a < b < spec_restartable(slots).len() ==> spec_restartable(slots)[a] < spec_restartable(slots)[b],
    decreases slots.len(),
{
    if slots.len() > 0 {
        let init = slots.drop_last();
        lemma_restartable_ids(init);
        let r = spec_restartable(init);
        if slots.last().stopped || !slots.last().running {
            let out = r.push((slots.len() - 1) as usize);
            assert(out == spec_restartable(slots));
            assert forall|j: int| 0 <= j < out.len() implies #[trigger] out[j] < slots.len() by {
                if j < r.len() {
                    assert(out[j] == r[j]);
                }
            }
            assert forall|a: int, b: int| 0 <= a < b < out.len() implies out[a] < out[b] by {
                assert(out[a] == r[a]);
                if b < r.len() {
                    assert(out[b] == r[b]);
                }
            }
        }
    }
}

/// A server that exits leaves nothing of itself behind: no document is
/// still recorded as its, and no work of its stays on the status bar, while
/// every other server's documents and work are kept.
pub proof fn lemma_exit_leaves_nothing<D>(docs: Seq<DocView<D>>, work: Seq<(usize, Seq<char>, Seq<char>)>, id: usize)
    ensures
        forall|i: int| 0 <= i < without_server(docs, id).len() ==> (#[trigger] without_server(docs, id)[i]).server != id,
        forall|i: int| 0 <= i < docs.len() && docs[i].server != id ==> without_server(docs, id).contains(#[trigger] docs[i]),
        forall|i: int| 0 <= i < without(work, id, None).len() ==> (#[trigger] without(work, id, None)[i]).0 != id,
{
    lemma_exit_forgets_documents(docs, id);
    lemma_forget_keeps_the_rest(work, id, None);
    assert forall|i: int| 0 <= i < without(work, id, None).len() implies (#[trigger] without(work, id, None)[i]).0 != id by {
        assert(!belongs(without(work, id, None)[i], id, None));
    }
}

} // verus!

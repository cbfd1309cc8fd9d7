//! What each server has been told about each document, and what has been
//! sent.
//!
//! Syncing is a reconciliation, not a set of hooks: once per batch the tabs
//! are compared with what the servers were told and only the difference is
//! sent. So a burst of keys is one change, a document opened before the
//! handshake is announced on the pass after it, and a closed tab is noticed by
//! its absence.

use crate::text::same_text;
use vstd::prelude::*;

verus! {

/// What one server has been told about one document.
#[derive(Debug)]
pub struct Doc<D> {
    pub path: String,
    pub server: usize,
    pub uri: String,
    /// Only ever increases, and is never reset: a document closed and reopened
    /// keeps counting rather than handing a server a version it has seen.
    pub version: i32,
    /// The buffer revision the server was last sent; `None` while the
    /// document is known but closed.
    pub synced: Option<u64>,
    /// What the server has pushed about the document.
    pub pushed: Vec<D>,
}

/// A document record as its parts.
pub struct DocView<D> {
    pub path: Seq<char>,
    pub server: usize,
    pub uri: Seq<char>,
    pub version: i32,
    pub synced: Option<u64>,
    pub pushed: Seq<D>,
}

impl<D> View for Doc<D> {
    type V = DocView<D>;

    open spec fn view(&self) -> DocView<D> {
        DocView {
            path: self.path@,
            server: self.server,
            uri: self.uri@,
            version: self.version,
            synced: self.synced,
            pushed: self.pushed@,
        }
    }
}

/// Every document any server has been told about, one record per path.
#[derive(Debug)]
pub struct Docs<D> {
    docs: Vec<Doc<D>>,
}

/// No two records share a path.
pub open spec fn paths_distinct<D>(docs: Seq<DocView<D>>) -> bool {
    forall|i: int, j: int| 0 <= i < docs.len() && 0 <= j < docs.len() && i != j ==> docs[i].path != docs[j].path
}

/// Where the record for a path is.
pub open spec fn index_of<D>(docs: Seq<DocView<D>>, path: Seq<char>) -> Option<int> {
    if exists|i: int| 0 <= i < docs.len() && docs[i].path == path {
        Some(choose|i: int| 0 <= i < docs.len() && docs[i].path == path)
    } else {
        None
    }
}

/// The record for a path, if there is one.
pub open spec fn doc_for<D>(docs: Seq<DocView<D>>, path: Seq<char>) -> Option<DocView<D>> {
    match index_of(docs, path) {
        Some(i) => Some(docs[i]),
        None => None,
    }
}

/// What a sync pass does for one open document.
#[derive(Debug)]
pub enum SyncStep {
    /// The server has this revision; nothing is sent. The common case.
    Current,
    /// The server knows the document: send the whole text as this version.
    Change { uri: String, version: i32 },
    /// The server has never heard of it: announce it.
    Open,
}

/// The sync step for a document at `revision`, as its parts.
pub enum SyncView {
    Current,
    Change(Seq<char>, i32),
    Open,
}

impl View for SyncStep {
    type V = SyncView;

    open spec fn view(&self) -> SyncView {
        match self {
            SyncStep::Current => SyncView::Current,
            SyncStep::Change { uri, version } => SyncView::Change(uri@, *version),
            SyncStep::Open => SyncView::Open,
        }
    }
}

/// The step for a document: nothing when the server holds this revision, a
/// change with the next version when it holds another (or holds it closed),
/// an open when it holds nothing.
pub open spec fn spec_plan<D>(docs: Seq<DocView<D>>, path: Seq<char>, revision: u64) -> SyncView {
    match doc_for(docs, path) {
        Some(d) => if d.synced == Some(revision) {
            SyncView::Current
        } else {
            SyncView::Change(d.uri, (d.version + 1) as i32)
        },
        None => SyncView::Open,
    }
}

/// Paths of documents a server holds open that no tab holds any more, in
/// record order.
pub open spec fn spec_absent<D>(docs: Seq<DocView<D>>, open: Seq<Seq<char>>) -> Seq<Seq<char>>
    decreases docs.len(),
{
    if docs.len() == 0 {
        Seq::empty()
    } else {
        let rest = spec_absent(docs.drop_last(), open);
        let d = docs.last();
        if d.synced is Some && !open.contains(d.path) {
            rest.push(d.path)
        } else {
            rest
        }
    }
}

/// A document is closed on a server exactly when the server holds it open
/// and no tab holds it any more: every path the pass reports is such a
/// document, and every such document is reported.
pub proof fn law_absent_means_open_here_and_nowhere_else<D>(docs: Seq<DocView<D>>, open: Seq<Seq<char>>, path: Seq<char>)
    ensures
        spec_absent(docs, open).contains(path) <==> (exists|i: int|
            0 <= i < docs.len() && #[trigger] docs[i].path == path && docs[i].synced is Some)
            && !open.contains(path),
    decreases docs.len(),
{
    if docs.len() > 0 {
        let init = docs.drop_last();
        law_absent_means_open_here_and_nowhere_else(init, open, path);
        let rest = spec_absent(init, open);
        let d = docs.last();
        if (exists|i: int| 0 <= i < init.len() && #[trigger] init[i].path == path && init[i].synced is Some) {
            let i = choose|i: int| 0 <= i < init.len() && #[trigger] init[i].path == path && init[i].synced is Some;
            assert(docs[i] == init[i]);
        }
        if (exists|i: int| 0 <= i < docs.len() && #[trigger] docs[i].path == path && docs[i].synced is Some) {
            let i = choose|i: int| 0 <= i < docs.len() && #[trigger] docs[i].path == path && docs[i].synced is Some;
            if i < init.len() {
                assert(init[i] == docs[i]);
            }
        }
        if d.synced is Some && !open.contains(d.path) {
            assert(rest.push(d.path).contains(path) <==> (rest.contains(path) || d.path == path)) by {
                if rest.push(d.path).contains(path) {
                    let k = choose|k: int| 0 <= k < rest.push(d.path).len() && rest.push(d.path)[k] == path;
                    if k < rest.len() {
                        assert(rest[k] == path);
                    }
                }
                if rest.contains(path) {
                    let k = choose|k: int| 0 <= k < rest.len() && rest[k] == path;
                    assert(rest.push(d.path)[k] == path);
                }
                if d.path == path {
                    assert(rest.push(d.path)[rest.len() as int] == path);
                }
            }
            assert(docs[docs.len() - 1] == d);
        } else {
            assert(docs[docs.len() - 1] == d);
        }
    }
}

/// The records that do not belong to `server`, in order.
pub open spec fn without_server<D>(docs: Seq<DocView<D>>, server: usize) -> Seq<DocView<D>>
    decreases docs.len(),
{
    if docs.len() == 0 {
        Seq::empty()
    } else {
        let rest = without_server(docs.drop_last(), server);
        if docs.last().server == server {
            rest
        } else {
            rest.push(docs.last())
        }
    }
}

impl<D> View for Docs<D> {
    type V = Seq<DocView<D>>;

    closed spec fn view(&self) -> Seq<DocView<D>> {
        self.docs@.map_values(|d: Doc<D>| d@)
    }
}

proof fn lemma_index_of<D>(docs: Seq<DocView<D>>, path: Seq<char>, k: int)
    requires
        paths_distinct(docs),
        0 <= k < docs.len(),
        docs[k].path == path,
    ensures
        index_of(docs, path) == Some(k),
{
}

proof fn lemma_without_server_distinct<D>(docs: Seq<DocView<D>>, server: usize)
    requires
        paths_distinct(docs),
    ensures
        paths_distinct(without_server(docs, server)),
        forall|i: int|
            0 <= i < without_server(docs, server).len() ==> docs.contains(
                #[trigger] without_server(docs, server)[i],
            ),
    decreases docs.len(),
{
    if docs.len() > 0 {
        let init = docs.drop_last();
        assert(paths_distinct(init));
        lemma_without_server_distinct(init, server);
        let rest = without_server(init, server);
        assert forall|i: int| 0 <= i < rest.len() implies docs.contains(rest[i]) by {
            let j = choose|j: int| 0 <= j < init.len() && init[j] == rest[i];
            assert(docs[j] == rest[i]);
        }
        if docs.last().server != server {
            let out = rest.push(docs.last());
            assert forall|i: int, j: int|
                0 <= i < out.len() && 0 <= j < out.len() && i != j implies out[i].path
                != out[j].path by {
                if i < rest.len() && j < rest.len() {
                } else if i < rest.len() {
                    let a = choose|a: int| 0 <= a < init.len() && init[a] == rest[i];
                    assert(docs[a] == out[i]);
                    assert(docs[docs.len() - 1] == out[j]);
                } else if j < rest.len() {
                    let a = choose|a: int| 0 <= a < init.len() && init[a] == rest[j];
                    assert(docs[a] == out[j]);
                    assert(docs[docs.len() - 1] == out[i]);
                }
            }
            assert forall|i: int| 0 <= i < out.len() implies docs.contains(out[i]) by {
                if i < rest.len() {
                } else {
                    assert(docs[docs.len() - 1] == out[i]);
                }
            }
        }
    }
}

impl<D> Docs<D> {
    /// Records are well formed: one per path.
    pub open spec fn wf(&self) -> bool {
        paths_distinct(self@)
    }

    pub fn new() -> (d: Docs<D>)
        ensures
            d@ == Seq::<DocView<D>>::empty(),
            d.wf(),
    {
        let d = Docs { docs: Vec::new() };
        assert(d@ =~= Seq::<DocView<D>>::empty());
        d
    }

    /// Where the record for `path` is.
    fn find(&self, path: &str) -> (i: Option<usize>)
        requires
            self.wf(),
        ensures
            match i {
                Some(k) => index_of(self@, path@) == Some(k as int),
                None => index_of(self@, path@) is None,
            },
    {
        let mut i: usize = 0;
        while i < self.docs.len()
            invariant
                i <= self.docs@.len(),
                self.wf(),
                self@ == self.docs@.map_values(|d: Doc<D>| d@),
                forall|j: int| 0 <= j < i ==> self@[j].path != path@,
            decreases self.docs@.len() - i,
        {
            if same_text(self.docs[i].path.as_str(), path) {
                proof {
                    lemma_index_of(self@, path@, i as int);
                }
                return Some(i);
            }
            i = i + 1;
        }
        None
    }

    /// The version a server holds for a document, if it holds one.
    pub fn version(&self, path: &str) -> (v: Option<i32>)
        requires
            self.wf(),
        ensures
            v == (match doc_for(self@, path@) {
                Some(d) => Some(d.version),
                None => None,
            }),
    {
        match self.find(path) {
            Some(i) => Some(self.docs[i].version),
            None => None,
        }
    }

    /// The server and uri a document was announced under.
    pub fn owner(&self, path: &str) -> (o: Option<(usize, String)>)
        requires
            self.wf(),
        ensures
            match o {
                Some((server, uri)) => (doc_for(self@, path@) matches Some(d) && d.server == server
                    && d.uri == uri@),
                None => doc_for(self@, path@) is None,
            },
    {
        match self.find(path) {
            Some(i) => Some((self.docs[i].server, self.docs[i].uri.clone())),
            None => None,
        }
    }

    /// What a sync pass does for the document at `path`, now at `revision`.
    pub fn plan(&self, path: &str, revision: u64) -> (step: SyncStep)
        requires
            self.wf(),
            doc_for(self@, path@) matches Some(d) ==> d.version < i32::MAX,
        ensures
            step@ == spec_plan(self@, path@, revision),
    {
        match self.find(path) {
            Some(i) => {
                let d = &self.docs[i];
                if d.synced == Some(revision) {
                    SyncStep::Current
                } else {
                    SyncStep::Change { uri: d.uri.clone(), version: d.version + 1 }
                }
            },
            None => SyncStep::Open,
        }
    }

    /// A change was sent: the server now holds `revision` as `version`.
    pub fn changed(&mut self, path: &str, revision: u64, version: i32)
        requires
            old(self).wf(),
        ensures
            final(self).wf(),
            final(self)@ == (match index_of(old(self)@, path@) {
                Some(i) => old(self)@.update(
                    i,
                    DocView { version, synced: Some(revision), ..old(self)@[i] },
                ),
                None => old(self)@,
            }),
    {
        match self.find(path) {
            Some(i) => {
                let ghost before = self@;
                self.docs[i].version = version;
                self.docs[i].synced = Some(revision);
                proof {
                    assert(self@ =~= before.update(
                        i as int,
                        DocView { version, synced: Some(revision), ..before[i as int] },
                    ));
                }
            },
            None => {},
        }
    }

    /// A document was announced to `server` as `uri`, at version 0.
    pub fn opened(&mut self, path: String, server: usize, uri: String, revision: u64)
        requires
            old(self).wf(),
            doc_for(old(self)@, path@) is None,
        ensures
            final(self).wf(),
            final(self)@ == old(self)@.push(
                DocView {
                    path: path@,
                    server,
                    uri: uri@,
                    version: 0,
                    synced: Some(revision),
                    pushed: Seq::empty(),
                },
            ),
    {
        let ghost before = self@;
        let doc = Doc { path, server, uri, version: 0, synced: Some(revision), pushed: Vec::new() };
        self.docs.push(doc);
        proof {
            assert(self@ =~= before.push(doc@));
            assert(doc@.pushed =~= Seq::<D>::empty());
        }
    }

    /// The paths a server holds open that no tab in `open` holds.
    pub fn absent(&self, open: &Vec<String>) -> (gone: Vec<String>)
        ensures
            gone@.map_values(|s: String| s@) == spec_absent(
                self@,
                open@.map_values(|s: String| s@),
            ),
    {
        let ghost opens = open@.map_values(|s: String| s@);
        let mut gone: Vec<String> = Vec::new();
        let mut i: usize = 0;
        while i < self.docs.len()
            invariant
                i <= self.docs@.len(),
                self@ == self.docs@.map_values(|d: Doc<D>| d@),
                opens == open@.map_values(|s: String| s@),
                gone@.map_values(|s: String| s@) == spec_absent(self@.take(i as int), opens),
            decreases self.docs@.len() - i,
        {
            assert(self@.take(i as int + 1).drop_last() =~= self@.take(i as int));
            let d = &self.docs[i];
            let mut held = false;
            let mut k: usize = 0;
            while k < open.len()
                invariant
                    k <= open@.len(),
                    opens == open@.map_values(|s: String| s@),
                    held == (exists|j: int| 0 <= j < k && opens[j] == d.path@),
                decreases open@.len() - k,
            {
                assert(opens[k as int] == open@[k as int]@);
                if same_text(open[k].as_str(), d.path.as_str()) {
                    held = true;
                }
                k = k + 1;
            }
            proof {
                if held {
                    let j = choose|j: int| 0 <= j < open@.len() && opens[j] == d.path@;
                    assert(opens.contains(d.path@));
                } else {
                    assert(!opens.contains(d.path@));
                }
            }
            if d.synced.is_some() && !held {
                let ghost before = gone@.map_values(|s: String| s@);
                gone.push(d.path.clone());
                assert(gone@.map_values(|s: String| s@) =~= before.push(d.path@));
            }
            i = i + 1;
        }
        assert(self@.take(self.docs@.len() as int) =~= self@);
        gone
    }

    /// A document was closed: it is kept, with its version, but nothing is
    /// open and nothing is shown for it any more. Returns whom to tell.
    pub fn closed(&mut self, path: &str) -> (whom: Option<(usize, String)>)
        requires
            old(self).wf(),
        ensures
            final(self).wf(),
            match index_of(old(self)@, path@) {
                Some(i) => final(self)@ == old(self)@.update(
                    i,
                    DocView { synced: None, pushed: Seq::empty(), ..old(self)@[i] },
                ) && (whom matches Some((server, uri)) && server == old(self)@[i].server && uri@
                    == old(self)@[i].uri),
                None => final(self)@ == old(self)@ && whom is None,
            },
    {
        match self.find(path) {
            Some(i) => {
                let ghost before = self@;
                self.docs[i].synced = None;
                self.docs[i].pushed = Vec::new();
                proof {
                    assert(self@ =~= before.update(
                        i as int,
                        DocView { synced: None, pushed: Seq::empty(), ..before[i as int] },
                    ));
                }
                Some((self.docs[i].server, self.docs[i].uri.clone()))
            },
            None => None,
        }
    }

    /// Forget every document of a server that has exited: nobody is left to
    /// tell, and forgetting them is what lets a restart announce them again.
    pub fn forget_server(&mut self, server: usize)
        requires
            old(self).wf(),
        ensures
            final(self).wf(),
            final(self)@ == without_server(old(self)@, server),
    {
        let ghost start = self@;
        let mut old_docs: Vec<Doc<D>> = Vec::new();
        std::mem::swap(&mut old_docs, &mut self.docs);
        assert(start == old_docs@.map_values(|d: Doc<D>| d@));
        assert(start.skip(0) =~= start);
        assert(self@ =~= without_server(start.take(0), server));
        while old_docs.len() > 0
            invariant
                old_docs@.len() <= start.len(),
                old_docs@.map_values(|d: Doc<D>| d@) == start.skip(start.len() - old_docs@.len()),
                self@ == without_server(start.take(start.len() - old_docs@.len()), server),
            decreases old_docs@.len(),
        {
            let ghost k = start.len() - old_docs@.len();
            let d = old_docs.remove(0);
            proof {
                assert(start.skip(k)[0] == d@);
                assert(start.skip(k).drop_first() =~= start.skip(k + 1));
                assert(old_docs@.map_values(|d: Doc<D>| d@) =~= start.skip(k + 1));
                assert(start.take(k + 1).drop_last() =~= start.take(k));
                assert(start.take(k + 1).last() == start[k]);
                assert(start[k] == d@);
            }
            if d.server != server {
                let ghost before = self@;
                self.docs.push(d);
                assert(self@ =~= before.push(start[k]));
            }
        }
        assert(start.take(start.len() as int) =~= start);
        proof {
            lemma_without_server_distinct(start, server);
        }
    }

    /// Replace what a server has pushed about a document. A publish naming a
    /// document nothing has is dropped: it crossed a close on the wire.
    pub fn set_pushed(&mut self, path: &str, pushed: Vec<D>)
        requires
            old(self).wf(),
        ensures
            final(self).wf(),
            final(self)@ == (match index_of(old(self)@, path@) {
                Some(i) => old(self)@.update(i, DocView { pushed: pushed@, ..old(self)@[i] }),
                None => old(self)@,
            }),
    {
        match self.find(path) {
            Some(i) => {
                let ghost before = self@;
                self.docs[i].pushed = pushed;
                proof {
                    assert(self@ =~= before.update(
                        i as int,
                        DocView { pushed: pushed@, ..before[i as int] },
                    ));
                }
            },
            None => {},
        }
    }

    /// What a server has pushed about a document, or nothing.
    pub fn pushed(&self, path: &str) -> (p: &[D])
        requires
            self.wf(),
        ensures
            p@ == (match doc_for(self@, path@) {
                Some(d) => d.pushed,
                None => Seq::empty(),
            }),
    {
        match self.find(path) {
            Some(i) => self.docs[i].pushed.as_slice(),
            None => &[],
        }
    }
}

/// A sync pass is a reconciliation: once a change or an open of `revision`
/// has been recorded, planning the same document at the same revision sends
/// nothing.
pub proof fn lemma_sync_settles<D>(docs: Seq<DocView<D>>, path: Seq<char>, revision: u64, version: i32)
    requires
        paths_distinct(docs),
    ensures
        (match index_of(docs, path) {
            Some(i) => spec_plan(
                docs.update(i, DocView { version, synced: Some(revision), ..docs[i] }),
                path,
                revision,
            ) == SyncView::Current,
            None => true,
        }),
        doc_for(docs, path) is None ==> spec_plan(
            docs.push(
                DocView {
                    path,
                    server: 0,
                    uri: Seq::empty(),
                    version: 0,
                    synced: Some(revision),
                    pushed: Seq::empty(),
                },
            ),
            path,
            revision,
        ) == SyncView::Current,
{
    match index_of(docs, path) {
        Some(i) => {
            let after = docs.update(i, DocView { version, synced: Some(revision), ..docs[i] });
            assert(after[i].path == path);
            lemma_index_of(after, path, i);
        },
        None => {},
    }
    if doc_for(docs, path) is None {
        let n = DocView {
            path,
            server: 0usize,
            uri: Seq::empty(),
            version: 0i32,
            synced: Some(revision),
            pushed: Seq::<D>::empty(),
        };
        let after = docs.push(n);
        assert(after[docs.len() as int].path == path);
        assert(paths_distinct(after)) by {
            assert forall|i: int, j: int|
                0 <= i < after.len() && 0 <= j < after.len() && i != j implies after[i].path
                != after[j].path by {
                if i < docs.len() && j < docs.len() {
                    assert(after[i] == docs[i] && after[j] == docs[j]);
                } else if i < docs.len() {
                    assert(after[i] == docs[i]);
                } else {
                    assert(after[j] == docs[j]);
                }
            }
        }
        lemma_index_of(after, path, docs.len() as int);
    }
}

/// What recording one document of a pass does to the records, as
/// `Docs::changed` and `Docs::opened` do it for the step the pass planned:
/// nothing for a current one; the revision and the next version for a known
/// one; a fresh record at version 0 for `server` and `uri` for a new one.
pub open spec fn record_sent<D>(
    docs: Seq<DocView<D>>,
    path: Seq<char>,
    revision: u64,
    server: usize,
    uri: Seq<char>,
) -> Seq<DocView<D>> {
    match index_of(docs, path) {
        Some(i) => if docs[i].synced == Some(revision) {
            docs
        } else {
            docs.update(
                i,
                DocView { version: (docs[i].version + 1) as i32, synced: Some(revision), ..docs[i] },
            )
        },
        None => docs.push(
            DocView { path, server, uri, version: 0, synced: Some(revision), pushed: Seq::empty() },
        ),
    }
}

/// A whole pass recorded, document by document: each item is a path, the
/// revision its buffer is at, and the server and URI it is announced with
/// if it is new.
pub open spec fn record_pass<D>(
    docs: Seq<DocView<D>>,
    items: Seq<(Seq<char>, u64, usize, Seq<char>)>,
) -> Seq<DocView<D>>
    decreases items.len(),
{
    if items.len() == 0 {
        docs
    } else {
        let (path, revision, server, uri) = items.last();
        record_sent(record_pass(docs, items.drop_last()), path, revision, server, uri)
    }
}

/// A path that occurs more than once in a pass is at one revision
/// throughout: the pass is over one state of the buffers.
pub open spec fn one_revision_per_path(items: Seq<(Seq<char>, u64, usize, Seq<char>)>) -> bool {
    forall|i: int, j: int|
        0 <= i < items.len() && 0 <= j < items.len() && #[trigger] items[i].0 == #[trigger] items[j].0
            ==> items[i].1 == items[j].1
}

proof fn lemma_record_sent<D>(docs: Seq<DocView<D>>, path: Seq<char>, revision: u64, server: usize, uri: Seq<char>)
    requires
        paths_distinct(docs),
    ensures
        paths_distinct(record_sent(docs, path, revision, server, uri)),
        spec_plan(record_sent(docs, path, revision, server, uri), path, revision) == SyncView::Current,
        forall|q: Seq<char>| q != path ==> #[trigger] doc_for(record_sent(docs, path, revision, server, uri), q) == doc_for(docs, q),
{
    let after = record_sent(docs, path, revision, server, uri);
    match index_of(docs, path) {
        Some(i) => {
            assert(after[i].path == path);
            assert(paths_distinct(after)) by {
                assert forall|a: int, b: int|
                    0 <= a < after.len() && 0 <= b < after.len() && a != b implies after[a].path
                    != after[b].path by {
                    assert(after[a].path == docs[a].path);
                    assert(after[b].path == docs[b].path);
                }
            }
            lemma_index_of(after, path, i);
            assert forall|q: Seq<char>| q != path implies #[trigger] doc_for(after, q) == doc_for(docs, q) by {
                match index_of(docs, q) {
                    Some(j) => {
                        assert(docs[j].path == q);
                        assert(j != i);
                        assert(after[j] == docs[j]);
                        lemma_index_of(after, q, j);
                    },
                    None => {
                        if exists|k: int| 0 <= k < after.len() && after[k].path == q {
                            let k = choose|k: int| 0 <= k < after.len() && after[k].path == q;
                            assert(after[k].path == docs[k].path);
                        }
                    },
                }
            }
        },
        None => {
            assert(after[docs.len() as int].path == path);
            assert(paths_distinct(after)) by {
                assert forall|a: int, b: int|
                    0 <= a < after.len() && 0 <= b < after.len() && a != b implies after[a].path
                    != after[b].path by {
                    if a < docs.len() && b < docs.len() {
                        assert(after[a] == docs[a] && after[b] == docs[b]);
                    } else if a < docs.len() {
                        assert(after[a] == docs[a]);
                    } else {
                        assert(after[b] == docs[b]);
                    }
                }
            }
            lemma_index_of(after, path, docs.len() as int);
            assert forall|q: Seq<char>| q != path implies #[trigger] doc_for(after, q) == doc_for(docs, q) by {
                match index_of(docs, q) {
                    Some(j) => {
                        assert(docs[j].path == q);
                        assert(after[j] == docs[j]);
                        lemma_index_of(after, q, j);
                    },
                    None => {
                        if exists|k: int| 0 <= k < after.len() && after[k].path == q {
                            let k = choose|k: int| 0 <= k < after.len() && after[k].path == q;
                            if k < docs.len() {
                                assert(after[k] == docs[k]);
                            }
                        }
                    },
                }
            }
        },
    }
}

/// A sync pass is idempotent: once every document of a pass has been
/// recorded as sent, planning the same documents at the same revisions
/// again sends nothing, and the records still hold one per path. A path may
/// come more than once, at the one revision its buffer is at.
pub proof fn law_sync_twice_sends_nothing<D>(
    docs: Seq<DocView<D>>,
    items: Seq<(Seq<char>, u64, usize, Seq<char>)>,
)
    requires
        paths_distinct(docs),
        one_revision_per_path(items),
    ensures
        paths_distinct(record_pass(docs, items)),
        forall|k: int|
            0 <= k < items.len() ==> #[trigger] spec_plan(record_pass(docs, items), items[k].0, items[k].1)
                == SyncView::Current,
    decreases items.len(),
{
    if items.len() > 0 {
        let init = items.drop_last();
        assert(one_revision_per_path(init)) by {
            assert forall|i: int, j: int|
                0 <= i < init.len() && 0 <= j < init.len() && #[trigger] init[i].0 == #[trigger] init[j].0
                    implies init[i].1 == init[j].1 by {
                assert(init[i] == items[i] && init[j] == items[j]);
            }
        }
        law_sync_twice_sends_nothing(docs, init);
        let before = record_pass(docs, init);
        let (path, revision, server, uri) = items.last();
        lemma_record_sent(before, path, revision, server, uri);
        let after = record_pass(docs, items);
        assert(after == record_sent(before, path, revision, server, uri));
        assert forall|k: int| 0 <= k < items.len() implies #[trigger] spec_plan(after, items[k].0, items[k].1)
            == SyncView::Current by {
            let last = items.len() - 1;
            if items[k].0 == path {
                assert(items[last].0 == path);
                assert(items[k].1 == items[last].1);
            } else {
                assert(init[k] == items[k]);
                assert(spec_plan(before, init[k].0, init[k].1) == SyncView::Current);
                assert(doc_for(after, items[k].0) == doc_for(before, items[k].0));
            }
        }
    }
}

/// Versions never go back: a planned change always carries a version past
/// the one the server holds, and a document that was closed is still known,
/// so opening it again continues its count rather than starting over.
pub proof fn lemma_versions_only_grow<D>(docs: Seq<DocView<D>>, path: Seq<char>, revision: u64)
    requires
        paths_distinct(docs),
        doc_for(docs, path) matches Some(d) ==> d.version < i32::MAX,
    ensures
        spec_plan(docs, path, revision) matches SyncView::Change(_, v) ==> doc_for(docs, path)
            matches Some(d) && v == d.version + 1,
        (match index_of(docs, path) {
            Some(i) => {
                let closed = docs.update(i, DocView { synced: None, pushed: Seq::empty(), ..docs[i] });
                spec_plan(closed, path, revision) == SyncView::Change(docs[i].uri, (docs[i].version + 1) as i32)
            },
            None => true,
        }),
{
    match index_of(docs, path) {
        Some(i) => {
            let closed = docs.update(i, DocView { synced: None, pushed: Seq::empty(), ..docs[i] });
            assert(closed[i].path == path);
            lemma_index_of(closed, path, i);
        },
        None => {},
    }
}

/// A server that exits takes its documents with it: no record of it is
/// left, so the next pass finds those documents unknown and announces them
/// to whatever takes its place; every other record is kept.
pub proof fn lemma_exit_forgets_documents<D>(docs: Seq<DocView<D>>, server: usize)
    ensures
        forall|i: int| 0 <= i < without_server(docs, server).len() ==> (#[trigger] without_server(docs, server)[i]).server != server,
        forall|i: int| 0 <= i < docs.len() && docs[i].server != server ==> without_server(docs, server).contains(#[trigger] docs[i]),
    decreases docs.len(),
{
    if docs.len() > 0 {
        let init = docs.drop_last();
        lemma_exit_forgets_documents(init, server);
        let rest = without_server(init, server);
        assert forall|i: int| 0 <= i < docs.len() && docs[i].server != server implies without_server(docs, server).contains(#[trigger] docs[i]) by {
            if i < docs.len() - 1 {
                assert(init[i] == docs[i]);
                assert(rest.contains(docs[i]));
                let k = choose|k: int| 0 <= k < rest.len() && rest[k] == docs[i];
                if docs.last().server != server {
                    assert(rest.push(docs.last())[k] == docs[i]);
                }
            } else {
                assert(rest.push(docs.last())[rest.len() as int] == docs[i]);
            }
        }
    }
}

} // verus!

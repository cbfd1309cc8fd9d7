//! Questions asked of servers and not yet answered, and a count of what has
//! been sent.
//!
//! The editor remembers what it asked, which is why an answer can arrive as
//! raw JSON: the pending entry says what it was for.

use crate::lsp::answers::Ask;
use crate::text::same_text;
use vstd::prelude::*;

verus! {

/// A request waiting for its answer.
#[derive(Debug, Clone, Copy, PartialEq, Eq, Structural)]
pub struct Pending {
    pub id: i64,
    pub server: usize,
    pub kind: Ask,
    /// Where the cursor was when the question was asked: an answer that
    /// arrives after the cursor moved describes somewhere the user is no
    /// longer asking about.
    pub line: usize,
    pub column: usize,
}

/// Every request in flight, oldest first.
#[derive(Debug)]
pub struct Requests {
    pending: Vec<Pending>,
}

impl View for Requests {
    type V = Seq<Pending>;

    closed spec fn view(&self) -> Seq<Pending> {
        self.pending@
    }
}

/// The requests not of `kind`, in order.
pub open spec fn other_kinds(p: Seq<Pending>, kind: Ask) -> Seq<Pending>
    decreases p.len(),
{
    if p.len() == 0 {
        p
    } else {
        let rest = other_kinds(p.drop_last(), kind);
        if p.last().kind == kind {
            rest
        } else {
            rest.push(p.last())
        }
    }
}

/// The (server, id) of the requests of `kind`, in order.
pub open spec fn of_kind(p: Seq<Pending>, kind: Ask) -> Seq<(usize, i64)>
    decreases p.len(),
{
    if p.len() == 0 {
        Seq::empty()
    } else {
        let rest = of_kind(p.drop_last(), kind);
        if p.last().kind == kind {
            rest.push((p.last().server, p.last().id))
        } else {
            rest
        }
    }
}

/// Where the first request with `id` is.
pub open spec fn first_with(p: Seq<Pending>, id: i64) -> Option<int> {
    if exists|i: int| 0 <= i < p.len() && p[i].id == id {
        Some(
            choose|i: int|
                0 <= i < p.len() && p[i].id == id && forall|j: int| 0 <= j < i ==> p[j].id != id,
        )
    } else {
        None
    }
}

impl Requests {
    pub fn new() -> (r: Requests)
        ensures
            r@ == Seq::<Pending>::empty(),
    {
        Requests { pending: Vec::new() }
    }

    pub fn len(&self) -> (n: usize)
        ensures
            n == self@.len(),
    {
        self.pending.len()
    }

    /// A request went out.
    pub fn asked(&mut self, p: Pending)
        ensures
            final(self)@ == old(self)@.push(p),
    {
        self.pending.push(p);
    }

    /// Record where the cursor was for the request just sent.
    pub fn stamp_last(&mut self, line: usize, column: usize)
        ensures
            final(self)@ == (if old(self)@.len() == 0 {
                old(self)@
            } else {
                old(self)@.update(old(self)@.len() - 1, Pending { line, column, ..old(self)@.last() })
            }),
    {
        let n = self.pending.len();
        if n > 0 {
            let mut last = self.pending[n - 1];
            last.line = line;
            last.column = column;
            self.pending.set(n - 1, last);
        }
    }

    /// Abandon every question of `kind` still unanswered, returning the
    /// server and id of each so it can be cancelled: most are superseded
    /// before they are answered, and a server still working on one nobody
    /// wants is burning a core for nothing.
    pub fn cancel(&mut self, kind: Ask) -> (stale: Vec<(usize, i64)>)
        ensures
            stale@ == of_kind(old(self)@, kind),
            final(self)@ == other_kinds(old(self)@, kind),
    {
        let ghost start = self@;
        let mut stale: Vec<(usize, i64)> = Vec::new();
        let mut kept: Vec<Pending> = Vec::new();
        let mut i: usize = 0;
        while i < self.pending.len()
            invariant
                i <= self.pending@.len(),
                start == self.pending@,
                stale@ == of_kind(start.take(i as int), kind),
                kept@ == other_kinds(start.take(i as int), kind),
            decreases self.pending@.len() - i,
        {
            assert(start.take(i as int + 1).drop_last() =~= start.take(i as int));
            let p = self.pending[i];
            if p.kind == kind {
                stale.push((p.server, p.id));
            } else {
                kept.push(p);
            }
            i = i + 1;
        }
        assert(start.take(start.len() as int) =~= start);
        self.pending = kept;
        stale
    }

    /// Take the question an answer belongs to, if anyone is still waiting.
    pub fn take(&mut self, id: i64) -> (p: Option<Pending>)
        ensures
            match first_with(old(self)@, id) {
                Some(i) => p == Some(old(self)@[i]) && final(self)@ == old(self)@.remove(i),
                None => p is None && final(self)@ == old(self)@,
            },
    {
        let mut i: usize = 0;
        while i < self.pending.len()
            invariant
                i <= self.pending@.len(),
                self@ == old(self)@,
                forall|j: int| 0 <= j < i ==> self.pending@[j].id != id,
            decreases self.pending@.len() - i,
        {
            if self.pending[i].id == id {
                proof {
                    let k = i as int;
                    assert(0 <= k < self@.len() && self@[k].id == id && forall|j: int|
                        0 <= j < k ==> self@[j].id != id);
                    let c = choose|c: int|
                        0 <= c < self@.len() && self@[c].id == id && forall|j: int|
                            0 <= j < c ==> self@[j].id != id;
                    if c < k {
                        assert(self@[c].id != id);
                    }
                    if k < c {
                        assert(self@[k].id != id);
                    }
                }
                let ghost before = self@;
                let p = self.pending.remove(i);
                assert(self@ =~= before.remove(i as int));
                return Some(p);
            }
            i = i + 1;
        }
        None
    }
}

/// A law of cancelling: what is left has no question of the cancelled kind,
/// and every question of another kind is still there, in its order.
pub proof fn lemma_cancel_clears_kind(p: Seq<Pending>, kind: Ask)
    ensures
        forall|i: int| 0 <= i < other_kinds(p, kind).len() ==> (#[trigger] other_kinds(p, kind)[i]).kind != kind,
        other_kinds(p, kind).len() + of_kind(p, kind).len() == p.len(),
    decreases p.len(),
{
    if p.len() > 0 {
        lemma_cancel_clears_kind(p.drop_last(), kind);
    }
}

/// How many of each notification have gone out, by method name.
#[derive(Debug)]
pub struct Tally {
    counts: Vec<(String, usize)>,
}

/// The count recorded under a method name.
pub open spec fn count_of(counts: Seq<(Seq<char>, nat)>, method: Seq<char>) -> nat
    decreases counts.len(),
{
    if counts.len() == 0 {
        0
    } else if counts.last().0 == method {
        counts.last().1
    } else {
        count_of(counts.drop_last(), method)
    }
}

/// No two entries share a name.
pub open spec fn names_distinct(counts: Seq<(Seq<char>, nat)>) -> bool {
    forall|i: int, j: int| 0 <= i < counts.len() && 0 <= j < counts.len() && i != j ==> counts[i].0 != counts[j].0
}

impl View for Tally {
    type V = Seq<(Seq<char>, nat)>;

    closed spec fn view(&self) -> Seq<(Seq<char>, nat)> {
        self.counts@.map_values(|c: (String, usize)| (c.0@, c.1 as nat))
    }
}

proof fn lemma_count_at(counts: Seq<(Seq<char>, nat)>, k: int)
    requires
        names_distinct(counts),
        0 <= k < counts.len(),
    ensures
        count_of(counts, counts[k].0) == counts[k].1,
    decreases counts.len(),
{
    if k < counts.len() - 1 {
        assert(counts.last().0 != counts[k].0);
        lemma_count_at(counts.drop_last(), k);
    }
}

proof fn lemma_count_absent(counts: Seq<(Seq<char>, nat)>, method: Seq<char>)
    requires
        forall|i: int| 0 <= i < counts.len() ==> counts[i].0 != method,
    ensures
        count_of(counts, method) == 0,
    decreases counts.len(),
{
    if counts.len() > 0 {
        lemma_count_absent(counts.drop_last(), method);
    }
}

proof fn lemma_count_update(counts: Seq<(Seq<char>, nat)>, k: int, n: nat, other: Seq<char>)
    requires
        names_distinct(counts),
        0 <= k < counts.len(),
        other != counts[k].0,
    ensures
        count_of(counts.update(k, (counts[k].0, n)), other) == count_of(counts, other),
    decreases counts.len(),
{
    if k < counts.len() - 1 {
        assert(counts.update(k, (counts[k].0, n)).drop_last() =~= counts.drop_last().update(
            k,
            (counts[k].0, n),
        ));
        lemma_count_update(counts.drop_last(), k, n, other);
    } else {
        assert(counts.update(k, (counts[k].0, n)).drop_last() =~= counts.drop_last());
    }
}

impl Tally {
    pub open spec fn wf(&self) -> bool {
        names_distinct(self@)
    }

    pub fn new() -> (t: Tally)
        ensures
            t.wf(),
            forall|m: Seq<char>| count_of(t@, m) == 0,
    {
        let t = Tally { counts: Vec::new() };
        assert(t@ =~= Seq::<(Seq<char>, nat)>::empty());
        t
    }

    /// How many of a notification have been sent.
    pub fn notifications_of(&self, method: &str) -> (n: usize)
        requires
            self.wf(),
        ensures
            n == count_of(self@, method@),
    {
        let mut i: usize = 0;
        while i < self.counts.len()
            invariant
                i <= self.counts@.len(),
                self.wf(),
                forall|j: int| 0 <= j < i ==> self@[j].0 != method@,
            decreases self.counts@.len() - i,
        {
            if same_text(self.counts[i].0.as_str(), method) {
                proof {
                    lemma_count_at(self@, i as int);
                }
                return self.counts[i].1;
            }
            i = i + 1;
        }
        proof {
            lemma_count_absent(self@, method@);
        }
        0
    }

    /// Count one `method` if it was sent.
    pub fn record(&mut self, method: &str, sent: bool)
        requires
            old(self).wf(),
            count_of(old(self)@, method@) < usize::MAX,
        ensures
            final(self).wf(),
            count_of(final(self)@, method@) == count_of(old(self)@, method@) + if sent {
                1nat
            } else {
                0nat
            },
            forall|m: Seq<char>| m != method@ ==> count_of(final(self)@, m) == count_of(old(self)@, m),
    {
        if !sent {
            return;
        }
        let ghost before = self@;
        let mut i: usize = 0;
        while i < self.counts.len()
            invariant
                i <= self.counts@.len(),
                self.wf(),
                self@ == before,
                before == old(self)@,
                sent,
                count_of(before, method@) < usize::MAX,
                forall|j: int| 0 <= j < i ==> self@[j].0 != method@,
            decreases self.counts@.len() - i,
        {
            if same_text(self.counts[i].0.as_str(), method) {
                proof {
                    lemma_count_at(self@, i as int);
                }
                let n = self.counts[i].1 + 1;
                let name = self.counts[i].0.clone();
                self.counts.set(i, (name, n));
                proof {
                    assert(self@ =~= before.update(i as int, (before[i as int].0, n as nat)));
                    assert(names_distinct(self@)) by {
                        assert forall|a: int| 0 <= a < self@.len() implies self@[a].0 == before[a].0 by {}
                    }
                    assert forall|m: Seq<char>| m != method@ implies count_of(self@, m) == count_of(
                        before,
                        m,
                    ) by {
                        lemma_count_update(before, i as int, n as nat, m);
                    }
                    lemma_count_at(self@, i as int);
                }
                return;
            }
            i = i + 1;
        }
        proof {
            lemma_count_absent(self@, method@);
        }
        self.counts.push((method.to_owned(), 1));
        proof {
            assert(self@ =~= before.push((method@, 1nat)));
            assert(self@.drop_last() =~= before);
        }
    }
}

} // verus!

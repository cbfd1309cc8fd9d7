//! Work a language server has said it is doing.
//!
//! Several at once, not one: a server may index, fetch and build at the same
//! time, and a single slot would make the bar flicker between them. Kept in
//! the order they began, because the bar shows the first, and the first is
//! the work the user has been waiting on longest.

use crate::lsp::json::{as_str, as_u64, field, get, text_of, unsigned_of, Json};
use crate::text::{decimal, first_word, first_word_of, opt_text, push_decimal, same_text};
use vstd::prelude::*;

verus! {

/// One piece of work: the server, its token, and what the bar says of it.
#[derive(Debug)]
pub struct Work {
    pub server: usize,
    pub token: String,
    pub text: String,
}

/// Work as its parts.
pub open spec fn work_view(w: Work) -> (usize, Seq<char>, Seq<char>) {
    (w.server, w.token@, w.text@)
}

/// Every piece of work a server has begun and not ended, in the order begun.
#[derive(Debug)]
pub struct Progress {
    work: Vec<Work>,
}

/// Where the work for a token sits, if it has begun.
pub open spec fn slot_of(work: Seq<(usize, Seq<char>, Seq<char>)>, server: usize, token: Seq<char>) -> Option<int>
    decreases work.len(),
{
    if work.len() == 0 {
        None
    } else {
        match slot_of(work.drop_last(), server, token) {
            Some(i) => Some(i),
            None => if work.last().0 == server && work.last().1 == token {
                Some(work.len() - 1)
            } else {
                None
            },
        }
    }
}

/// No two pieces of work share a server and token.
pub open spec fn keys_distinct(work: Seq<(usize, Seq<char>, Seq<char>)>) -> bool {
    forall|i: int, j: int|
        0 <= i < work.len() && 0 <= j < work.len() && i != j ==> !(work[i].0 == work[j].0
            && work[i].1 == work[j].1)
}

/// A progress token, which may be a string or a number.
pub open spec fn spec_token_name(token: Json) -> Option<Seq<char>> {
    match token {
        Json::Str(name) => Some(name@),
        Json::Number(n) => Some(n.text@),
        _ => None,
    }
}

/// One line of progress: the title, and the most specific thing said about
/// it; a percentage when there is one, a message otherwise.
pub open spec fn spec_describe(title: Seq<char>, value: Json) -> Seq<char> {
    match unsigned_of(field(value, "percentage"@)) {
        Some(p) => title + seq![' '] + decimal(p as nat) + seq!['%'],
        None => match text_of(field(value, "message"@)) {
            Some(m) if m.len() > 0 => title + seq![' '] + m,
            _ => title,
        },
    }
}

/// A line of progress shows the title and then the most specific thing
/// said: `<title> <n>%` when a percentage is given, whatever the message;
/// else `<title> <message>` for a message with something in it; else just
/// the title.
pub proof fn law_what_progress_says(title: Seq<char>, value: Json)
    ensures
        unsigned_of(field(value, "percentage"@)) matches Some(p) ==> spec_describe(title, value) == title
            + seq![' '] + decimal(p as nat) + seq!['%'],
        unsigned_of(field(value, "percentage"@)) is None ==> (text_of(field(value, "message"@)) matches Some(m) ==> (
        m.len() > 0 ==> spec_describe(title, value) == title + seq![' '] + m)),
        unsigned_of(field(value, "percentage"@)) is None && !(text_of(field(value, "message"@)) matches Some(m)
            && m.len() > 0) ==> spec_describe(title, value) == title,
{
}

/// What a `$/progress` notification does to the work list, and whether the
/// bar changes: `begin` names the work, `report` refines it, and `end`
/// removes it. A report for a token nobody began is ignored rather than given
/// an invented title.
pub open spec fn spec_note(work: Seq<(usize, Seq<char>, Seq<char>)>, server: usize, params: Json) -> (
    Seq<(usize, Seq<char>, Seq<char>)>,
    bool,
) {
    match field(params, "token"@) {
        None => (work, false),
        Some(token_value) => match spec_token_name(token_value) {
            None => (work, false),
            Some(token) => match field(params, "value"@) {
                None => (work, false),
                Some(value) => {
                    let kind = text_of(field(value, "kind"@));
                    if kind == Some("begin"@) {
                        let title = match text_of(field(value, "title"@)) {
                            Some(t) => t,
                            None => "Working"@,
                        };
                        let text = spec_describe(title, value);
                        match slot_of(work, server, token) {
                            Some(i) => (work.update(i, (server, token, text)), true),
                            None => (work.push((server, token, text)), true),
                        }
                    } else if kind == Some("report"@) {
                        match slot_of(work, server, token) {
                            None => (work, false),
                            Some(i) => {
                                let title = match first_word(work[i].2) {
                                    Some(t) => t,
                                    None => "Working"@,
                                };
                                (work.update(i, (server, token, spec_describe(title, value))), true)
                            },
                        }
                    } else if kind == Some("end"@) {
                        let rest = without(work, server, Some(token));
                        (rest, rest.len() != work.len())
                    } else {
                        (work, false)
                    }
                },
            },
        },
    }
}

/// Whether a piece of work belongs to `server` and, when a token is given,
/// to that token.
pub open spec fn belongs(w: (usize, Seq<char>, Seq<char>), server: usize, token: Option<Seq<char>>) -> bool {
    w.0 == server && match token {
        Some(t) => w.1 == t,
        None => true,
    }
}

/// The work that does not belong to `server` (and `token`), in its order.
pub open spec fn without(
    work: Seq<(usize, Seq<char>, Seq<char>)>,
    server: usize,
    token: Option<Seq<char>>,
) -> Seq<(usize, Seq<char>, Seq<char>)>
    decreases work.len(),
{
    if work.len() == 0 {
        work
    } else {
        let rest = without(work.drop_last(), server, token);
        if belongs(work.last(), server, token) {
            rest
        } else {
            rest.push(work.last())
        }
    }
}

/// A borrowed token as text.
pub open spec fn opt_str(token: Option<&str>) -> Option<Seq<char>> {
    match token {
        Some(t) => Some(t@),
        None => None,
    }
}

impl View for Progress {
    type V = Seq<(usize, Seq<char>, Seq<char>)>;

    closed spec fn view(&self) -> Seq<(usize, Seq<char>, Seq<char>)> {
        self.work@.map_values(|w: Work| work_view(w))
    }
}

proof fn lemma_slot_of(work: Seq<(usize, Seq<char>, Seq<char>)>, server: usize, token: Seq<char>)
    ensures
        match slot_of(work, server, token) {
            Some(i) => 0 <= i < work.len() && work[i].0 == server && work[i].1 == token && forall|
                j: int,
            | 0 <= j < i ==> !(work[j].0 == server && work[j].1 == token),
            None => forall|j: int| 0 <= j < work.len() ==> !(work[j].0 == server && work[j].1 == token),
        },
    decreases work.len(),
{
    if work.len() > 0 {
        let rest = work.drop_last();
        lemma_slot_of(rest, server, token);
        assert forall|j: int| 0 <= j < rest.len() implies rest[j] == work[j] by {}
    }
}

/// A progress token's name.
pub fn token_name(token: &Json) -> (name: Option<String>)
    ensures
        opt_text(name) == spec_token_name(*token),
{
    match token {
        Json::Str(name) => Some(name.clone()),
        Json::Number(n) => Some(n.text.clone()),
        _ => None,
    }
}

/// One line of progress.
pub fn describe(title: &str, value: &Json) -> (line: String)
    ensures
        line@ == spec_describe(title@, *value),
{
    let mut line = title.to_owned();
    match as_u64(get(value, "percentage")) {
        Some(percentage) => {
            line.push(' ');
            push_decimal(&mut line, percentage);
            line.push('%');
            assert(line@ =~= title@ + seq![' '] + decimal(percentage as nat) + seq!['%']);
        },
        None => match as_str(get(value, "message")) {
            Some(message) => {
                if message.unicode_len() > 0 {
                    line.push(' ');
                    line.append(message);
                    assert(line@ =~= title@ + seq![' '] + message@);
                }
            },
            None => {},
        },
    }
    line
}

impl Progress {
    pub fn new() -> (p: Progress)
        ensures
            p@ == Seq::<(usize, Seq<char>, Seq<char>)>::empty(),
    {
        let p = Progress { work: Vec::new() };
        assert(p@ =~= Seq::<(usize, Seq<char>, Seq<char>)>::empty());
        p
    }

    /// How many pieces of work are under way.
    pub fn len(&self) -> (n: usize)
        ensures
            n == self@.len(),
    {
        self.work.len()
    }

    /// What the servers are busy with, oldest first.
    pub fn texts(&self) -> (texts: Vec<&str>)
        ensures
            texts@.len() == self@.len(),
            forall|i: int| 0 <= i < texts@.len() ==> texts@[i]@ == self@[i].2,
    {
        let mut texts: Vec<&str> = Vec::new();
        let mut i: usize = 0;
        while i < self.work.len()
            invariant
                i <= self.work@.len(),
                texts@.len() == i,
                forall|j: int| 0 <= j < i ==> texts@[j]@ == self.work@[j].text@,
            decreases self.work@.len() - i,
        {
            texts.push(self.work[i].text.as_str());
            i = i + 1;
        }
        texts
    }

    /// Where the work for a token sits.
    fn slot(&self, server: usize, token: &str) -> (i: Option<usize>)
        ensures
            match i {
                Some(k) => slot_of(self@, server, token@) == Some(k as int),
                None => slot_of(self@, server, token@) is None,
            },
    {
        proof {
            lemma_slot_of(self@, server, token@);
        }
        let mut i: usize = 0;
        while i < self.work.len()
            invariant
                i <= self.work@.len(),
                self@ == self.work@.map_values(|w: Work| work_view(w)),
                forall|j: int| 0 <= j < i ==> !(self@[j].0 == server && self@[j].1 == token@),
            decreases self.work@.len() - i,
        {
            if self.work[i].server == server && same_text(self.work[i].token.as_str(), token) {
                proof {
                    lemma_slot_of(self@, server, token@);
                    match slot_of(self@, server, token@) {
                        Some(p) => {
                            if p < i {
                                assert(self@[p].0 == server);
                            }
                            if p > i {
                                assert(self@[i as int].0 == server && self@[i as int].1 == token@);
                            }
                        },
                        None => {
                            assert(self@[i as int].0 == server && self@[i as int].1 == token@);
                        },
                    }
                }
                return Some(i);
            }
            i = i + 1;
        }
        None
    }

    /// Record a `$/progress` notification. Returns whether the bar changed.
    pub fn note(&mut self, server: usize, params: &Json) -> (changed: bool)
        ensures
            (final(self)@, changed) == spec_note(old(self)@, server, *params),
    {
        let token = match get(params, "token") {
            Some(t) => match token_name(t) {
                Some(name) => name,
                None => return false,
            },
            None => return false,
        };
        let value = match get(params, "value") {
            Some(v) => v,
            None => return false,
        };
        let kind = as_str(get(value, "kind"));
        let kind_is = |word: &str| -> (b: bool)
            ensures
                b == (text_of(field(*value, "kind"@)) == Some(word@)),
            {
                match kind {
                    Some(k) => same_text(k, word),
                    None => false,
                }
            };
        if kind_is("begin") {
            let title = match as_str(get(value, "title")) {
                Some(t) => t.to_owned(),
                None => "Working".to_owned(),
            };
            let text = describe(title.as_str(), value);
            let work = Work { server, token: token.clone(), text };
            let found = self.slot(server, token.as_str());
            proof {
                lemma_slot_of(self@, server, token@);
            }
            match found {
                Some(i) => {
                    let ghost before = self@;
                    self.work.set(i, work);
                    proof {
                        assert(self@ =~= before.update(i as int, (server, token@, spec_describe(
                            opt_or_working(text_of(field(*value, "title"@))),
                            *value,
                        ))));
                    }
                },
                None => {
                    let ghost before = self@;
                    self.work.push(work);
                    proof {
                        assert(self@ =~= before.push((server, token@, spec_describe(
                            opt_or_working(text_of(field(*value, "title"@))),
                            *value,
                        ))));
                    }
                },
            }
            true
        } else if kind_is("report") {
            let found = self.slot(server, token.as_str());
            proof {
                lemma_slot_of(self@, server, token@);
            }
            let i = match found {
                Some(i) => i,
                None => return false,
            };
            let title = match first_word_of(self.work[i].text.as_str()) {
                Some(t) => t,
                None => "Working".to_owned(),
            };
            let text = describe(title.as_str(), value);
            let ghost before = self@;
            self.work.set(i, Work { server, token, text });
            proof {
                assert(self@ =~= before.update(i as int, (server, before[i as int].1, spec_describe(
                    opt_or_working(first_word(before[i as int].2)),
                    *value,
                ))));
            }
            true
        } else if kind_is("end") {
            let before_len = self.work.len();
            self.forget_where(server, Some(token.as_str()));
            self.work.len() != before_len
        } else {
            false
        }
    }

    /// Forget everything a server said it was doing.
    pub fn forget(&mut self, server: usize)
        ensures
            final(self)@ == without(old(self)@, server, None),
    {
        self.forget_where(server, None);
    }

    /// Drop the work of `server`, for one token or for all of them.
    fn forget_where(&mut self, server: usize, token: Option<&str>)
        ensures
            final(self)@ == without(old(self)@, server, opt_str(token)),
    {
        let ghost start = self@;
        let ghost tok = opt_str(token);
        let mut old_work: Vec<Work> = Vec::new();
        std::mem::swap(&mut old_work, &mut self.work);
        let mut i: usize = 0;
        assert(start == old_work@.map_values(|w: Work| work_view(w)));
        assert(start.take(0) =~= Seq::<(usize, Seq<char>, Seq<char>)>::empty());
        assert(self@ =~= without(start.take(0), server, tok));
        while i < old_work.len()
            invariant
                i <= old_work@.len(),
                start == old_work@.map_values(|w: Work| work_view(w)),
                tok == opt_str(token),
                self@ == without(start.take(i as int), server, tok),
            decreases old_work@.len() - i,
        {
            let w = &old_work[i];
            let drop = w.server == server && match token {
                Some(t) => same_text(w.token.as_str(), t),
                None => true,
            };
            proof {
                assert(start.take(i as int + 1).drop_last() =~= start.take(i as int));
                assert(start[i as int] == work_view(*w));
                assert(start.take(i as int + 1).last() == start[i as int]);
                assert(drop == belongs(start[i as int], server, tok));
            }
            if !drop {
                let ghost before = self@;
                let copy = Work { server: w.server, token: w.token.clone(), text: w.text.clone() };
                self.work.push(copy);
                proof {
                    assert(self@ =~= before.push(start[i as int]));
                }
            }
            i = i + 1;
        }
        assert(start.take(old_work@.len() as int) =~= start);
    }
}

/// The title carried by a `begin`, or `Working` when there is none.
pub open spec fn opt_or_working(t: Option<Seq<char>>) -> Seq<char> {
    match t {
        Some(t) => t,
        None => "Working"@,
    }
}

/// Forgetting a server's work leaves none of it, and keeps every other
/// server's work in the order it began.
pub proof fn lemma_forget_keeps_the_rest(work: Seq<(usize, Seq<char>, Seq<char>)>, server: usize, token: Option<Seq<char>>)
    ensures
        forall|i: int| 0 <= i < without(work, server, token).len() ==> !belongs(#[trigger] without(work, server, token)[i], server, token),
        without(work, server, token).len() <= work.len(),
    decreases work.len(),
{
    if work.len() > 0 {
        lemma_forget_keeps_the_rest(work.drop_last(), server, token);
    }
}

proof fn lemma_without_distinct(work: Seq<(usize, Seq<char>, Seq<char>)>, server: usize, token: Option<Seq<char>>)
    requires
        keys_distinct(work),
    ensures
        keys_distinct(without(work, server, token)),
        forall|i: int| 0 <= i < without(work, server, token).len() ==> work.contains(#[trigger] without(work, server, token)[i]),
    decreases work.len(),
{
    if work.len() > 0 {
        let init = work.drop_last();
        assert(keys_distinct(init));
        lemma_without_distinct(init, server, token);
        let rest = without(init, server, token);
        assert forall|i: int| 0 <= i < rest.len() implies work.contains(rest[i]) by {
            let j = choose|j: int| 0 <= j < init.len() && init[j] == rest[i];
            assert(work[j] == rest[i]);
        }
        if !belongs(work.last(), server, token) {
            let out = rest.push(work.last());
            assert forall|i: int| 0 <= i < out.len() implies work.contains(out[i]) by {
                if i < rest.len() {
                    assert(out[i] == rest[i]);
                } else {
                    assert(work[work.len() - 1] == out[i]);
                }
            }
            assert forall|i: int, j: int|
                0 <= i < out.len() && 0 <= j < out.len() && i != j implies !(out[i].0 == out[j].0 && out[i].1 == out[j].1) by {
                if i < rest.len() && j < rest.len() {
                    assert(out[i] == rest[i] && out[j] == rest[j]);
                } else if i < rest.len() {
                    let a = choose|a: int| 0 <= a < init.len() && init[a] == rest[i];
                    assert(work[a] == out[i]);
                    assert(work[work.len() - 1] == out[j]);
                } else if j < rest.len() {
                    let a = choose|a: int| 0 <= a < init.len() && init[a] == rest[j];
                    assert(work[a] == out[j]);
                    assert(work[work.len() - 1] == out[i]);
                }
            }
        }
    }
}

/// What a progress notification does: `begin` puts the work on the bar, as
/// its title (or `Working`) and what is said of it, replacing any earlier
/// entry for the same server and token; `report` rewrites an entry that was
/// begun and is ignored for one that was not; `end` takes the entry away,
/// and changes the bar only if there was one; anything else changes nothing.
pub proof fn law_what_a_progress_notification_does(
    work: Seq<(usize, Seq<char>, Seq<char>)>,
    server: usize,
    params: Json,
    token: Seq<char>,
    value: Json,
)
    requires
        field(params, "token"@) matches Some(t) && spec_token_name(t) == Some(token),
        field(params, "value"@) == Some(value),
    ensures
        ({
            let (after, changed) = spec_note(work, server, params);
            let kind = text_of(field(value, "kind"@));
            let title = match text_of(field(value, "title"@)) {
                Some(t) => t,
                None => "Working"@,
            };
            &&& kind == Some("begin"@) ==> changed && after.contains(
                (server, token, spec_describe(title, value)),
            ) && after.len() == work.len() + (if slot_of(work, server, token) is None { 1int } else { 0 })
            &&& kind == Some("report"@) && slot_of(work, server, token) is None ==> after == work && !changed
            &&& kind == Some("end"@) ==> after == without(work, server, Some(token)) && (changed
                <==> after.len() != work.len())
            &&& !(kind == Some("begin"@) || kind == Some("report"@) || kind == Some("end"@)) ==> after
                == work && !changed
        }),
{
    reveal_strlit("begin");
    reveal_strlit("report");
    reveal_strlit("end");
    assert("begin"@.len() != "report"@.len() && "begin"@.len() != "end"@.len() && "report"@.len()
        != "end"@.len());
    let (after, changed) = spec_note(work, server, params);
    let kind = text_of(field(value, "kind"@));
    if kind == Some("begin"@) {
        let title = match text_of(field(value, "title"@)) {
            Some(t) => t,
            None => "Working"@,
        };
        let entry = (server, token, spec_describe(title, value));
        match slot_of(work, server, token) {
            Some(i) => {
                lemma_slot_of(work, server, token);
                assert(after[i] == entry);
            },
            None => {
                assert(after[work.len() as int] == entry);
            },
        }
    }
}

/// No notification makes two pieces of work of one server and token: a
/// `begin` for work already under way replaces it in place, and a `report`
/// or an `end` changes or removes what is there.
pub proof fn lemma_note_keeps_one_entry_per_token(work: Seq<(usize, Seq<char>, Seq<char>)>, server: usize, params: Json)
    requires
        keys_distinct(work),
    ensures
        keys_distinct(spec_note(work, server, params).0),
{
    match field(params, "token"@) {
        None => {},
        Some(token_value) => match spec_token_name(token_value) {
            None => {},
            Some(token) => match field(params, "value"@) {
                None => {},
                Some(value) => {
                    lemma_slot_of(work, server, token);
                    let kind = text_of(field(value, "kind"@));
                    if kind == Some("end"@) {
                        lemma_without_distinct(work, server, Some(token));
                    }
                },
            },
        },
    }
}

} // verus!

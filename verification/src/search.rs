//! Search, replace and goto-line: the prompt's three questions and what the
//! answers do.
//!
//! Keys are decided here and carried out by the caller: a key either edits the
//! prompt or answers it, and an answer becomes one [`Effect`] on the editor.

use crate::prompt::{without_last_grapheme, Prompt, PromptKind, PromptView};
use crate::text::{decimal, law_decimal_spells_the_number, push_decimal, spelled, trim, trim_seq};
use vstd::prelude::*;

verus! {

/// A key, as far as the prompt cares.
#[derive(Debug, Clone, Copy, PartialEq, Eq, Structural)]
pub enum PromptKey {
    Esc,
    Backspace,
    Enter,
    Char(char),
    /// Anything else: arrows, function keys, a release.
    Other,
}

/// What the editor is asked to do once the prompt has its answer.
#[derive(Debug)]
pub enum Effect {
    Nothing,
    /// Find the needle, from the cursor on.
    Search(String),
    /// Replace every match of the needle.
    ReplaceAll { needle: String, replacement: String },
    /// Go to this 0-based line.
    GotoLine(usize),
    /// Say this on the status bar.
    Status(String),
}

/// An effect as its parts.
pub enum EffectView {
    Nothing,
    Search(Seq<char>),
    ReplaceAll(Seq<char>, Seq<char>),
    GotoLine(nat),
    Status(Seq<char>),
}

impl View for Effect {
    type V = EffectView;

    open spec fn view(&self) -> EffectView {
        match self {
            Effect::Nothing => EffectView::Nothing,
            Effect::Search(s) => EffectView::Search(s@),
            Effect::ReplaceAll { needle, replacement } => EffectView::ReplaceAll(needle@, replacement@),
            Effect::GotoLine(n) => EffectView::GotoLine(*n as nat),
            Effect::Status(s) => EffectView::Status(s@),
        }
    }
}

/// Whether a character is an ASCII digit.
pub open spec fn is_digit(c: char) -> bool {
    '0' <= c <= '9'
}

/// The number a run of ASCII digits spells.
pub open spec fn digits_value(s: Seq<char>) -> nat
    decreases s.len(),
{
    if s.len() == 0 {
        0
    } else {
        digits_value(s.drop_last()) * 10 + ((s.last() as nat) - ('0' as nat)) as nat
    }
}

/// What `usize::from_str` accepts: an optional `+`, then one or more ASCII
/// digits whose value fits.
pub open spec fn parsed_usize(s: Seq<char>) -> Option<nat> {
    if s.len() > 0 && s[0] == '+' {
        parsed_digits(s.drop_first())
    } else {
        parsed_digits(s)
    }
}

/// One or more ASCII digits whose value fits in a `usize`, as that value.
pub open spec fn parsed_digits(digits: Seq<char>) -> Option<nat> {
    if digits.len() > 0 && (forall|i: int| 0 <= i < digits.len() ==> is_digit(#[trigger] digits[i]))
        && digits_value(digits) <= usize::MAX {
        Some(digits_value(digits))
    } else {
        None
    }
}

/// A typed line number, 1-based, as a 0-based index: line 0 is line 1, since
/// a user who types `0` means the top of the file.
pub open spec fn spec_line_number(input: Seq<char>) -> Option<nat> {
    match parsed_usize(trim_seq(input)) {
        Some(n) => Some(if n == 0 { 0 } else { (n - 1) as nat }),
        None => None,
    }
}

proof fn lemma_digits_prefix(s: Seq<char>, i: int)
    requires
        0 <= i < s.len(),
    ensures
        digits_value(s.take(i + 1)) == digits_value(s.take(i)) * 10 + (((s[i] as nat) - ('0' as nat)) as nat),
{
    assert(s.take(i + 1).drop_last() =~= s.take(i));
}

proof fn lemma_digits_grow(s: Seq<char>, i: int, j: int)
    requires
        0 <= i <= j <= s.len(),
        forall|k: int| 0 <= k < s.len() ==> is_digit(#[trigger] s[k]),
    ensures
        digits_value(s.take(i)) <= digits_value(s.take(j)),
    decreases j - i,
{
    if i < j {
        lemma_digits_grow(s, i, j - 1);
        lemma_digits_prefix(s, j - 1);
    }
}

/// `usize::from_str` on the characters from `from` on.
fn parse_digits(s: &Vec<char>, from: usize) -> (n: Option<usize>)
    requires
        from <= s@.len(),
    ensures
        match n {
            Some(v) => parsed_digits(s@.subrange(from as int, s@.len() as int)) == Some(v as nat),
            None => parsed_digits(s@.subrange(from as int, s@.len() as int)) is None,
        },
{
    let ghost digits = s@.subrange(from as int, s@.len() as int);
    if from == s.len() {
        return None;
    }
    let mut value: usize = 0;
    let mut i: usize = from;
    while i < s.len()
        invariant
            from <= i <= s@.len(),
            digits == s@.subrange(from as int, s@.len() as int),
            forall|k: int| from <= k < i ==> is_digit(#[trigger] s@[k]),
            value == digits_value(digits.take(i - from)),
        decreases s@.len() - i,
    {
        let c = s[i];
        if !('0' <= c && c <= '9') {
            proof {
                assert(!is_digit(digits[i - from]));
            }
            return None;
        }
        let d: usize = (c as u32 - '0' as u32) as usize;
        proof {
            lemma_digits_prefix(digits, i - from);
        }
        let next = match value.checked_mul(10) {
            Some(t) => t.checked_add(d),
            None => None,
        };
        match next {
            Some(v) => {
                value = v;
            },
            None => {
                proof {
                    if forall|k: int| 0 <= k < digits.len() ==> is_digit(#[trigger] digits[k]) {
                        lemma_digits_grow(digits, i - from + 1, digits.len() as int);
                        assert(digits.take(digits.len() as int) =~= digits);
                    }
                }
                return None;
            },
        }
        i = i + 1;
    }
    proof {
        assert(digits.take(digits.len() as int) =~= digits);
        assert forall|k: int| 0 <= k < digits.len() implies is_digit(#[trigger] digits[k]) by {
            assert(s@[from + k] == digits[k]);
        }
    }
    Some(value)
}

/// `usize::from_str`.
pub fn parse_usize(text: &str) -> (n: Option<usize>)
    ensures
        match n {
            Some(v) => parsed_usize(text@) == Some(v as nat),
            None => parsed_usize(text@) is None,
        },
{
    let s = crate::text::chars_of(text);
    let from: usize = if s.len() > 0 && s[0] == '+' {
        1
    } else {
        0
    };
    proof {
        if from == 1 {
            assert(s@.subrange(1, s@.len() as int) =~= s@.drop_first());
        } else {
            assert(s@.subrange(0, s@.len() as int) =~= s@);
        }
    }
    parse_digits(&s, from)
}

/// A 1-based line number typed into the goto prompt, as a 0-based index.
pub fn parse_line_number(input: &str) -> (line: Option<usize>)
    ensures
        match line {
            Some(n) => spec_line_number(input@) == Some(n as nat),
            None => spec_line_number(input@) is None,
        },
{
    let trimmed = trim(input);
    match parse_usize(trimmed.as_str()) {
        Some(n) => Some(n.saturating_sub(1)),
        None => None,
    }
}

/// What a key does to the prompt, and what, if anything, it asks of the
/// editor.
///
/// A chord (Ctrl or Alt held) is never text, in the prompt as in the buffer:
/// otherwise Ctrl+F while searching types an "f" into the needle. Enter takes
/// the input and answers the question being asked: a search, the needle of a
/// replace (which keeps the prompt open and asks for the replacement), the
/// replacement, or a line number. An empty line number closes the prompt; one
/// that does not parse is refused with the input put back.
pub open spec fn spec_prompt_key(p: PromptView, key: PromptKey, chorded: bool) -> (
    Option<PromptView>,
    EffectView,
) {
    match key {
        PromptKey::Esc => (None, EffectView::Nothing),
        PromptKey::Backspace if !chorded => (
            Some(PromptView { input: without_last_grapheme(p.input), ..p }),
            EffectView::Nothing,
        ),
        PromptKey::Char(c) if !chorded => (
            Some(PromptView { input: p.input.push(c), ..p }),
            EffectView::Nothing,
        ),
        PromptKey::Enter => {
            let input = p.input;
            let emptied = PromptView { input: Seq::empty(), ..p };
            match p.kind {
                PromptKind::Search => if p.replace_flow {
                    (
                        Some(
                            PromptView {
                                kind: PromptKind::Replace,
                                replace_flow: false,
                                pending_needle: Some(input),
                                ..emptied
                            },
                        ),
                        EffectView::Nothing,
                    )
                } else {
                    (None, EffectView::Search(input))
                },
                PromptKind::Replace => (
                    None,
                    EffectView::ReplaceAll(
                        match p.pending_needle {
                            Some(n) => n,
                            None => Seq::empty(),
                        },
                        input,
                    ),
                ),
                PromptKind::GotoLine => if input.len() == 0 {
                    (None, EffectView::Nothing)
                } else {
                    match spec_line_number(input) {
                        Some(n) => (None, EffectView::GotoLine(n)),
                        None => (
                            Some(PromptView { input, ..p }),
                            EffectView::Status("Not a line number: "@ + input),
                        ),
                    }
                },
            }
        },
        _ => (Some(p), EffectView::Nothing),
    }
}

/// Every key on an open prompt: Esc closes it and does nothing; a typed
/// character (no Ctrl or Alt) is added at the end; Backspace takes back the
/// last grapheme; Enter answers it, closing it with a search for exactly what
/// was typed, turning a replace's first half into the question for the
/// replacement with what was typed as its needle, replacing every match of
/// the needle with what was typed, or going to the line typed, and leaving a
/// go-to prompt open saying so when what was typed is no line number. Any
/// other key leaves it as it is.
pub proof fn law_what_a_key_does_to_a_prompt(p: PromptView, key: PromptKey, chorded: bool)
    ensures
        ({
            let (after, effect) = spec_prompt_key(p, key, chorded);
            &&& key == PromptKey::Esc ==> after is None && effect is Nothing
            &&& key matches PromptKey::Char(c) ==> (!chorded ==> after == Some(
                PromptView { input: p.input.push(c), ..p },
            ) && effect is Nothing)
            &&& key == PromptKey::Backspace && !chorded ==> after == Some(
                PromptView { input: without_last_grapheme(p.input), ..p },
            ) && effect is Nothing
            &&& key == PromptKey::Other ==> after == Some(p) && effect is Nothing
            &&& key == PromptKey::Enter && p.kind == PromptKind::Search && !p.replace_flow ==> after is None
                && effect == EffectView::Search(p.input)
            &&& key == PromptKey::Enter && p.kind == PromptKind::Search && p.replace_flow ==> effect is Nothing
                && after == Some(
                PromptView {
                    kind: PromptKind::Replace,
                    input: Seq::empty(),
                    pending_needle: Some(p.input),
                    replace_flow: false,
                },
            )
            &&& key == PromptKey::Enter && p.kind == PromptKind::Replace && p.pending_needle is Some
                ==> after is None && effect == EffectView::ReplaceAll(p.pending_needle.unwrap(), p.input)
            &&& key == PromptKey::Enter && p.kind == PromptKind::GotoLine && p.input.len() > 0 ==> (
            match spec_line_number(p.input) {
                Some(n) => after is None && effect == EffectView::GotoLine(n),
                None => after == Some(p) && effect == EffectView::Status(
                    "Not a line number: "@ + p.input,
                ),
            })
            &&& key == PromptKey::Enter && p.kind == PromptKind::GotoLine && p.input.len() == 0
                ==> after is None && effect is Nothing
        }),
{
}

/// Digits spell the same number read as a line number as they do anywhere.
proof fn lemma_digits_value_spelled(s: Seq<char>)
    requires
        forall|i: int| 0 <= i < s.len() ==> is_digit(#[trigger] s[i]),
    ensures
        digits_value(s) == spelled(s),
    decreases s.len(),
{
    if s.len() > 0 {
        lemma_digits_value_spelled(s.drop_last());
        assert(is_digit(s[s.len() - 1]));
    }
}

/// A line number is typed counting from one: typing a number `k` (as
/// digits, with or without spaces around it) goes to the `k`th line, whose
/// index is `k - 1`, and `0` means the top.
pub proof fn law_lines_are_typed_from_one(k: nat, pad_before: nat, pad_after: nat)
    requires
        k <= usize::MAX,
    ensures
        spec_line_number(Seq::new(pad_before, |i: int| ' ') + decimal(k) + Seq::new(pad_after, |i: int| ' '))
            == Some(if k == 0 { 0 } else { (k - 1) as nat }),
{
    law_decimal_spells_the_number(k);
    let d = decimal(k);
    assert forall|i: int| 0 <= i < d.len() implies is_digit(#[trigger] d[i]) by {}
    lemma_digits_value_spelled(d);
    let typed = Seq::new(pad_before, |i: int| ' ') + d + Seq::new(pad_after, |i: int| ' ');
    lemma_trim_padding(pad_before, d, pad_after);
    assert(d.len() > 0 && d[0] != '+');
}

/// Spaces around a run that starts and ends with something else are what
/// trimming takes away.
proof fn lemma_trim_padding(before: nat, d: Seq<char>, after: nat)
    requires
        d.len() > 0,
        !crate::text::white(d[0]),
        !crate::text::white(d.last()),
    ensures
        trim_seq(Seq::new(before, |i: int| ' ') + d + Seq::new(after, |i: int| ' ')) == d,
{
    lemma_trim_start_spaces(before, d + Seq::new(after, |i: int| ' '));
    assert(Seq::new(before, |i: int| ' ') + d + Seq::new(after, |i: int| ' ') =~= Seq::new(
        before,
        |i: int| ' ',
    ) + (d + Seq::new(after, |i: int| ' ')));
    lemma_trim_end_spaces(after, d);
}

proof fn lemma_trim_start_spaces(n: nat, rest: Seq<char>)
    requires
        rest.len() > 0,
        !crate::text::white(rest[0]),
    ensures
        crate::text::trim_start_seq(Seq::new(n, |i: int| ' ') + rest) == rest,
    decreases n,
{
    let s = Seq::new(n, |i: int| ' ') + rest;
    if n > 0 {
        assert(s.drop_first() =~= Seq::new((n - 1) as nat, |i: int| ' ') + rest);
        lemma_trim_start_spaces((n - 1) as nat, rest);
    } else {
        assert(s =~= rest);
    }
}

proof fn lemma_trim_end_spaces(n: nat, body: Seq<char>)
    requires
        body.len() > 0,
        !crate::text::white(body.last()),
    ensures
        crate::text::trim_end_seq(body + Seq::new(n, |i: int| ' ')) == body,
    decreases n,
{
    let s = body + Seq::new(n, |i: int| ' ');
    if n > 0 {
        assert(s.drop_last() =~= body + Seq::new((n - 1) as nat, |i: int| ' '));
        lemma_trim_end_spaces((n - 1) as nat, body);
    } else {
        assert(s =~= body);
    }
}

/// One key while a prompt is open: the prompt that stays open, if one does,
/// and what the editor is to do.
pub fn prompt_key(prompt: Prompt, key: PromptKey, chorded: bool) -> (out: (Option<Prompt>, Effect))
    ensures
        (match out.0 {
            Some(p) => Some(p@),
            None => None,
        }, out.1@) == spec_prompt_key(prompt@, key, chorded),
{
    let mut prompt = prompt;
    match key {
        PromptKey::Esc => (None, Effect::Nothing),
        PromptKey::Backspace if !chorded => {
            prompt.delete_backward();
            (Some(prompt), Effect::Nothing)
        },
        PromptKey::Char(c) if !chorded => {
            prompt.insert_char(c);
            (Some(prompt), Effect::Nothing)
        },
        PromptKey::Enter => {
            let input = prompt.take_input();
            match prompt.kind() {
                PromptKind::Search => {
                    if prompt.is_replace_flow() {
                        prompt.set_pending_needle(input);
                        prompt.become_replace();
                        (Some(prompt), Effect::Nothing)
                    } else {
                        (None, Effect::Search(input))
                    }
                },
                PromptKind::Replace => {
                    let needle = match prompt.pending_needle() {
                        Some(n) => n.to_owned(),
                        None => String::new(),
                    };
                    (None, Effect::ReplaceAll { needle, replacement: input })
                },
                PromptKind::GotoLine => {
                    if input.unicode_len() == 0 {
                        (None, Effect::Nothing)
                    } else {
                        match parse_line_number(input.as_str()) {
                            Some(line) => (None, Effect::GotoLine(line)),
                            None => {
                                let mut message = "Not a line number: ".to_owned();
                                message.append(input.as_str());
                                prompt.restore_input(input);
                                (Some(prompt), Effect::Status(message))
                            },
                        }
                    }
                },
            }
        },
        _ => (Some(prompt), Effect::Nothing),
    }
}

/// `char::is_uppercase`: the Unicode `Uppercase` property.
pub uninterp spec fn upper(c: char) -> bool;

/// Calls `char::is_uppercase`. The contract claims only that the answer is a
/// function of the character.
#[verifier::external_body]
fn is_uppercase(c: char) -> (b: bool)
    ensures
        b == upper(c),
{
    c.is_uppercase()
}

/// Smart case: a search is case-sensitive exactly when the needle holds a
/// capital, so a lowercase search finds everything and a capitalised one
/// means it.
pub open spec fn spec_case_sensitive(needle: Seq<char>) -> bool {
    exists|i: int| 0 <= i < needle.len() && upper(#[trigger] needle[i])
}

/// Whether a search for `needle` tells capitals apart.
pub fn case_sensitive(needle: &str) -> (b: bool)
    ensures
        b == spec_case_sensitive(needle@),
{
    let n = needle.unicode_len();
    let mut i: usize = 0;
    while i < n
        invariant
            i <= n,
            n == needle@.len(),
            forall|j: int| 0 <= j < i ==> !upper(#[trigger] needle@[j]),
        decreases n - i,
    {
        if is_uppercase(needle.get_char(i)) {
            return true;
        }
        i = i + 1;
    }
    false
}

/// What a search that found nothing says.
pub open spec fn spec_no_matches(needle: Seq<char>) -> Seq<char> {
    "No matches for "@ + needle
}

/// What a replace-all says once it has counted.
pub open spec fn spec_replaced(needle: Seq<char>, count: nat) -> Seq<char> {
    if count == 0 {
        spec_no_matches(needle)
    } else if count == 1 {
        "1 replacement"@
    } else {
        decimal(count) + " replacements"@
    }
}

/// `No matches for <needle>`.
pub fn no_matches(needle: &str) -> (m: String)
    ensures
        m@ == spec_no_matches(needle@),
{
    let mut m = "No matches for ".to_owned();
    m.append(needle);
    m
}

/// The status after replacing every match of `needle`, `count` of them.
pub fn replaced(needle: &str, count: usize) -> (m: String)
    ensures
        m@ == spec_replaced(needle@, count as nat),
{
    if count == 0 {
        no_matches(needle)
    } else if count == 1 {
        "1 replacement".to_owned()
    } else {
        let mut m = String::new();
        push_decimal(&mut m, count as u64);
        m.append(" replacements");
        m
    }
}

/// Which way a search steps.
#[derive(Debug, Clone, Copy, PartialEq, Eq, Structural)]
pub enum Direction {
    Forward,
    Backward,
}

/// A place in the buffer, as (line, column).
pub type Place = (usize, usize);

/// Whether `a` comes before `b`: by line, then by column.
pub open spec fn precedes(a: Place, b: Place) -> bool {
    a.0 < b.0 || (a.0 == b.0 && a.1 < b.1)
}

/// Whether a match is the one a step in `direction` from `from` lands on
/// before wrapping: forward, one that starts at or after the cursor (so a
/// search opened at the top of the file finds a match that starts there);
/// backward, one that ends before it.
pub open spec fn ahead(hit: (Place, Place), from: Place, direction: Direction) -> bool {
    match direction {
        Direction::Forward => !precedes(hit.0, from),
        Direction::Backward => precedes(hit.1, from),
    }
}

/// The match a step lands on: the nearest one ahead, or, when none is, the
/// first (forward) or last (backward) one, wrapping.
pub open spec fn spec_pick(hits: Seq<(Place, Place)>, from: Place, direction: Direction) -> Option<int> {
    if hits.len() == 0 {
        None
    } else if exists|i: int| 0 <= i < hits.len() && ahead(#[trigger] hits[i], from, direction) {
        Some(
            choose|i: int|
                0 <= i < hits.len() && ahead(#[trigger] hits[i], from, direction) && (forall|j: int|
                    0 <= j < hits.len() && ahead(#[trigger] hits[j], from, direction) ==> match direction {
                        Direction::Forward => i <= j,
                        Direction::Backward => j <= i,
                    }),
        )
    } else {
        match direction {
            Direction::Forward => Some(0),
            Direction::Backward => Some(hits.len() - 1),
        }
    }
}

/// A step lands on a match whenever there is one: the nearest ahead of the
/// cursor in its direction (forward, the first that starts at or after it;
/// backward, the last that ends before it), and with none ahead it wraps to
/// the first match going forward and the last going back.
pub proof fn law_a_step_lands_on_the_nearest_match(
    hits: Seq<(Place, Place)>,
    from: Place,
    direction: Direction,
)
    ensures
        hits.len() == 0 <==> spec_pick(hits, from, direction) is None,
        spec_pick(hits, from, direction) matches Some(k) ==> 0 <= k < hits.len() && (
        (exists|i: int| 0 <= i < hits.len() && ahead(#[trigger] hits[i], from, direction)) ==> (
        ahead(hits[k], from, direction) && forall|j: int|
            0 <= j < hits.len() && ahead(#[trigger] hits[j], from, direction) ==> (if direction
                == Direction::Forward {
                k <= j
            } else {
                j <= k
            }))),
        hits.len() > 0 && !(exists|i: int| 0 <= i < hits.len() && ahead(#[trigger] hits[i], from, direction))
            ==> spec_pick(hits, from, direction) == Some(
            if direction == Direction::Forward {
                0
            } else {
                hits.len() - 1
            },
        ),
        forall|i: int|
            0 <= i < hits.len() ==> (#[trigger] ahead(hits[i], from, Direction::Forward) <==> !(
            hits[i].0.0 < from.0 || (hits[i].0.0 == from.0 && hits[i].0.1 < from.1))),
        forall|i: int|
            0 <= i < hits.len() ==> (#[trigger] ahead(hits[i], from, Direction::Backward) <==> (
            hits[i].1.0 < from.0 || (hits[i].1.0 == from.0 && hits[i].1.1 < from.1))),
{
    if hits.len() > 0 && exists|i: int| 0 <= i < hits.len() && ahead(#[trigger] hits[i], from, direction) {
        lemma_nearest_exists(hits, from, direction);
    }
}

proof fn lemma_nearest_exists(hits: Seq<(Place, Place)>, from: Place, direction: Direction)
    requires
        exists|i: int| 0 <= i < hits.len() && ahead(#[trigger] hits[i], from, direction),
    ensures
        exists|i: int|
            0 <= i < hits.len() && ahead(#[trigger] hits[i], from, direction) && (forall|j: int|
                0 <= j < hits.len() && ahead(#[trigger] hits[j], from, direction) ==> match direction {
                    Direction::Forward => i <= j,
                    Direction::Backward => j <= i,
                }),
{
    let w = choose|i: int| 0 <= i < hits.len() && ahead(#[trigger] hits[i], from, direction);
    match direction {
        Direction::Forward => {
            let m = lemma_least_ahead(hits, from, w);
            assert(0 <= m < hits.len() && ahead(hits[m], from, direction));
        },
        Direction::Backward => {
            let m = lemma_greatest_ahead(hits, from, w);
            assert(0 <= m < hits.len() && ahead(hits[m], from, direction));
        },
    }
}

proof fn lemma_least_ahead(hits: Seq<(Place, Place)>, from: Place, w: int) -> (m: int)
    requires
        0 <= w < hits.len(),
        ahead(hits[w], from, Direction::Forward),
    ensures
        0 <= m <= w,
        ahead(hits[m], from, Direction::Forward),
        forall|j: int| 0 <= j < hits.len() && ahead(#[trigger] hits[j], from, Direction::Forward) ==> m <= j,
    decreases w,
{
    if exists|j: int| 0 <= j < w && ahead(#[trigger] hits[j], from, Direction::Forward) {
        let j = choose|j: int| 0 <= j < w && ahead(#[trigger] hits[j], from, Direction::Forward);
        lemma_least_ahead(hits, from, j)
    } else {
        w
    }
}

proof fn lemma_greatest_ahead(hits: Seq<(Place, Place)>, from: Place, w: int) -> (m: int)
    requires
        0 <= w < hits.len(),
        ahead(hits[w], from, Direction::Backward),
    ensures
        w <= m < hits.len(),
        ahead(hits[m], from, Direction::Backward),
        forall|j: int| 0 <= j < hits.len() && ahead(#[trigger] hits[j], from, Direction::Backward) ==> j <= m,
    decreases hits.len() - w,
{
    if exists|j: int| w < j < hits.len() && ahead(#[trigger] hits[j], from, Direction::Backward) {
        let j = choose|j: int| w < j < hits.len() && ahead(#[trigger] hits[j], from, Direction::Backward);
        lemma_greatest_ahead(hits, from, j)
    } else {
        w
    }
}

/// What a replace-all says: no matches names the needle; one match says
/// `1 replacement`; more give the count, spelled out, and `replacements`.
pub proof fn law_a_replace_says_how_many(needle: Seq<char>, count: nat)
    ensures
        count == 0 ==> spec_replaced(needle, count) == "No matches for "@ + needle,
        count == 1 ==> spec_replaced(needle, count) == "1 replacement"@,
        count > 1 ==> spec_replaced(needle, count) == decimal(count) + " replacements"@,
{
}

fn is_ahead(hit: (Place, Place), from: Place, direction: Direction) -> (b: bool)
    ensures
        b == ahead(hit, from, direction),
{
    match direction {
        Direction::Forward => !(hit.0.0 < from.0 || (hit.0.0 == from.0 && hit.0.1 < from.1)),
        Direction::Backward => hit.1.0 < from.0 || (hit.1.0 == from.0 && hit.1.1 < from.1),
    }
}

/// Where a step from `from` lands among `hits`, which are in buffer order.
pub fn pick_match(hits: &Vec<(Place, Place)>, from: Place, direction: Direction) -> (i: Option<usize>)
    ensures
        match i {
            Some(k) => spec_pick(hits@, from, direction) == Some(k as int),
            None => spec_pick(hits@, from, direction) is None,
        },
{
    let n = hits.len();
    if n == 0 {
        return None;
    }
    match direction {
        Direction::Forward => {
            let mut i: usize = 0;
            while i < n
                invariant
                    i <= n,
                    n == hits@.len(),
                    forall|j: int| 0 <= j < i ==> !ahead(#[trigger] hits@[j], from, direction),
                    direction == Direction::Forward,
                decreases n - i,
            {
                if is_ahead(hits[i], from, direction) {
                    proof {
                        let k = i as int;
                        assert(0 <= k < hits@.len() && ahead(hits@[k], from, direction));
                        let c = choose|c: int|
                            0 <= c < hits@.len() && ahead(#[trigger] hits@[c], from, direction)
                                && (forall|j: int|
                                0 <= j < hits@.len() && ahead(#[trigger] hits@[j], from, direction)
                                    ==> c <= j);
                        assert(forall|j: int|
                            0 <= j < hits@.len() && ahead(#[trigger] hits@[j], from, direction) ==> k
                                <= j);
                        assert(c <= k && k <= c);
                    }
                    return Some(i);
                }
                i = i + 1;
            }
            Some(0)
        },
        Direction::Backward => {
            let mut i: usize = n;
            while i > 0
                invariant
                    i <= n,
                    n == hits@.len(),
                    forall|j: int| i <= j < n ==> !ahead(#[trigger] hits@[j], from, direction),
                    direction == Direction::Backward,
                decreases i,
            {
                if is_ahead(hits[i - 1], from, direction) {
                    proof {
                        let k = i - 1;
                        assert(0 <= k < hits@.len() && ahead(hits@[k], from, direction));
                        let c = choose|c: int|
                            0 <= c < hits@.len() && ahead(#[trigger] hits@[c], from, direction)
                                && (forall|j: int|
                                0 <= j < hits@.len() && ahead(#[trigger] hits@[j], from, direction)
                                    ==> j <= c);
                        assert(forall|j: int|
                            0 <= j < hits@.len() && ahead(#[trigger] hits@[j], from, direction) ==> j
                                <= k);
                        assert(c <= k && k <= c);
                    }
                    return Some(i - 1);
                }
                i = i - 1;
            }
            Some(n - 1)
        },
    }
}

/// Where a search step lands and what the status bar says about it.
#[derive(Debug)]
pub struct Jump {
    /// The match to select, by its place in the list.
    pub target: Option<usize>,
    pub status: String,
}

/// The status after a step found `count` matches.
pub open spec fn spec_found(count: nat) -> Seq<char> {
    decimal(count) + " matches"@
}

/// A step says how many matches there are, `<n> matches`, and a search with
/// none says `No matches for <needle>`.
pub proof fn law_a_step_says_how_many(count: nat, needle: Seq<char>)
    ensures
        spec_found(count) == decimal(count) + " matches"@,
        spec_no_matches(needle) == "No matches for "@ + needle,
{
}

/// One search step: no match says so; otherwise the match
/// [`pick_match`] chooses, and how many there are.
pub fn jump(hits: &Vec<(Place, Place)>, from: Place, direction: Direction, needle: &str) -> (j: Jump)
    ensures
        hits@.len() == 0 ==> j.target is None && j.status@ == spec_no_matches(needle@),
        hits@.len() > 0 ==> j.status@ == spec_found(hits@.len()) && match j.target {
            Some(k) => spec_pick(hits@, from, direction) == Some(k as int),
            None => false,
        },
{
    if hits.len() == 0 {
        return Jump { target: None, status: no_matches(needle) };
    }
    let target = pick_match(hits, from, direction);
    let mut status = String::new();
    push_decimal(&mut status, hits.len() as u64);
    status.append(" matches");
    Jump { target, status }
}

} // verus!

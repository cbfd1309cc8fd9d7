//! What the editor makes of a server's answers: hover text, the target of a
//! definition, a diagnostic's severity, and why a question went unasked.

use crate::lsp::json::{as_str, as_u64, field, get, member, text_of, unsigned_of, Json, JsonNumber};
use crate::config::settings::joined_with;
use crate::text::{decimal, push_decimal, same_text, trim, trim_end, trim_end_seq, trim_seq, trim_start, trim_start_seq, white};
use vstd::prelude::*;

verus! {

/// `str::lines`: the text cut at each `\n`, a `\r` before it dropped too; a
/// last line with no `\n` after it keeps what it has, and an empty text has
/// no lines.
pub open spec fn split_lines(s: Seq<char>, cur: Seq<char>) -> Seq<Seq<char>>
    decreases s.len(),
{
    if s.len() == 0 {
        if cur.len() == 0 {
            Seq::empty()
        } else {
            seq![cur]
        }
    } else if s[0] == '\n' {
        seq![strip_cr(cur)] + split_lines(s.drop_first(), Seq::empty())
    } else {
        split_lines(s.drop_first(), cur.push(s[0]))
    }
}

/// A line with one trailing `\r` removed.
pub open spec fn strip_cr(line: Seq<char>) -> Seq<char> {
    if line.len() > 0 && line.last() == '\r' {
        line.drop_last()
    } else {
        line
    }
}

/// The lines of a text.
pub open spec fn lines_of(s: Seq<char>) -> Seq<Seq<char>> {
    split_lines(s, Seq::empty())
}

/// The text with every `**` removed, scanning left to right.
pub open spec fn without_stars(s: Seq<char>) -> Seq<char>
    decreases s.len(),
{
    if s.len() >= 2 && s[0] == '*' && s[1] == '*' {
        without_stars(s.skip(2))
    } else if s.len() == 0 {
        s
    } else {
        seq![s[0]] + without_stars(s.drop_first())
    }
}

/// The text with every backtick removed.
pub open spec fn without_ticks(s: Seq<char>) -> Seq<char>
    decreases s.len(),
{
    if s.len() == 0 {
        s
    } else if s[0] == '`' {
        without_ticks(s.drop_first())
    } else {
        seq![s[0]] + without_ticks(s.drop_first())
    }
}

/// Whether a line opens or closes a fenced block.
pub open spec fn is_fence(line: Seq<char>) -> bool {
    let t = trim_start_seq(line);
    t.len() >= 3 && t[0] == '`' && t[1] == '`' && t[2] == '`'
}

/// One line of markdown added to what is flattened so far: fences are
/// dropped, `**` and backticks are removed, trailing space is trimmed, and a
/// run of blank lines becomes one line break.
pub open spec fn flat_step(out: Seq<char>, line: Seq<char>) -> Seq<char> {
    if is_fence(line) {
        out
    } else {
        let words = without_ticks(without_stars(line));
        if trim_seq(words).len() == 0 {
            if out.len() > 0 && out.last() != '\n' {
                out.push('\n')
            } else {
                out
            }
        } else {
            out + trim_end_seq(words) + seq!['\n']
        }
    }
}

/// The lines flattened one after another onto `out`.
pub open spec fn flat_all(out: Seq<char>, lines: Seq<Seq<char>>) -> Seq<char>
    decreases lines.len(),
{
    if lines.len() == 0 {
        out
    } else {
        flat_all(flat_step(out, lines[0]), lines.drop_first())
    }
}

/// Markdown as the words in it, trimmed.
pub open spec fn spec_flatten(text: Seq<char>) -> Seq<char> {
    trim_seq(flat_all(Seq::empty(), lines_of(text)))
}

proof fn lemma_split_step(s: Seq<char>, cur: Seq<char>, out: Seq<char>)
    requires
        s.len() > 0,
    ensures
        s[0] == '\n' ==> flat_all(out, split_lines(s, cur)) == flat_all(
            flat_step(out, strip_cr(cur)),
            split_lines(s.drop_first(), Seq::empty()),
        ),
        s[0] != '\n' ==> flat_all(out, split_lines(s, cur)) == flat_all(
            out,
            split_lines(s.drop_first(), cur.push(s[0])),
        ),
{
    if s[0] == '\n' {
        let rest = split_lines(s.drop_first(), Seq::empty());
        let all = seq![strip_cr(cur)] + rest;
        assert(all.drop_first() =~= rest);
        assert(all[0] == strip_cr(cur));
    }
}

/// `without_stars` computed from position `from` on.
fn strip_stars(s: &Vec<char>) -> (out: Vec<char>)
    ensures
        out@ == without_stars(s@),
{
    let mut out: Vec<char> = Vec::new();
    let mut i: usize = 0;
    assert(s@.skip(0) =~= s@);
    while i < s.len()
        invariant
            i <= s@.len(),
            without_stars(s@) == out@ + without_stars(s@.skip(i as int)),
        decreases s@.len() - i,
    {
        let rest = Ghost(s@.skip(i as int));
        if i + 1 < s.len() && s[i] == '*' && s[i + 1] == '*' {
            assert(rest@.skip(2) =~= s@.skip(i as int + 2));
            i = i + 2;
        } else {
            assert(rest@.drop_first() =~= s@.skip(i as int + 1));
            let ghost before = out@;
            out.push(s[i]);
            assert(out@ =~= before + seq![s@[i as int]]);
            assert(without_stars(rest@) == seq![s@[i as int]] + without_stars(rest@.drop_first()));
            i = i + 1;
        }
    }
    assert(s@.skip(i as int) =~= Seq::<char>::empty());
    assert(out@ + Seq::<char>::empty() =~= out@);
    out
}

/// `without_ticks`.
fn strip_ticks(s: &Vec<char>) -> (out: Vec<char>)
    ensures
        out@ == without_ticks(s@),
{
    let mut out: Vec<char> = Vec::new();
    let mut i: usize = 0;
    assert(s@.skip(0) =~= s@);
    while i < s.len()
        invariant
            i <= s@.len(),
            without_ticks(s@) == out@ + without_ticks(s@.skip(i as int)),
        decreases s@.len() - i,
    {
        let rest = Ghost(s@.skip(i as int));
        assert(rest@.drop_first() =~= s@.skip(i as int + 1));
        if s[i] != '`' {
            let ghost before = out@;
            out.push(s[i]);
            assert(out@ =~= before + seq![s@[i as int]]);
        }
        i = i + 1;
    }
    assert(s@.skip(i as int) =~= Seq::<char>::empty());
    assert(out@ + Seq::<char>::empty() =~= out@);
    out
}

/// A line added to the flattened text.
fn flatten_line(out: &mut String, line: &Vec<char>)
    ensures
        final(out)@ == flat_step(old(out)@, line@),
{
    let t = trim_start(line);
    if t.len() >= 3 && t[0] == '`' && t[1] == '`' && t[2] == '`' {
        return;
    }
    let words = strip_ticks(&strip_stars(line));
    let mut text = String::new();
    let mut i: usize = 0;
    while i < words.len()
        invariant
            i <= words@.len(),
            text@ == words@.take(i as int),
        decreases words@.len() - i,
    {
        text.push(words[i]);
        i = i + 1;
        assert(text@ =~= words@.take(i as int));
    }
    assert(words@.take(words@.len() as int) =~= words@);
    let trimmed = trim(text.as_str());
    if trimmed.unicode_len() == 0 {
        let n = out.unicode_len();
        if n > 0 && out.get_char(n - 1) != '\n' {
            out.push('\n');
        }
        return;
    }
    let kept = trim_end(&words);
    out.append(kept.as_str());
    out.push('\n');
}

/// A line with one trailing `\r` removed.
fn without_cr(cur: &Vec<char>) -> (line: Vec<char>)
    ensures
        line@ == strip_cr(cur@),
{
    let n = cur.len();
    let keep = if n > 0 && cur[n - 1] == '\r' {
        n - 1
    } else {
        n
    };
    let mut line: Vec<char> = Vec::new();
    let mut i: usize = 0;
    while i < keep
        invariant
            i <= keep <= cur@.len(),
            line@ == cur@.take(i as int),
        decreases keep - i,
    {
        line.push(cur[i]);
        i = i + 1;
        assert(line@ =~= cur@.take(i as int));
    }
    assert(cur@.take(cur@.len() as int) =~= cur@);
    line
}

/// Markdown as the words in it.
///
/// Not a renderer. Fences, inline code and emphasis are what every server's
/// hover uses and what reads as noise in a one-line box; anything else
/// arrives as its own text.
pub fn flatten_markdown(text: &str) -> (flat: String)
    ensures
        flat@ == spec_flatten(text@),
{
    let s = crate::text::chars_of(text);
    let mut out = String::new();
    let mut cur: Vec<char> = Vec::new();
    let mut i: usize = 0;
    assert(s@.skip(0) =~= s@);
    while i < s.len()
        invariant
            i <= s@.len(),
            s@ == text@,
            flat_all(Seq::empty(), lines_of(text@)) == flat_all(
                out@,
                split_lines(s@.skip(i as int), cur@),
            ),
        decreases s@.len() - i,
    {
        proof {
            lemma_split_step(s@.skip(i as int), cur@, out@);
            assert(s@.skip(i as int).drop_first() =~= s@.skip(i as int + 1));
            assert(s@.skip(i as int)[0] == s@[i as int]);
        }
        if s[i] == '\n' {
            let line = without_cr(&cur);
            flatten_line(&mut out, &line);
            cur = Vec::new();
        } else {
            cur.push(s[i]);
        }
        i = i + 1;
    }
    assert(s@.skip(i as int) =~= Seq::<char>::empty());
    let ghost whole = flat_all(Seq::empty(), lines_of(text@));
    if cur.len() > 0 {
        proof {
            let last = seq![cur@];
            assert(split_lines(Seq::<char>::empty(), cur@) == last);
            assert(last.drop_first() =~= Seq::<Seq<char>>::empty());
            assert(flat_all(out@, last) == flat_all(flat_step(out@, cur@), last.drop_first()));
            assert(whole == flat_step(out@, cur@));
        }
        flatten_line(&mut out, &cur);
    } else {
        assert(split_lines(Seq::<char>::empty(), cur@) =~= Seq::<Seq<char>>::empty());
        assert(whole == out@);
    }
    trim(out.as_str())
}

/// Whether a text holds no backtick.
pub open spec fn tick_free(s: Seq<char>) -> bool {
    forall|i: int| 0 <= i < s.len() ==> s[i] != '`'
}

proof fn lemma_ticks_gone(s: Seq<char>)
    ensures
        tick_free(without_ticks(s)),
    decreases s.len(),
{
    if s.len() > 0 {
        lemma_ticks_gone(s.drop_first());
        if s[0] != '`' {
            let r = without_ticks(s.drop_first());
            assert forall|i: int| 0 <= i < (seq![s[0]] + r).len() implies (seq![s[0]] + r)[i]
                != '`' by {
                if i > 0 {
                    assert((seq![s[0]] + r)[i] == r[i - 1]);
                }
            }
        }
    }
}

proof fn lemma_trim_start_suffix(s: Seq<char>)
    ensures
        exists|k: int| 0 <= k <= s.len() && trim_start_seq(s) == s.subrange(k, s.len() as int),
    decreases s.len(),
{
    if s.len() > 0 && white(s[0]) {
        lemma_trim_start_suffix(s.drop_first());
        let k = choose|k: int|
            0 <= k <= s.drop_first().len() && trim_start_seq(s.drop_first())
                == s.drop_first().subrange(k, s.drop_first().len() as int);
        assert(s.drop_first().subrange(k, s.drop_first().len() as int) =~= s.subrange(
            k + 1,
            s.len() as int,
        ));
    } else {
        assert(s.subrange(0, s.len() as int) =~= s);
    }
}

proof fn lemma_trim_end_prefix(s: Seq<char>)
    ensures
        exists|k: int| 0 <= k <= s.len() && trim_end_seq(s) == s.subrange(0, k),
    decreases s.len(),
{
    if s.len() > 0 && white(s.last()) {
        lemma_trim_end_prefix(s.drop_last());
        let k = choose|k: int|
            0 <= k <= s.drop_last().len() && trim_end_seq(s.drop_last()) == s.drop_last().subrange(
                0,
                k,
            );
        assert(s.drop_last().subrange(0, k) =~= s.subrange(0, k));
    } else {
        assert(s.subrange(0, s.len() as int) =~= s);
    }
}

proof fn lemma_trims_keep_tick_free(s: Seq<char>)
    requires
        tick_free(s),
    ensures
        tick_free(trim_end_seq(s)),
        tick_free(trim_start_seq(s)),
        tick_free(trim_seq(s)),
{
    lemma_trim_end_prefix(s);
    lemma_trim_start_suffix(s);
    let t = trim_start_seq(s);
    let k = choose|k: int| 0 <= k <= s.len() && t == s.subrange(k, s.len() as int);
    assert(tick_free(t)) by {
        assert forall|i: int| 0 <= i < t.len() implies t[i] != '`' by {
            assert(t[i] == s[k + i]);
        }
    }
    lemma_trim_end_prefix(t);
}

proof fn lemma_flat_tick_free(out: Seq<char>, lines: Seq<Seq<char>>)
    requires
        tick_free(out),
    ensures
        tick_free(flat_all(out, lines)),
    decreases lines.len(),
{
    if lines.len() > 0 {
        let line = lines[0];
        let next = flat_step(out, line);
        if !is_fence(line) {
            let words = without_ticks(without_stars(line));
            lemma_ticks_gone(without_stars(line));
            lemma_trims_keep_tick_free(words);
            if trim_seq(words).len() != 0 {
                let kept = trim_end_seq(words);
                assert forall|i: int| 0 <= i < next.len() implies next[i] != '`' by {
                    if i < out.len() {
                        assert(next[i] == out[i]);
                    } else if i < out.len() + kept.len() {
                        assert(next[i] == kept[i - out.len()]);
                    } else {
                        assert(next[i] == '\n');
                    }
                }
            } else if out.len() > 0 && out.last() != '\n' {
                assert forall|i: int| 0 <= i < next.len() implies next[i] != '`' by {
                    if i < out.len() {
                        assert(next[i] == out[i]);
                    }
                }
            }
        }
        lemma_flat_tick_free(next, lines.drop_first());
    }
}

/// Flattened markdown holds no backtick, whatever the markdown was: inline
/// code, fences and all, the punctuation is gone.
pub proof fn lemma_flatten_has_no_backticks(text: Seq<char>)
    ensures
        tick_free(spec_flatten(text)),
{
    lemma_flat_tick_free(Seq::empty(), lines_of(text));
    lemma_trims_keep_tick_free(flat_all(Seq::empty(), lines_of(text)));
}

/// What a hover answer shows: nothing without `contents`; a string, a
/// `MarkupContent`'s or `MarkedString`'s `value`, or a list of them one per
/// line, flattened; and nothing when that leaves nothing to show.
pub proof fn law_what_a_hover_shows(result: Json, contents: Json, text: Seq<char>)
    ensures
        field(result, "contents"@) is None ==> spec_hover(result) is None,
        field(result, "contents"@) == Some(contents) && (contents matches Json::Str(t) && t@ == text)
            ==> spec_hover(result) == (if spec_flatten(text).len() == 0 {
            None
        } else {
            Some(spec_flatten(text))
        }),
        field(result, "contents"@) == Some(contents) && contents is Object && text_of(
            field(contents, "value"@),
        ) == Some(text) ==> spec_hover(result) == (if spec_flatten(text).len() == 0 {
            None
        } else {
            Some(spec_flatten(text))
        }),
        field(result, "contents"@) == Some(contents) && (contents matches Json::Array(items)
            && joined_with(marked_all(items@), seq!['\n']) == text) ==> spec_hover(result) == (if spec_flatten(
            text,
        ).len() == 0 {
            None
        } else {
            Some(spec_flatten(text))
        }),
        spec_hover(result) matches Some(shown) ==> shown.len() > 0,
{
}

/// One `MarkedString` or `MarkupContent`, as its text.
pub open spec fn spec_marked(v: Json) -> Option<Seq<char>> {
    match v {
        Json::Str(t) => Some(t@),
        other => text_of(field(other, "value"@)),
    }
}

/// The texts of the items that have one, in order.
pub open spec fn marked_all(items: Seq<Json>) -> Seq<Seq<char>>
    decreases items.len(),
{
    if items.len() == 0 {
        Seq::empty()
    } else {
        let rest = marked_all(items.drop_last());
        match spec_marked(items.last()) {
            Some(t) => rest.push(t),
            None => rest,
        }
    }
}

/// The text of a `textDocument/hover` answer: its contents as a string, as
/// a list of marked strings joined by line breaks, or as one marked string
/// or markup; flattened, and nothing when that leaves nothing.
pub open spec fn spec_hover(result: Json) -> Option<Seq<char>> {
    match field(result, "contents"@) {
        None => None,
        Some(contents) => {
            let text = match contents {
                Json::Str(t) => Some(t@),
                Json::Array(items) => Some(joined_with(marked_all(items@), seq!['\n'])),
                other => spec_marked(other),
            };
            match text {
                None => None,
                Some(t) => if spec_flatten(t).len() == 0 {
                    None
                } else {
                    Some(spec_flatten(t))
                },
            }
        },
    }
}

/// One `MarkedString` or `MarkupContent`, as its text.
pub fn marked_string(value: &Json) -> (t: Option<String>)
    ensures
        match t {
            Some(s) => spec_marked(*value) == Some(s@),
            None => spec_marked(*value) is None,
        },
{
    match value {
        Json::Str(text) => Some(text.clone()),
        object => match as_str(get(object, "value")) {
            Some(text) => Some(text.to_owned()),
            None => None,
        },
    }
}

/// The text of a `textDocument/hover` answer.
///
/// The markup is flattened rather than rendered: a terminal box is not where
/// a markdown renderer belongs.
pub fn hover_text(result: &Json) -> (t: Option<String>)
    ensures
        match t {
            Some(s) => spec_hover(*result) == Some(s@),
            None => spec_hover(*result) is None,
        },
{
    let contents = match get(result, "contents") {
        Some(c) => c,
        None => return None,
    };
    let text = match contents {
        Json::Str(text) => text.clone(),
        Json::Array(items) => {
            let mut joined = String::new();
            let mut any = false;
            let mut i: usize = 0;
            while i < items.len()
                invariant
                    i <= items@.len(),
                    joined@ == joined_with(marked_all(items@.take(i as int)), seq!['\n']),
                    any == (marked_all(items@.take(i as int)).len() > 0),
                decreases items@.len() - i,
            {
                proof {
                    assert(items@.take(i as int + 1).drop_last() =~= items@.take(i as int));
                }
                match marked_string(&items[i]) {
                    Some(t) => {
                        let ghost before = marked_all(items@.take(i as int));
                        if any {
                            joined.push('\n');
                        }
                        joined.append(t.as_str());
                        proof {
                            let after = before.push(t@);
                            assert(after.drop_last() =~= before);
                            if before.len() == 0 {
                                assert(joined@ =~= joined_with(after, seq!['\n']));
                            } else {
                                assert(joined@ =~= joined_with(after, seq!['\n']));
                            }
                        }
                        any = true;
                    },
                    None => {},
                }
                i = i + 1;
            }
            assert(items@.take(items@.len() as int) =~= items@);
            joined
        },
        object => match marked_string(object) {
            Some(t) => t,
            None => return None,
        },
    };
    let flat = flatten_markdown(text.as_str());
    if flat.unicode_len() == 0 {
        None
    } else {
        Some(flat)
    }
}

/// Where a `textDocument/definition` answer points: a document and a
/// (line, character) position in it.
#[derive(Debug)]
pub struct Target {
    pub uri: String,
    pub line: u32,
    pub character: u32,
}

/// The entry of a definition answer that is used: the first of a list, the
/// answer itself when it is one location, nothing for null or an empty list.
pub open spec fn first_location(result: Json) -> Option<Json> {
    match result {
        Json::Array(items) => if items@.len() > 0 {
            Some(items@[0])
        } else {
            None
        },
        Json::Null => None,
        other => Some(other),
    }
}

/// The uri and range a location names: a `LocationLink`'s target (its
/// selection range before its whole range), or a `Location`'s own.
pub open spec fn uri_and_range(one: Json) -> Option<(Json, Json)> {
    match field(one, "targetUri"@) {
        Some(uri) => match field(one, "targetSelectionRange"@) {
            Some(range) => Some((uri, range)),
            None => match field(one, "targetRange"@) {
                Some(range) => Some((uri, range)),
                None => None,
            },
        },
        None => match (field(one, "uri"@), field(one, "range"@)) {
            (Some(uri), Some(range)) => Some((uri, range)),
            _ => None,
        },
    }
}

/// The target a definition answer names, its numbers cut to 32 bits.
pub open spec fn spec_definition(result: Json) -> Option<(Seq<char>, u32, u32)> {
    match first_location(result) {
        None => None,
        Some(one) => match uri_and_range(one) {
            None => None,
            Some((uri, range)) => match (text_of(Some(uri)), field(range, "start"@)) {
                (Some(u), Some(start)) => match (
                    unsigned_of(field(start, "line"@)),
                    unsigned_of(field(start, "character"@)),
                ) {
                    (Some(line), Some(character)) => Some((u, line as u32, character as u32)),
                    _ => None,
                },
                _ => None,
            },
        },
    }
}

/// Where a definition answer sends the cursor. No answer (`null`, or an
/// empty list) goes nowhere; a list goes to its first entry. A `Location`
/// goes to the start of its range in its uri; a `LocationLink` to the start
/// of its target's selection range, or of its whole target range when it
/// gives no selection, in its target uri.
pub proof fn law_where_a_definition_goes(
    one: Json,
    list: Json,
    uri: Seq<char>,
    range: Json,
    start: Json,
    line: u64,
    character: u64,
)
    ensures
        spec_definition(Json::Null) is None,
        ({
            let located = field(range, "start"@) == Some(start) && unsigned_of(field(start, "line"@))
                == Some(line) && unsigned_of(field(start, "character"@)) == Some(character);
            let target = Some((uri, line as u32, character as u32));
            &&& (one is Object && field(one, "targetUri"@) is None && text_of(field(one, "uri"@)) == Some(uri)
                && field(one, "range"@) == Some(range) && located) ==> spec_definition(one) == target
            &&& (one is Object && text_of(field(one, "targetUri"@)) == Some(uri) && field(
                one,
                "targetSelectionRange"@,
            ) == Some(range) && located) ==> spec_definition(one) == target
            &&& (one is Object && text_of(field(one, "targetUri"@)) == Some(uri) && field(
                one,
                "targetSelectionRange"@,
            ) is None && field(one, "targetRange"@) == Some(range) && located) ==> spec_definition(one)
                == target
        }),
        list is Array ==> (list->Array_0@.len() == 0 ==> spec_definition(list) is None),
        list is Array ==> (list->Array_0@.len() > 0 && list->Array_0@[0] is Object ==> spec_definition(list)
            == spec_definition(list->Array_0@[0])),
{
}

/// The target a `textDocument/definition` answer names.
///
/// Four shapes are legal: `Location`, `Location[]`, `LocationLink[]` and
/// null. The first entry of a list wins, as a goto has to pick one.
pub fn definition_target(result: &Json) -> (t: Option<Target>)
    ensures
        match t {
            Some(t) => spec_definition(*result) == Some((t.uri@, t.line, t.character)),
            None => spec_definition(*result) is None,
        },
{
    let one = match result {
        Json::Array(items) => {
            if items.len() == 0 {
                return None;
            }
            &items[0]
        },
        Json::Null => return None,
        object => object,
    };
    let (uri, range) = match get(one, "targetUri") {
        Some(uri) => match get(one, "targetSelectionRange") {
            Some(range) => (uri, range),
            None => match get(one, "targetRange") {
                Some(range) => (uri, range),
                None => return None,
            },
        },
        None => match (get(one, "uri"), get(one, "range")) {
            (Some(uri), Some(range)) => (uri, range),
            _ => return None,
        },
    };
    let uri = match as_str(Some(uri)) {
        Some(u) => u,
        None => return None,
    };
    let start = match get(range, "start") {
        Some(s) => s,
        None => return None,
    };
    let line = match as_u64(get(start, "line")) {
        Some(l) => l,
        None => return None,
    };
    let character = match as_u64(get(start, "character")) {
        Some(c) => c,
        None => return None,
    };
    Some(Target { uri: uri.to_owned(), line: line as u32, character: character as u32 })
}

/// What becomes of a request a server sends the editor.
#[derive(Debug, Clone, Copy, PartialEq, Eq, Structural)]
pub enum ServerRequestRoute {
    /// `workspace/configuration`: answered here and now with
    /// [`configuration_reply`], and nothing more comes of it.
    AnswerConfiguration,
    /// Anything else: handed on to whoever drives the servers.
    PassOn,
}

pub open spec fn spec_route_server_request(method: Seq<char>) -> ServerRequestRoute {
    if method == "workspace/configuration"@ {
        ServerRequestRoute::AnswerConfiguration
    } else {
        ServerRequestRoute::PassOn
    }
}

/// Where a request from a server goes, by its method.
pub fn route_server_request(method: &str) -> (r: ServerRequestRoute)
    ensures
        r == spec_route_server_request(method@),
{
    if same_text(method, "workspace/configuration") {
        ServerRequestRoute::AnswerConfiguration
    } else {
        ServerRequestRoute::PassOn
    }
}

/// How many items a `workspace/configuration` request asks about: the
/// length of its `items` list, or none when there is no list.
pub open spec fn spec_items_asked(params: Json) -> nat {
    match field(params, "items"@) {
        Some(Json::Array(items)) => items@.len(),
        _ => 0,
    }
}

/// The answer to `workspace/configuration`: one null per item asked for.
///
/// There are no per-server settings, and a null is "use your default",
/// which is an answer where silence is a hang.
pub fn configuration_reply(params: &Json) -> (reply: Json)
    ensures
        match reply {
            Json::Array(nulls) => nulls@.len() == spec_items_asked(*params) && forall|i: int|
                0 <= i < nulls@.len() ==> nulls@[i] is Null,
            _ => false,
        },
{
    let count = match get(params, "items") {
        Some(Json::Array(items)) => items.len(),
        _ => 0,
    };
    let mut nulls: Vec<Json> = Vec::new();
    let mut i: usize = 0;
    while i < count
        invariant
            i <= count,
            nulls@.len() == i,
            forall|j: int| 0 <= j < i ==> nulls@[j] is Null,
        decreases count - i,
    {
        nulls.push(Json::Null);
        i = i + 1;
    }
    Json::Array(nulls)
}

/// Why a question could not be asked. Each is an ordinary state that the
/// status bar says a sentence about.
#[derive(Debug, Clone, Copy, PartialEq, Eq, Structural)]
pub enum NoAnswer {
    /// Nothing is configured for this file, or it would not start.
    NoServer,
    /// It is up and has not finished the handshake.
    NotReady,
    /// It answered the handshake and does not offer this.
    Unsupported,
}

/// What the status bar says for each.
pub open spec fn no_answer_text(n: NoAnswer) -> Seq<char> {
    match n {
        NoAnswer::NoServer => "No language server for this file."@,
        NoAnswer::NotReady => "The language server is still starting."@,
        NoAnswer::Unsupported => "This language server does not offer that."@,
    }
}

impl NoAnswer {
    /// What the status bar says.
    pub fn message(self) -> (m: &'static str)
        ensures
            m@ == no_answer_text(self),
    {
        match self {
            NoAnswer::NoServer => "No language server for this file.",
            NoAnswer::NotReady => "The language server is still starting.",
            NoAnswer::Unsupported => "This language server does not offer that.",
        }
    }
}

/// What was asked.
#[derive(Debug, Clone, Copy, PartialEq, Eq, Structural)]
pub enum Ask {
    Definition,
    Hover,
}

/// The capability a server must advertise to be asked.
pub open spec fn capability_of(kind: Ask) -> Seq<char> {
    match kind {
        Ask::Definition => "definitionProvider"@,
        Ask::Hover => "hoverProvider"@,
    }
}

/// The request that asks it.
pub open spec fn method_of(kind: Ask) -> Seq<char> {
    match kind {
        Ask::Definition => "textDocument/definition"@,
        Ask::Hover => "textDocument/hover"@,
    }
}

impl Ask {
    pub fn capability(self) -> (c: &'static str)
        ensures
            c@ == capability_of(self),
    {
        match self {
            Ask::Definition => "definitionProvider",
            Ask::Hover => "hoverProvider",
        }
    }

    pub fn method(self) -> (m: &'static str)
        ensures
            m@ == method_of(self),
    {
        match self {
            Ask::Definition => "textDocument/definition",
            Ask::Hover => "textDocument/hover",
        }
    }
}

/// Whether a question can be asked, from what is known of the document's
/// server: none, one not running, one not yet through the handshake, one
/// that does not offer it, in that order of precedence.
pub open spec fn spec_may_ask(known: bool, running: bool, initialized: bool, supports: bool) -> Result<
    (),
    NoAnswer,
> {
    if !known || !running {
        Err(NoAnswer::NoServer)
    } else if !initialized {
        Err(NoAnswer::NotReady)
    } else if !supports {
        Err(NoAnswer::Unsupported)
    } else {
        Ok(())
    }
}

/// Whether a question can be asked of the server that holds a document.
pub fn may_ask(known: bool, running: bool, initialized: bool, supports: bool) -> (r: Result<
    (),
    NoAnswer,
>)
    ensures
        r == spec_may_ask(known, running, initialized, supports),
{
    if !known || !running {
        Err(NoAnswer::NoServer)
    } else if !initialized {
        Err(NoAnswer::NotReady)
    } else if !supports {
        Err(NoAnswer::Unsupported)
    } else {
        Ok(())
    }
}

/// The editor's four severities.
#[derive(Debug, Clone, Copy, PartialEq, Eq, Structural)]
pub enum Severity {
    Error,
    Warning,
    Information,
    Hint,
}

/// The protocol's number as one of the four. Anything unrecognised is a
/// warning, not a discard: an undefined number is still the server saying
/// something is wrong with that range, and so is an absent one.
pub open spec fn spec_severity(n: Option<u32>) -> Severity {
    match n {
        Some(1) => Severity::Error,
        Some(3) => Severity::Information,
        Some(4) => Severity::Hint,
        _ => Severity::Warning,
    }
}

/// The protocol numbers its severities 1 error, 2 warning, 3 information,
/// 4 hint; anything else, or none, is read as a warning.
pub proof fn law_severity_numbers(n: Option<u32>)
    ensures
        spec_severity(Some(1)) == Severity::Error,
        spec_severity(Some(2)) == Severity::Warning,
        spec_severity(Some(3)) == Severity::Information,
        spec_severity(Some(4)) == Severity::Hint,
        !(n == Some(1u32) || n == Some(3u32) || n == Some(4u32)) ==> spec_severity(n)
            == Severity::Warning,
{
}

/// A question goes out only to a known, running server that has finished
/// its handshake and offers it; otherwise the first thing missing, in that
/// order, is the reason given. A hover is offered under `hoverProvider` and
/// asked as `textDocument/hover`, a definition under `definitionProvider`
/// as `textDocument/definition`.
pub proof fn law_when_a_question_is_asked(known: bool, running: bool, initialized: bool, supports: bool)
    ensures
        spec_may_ask(known, running, initialized, supports) is Ok <==> known && running && initialized
            && supports,
        spec_may_ask(known, running, initialized, supports) == Err::<(), NoAnswer>(NoAnswer::NoServer)
            <==> !known || !running,
        spec_may_ask(known, running, initialized, supports) == Err::<(), NoAnswer>(NoAnswer::NotReady)
            <==> known && running && !initialized,
        spec_may_ask(known, running, initialized, supports) == Err::<(), NoAnswer>(
            NoAnswer::Unsupported,
        ) <==> known && running && initialized && !supports,
        capability_of(Ask::Hover) == "hoverProvider"@,
        capability_of(Ask::Definition) == "definitionProvider"@,
        method_of(Ask::Hover) == "textDocument/hover"@,
        method_of(Ask::Definition) == "textDocument/definition"@,
        no_answer_text(NoAnswer::NoServer) == "No language server for this file."@,
        no_answer_text(NoAnswer::NotReady) == "The language server is still starting."@,
        no_answer_text(NoAnswer::Unsupported) == "This language server does not offer that."@,
{
}

/// The protocol's `DiagnosticSeverity` as one of the four.
pub fn severity(n: Option<u32>) -> (s: Severity)
    ensures
        s == spec_severity(n),
{
    match n {
        Some(1) => Severity::Error,
        Some(3) => Severity::Information,
        Some(4) => Severity::Hint,
        _ => Severity::Warning,
    }
}

/// A JSON number holding `n`.
fn number(n: u64) -> (j: Json)
    ensures
        unsigned_of(Some(j)) == Some(n),
        j matches Json::Number(k) && k.text@ == decimal(n as nat),
{
    let mut text = String::new();
    push_decimal(&mut text, n);
    Json::Number(JsonNumber { unsigned: Some(n), text })
}

/// The parameters of a question about a position in a document:
/// `{"textDocument": {"uri": ..}, "position": {"line": .., "character": ..}}`.
pub fn ask_params(uri: &str, line: u32, character: u32) -> (p: Json)
    ensures
        (match field(p, "textDocument"@) {
            Some(doc) => text_of(field(doc, "uri"@)) == Some(uri@),
            None => false,
        }),
        (match field(p, "position"@) {
            Some(pos) => unsigned_of(field(pos, "line"@)) == Some(line as u64) && unsigned_of(
                field(pos, "character"@),
            ) == Some(character as u64),
            None => false,
        }),
{
    let mut doc: Vec<(String, Json)> = Vec::new();
    doc.push(("uri".to_owned(), Json::Str(uri.to_owned())));
    let mut pos: Vec<(String, Json)> = Vec::new();
    pos.push(("line".to_owned(), number(line as u64)));
    pos.push(("character".to_owned(), number(character as u64)));
    let mut top: Vec<(String, Json)> = Vec::new();
    top.push(("textDocument".to_owned(), Json::Object(doc)));
    top.push(("position".to_owned(), Json::Object(pos)));
    let p = Json::Object(top);
    proof {
        reveal_strlit("uri");
        reveal_strlit("line");
        reveal_strlit("character");
        reveal_strlit("textDocument");
        reveal_strlit("position");
        assert(top@[1].0@ == "position"@);
        assert("position"@.len() != "textDocument"@.len());
        assert(top@[1].0@ != "textDocument"@);
        assert(top@.drop_first()[0] == top@[1]);
        assert(pos@.drop_first()[0] == pos@[1]);
        assert(pos@[0].0@ == "line"@);
        assert("line"@.len() != "character"@.len());
        assert(pos@[0].0@ != "character"@);
        assert(top@[0].0@ == "textDocument"@);
        assert(top@[0].0@ != "position"@);
        assert(member(top@, "position"@) == member(top@.drop_first(), "position"@));
        assert(member(top@.drop_first(), "position"@) == Some(Json::Object(pos)));
        assert(member(pos@, "character"@) == member(pos@.drop_first(), "character"@));
    }
    p
}

/// A diagnostic's message, in either of the shapes the protocol allows.
#[derive(Debug)]
pub enum Message {
    Text(String),
    /// Markup; its kind is dropped, since painting markdown's punctuation is
    /// worse than painting none.
    Markup { kind: String, value: String },
}

/// A diagnostic's message as text.
pub fn message(m: &Message) -> (text: String)
    ensures
        text@ == (match m {
            Message::Text(t) => t@,
            Message::Markup { value, .. } => value@,
        }),
{
    match m {
        Message::Text(t) => t.clone(),
        Message::Markup { value, .. } => value.clone(),
    }
}

} // verus!

//! Text primitives the rest of the library builds on: the Unicode facts that
//! come from outside crates, and decimal formatting.

use unicode_segmentation::UnicodeSegmentation;
use vstd::prelude::*;

verus! {

/// The columns a terminal gives a string, as `unicode-width` measures it.
pub uninterp spec fn display_width_of(s: Seq<char>) -> usize;

/// The extended grapheme clusters of a string, as `unicode-segmentation`
/// splits it.
pub uninterp spec fn graphemes_of(s: Seq<char>) -> Seq<Seq<char>>;

/// An optional string as its text.
pub open spec fn opt_text(o: Option<String>) -> Option<Seq<char>> {
    match o {
        Some(s) => Some(s@),
        None => None,
    }
}

/// Joins a sequence of strings end to end.
pub open spec fn concat_all(parts: Seq<Seq<char>>) -> Seq<char>
    decreases parts.len(),
{
    if parts.len() == 0 {
        Seq::empty()
    } else {
        concat_all(parts.drop_last()) + parts.last()
    }
}

/// Calls `unicode_width::UnicodeWidthStr::width`. The contract claims only
/// that the result is a function of the string's characters.
#[verifier::external_body]
pub(crate) fn display_width(s: &str) -> (w: usize)
    ensures
        w == display_width_of(s@),
{
    unicode_width::UnicodeWidthStr::width(s)
}

/// Calls `unicode_segmentation::UnicodeSegmentation::graphemes` with extended
/// clusters and collects them. The contract claims that the result is a
/// function of the string, and what the crate documents of every split: the
/// clusters are non-empty and, joined in order, give back the string.
#[verifier::external_body]
pub(crate) fn graphemes(s: &str) -> (parts: Vec<String>)
    ensures
        parts@.map_values(|p: String| p@) == graphemes_of(s@),
        concat_all(parts@.map_values(|p: String| p@)) == s@,
        forall|i: int| 0 <= i < parts@.len() ==> (#[trigger] parts@[i])@.len() > 0,
{
    s.graphemes(true).map(|g| g.to_string()).collect()
}

/// `String::push` appends one character.
pub assume_specification[ std::string::String::push ](s: &mut std::string::String, ch: char)
    ensures
        final(s)@ == old(s)@.push(ch),
;

/// The decimal digits of a number, most significant first, with no leading
/// zeros; zero is written as a single `0`.
pub open spec fn decimal(n: nat) -> Seq<char>
    decreases n,
{
    if n < 10 {
        seq![digit_char(n)]
    } else {
        decimal(n / 10).push(digit_char(n % 10))
    }
}

/// The number a run of decimal digits spells, most significant first.
pub open spec fn spelled(digits: Seq<char>) -> int
    decreases digits.len(),
{
    if digits.len() == 0 {
        0
    } else {
        spelled(digits.drop_last()) * 10 + (digits.last() as int - '0' as int)
    }
}

/// A number is written in decimal: only the digits `0` to `9`, at least one,
/// no leading zero but in `0` itself, and they spell the number back.
pub proof fn law_decimal_spells_the_number(n: nat)
    ensures
        decimal(n).len() > 0,
        forall|i: int| 0 <= i < decimal(n).len() ==> '0' <= #[trigger] decimal(n)[i] <= '9',
        n > 0 ==> decimal(n)[0] != '0',
        spelled(decimal(n)) == n,
    decreases n,
{
    lemma_digit_value(n % 10);
    if n < 10 {
        assert(decimal(n) == seq![digit_char(n)]);
        assert(decimal(n).drop_last() =~= Seq::<char>::empty());
        assert(spelled(Seq::<char>::empty()) == 0);
        assert(n % 10 == n);
    } else {
        law_decimal_spells_the_number(n / 10);
        let d = decimal(n);
        let head = decimal(n / 10);
        assert(d == head.push(digit_char(n % 10)));
        assert(d.drop_last() =~= head);
        assert(d[0] == head[0]);
        assert forall|i: int| 0 <= i < d.len() implies '0' <= #[trigger] d[i] <= '9' by {
            if i < head.len() {
                assert(d[i] == head[i]);
            }
        }
        assert(n == (n / 10) * 10 + n % 10);
        assert(d.last() == digit_char(n % 10));
        assert(spelled(d) == spelled(head) * 10 + (digit_char(n % 10) as int - '0' as int));
    }
}

proof fn lemma_digit_value(k: nat)
    requires
        k < 10,
    ensures
        digit_char(k) as int - '0' as int == k,
        '0' <= digit_char(k) <= '9',
        k > 0 ==> digit_char(k) != '0',
{
}

/// The character for one decimal digit.
pub open spec fn digit_char(d: nat) -> char {
    if d == 0 {
        '0'
    } else if d == 1 {
        '1'
    } else if d == 2 {
        '2'
    } else if d == 3 {
        '3'
    } else if d == 4 {
        '4'
    } else if d == 5 {
        '5'
    } else if d == 6 {
        '6'
    } else if d == 7 {
        '7'
    } else if d == 8 {
        '8'
    } else {
        '9'
    }
}

fn digit(d: u64) -> (c: char)
    requires
        d < 10,
    ensures
        c == digit_char(d as nat),
{
    match d {
        0 => '0',
        1 => '1',
        2 => '2',
        3 => '3',
        4 => '4',
        5 => '5',
        6 => '6',
        7 => '7',
        8 => '8',
        _ => '9',
    }
}

/// Appends the decimal digits of `n` to `out`.
pub fn push_decimal(out: &mut String, n: u64)
    ensures
        final(out)@ == old(out)@ + decimal(n as nat),
    decreases n,
{
    if n < 10 {
        out.push(digit(n));
    } else {
        push_decimal(out, n / 10);
        out.push(digit(n % 10));
    }
}

/// Appends the decimal digits of `n`, zero-padded on the left to `width`.
pub fn push_padded(out: &mut String, n: u64, width: usize)
    ensures
        final(out)@ == old(out)@ + padded(n as nat, width as nat),
{
    let mut digits = String::new();
    push_decimal(&mut digits, n);
    assert(digits@ =~= decimal(n as nat));
    let need = digits.as_str().unicode_len();
    let zeros: usize = if need < width { width - need } else { 0 };
    let ghost start = old(out)@;
    let mut pad: usize = 0;
    while pad < zeros
        invariant
            pad <= zeros,
            out@ == start + Seq::new(pad as nat, |i: int| '0'),
        decreases zeros - pad,
    {
        out.push('0');
        pad = pad + 1;
        assert(out@ =~= start + Seq::new(pad as nat, |i: int| '0'));
    }
    out.append(digits.as_str());
    assert(out@ =~= start + padded(n as nat, width as nat));
}

/// `n` in decimal, with leading zeros up to `width` digits.
pub open spec fn padded(n: nat, width: nat) -> Seq<char> {
    let digits = decimal(n);
    let zeros: nat = if digits.len() < width { (width - digits.len()) as nat } else { 0 };
    Seq::new(zeros, |i: int| '0') + digits
}

proof fn lemma_zeros_spell_nothing(zeros: nat, digits: Seq<char>)
    ensures
        spelled(Seq::new(zeros, |i: int| '0') + digits) == spelled(digits),
    decreases digits.len() + zeros,
{
    let z = Seq::new(zeros, |i: int| '0');
    if digits.len() > 0 {
        lemma_zeros_spell_nothing(zeros, digits.drop_last());
        assert((z + digits).drop_last() =~= z + digits.drop_last());
    } else if zeros > 0 {
        lemma_zeros_spell_nothing((zeros - 1) as nat, digits);
        assert((z + digits).drop_last() =~= Seq::new((zeros - 1) as nat, |i: int| '0') + digits);
    } else {
        assert(z + digits =~= digits);
    }
}

/// A number below `10^width` padded to `width` digits is exactly `width`
/// digits long and spells the number, its leading zeros adding nothing.
pub proof fn law_padded_spells_the_number(n: nat, width: nat)
    requires
        (width == 2 && n < 100) || (width == 3 && n < 1000),
    ensures
        padded(n, width).len() == width,
        spelled(padded(n, width)) == n,
        forall|i: int| 0 <= i < width ==> '0' <= #[trigger] padded(n, width)[i] <= '9',
{
    law_decimal_spells_the_number(n);
    if n >= 10 {
        law_decimal_spells_the_number(n / 10);
        if n / 10 >= 10 {
            law_decimal_spells_the_number(n / 100);
            assert(n / 10 / 10 == n / 100);
        }
    }
    let d = decimal(n);
    let zeros: nat = if d.len() < width { (width - d.len()) as nat } else { 0 };
    lemma_zeros_spell_nothing(zeros, d);
    let p = padded(n, width);
    assert forall|i: int| 0 <= i < width implies '0' <= #[trigger] p[i] <= '9' by {
        if i >= zeros {
            assert(p[i] == d[i - zeros]);
        }
    }
}

/// The character ASCII-lower-cased; anything not an ASCII capital is itself.
pub open spec fn ascii_lower(c: char) -> char {
    if 'A' <= c <= 'Z' {
        ((c as u32) + 32) as char
    } else {
        c
    }
}

/// `a` and `b` are the same text once ASCII letters are lower-cased.
pub open spec fn same_ignoring_ascii_case(a: Seq<char>, b: Seq<char>) -> bool {
    a.len() == b.len() && forall|i: int| 0 <= i < a.len() ==> ascii_lower(a[i]) == ascii_lower(b[i])
}

/// `needle` occurs in `hay`.
pub open spec fn occurs_in(needle: Seq<char>, hay: Seq<char>) -> bool {
    exists|i: int| #[trigger] occurs_at(needle, hay, i)
}

/// `needle` occurs in `hay` starting at `i`.
pub open spec fn occurs_at(needle: Seq<char>, hay: Seq<char>, i: int) -> bool {
    0 <= i && i + needle.len() <= hay.len() && hay.subrange(i, i + needle.len()) == needle
}

/// `s` begins with `prefix`.
pub open spec fn begins_with(s: Seq<char>, prefix: Seq<char>) -> bool {
    prefix.len() <= s.len() && s.subrange(0, prefix.len() as int) == prefix
}

fn lower(c: char) -> (l: char)
    ensures
        l == ascii_lower(c),
{
    if 'A' <= c && c <= 'Z' {
        let b = (c as u8) + 32;
        b as char
    } else {
        c
    }
}

/// The characters of a string.
pub fn chars_of(s: &str) -> (v: Vec<char>)
    ensures
        v@ == s@,
{
    let n = s.unicode_len();
    let mut v: Vec<char> = Vec::new();
    let mut i: usize = 0;
    while i < n
        invariant
            i <= n,
            n == s@.len(),
            v@ == s@.take(i as int),
        decreases n - i,
    {
        v.push(s.get_char(i));
        i = i + 1;
        assert(v@ =~= s@.take(i as int));
    }
    assert(s@.take(n as int) =~= s@);
    v
}

/// `str::eq_ignore_ascii_case`: equal once ASCII letters are lower-cased.
pub fn eq_ignore_ascii_case(a: &str, b: &str) -> (same: bool)
    ensures
        same == same_ignoring_ascii_case(a@, b@),
{
    let x = chars_of(a);
    let y = chars_of(b);
    if x.len() != y.len() {
        return false;
    }
    let mut i: usize = 0;
    while i < x.len()
        invariant
            i <= x@.len(),
            x@ == a@,
            y@ == b@,
            x@.len() == y@.len(),
            forall|j: int| 0 <= j < i ==> ascii_lower(x@[j]) == ascii_lower(y@[j]),
        decreases x@.len() - i,
    {
        if lower(x[i]) != lower(y[i]) {
            return false;
        }
        i = i + 1;
    }
    true
}

/// `str::starts_with` for a string pattern.
pub fn starts_with(s: &str, prefix: &str) -> (yes: bool)
    ensures
        yes == begins_with(s@, prefix@),
{
    let x = chars_of(s);
    let p = chars_of(prefix);
    if p.len() > x.len() {
        return false;
    }
    let mut i: usize = 0;
    while i < p.len()
        invariant
            i <= p@.len() <= x@.len(),
            x@ == s@,
            p@ == prefix@,
            forall|j: int| 0 <= j < i ==> x@[j] == p@[j],
        decreases p@.len() - i,
    {
        if x[i] != p[i] {
            assert(s@.subrange(0, prefix@.len() as int)[i as int] != prefix@[i as int]);
            return false;
        }
        i = i + 1;
    }
    assert(s@.subrange(0, prefix@.len() as int) =~= prefix@);
    true
}

/// `str::contains` for a string pattern.
pub fn contains(hay: &str, needle: &str) -> (found: bool)
    ensures
        found == occurs_in(needle@, hay@),
{
    let h = chars_of(hay);
    let n = chars_of(needle);
    if n.len() > h.len() {
        return false;
    }
    let hl = h.len();
    let last = hl - n.len();
    let mut at: usize = 0;
    while at <= last
        invariant
            at <= last + 1,
            last + n@.len() == h@.len(),
            h@.len() == hl,
            h@ == hay@,
            n@ == needle@,
            forall|i: int| 0 <= i < at ==> !#[trigger] occurs_at(needle@, hay@, i),
        decreases last + 1 - at,
    {
        let mut j: usize = 0;
        let mut matched = true;
        while j < n.len()
            invariant
                j <= n@.len(),
                at + n@.len() <= h@.len(),
                h@.len() == hl,
                matched == (forall|k: int| 0 <= k < j ==> h@[at + k] == n@[k]),
            decreases n@.len() - j,
        {
            if h[at + j] != n[j] {
                matched = false;
            }
            j = j + 1;
        }
        if matched {
            assert(hay@.subrange(at as int, at + needle@.len()) =~= needle@);
            assert(occurs_at(needle@, hay@, at as int));
            return true;
        }
        proof {
            let k = choose|k: int| 0 <= k < n@.len() && h@[at + k] != n@[k];
            assert(hay@.subrange(at as int, at + needle@.len())[k] != needle@[k]);
        }
        at = at + 1;
    }
    proof {
        assert forall|i: int| !#[trigger] occurs_at(needle@, hay@, i) by {
            if 0 <= i && i + needle@.len() <= hay@.len() {
                assert(i < at);
            }
        }
    }
    false
}

/// Two strings hold the same characters.
pub fn same_text(a: &str, b: &str) -> (same: bool)
    ensures
        same == (a@ == b@),
{
    let x = chars_of(a);
    let y = chars_of(b);
    if x.len() != y.len() {
        return false;
    }
    let mut i: usize = 0;
    while i < x.len()
        invariant
            i <= x@.len(),
            x@ == a@,
            y@ == b@,
            x@.len() == y@.len(),
            forall|j: int| 0 <= j < i ==> x@[j] == y@[j],
        decreases x@.len() - i,
    {
        if x[i] != y[i] {
            assert(a@[i as int] != b@[i as int]);
            return false;
        }
        i = i + 1;
    }
    assert(a@ =~= b@);
    true
}

/// `char::is_whitespace`: the Unicode `White_Space` property, which these
/// twenty-five code points have.
pub open spec fn white(c: char) -> bool {
    let n = c as u32;
    ||| 0x09 <= n <= 0x0D
    ||| n == 0x20
    ||| n == 0x85
    ||| n == 0xA0
    ||| n == 0x1680
    ||| 0x2000 <= n <= 0x200A
    ||| n == 0x2028
    ||| n == 0x2029
    ||| n == 0x202F
    ||| n == 0x205F
    ||| n == 0x3000
}

/// `char::is_whitespace`: whether `c` has the `White_Space` property.
pub(crate) fn is_whitespace(c: char) -> (b: bool)
    ensures
        b == white(c),
{
    let n = c as u32;
    (0x09 <= n && n <= 0x0D) || n == 0x20 || n == 0x85 || n == 0xA0 || n == 0x1680 || (0x2000 <= n
        && n <= 0x200A) || n == 0x2028 || n == 0x2029 || n == 0x202F || n == 0x205F || n == 0x3000
}

/// The text with leading whitespace removed.
pub open spec fn trim_start_seq(s: Seq<char>) -> Seq<char>
    decreases s.len(),
{
    if s.len() > 0 && white(s[0]) {
        trim_start_seq(s.drop_first())
    } else {
        s
    }
}

/// The text with trailing whitespace removed.
pub open spec fn trim_end_seq(s: Seq<char>) -> Seq<char>
    decreases s.len(),
{
    if s.len() > 0 && white(s.last()) {
        trim_end_seq(s.drop_last())
    } else {
        s
    }
}

proof fn lemma_trim_start(s: Seq<char>) -> (k: int)
    ensures
        0 <= k <= s.len(),
        trim_start_seq(s) == s.subrange(k, s.len() as int),
        forall|i: int| 0 <= i < k ==> white(#[trigger] s[i]),
        k < s.len() ==> !white(s[k]),
    decreases s.len(),
{
    if s.len() > 0 && white(s[0]) {
        let j = lemma_trim_start(s.drop_first());
        assert(s.drop_first().subrange(j, s.drop_first().len() as int) =~= s.subrange(j + 1, s.len() as int));
        assert forall|i: int| 0 <= i < j + 1 implies white(#[trigger] s[i]) by {
            if i > 0 {
                assert(s[i] == s.drop_first()[i - 1]);
            }
        }
        j + 1
    } else {
        assert(s.subrange(0, s.len() as int) =~= s);
        0
    }
}

proof fn lemma_trim_end(s: Seq<char>) -> (k: int)
    ensures
        0 <= k <= s.len(),
        trim_end_seq(s) == s.subrange(0, k),
        forall|i: int| k <= i < s.len() ==> white(#[trigger] s[i]),
        k > 0 ==> !white(s[k - 1]),
    decreases s.len(),
{
    if s.len() > 0 && white(s.last()) {
        let j = lemma_trim_end(s.drop_last());
        assert(s.drop_last().subrange(0, j) =~= s.subrange(0, j));
        assert forall|i: int| j <= i < s.len() implies white(#[trigger] s[i]) by {
            if i < s.len() - 1 {
                assert(s[i] == s.drop_last()[i]);
            }
        }
        j
    } else {
        assert(s.subrange(0, s.len() as int) =~= s);
        s.len() as int
    }
}

/// Trimming takes whitespace off both ends and nothing else: what is left
/// is a run of the text whose first and last characters are not whitespace,
/// and everything before and after it is.
pub proof fn law_trim_takes_only_whitespace(s: Seq<char>)
    ensures
        exists|a: int, b: int|
            0 <= a <= b <= s.len() && trim_seq(s) == s.subrange(a, b) && (forall|i: int|
                0 <= i < a ==> white(#[trigger] s[i])) && (forall|i: int|
                b <= i < s.len() ==> white(#[trigger] s[i])),
        trim_seq(s).len() > 0 ==> !white(trim_seq(s)[0]) && !white(trim_seq(s).last()),
{
    let a = lemma_trim_start(s);
    let t = trim_start_seq(s);
    let e = lemma_trim_end(t);
    let b = a + e;
    assert(trim_seq(s) =~= s.subrange(a, b));
    assert forall|i: int| b <= i < s.len() implies white(#[trigger] s[i]) by {
        assert(s[i] == t[i - a]);
    }
    if trim_seq(s).len() > 0 {
        assert(trim_seq(s)[0] == t[0]);
        assert(t[0] == s[a]);
    }
}

/// Lower-casing touches the capitals `A` to `Z` only, each to its own small
/// letter, thirty-two code points on.
pub proof fn law_ascii_lower(c: char)
    ensures
        'A' <= c <= 'Z' ==> ascii_lower(c) as u32 == c as u32 + 32 && 'a' <= ascii_lower(c) <= 'z',
        !('A' <= c <= 'Z') ==> ascii_lower(c) == c,
{
}

/// The text with whitespace removed from both ends.
pub open spec fn trim_seq(s: Seq<char>) -> Seq<char> {
    trim_end_seq(trim_start_seq(s))
}

/// Where the leading whitespace of `s` ends.
fn leading_white(s: &Vec<char>) -> (k: usize)
    ensures
        k <= s@.len(),
        trim_start_seq(s@) == s@.subrange(k as int, s@.len() as int),
{
    let mut i: usize = 0;
    assert(s@.subrange(0, s@.len() as int) =~= s@);
    while i < s.len() && is_whitespace(s[i])
        invariant
            i <= s@.len(),
            trim_start_seq(s@) == trim_start_seq(s@.subrange(i as int, s@.len() as int)),
        decreases s@.len() - i,
    {
        assert(s@.subrange(i as int, s@.len() as int).drop_first() =~= s@.subrange(
            i as int + 1,
            s@.len() as int,
        ));
        i = i + 1;
    }
    i
}

/// Where the trailing whitespace of `s[..end]` begins.
fn trailing_white(s: &Vec<char>, end: usize) -> (k: usize)
    requires
        end <= s@.len(),
    ensures
        k <= end,
        trim_end_seq(s@.subrange(0, end as int)) == s@.subrange(0, k as int),
{
    let mut i: usize = end;
    while i > 0 && is_whitespace(s[i - 1])
        invariant
            i <= end <= s@.len(),
            trim_end_seq(s@.subrange(0, end as int)) == trim_end_seq(s@.subrange(0, i as int)),
        decreases i,
    {
        assert(s@.subrange(0, i as int).drop_last() =~= s@.subrange(0, i - 1));
        i = i - 1;
    }
    i
}

/// A run of characters as a string.
pub fn string_of(s: &Vec<char>, from: usize, to: usize) -> (out: String)
    requires
        from <= to <= s@.len(),
    ensures
        out@ == s@.subrange(from as int, to as int),
{
    let mut out = String::new();
    let mut i = from;
    while i < to
        invariant
            from <= i <= to <= s@.len(),
            out@ == s@.subrange(from as int, i as int),
        decreases to - i,
    {
        out.push(s[i]);
        i = i + 1;
        assert(out@ =~= s@.subrange(from as int, i as int));
    }
    out
}

/// `str::trim`: whitespace removed from both ends.
pub fn trim(text: &str) -> (t: String)
    ensures
        t@ == trim_seq(text@),
{
    let s = chars_of(text);
    let start = leading_white(&s);
    let rest: Vec<char> = {
        let mut r: Vec<char> = Vec::new();
        let mut i = start;
        while i < s.len()
            invariant
                start <= i <= s@.len(),
                r@ == s@.subrange(start as int, i as int),
            decreases s@.len() - i,
        {
            r.push(s[i]);
            i = i + 1;
            assert(r@ =~= s@.subrange(start as int, i as int));
        }
        r
    };
    assert(rest@.subrange(0, rest@.len() as int) =~= rest@);
    let end = trailing_white(&rest, rest.len());
    string_of(&rest, 0, end)
}

/// `str::trim_end`: trailing whitespace removed.
pub fn trim_end(s: &Vec<char>) -> (t: String)
    ensures
        t@ == trim_end_seq(s@),
{
    assert(s@.subrange(0, s@.len() as int) =~= s@);
    let end = trailing_white(s, s.len());
    string_of(s, 0, end)
}

/// `str::trim_start` of a run of characters.
pub fn trim_start(s: &Vec<char>) -> (t: Vec<char>)
    ensures
        t@ == trim_start_seq(s@),
{
    let start = leading_white(s);
    let mut r: Vec<char> = Vec::new();
    let mut i = start;
    while i < s.len()
        invariant
            start <= i <= s@.len(),
            r@ == s@.subrange(start as int, i as int),
        decreases s@.len() - i,
    {
        r.push(s[i]);
        i = i + 1;
        assert(r@ =~= s@.subrange(start as int, i as int));
    }
    r
}

/// The text up to, not including, its first whitespace.
pub open spec fn up_to_white(s: Seq<char>) -> Seq<char>
    decreases s.len(),
{
    if s.len() == 0 || white(s[0]) {
        Seq::empty()
    } else {
        seq![s[0]] + up_to_white(s.drop_first())
    }
}

/// `s.split_whitespace().next()`: the first word, if there is one.
pub open spec fn first_word(s: Seq<char>) -> Option<Seq<char>> {
    let t = trim_start_seq(s);
    if t.len() == 0 {
        None
    } else {
        Some(up_to_white(t))
    }
}

/// The first whitespace-separated word of a string.
pub fn first_word_of(text: &str) -> (w: Option<String>)
    ensures
        opt_text(w) == first_word(text@),
{
    let s = chars_of(text);
    let t = trim_start(&s);
    if t.len() == 0 {
        return None;
    }
    let mut i: usize = 0;
    assert(t@.skip(0) =~= t@);
    while i < t.len() && !is_whitespace(t[i])
        invariant
            i <= t@.len(),
            up_to_white(t@) == t@.subrange(0, i as int) + up_to_white(t@.skip(i as int)),
        decreases t@.len() - i,
    {
        assert(t@.skip(i as int).drop_first() =~= t@.skip(i as int + 1));
        assert(t@.subrange(0, i as int + 1) =~= t@.subrange(0, i as int) + seq![t@[i as int]]);
        i = i + 1;
    }
    proof {
        if i < t@.len() {
            assert(white(t@.skip(i as int)[0]));
        } else {
            assert(t@.skip(i as int).len() == 0);
        }
        assert(up_to_white(t@) =~= t@.subrange(0, i as int));
    }
    Some(string_of(&t, 0, i))
}

} // verus!

//! What the terminal can actually show, decided from the variables that carry
//! the answer.
//!
//! Every input is an argument: environment is global, and a decision that
//! reads it cannot be asked about one terminal while another is running.

pub use crate::backend::Underlines;
use crate::text::{
    begins_with,
    contains,
    eq_ignore_ascii_case,
    occurs_in,
    same_ignoring_ascii_case,
    starts_with,
};
use vstd::prelude::*;

verus! {

/// How many colours the terminal renders. Themes are written in truecolor and
/// brought down once, at startup, when the terminal cannot show them.
#[derive(Debug, Clone, Copy, PartialEq, Eq, Structural)]
pub enum Depth {
    TrueColor,
    Ansi256,
}

/// A variable that is set to something: set-but-empty is not a claim, since
/// scripts export variables unconditionally.
pub open spec fn claims(v: Option<&str>) -> bool {
    v is Some && v.unwrap()@.len() > 0
}

/// `COLORTERM` says 24-bit, in either of its two de-facto spellings.
pub open spec fn claims_truecolor(colorterm: Option<&str>) -> bool {
    colorterm is Some && (same_ignoring_ascii_case(colorterm.unwrap()@, "truecolor"@)
        || same_ignoring_ascii_case(colorterm.unwrap()@, "24bit"@))
}

/// `TERM` names a terminfo direct-colour entry.
pub open spec fn direct_colour_entry(term: Option<&str>) -> bool {
    term is Some && occurs_in("-direct"@, term.unwrap()@)
}

/// Truecolor exactly when `COLORTERM` claims it, `TERM` is a direct-colour
/// entry, or the terminal is Windows Terminal; 256 colours otherwise, which is
/// the floor.
pub open spec fn spec_depth_from(
    colorterm: Option<&str>,
    term: Option<&str>,
    wt_session: Option<&str>,
) -> Depth {
    if claims_truecolor(colorterm) || direct_colour_entry(term) || claims(wt_session) {
        Depth::TrueColor
    } else {
        Depth::Ansi256
    }
}

fn is_claim(v: Option<&str>) -> (b: bool)
    ensures
        b == claims(v),
{
    match v {
        Some(value) => value.unicode_len() > 0,
        None => false,
    }
}

/// Decide the colour depth from `COLORTERM`, `TERM` and `WT_SESSION`.
///
/// `COLORTERM` outranks `TERM`, which rarely encodes truecolor accurately. A
/// multiplexer is not special-cased: nothing in the environment separates a
/// tmux configured to forward truecolor from one that is not.
pub fn depth_from(colorterm: Option<&str>, term: Option<&str>, wt_session: Option<&str>) -> (d:
    Depth)
    ensures
        d == spec_depth_from(colorterm, term, wt_session),
{
    let claims_truecolor = match colorterm {
        Some(value) => eq_ignore_ascii_case(value, "truecolor") || eq_ignore_ascii_case(
            value,
            "24bit",
        ),
        None => false,
    };
    let windows_terminal = is_claim(wt_session);
    let direct_colour_entry = match term {
        Some(value) => contains(value, "-direct"),
        None => false,
    };
    if claims_truecolor || direct_colour_entry || windows_terminal {
        return Depth::TrueColor;
    }
    Depth::Ansi256
}

/// `TERM` names a multiplexer, which describes itself and not the terminal.
pub open spec fn multiplexed(term: Seq<char>) -> bool {
    begins_with(term, "tmux"@) || begins_with(term, "screen"@)
}

/// `TERM_PROGRAM` names a terminal known to draw a curl.
pub open spec fn curl_program(program: Option<&str>) -> bool {
    program is Some && {
        let p = program.unwrap()@;
        ||| same_ignoring_ascii_case(p, "wezterm"@)
        ||| same_ignoring_ascii_case(p, "iterm.app"@)
        ||| same_ignoring_ascii_case(p, "ghostty"@)
        ||| same_ignoring_ascii_case(p, "mintty"@)
        ||| same_ignoring_ascii_case(p, "contour"@)
        ||| same_ignoring_ascii_case(p, "rio"@)
        ||| same_ignoring_ascii_case(p, "vscode"@)
    }
}

/// `TERM` is one a curl-drawing terminal sets for itself.
pub open spec fn curl_term(term: Seq<char>) -> bool {
    ||| begins_with(term, "xterm-kitty"@)
    ||| begins_with(term, "foot"@)
    ||| begins_with(term, "wezterm"@)
    ||| begins_with(term, "alacritty"@)
    ||| begins_with(term, "xterm-ghostty"@)
    ||| begins_with(term, "contour"@)
}

/// The text of an optional variable, empty when unset.
pub open spec fn or_empty(v: Option<&str>) -> Seq<char> {
    match v {
        Some(s) => s@,
        None => Seq::empty(),
    }
}

/// Styled exactly when not inside a multiplexer and one of Windows Terminal,
/// a VTE build number, a known terminal program or a known `TERM` says so.
pub open spec fn spec_underlines_from(
    term: Option<&str>,
    term_program: Option<&str>,
    wt_session: Option<&str>,
    vte_version: Option<&str>,
) -> Underlines {
    let t = or_empty(term);
    if multiplexed(t) {
        Underlines::Plain
    } else if claims(wt_session) || claims(vte_version) || curl_program(term_program) || curl_term(
        t,
    ) {
        Underlines::Styled
    } else {
        Underlines::Plain
    }
}

fn is_curl_program(program: &str) -> (b: bool)
    ensures
        b == curl_program(Some(program)),
{
    eq_ignore_ascii_case(program, "wezterm") || eq_ignore_ascii_case(program, "iterm.app")
        || eq_ignore_ascii_case(program, "ghostty") || eq_ignore_ascii_case(program, "mintty")
        || eq_ignore_ascii_case(program, "contour") || eq_ignore_ascii_case(program, "rio")
        || eq_ignore_ascii_case(program, "vscode")
}

/// Whether this terminal draws a curly underline, from the variables that
/// hint at it.
///
/// An allowlist, and it will be wrong for somebody; the fallback is a straight
/// underline, which still says "look here". Inside a multiplexer the answer
/// is no whatever else is set: a shape claim is not something a multiplexer
/// inherits, and a wrong yes prints a literal `4:3m` into the screen.
pub fn underlines_from(
    term: Option<&str>,
    term_program: Option<&str>,
    wt_session: Option<&str>,
    vte_version: Option<&str>,
) -> (u: Underlines)
    ensures
        u == spec_underlines_from(term, term_program, wt_session, vte_version),
        multiplexed(or_empty(term)) ==> u == Underlines::Plain,
{
    let t: &str = match term {
        Some(v) => v,
        None => "",
    };
    proof {
        reveal_strlit("");
    }
    assert(t@ == or_empty(term));
    if starts_with(t, "tmux") || starts_with(t, "screen") {
        return Underlines::Plain;
    }
    if is_claim(wt_session) {
        return Underlines::Styled;
    }
    if is_claim(vte_version) {
        return Underlines::Styled;
    }
    let program_says_yes = match term_program {
        Some(program) => is_curl_program(program),
        None => false,
    };
    if program_says_yes {
        return Underlines::Styled;
    }
    let term_says_yes = starts_with(t, "xterm-kitty") || starts_with(t, "foot")
        || starts_with(t, "wezterm") || starts_with(t, "alacritty") || starts_with(
        t,
        "xterm-ghostty",
    ) || starts_with(t, "contour");
    if term_says_yes {
        Underlines::Styled
    } else {
        Underlines::Plain
    }
}

/// 24-bit colour is assumed only on a claim, and any one claim is enough:
/// `COLORTERM` set to `truecolor` or `24bit` (in any case), a `TERM` naming a
/// `-direct` entry, or a non-empty `WT_SESSION`; with none of them set the
/// terminal gets 256 colours.
pub proof fn law_colour_depth_comes_from_a_claim(
    colorterm: Option<&str>,
    term: Option<&str>,
    wt_session: Option<&str>,
)
    ensures
        spec_depth_from(None, None, None) == Depth::Ansi256,
        claims_truecolor(colorterm) ==> spec_depth_from(colorterm, term, wt_session) == Depth::TrueColor,
        direct_colour_entry(term) ==> spec_depth_from(colorterm, term, wt_session) == Depth::TrueColor,
        claims(wt_session) ==> spec_depth_from(colorterm, term, wt_session) == Depth::TrueColor,
        colorterm is None && term is None && !claims(wt_session) ==> spec_depth_from(
            colorterm,
            term,
            wt_session,
        ) == Depth::Ansi256,
{
}

/// A curl is drawn only where something says the terminal can, and never
/// inside tmux or screen, whatever else is set; with nothing set it is a
/// straight underline.
pub proof fn law_a_curl_needs_a_claim(
    term: Option<&str>,
    term_program: Option<&str>,
    wt_session: Option<&str>,
    vte_version: Option<&str>,
)
    ensures
        spec_underlines_from(None, None, None, None) == Underlines::Plain,
        multiplexed(or_empty(term)) ==> spec_underlines_from(term, term_program, wt_session, vte_version)
            == Underlines::Plain,
        !multiplexed(or_empty(term)) && (claims(wt_session) || claims(vte_version)) ==> spec_underlines_from(
            term,
            term_program,
            wt_session,
            vte_version,
        ) == Underlines::Styled,
        spec_underlines_from(term, term_program, wt_session, vte_version) == Underlines::Styled ==> (
        claims(wt_session) || claims(vte_version) || term_program is Some || term is Some),
{
    assert(!multiplexed(Seq::<char>::empty())) by {
        reveal_strlit("tmux");
        reveal_strlit("screen");
    }
    assert(!curl_term(Seq::<char>::empty())) by {
        reveal_strlit("xterm-kitty");
        reveal_strlit("foot");
        reveal_strlit("wezterm");
        reveal_strlit("alacritty");
        reveal_strlit("xterm-ghostty");
        reveal_strlit("contour");
    }
}

} // verus!

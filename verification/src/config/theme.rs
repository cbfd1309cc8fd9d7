//! Finding a theme by name.
//!
//! Themes ship inside the binary; a file in `<config_dir>/themes/<name>.toml`
//! wins over the shipped theme of the same name, which is what makes "copy a
//! shipped theme and edit it" work.

use crate::config::settings::joined_with;
use crate::path::{join, joined};
use crate::text::same_text;
use vstd::prelude::*;

verus! {

/// The names of the themes that ship, in the order they are listed.
pub open spec fn shipped() -> Seq<Seq<char>> {
    seq!["slate"@, "mocha"@, "latte"@, "dracula"@, "rose-pine"@, "tokyo-night"@]
}

/// Six themes ship, listed in this order, the default `slate` first.
pub proof fn law_the_shipped_themes()
    ensures
        shipped().len() == 6,
        shipped()[0] == seq!['s', 'l', 'a', 't', 'e'],
        shipped()[1] == seq!['m', 'o', 'c', 'h', 'a'],
        shipped()[2] == seq!['l', 'a', 't', 't', 'e'],
        shipped()[3] == seq!['d', 'r', 'a', 'c', 'u', 'l', 'a'],
        shipped()[4] == seq!['r', 'o', 's', 'e', '-', 'p', 'i', 'n', 'e'],
        shipped()[5] == seq!['t', 'o', 'k', 'y', 'o', '-', 'n', 'i', 'g', 'h', 't'],
{
    reveal_strlit("slate");
    reveal_strlit("mocha");
    reveal_strlit("latte");
    reveal_strlit("dracula");
    reveal_strlit("rose-pine");
    reveal_strlit("tokyo-night");
    assert("slate"@ =~= seq!['s', 'l', 'a', 't', 'e']);
    assert("mocha"@ =~= seq!['m', 'o', 'c', 'h', 'a']);
    assert("latte"@ =~= seq!['l', 'a', 't', 't', 'e']);
    assert("dracula"@ =~= seq!['d', 'r', 'a', 'c', 'u', 'l', 'a']);
    assert("rose-pine"@ =~= seq!['r', 'o', 's', 'e', '-', 'p', 'i', 'n', 'e']);
    assert("tokyo-night"@ =~= seq!['t', 'o', 'k', 'y', 'o', '-', 'n', 'i', 'g', 'h', 't']);
}

/// Every theme name that ships, for listing and for error messages.
pub fn embedded_names() -> (names: Vec<&'static str>)
    ensures
        names@.map_values(|n: &'static str| n@) == shipped(),
{
    let mut names: Vec<&'static str> = Vec::new();
    names.push("slate");
    names.push("mocha");
    names.push("latte");
    names.push("dracula");
    names.push("rose-pine");
    names.push("tokyo-night");
    assert(names@.map_values(|n: &'static str| n@) =~= shipped());
    names
}

/// Whether a theme of this name ships.
pub fn is_embedded(name: &str) -> (yes: bool)
    ensures
        yes == shipped().contains(name@),
{
    let names = embedded_names();
    let ghost views = names@.map_values(|n: &'static str| n@);
    let mut i: usize = 0;
    while i < names.len()
        invariant
            i <= names@.len(),
            views == names@.map_values(|n: &'static str| n@),
            views == shipped(),
            forall|j: int| 0 <= j < i ==> views[j] != name@,
        decreases names@.len() - i,
    {
        if same_text(names[i], name) {
            assert(views[i as int] == name@);
            return true;
        }
        i = i + 1;
    }
    false
}

/// `format!("{:?}", s)`: a string quoted and escaped as Rust's `Debug` does.
pub uninterp spec fn debug_quoted_of(s: Seq<char>) -> Seq<char>;

/// Calls `format!("{s:?}")`. The contract claims only that the answer is a
/// function of the string.
#[verifier::external_body]
fn debug_quoted(s: &str) -> (q: String)
    ensures
        q@ == debug_quoted_of(s@),
{
    format!("{s:?}")
}

/// Where a shipped theme is said to come from, in a message.
pub fn builtin_origin(name: &str) -> (origin: String)
    ensures
        origin@ == "the built-in "@ + name@ + " theme"@,
{
    let mut origin = "the built-in ".to_owned();
    origin.append(name);
    origin.append(" theme");
    origin
}

/// What is said about a name no theme has: the name, and every name that
/// ships.
pub fn unknown_theme(name: &str) -> (message: String)
    ensures
        message@ == "there is no theme called "@ + debug_quoted_of(name@) + " — try one of: "@
            + joined_with(shipped(), ", "@),
{
    let mut message = "there is no theme called ".to_owned();
    let quoted = debug_quoted(name);
    message.append(quoted.as_str());
    message.append(" — try one of: ");
    let ghost start = message@;
    let names = embedded_names();
    let ghost views = names@.map_values(|n: &'static str| n@);
    let mut i: usize = 0;
    while i < names.len()
        invariant
            i <= names@.len(),
            views == names@.map_values(|n: &'static str| n@),
            views == shipped(),
            message@ == start + joined_with(views.take(i as int), ", "@),
        decreases names@.len() - i,
    {
        proof {
            assert(views.take(i as int + 1).drop_last() =~= views.take(i as int));
        }
        if i > 0 {
            message.append(", ");
        }
        message.append(names[i]);
        proof {
            if i == 0 {
                assert(views.take(1)[0] == views[0]);
            }
            assert(message@ =~= start + joined_with(views.take(i as int + 1), ", "@));
        }
        i = i + 1;
    }
    assert(views.take(names@.len() as int) =~= views);
    message
}

/// Where a user's own theme of this name would be: `themes/<name>.toml` in
/// the config directory.
pub fn theme_path(config_dir: &str, name: &str) -> (path: String)
    ensures
        path@ == joined(joined(config_dir@, "themes"@), name@ + ".toml"@),
{
    let themes = join(config_dir, "themes");
    let mut file = name.to_owned();
    file.append(".toml");
    join(themes.as_str(), file.as_str())
}

} // verus!

//! Finding and reading user config.
//!
//! Config problems are warnings, never startup failures: an editor that
//! refuses to open because of a typo in its config is an editor you cannot
//! use to fix the typo.
//!
//! | File | What |
//! |---|---|
//! | `keys.toml` | keybindings |
//! | `config.toml` | everything else |
//! | `themes/<name>.toml` | a theme, overriding an embedded one of the same name |
//!
//! A config file arrives here already parsed, as [`TomlValue`]s: the library
//! holds the values the settings read, and the parsing is the caller's.

pub mod settings;
pub mod theme;

pub use settings::Settings;
pub use theme::embedded_names;

use crate::path::{join, joined};
use crate::text::opt_text;
use vstd::prelude::*;

verus! {

/// A parsed TOML value, as much of it as the settings read.
#[derive(Debug)]
pub enum TomlValue {
    Str(String),
    Integer(i64),
    Array(Vec<TomlValue>),
    Table(Vec<(String, TomlValue)>),
    /// A float, a boolean or a date: nothing here accepts one.
    Other,
}

/// One top-level entry of a config file: its key, its value, and the value
/// as TOML writes it, for messages that quote it.
#[derive(Debug)]
pub struct Entry {
    pub key: String,
    pub value: TomlValue,
    pub shown: String,
}

/// The value under `key` in a table, if there is one. A TOML table holds each
/// key once; the first is taken.
pub open spec fn lookup(table: Seq<(String, TomlValue)>, key: Seq<char>) -> Option<TomlValue>
    decreases table.len(),
{
    if table.len() == 0 {
        None
    } else if table[0].0@ == key {
        Some(table[0].1)
    } else {
        lookup(table.drop_first(), key)
    }
}

/// The value under `key`, by loop.
pub fn get<'a>(table: &'a Vec<(String, TomlValue)>, key: &str) -> (v: Option<&'a TomlValue>)
    ensures
        match v {
            Some(x) => lookup(table@, key@) == Some(*x),
            None => lookup(table@, key@) is None,
        },
{
    let mut i: usize = 0;
    assert(table@.skip(0) =~= table@);
    while i < table.len()
        invariant
            i <= table@.len(),
            lookup(table@, key@) == lookup(table@.skip(i as int), key@),
        decreases table@.len() - i,
    {
        assert(table@.skip(i as int).drop_first() =~= table@.skip(i as int + 1));
        if crate::text::same_text(table[i].0.as_str(), key) {
            return Some(&table[i].1);
        }
        i = i + 1;
    }
    None
}

/// The string a value holds, if it is one.
pub open spec fn as_str(v: Option<TomlValue>) -> Option<Seq<char>> {
    match v {
        Some(TomlValue::Str(s)) => Some(s@),
        _ => None,
    }
}

/// Where user config lives, from the variables that say: `TYP_CONFIG_DIR`
/// first, so tests and `$EDITOR` invocations can be isolated; then the
/// platform's config directory, with `typ` under it.
pub open spec fn spec_config_dir(
    typ_config_dir: Option<Seq<char>>,
    windows: bool,
    appdata: Option<Seq<char>>,
    xdg_config_home: Option<Seq<char>>,
    home: Option<Seq<char>>,
) -> Option<Seq<char>> {
    if typ_config_dir is Some {
        typ_config_dir
    } else if windows {
        match appdata {
            Some(base) => Some(joined(base, "typ"@)),
            None => None,
        }
    } else if xdg_config_home is Some {
        Some(joined(xdg_config_home.unwrap(), "typ"@))
    } else {
        match home {
            Some(h) => Some(joined(h + "/.config"@, "typ"@)),
            None => None,
        }
    }
}

/// `TYP_CONFIG_DIR` wins whatever else is set, used as it is; otherwise on
/// Windows it is `typ` under `APPDATA`; elsewhere `typ` under
/// `XDG_CONFIG_HOME`, and failing that under `$HOME/.config`; with none of
/// the variables that apply there is no config directory.
pub proof fn law_where_config_lives(
    typ_config_dir: Option<Seq<char>>,
    windows: bool,
    appdata: Option<Seq<char>>,
    xdg_config_home: Option<Seq<char>>,
    home: Option<Seq<char>>,
)
    ensures
        ({
            let d = spec_config_dir(typ_config_dir, windows, appdata, xdg_config_home, home);
            &&& typ_config_dir is Some ==> d == typ_config_dir
            &&& typ_config_dir is None && windows ==> d == (match appdata {
                Some(a) => Some(joined(a, seq!['t', 'y', 'p'])),
                None => None,
            })
            &&& typ_config_dir is None && !windows && xdg_config_home is Some ==> d == Some(
                joined(xdg_config_home.unwrap(), seq!['t', 'y', 'p']),
            )
            &&& typ_config_dir is None && !windows && xdg_config_home is None ==> d == (match home {
                Some(h) => Some(
                    joined(h + seq!['/', '.', 'c', 'o', 'n', 'f', 'i', 'g'], seq!['t', 'y', 'p']),
                ),
                None => None,
            })
        }),
{
    reveal_strlit("typ");
    reveal_strlit("/.config");
    assert("typ"@ =~= seq!['t', 'y', 'p']);
    assert("/.config"@ =~= seq!['/', '.', 'c', 'o', 'n', 'f', 'i', 'g']);
}

/// Where user config lives, given the variables that say; the caller reads
/// them.
pub fn config_dir_from(
    typ_config_dir: Option<String>,
    windows: bool,
    appdata: Option<String>,
    xdg_config_home: Option<String>,
    home: Option<String>,
) -> (dir: Option<String>)
    ensures
        (match dir {
            Some(d) => Some(d@),
            None => None::<Seq<char>>,
        }) == spec_config_dir(
            match typ_config_dir {
                Some(d) => Some(d@),
                None => None,
            },
            windows,
            match appdata {
                Some(d) => Some(d@),
                None => None,
            },
            match xdg_config_home {
                Some(d) => Some(d@),
                None => None,
            },
            match home {
                Some(d) => Some(d@),
                None => None,
            },
        ),
{
    if let Some(dir) = typ_config_dir {
        return Some(dir);
    }
    let base = if windows {
        match appdata {
            Some(a) => a,
            None => return None,
        }
    } else if let Some(xdg) = xdg_config_home {
        xdg
    } else {
        match home {
            Some(h) => {
                let mut b = h;
                b.append("/.config");
                b
            },
            None => return None,
        }
    };
    Some(join(base.as_str(), "typ"))
}

/// A file named `name` in the config directory, when there is one.
pub open spec fn in_config_dir(dir: Option<String>, name: Seq<char>) -> Option<Seq<char>> {
    match dir {
        Some(d) => Some(joined(d@, name)),
        None => None,
    }
}

/// `keys.toml` in the config directory.
pub fn config_path(dir: Option<String>) -> (p: Option<String>)
    ensures
        opt_text(p) == in_config_dir(dir, "keys.toml"@),
{
    match dir {
        Some(d) => Some(join(d.as_str(), "keys.toml")),
        None => None,
    }
}

/// `config.toml` in the config directory.
pub fn settings_path(dir: Option<String>) -> (p: Option<String>)
    ensures
        opt_text(p) == in_config_dir(dir, "config.toml"@),
{
    match dir {
        Some(d) => Some(join(d.as_str(), "config.toml")),
        None => None,
    }
}

/// Both config files live in the same directory: from the same environment
/// there is a settings file exactly when there is a keymap, each the
/// directory joined with its own name.
pub proof fn law_config_files_share_a_directory(dir: Option<String>)
    ensures
        in_config_dir(dir, "config.toml"@) is Some <==> in_config_dir(dir, "keys.toml"@) is Some,
        dir matches Some(d) ==> in_config_dir(dir, "config.toml"@) == Some(joined(d@, "config.toml"@))
            && in_config_dir(dir, "keys.toml"@) == Some(joined(d@, "keys.toml"@)),
{
}

/// The entry under `key` in a file's top level, if there is one.
pub open spec fn entry_lookup(entries: Seq<Entry>, key: Seq<char>) -> Option<Entry>
    decreases entries.len(),
{
    if entries.len() == 0 {
        None
    } else if entries[0].key@ == key {
        Some(entries[0])
    } else {
        entry_lookup(entries.drop_first(), key)
    }
}

/// The entry under `key`, by loop.
pub fn find_entry<'a>(entries: &'a Vec<Entry>, key: &str) -> (e: Option<&'a Entry>)
    ensures
        match e {
            Some(x) => entry_lookup(entries@, key@) == Some(*x),
            None => entry_lookup(entries@, key@) is None,
        },
{
    let mut i: usize = 0;
    assert(entries@.skip(0) =~= entries@);
    while i < entries.len()
        invariant
            i <= entries@.len(),
            entry_lookup(entries@, key@) == entry_lookup(entries@.skip(i as int), key@),
        decreases entries@.len() - i,
    {
        assert(entries@.skip(i as int).drop_first() =~= entries@.skip(i as int + 1));
        if crate::text::same_text(entries[i].key.as_str(), key) {
            return Some(&entries[i]);
        }
        i = i + 1;
    }
    None
}

} // verus!

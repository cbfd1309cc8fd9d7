//! `config.toml`: everything that is not a keybinding.
//!
//! Not all-or-nothing, unlike a keymap or a theme: settings are independent
//! of each other, so a bad value is reported and the rest still apply.

use crate::capability::Depth;
use crate::config::{Entry, TomlValue};
use crate::lsp::config::{defaults, load, spec_defaults, spec_load, texts, views, ServerConfig, ServerView};
use crate::text::{opt_text, same_text};
use vstd::prelude::*;

verus! {

/// Which whitespace gets a visible mark. Every value is a real answer, and
/// "unset" already has a name: `Off`.
#[derive(Debug, Clone, Copy, PartialEq, Eq, Structural)]
pub enum Whitespace {
    Off,
    Trailing,
    Selection,
    All,
}

/// The settings a running editor reads.
#[derive(Debug, Clone, PartialEq, Eq)]
pub struct Settings {
    /// Which theme to load, by name.
    pub theme: String,
    /// Forced colour depth; `None` means ask the terminal.
    pub color_depth: Option<Depth>,
    /// Indent width, overriding what the open file measures as; `None`
    /// means measure it.
    pub indent_width: Option<usize>,
    /// Which whitespace gets a visible mark.
    pub whitespace: Whitespace,
    /// Language servers: the compiled-in defaults with `[[language]]`
    /// applied. Never empty.
    pub language_servers: Vec<ServerConfig>,
}

/// Settings as their parts.
pub struct SettingsView {
    pub theme: Seq<char>,
    pub color_depth: Option<Depth>,
    pub indent_width: Option<usize>,
    pub whitespace: Whitespace,
    pub language_servers: Seq<ServerView>,
}

impl View for Settings {
    type V = SettingsView;

    open spec fn view(&self) -> SettingsView {
        SettingsView {
            theme: self.theme@,
            color_depth: self.color_depth,
            indent_width: self.indent_width,
            whitespace: self.whitespace,
            language_servers: views(self.language_servers@),
        }
    }
}

/// The settings with nothing configured.
pub open spec fn default_settings() -> SettingsView {
    SettingsView {
        theme: "slate"@,
        color_depth: None,
        indent_width: None,
        whitespace: Whitespace::Selection,
        language_servers: spec_defaults(),
    }
}

impl Default for Settings {
    fn default() -> (s: Self)
        ensures
            s@ == default_settings(),
    {
        Settings {
            theme: "slate".to_owned(),
            color_depth: None,
            indent_width: None,
            whitespace: Whitespace::Selection,
            language_servers: defaults(),
        }
    }
}

pub open spec fn spec_parse_whitespace(value: Seq<char>) -> Option<Whitespace> {
    if value == "none"@ {
        Some(Whitespace::Off)
    } else if value == "trailing"@ {
        Some(Whitespace::Trailing)
    } else if value == "selection"@ {
        Some(Whitespace::Selection)
    } else if value == "all"@ {
        Some(Whitespace::All)
    } else {
        None
    }
}

fn parse_whitespace(value: &str) -> (w: Option<Whitespace>)
    ensures
        w == spec_parse_whitespace(value@),
{
    if same_text(value, "none") {
        Some(Whitespace::Off)
    } else if same_text(value, "trailing") {
        Some(Whitespace::Trailing)
    } else if same_text(value, "selection") {
        Some(Whitespace::Selection)
    } else if same_text(value, "all") {
        Some(Whitespace::All)
    } else {
        None
    }
}

pub open spec fn spec_parse_depth(value: Seq<char>) -> Option<Depth> {
    if value == "truecolor"@ || value == "24bit"@ {
        Some(Depth::TrueColor)
    } else if value == "256"@ || value == "ansi256"@ {
        Some(Depth::Ansi256)
    } else {
        None
    }
}

fn parse_depth(value: &str) -> (d: Option<Depth>)
    ensures
        d == spec_parse_depth(value@),
{
    if same_text(value, "truecolor") || same_text(value, "24bit") {
        Some(Depth::TrueColor)
    } else if same_text(value, "256") || same_text(value, "ansi256") {
        Some(Depth::Ansi256)
    } else {
        None
    }
}

/// `color_depth` takes exactly four spellings: `truecolor` and `24bit` force
/// 24-bit colour, `256` and `ansi256` force the 256-colour palette, and
/// anything else forces nothing. `whitespace` takes exactly its four names:
/// `none` marks nothing, `trailing` the trailing run, `selection` what is
/// selected, `all` every blank.
pub proof fn law_setting_spellings(value: Seq<char>)
    ensures
        spec_parse_depth(value) == Some(Depth::TrueColor) <==> (value == "truecolor"@ || value
            == "24bit"@),
        spec_parse_depth(value) == Some(Depth::Ansi256) <==> (value == "256"@ || value == "ansi256"@),
        spec_parse_depth(value) is None <==> !(value == "truecolor"@ || value == "24bit"@ || value
            == "256"@ || value == "ansi256"@),
        spec_parse_whitespace(value) == Some(Whitespace::Off) <==> value == "none"@,
        spec_parse_whitespace(value) == Some(Whitespace::Trailing) <==> value == "trailing"@,
        spec_parse_whitespace(value) == Some(Whitespace::Selection) <==> value == "selection"@,
        spec_parse_whitespace(value) == Some(Whitespace::All) <==> value == "all"@,
        spec_parse_whitespace(value) is None <==> !(value == "none"@ || value == "trailing"@ || value
            == "selection"@ || value == "all"@),
{
    reveal_strlit("truecolor");
    reveal_strlit("24bit");
    reveal_strlit("256");
    reveal_strlit("ansi256");
    reveal_strlit("none");
    reveal_strlit("trailing");
    reveal_strlit("selection");
    reveal_strlit("all");
    assert("256"@.len() != "truecolor"@.len() && "256"@.len() != "24bit"@.len());
    assert("ansi256"@.len() != "truecolor"@.len() && "ansi256"@.len() != "24bit"@.len());
    assert("trailing"@.len() != "none"@.len());
    assert("selection"@.len() != "none"@.len() && "selection"@.len() != "trailing"@.len());
    assert("all"@.len() != "none"@.len() && "all"@.len() != "trailing"@.len() && "all"@.len()
        != "selection"@.len());
}

/// What one entry of `config.toml` does, whatever it holds: `theme` takes
/// a quoted name as it is; `indent_width` takes a whole number from 1 to 16
/// and complains of anything else, zero included; `color_depth` and
/// `whitespace` take one of their spellings; `language` is read as a whole
/// elsewhere and says nothing here; any other key changes nothing and is
/// named in a complaint. A rejected value leaves the setting as it was, and
/// an entry touches no setting but its own.
pub proof fn law_what_an_entry_sets(s: SettingsView, e: Entry)
    ensures
        ({
            let key = e.key@;
            let after = entry_sets(s, e);
            let complaint = entry_complaint(e);
            &&& key == "theme"@ ==> (match e.value {
                TomlValue::Str(name) => after == SettingsView { theme: name@, ..s } && complaint is None,
                _ => after == s && complaint is Some,
            })
            &&& key == "indent_width"@ ==> (match e.value {
                TomlValue::Integer(n) => if 1 <= n <= 16 {
                    after == SettingsView { indent_width: Some(n as usize), ..s } && complaint is None
                } else {
                    after == s && complaint is Some
                },
                _ => after == s && complaint is Some,
            })
            &&& key == "color_depth"@ ==> (match e.value {
                TomlValue::Str(v) => if spec_parse_depth(v@) is Some {
                    after == SettingsView { color_depth: spec_parse_depth(v@), ..s } && complaint is None
                } else {
                    after == s && complaint is Some
                },
                _ => after == s && complaint is Some,
            })
            &&& key == "whitespace"@ ==> (match e.value {
                TomlValue::Str(v) => if spec_parse_whitespace(v@) is Some {
                    after == SettingsView { whitespace: spec_parse_whitespace(v@).unwrap(), ..s }
                        && complaint is None
                } else {
                    after == s && complaint is Some
                },
                _ => after == s && complaint is Some,
            })
            &&& key == "language"@ ==> after == s && complaint is None
            &&& !(key == "theme"@ || key == "indent_width"@ || key == "color_depth"@ || key
                == "whitespace"@ || key == "language"@) ==> after == s && complaint == Some(
                key + " is not a setting this editor has"@,
            )
            &&& after.language_servers == s.language_servers
        }),
{
    reveal_strlit("theme");
    reveal_strlit("indent_width");
    reveal_strlit("color_depth");
    reveal_strlit("whitespace");
    reveal_strlit("language");
    assert("theme"@.len() != "indent_width"@.len() && "theme"@.len() != "color_depth"@.len()
        && "theme"@.len() != "whitespace"@.len());
    assert("indent_width"@.len() != "color_depth"@.len() && "indent_width"@.len()
        != "whitespace"@.len() && "indent_width"@.len() != "language"@.len());
    assert("color_depth"@.len() != "whitespace"@.len() && "color_depth"@.len() != "language"@.len());
    assert("whitespace"@.len() != "language"@.len() && "theme"@.len() != "language"@.len());
}

/// With nothing configured the editor uses the `slate` theme, asks the
/// terminal how many colours it has, measures each file's indent, and marks
/// whitespace only inside a selection.
pub proof fn law_nothing_configured()
    ensures
        default_settings().theme == seq!['s', 'l', 'a', 't', 'e'],
        default_settings().color_depth is None,
        default_settings().indent_width is None,
        default_settings().whitespace == Whitespace::Selection,
        spec_settings_from(Seq::empty()).1 == Seq::<Seq<char>>::empty(),
{
    reveal_strlit("slate");
    assert("slate"@ =~= seq!['s', 'l', 'a', 't', 'e']);

}

/// The string a value holds, if it is one.
pub open spec fn str_of(v: TomlValue) -> Option<Seq<char>> {
    match v {
        TomlValue::Str(s) => Some(s@),
        _ => None,
    }
}

/// What one top-level entry sets. Zero is a width nothing can insert, so it
/// is rejected rather than clamped, as is anything over sixteen.
pub open spec fn entry_sets(s: SettingsView, e: Entry) -> SettingsView {
    let key = e.key@;
    if key == "theme"@ {
        match str_of(e.value) {
            Some(name) => SettingsView { theme: name, ..s },
            None => s,
        }
    } else if key == "color_depth"@ {
        match str_of(e.value) {
            Some(v) if spec_parse_depth(v) is Some => SettingsView {
                color_depth: spec_parse_depth(v),
                ..s
            },
            _ => s,
        }
    } else if key == "indent_width"@ {
        match e.value {
            TomlValue::Integer(n) if 1 <= n <= 16 => SettingsView {
                indent_width: Some(n as usize),
                ..s
            },
            _ => s,
        }
    } else if key == "whitespace"@ {
        match str_of(e.value) {
            Some(v) if spec_parse_whitespace(v) is Some => SettingsView {
                whitespace: spec_parse_whitespace(v).unwrap(),
                ..s
            },
            _ => s,
        }
    } else {
        s
    }
}

/// The complaint one top-level entry earns, if any.
pub open spec fn entry_complaint(e: Entry) -> Option<Seq<char>> {
    let key = e.key@;
    if key == "theme"@ {
        match str_of(e.value) {
            Some(_) => None,
            None => Some("theme must be a name in quotes"@),
        }
    } else if key == "color_depth"@ {
        match str_of(e.value) {
            Some(v) if spec_parse_depth(v) is Some => None,
            _ => Some("color_depth "@ + e.shown@ + " is not \"truecolor\" or \"256\""@),
        }
    } else if key == "indent_width"@ {
        match e.value {
            TomlValue::Integer(n) if 1 <= n <= 16 => None,
            _ => Some(
                "indent_width "@ + e.shown@ + " is not a whole number of columns from 1 to 16"@,
            ),
        }
    } else if key == "whitespace"@ {
        match str_of(e.value) {
            Some(v) if spec_parse_whitespace(v) is Some => None,
            _ => Some(
                "whitespace "@ + e.shown@ + " is not \"none\", \"trailing\", \"selection\" or \"all\""@,
            ),
        }
    } else if key == "language"@ {
        None
    } else {
        Some(key + " is not a setting this editor has"@)
    }
}

/// One top-level entry applied to the settings read so far, with what it
/// adds to the complaints.
pub open spec fn apply_entry(acc: (SettingsView, Seq<Seq<char>>), e: Entry) -> (
    SettingsView,
    Seq<Seq<char>>,
) {
    (
        entry_sets(acc.0, e),
        match entry_complaint(e) {
            Some(m) => acc.1.push(m),
            None => acc.1,
        },
    )
}

/// The first `n` entries applied, in order, to the defaults.
pub open spec fn apply_entries(entries: Seq<Entry>, n: int) -> (SettingsView, Seq<Seq<char>>)
    decreases n,
{
    if n <= 0 {
        (default_settings(), Seq::empty())
    } else {
        apply_entry(apply_entries(entries, n - 1), entries[n - 1])
    }
}

/// The settings a config file's entries give, and every complaint about
/// them: those about single settings first, in the order the entries come,
/// then those about `[[language]]` entries.
pub open spec fn spec_settings_from(entries: Seq<Entry>) -> (SettingsView, Seq<Seq<char>>) {
    let (s, c) = apply_entries(entries, entries.len() as int);
    let (servers, server_complaints) = spec_load(entries);
    (SettingsView { language_servers: servers, ..s }, c + server_complaints)
}

/// `<head><shown><tail>`, for a complaint quoting a value.
fn quoting(head: &str, shown: &str, tail: &str) -> (m: String)
    ensures
        m@ == head@ + shown@ + tail@,
{
    let mut m = head.to_owned();
    m.append(shown);
    m.append(tail);
    m
}

proof fn lemma_texts_push(v: Seq<String>, s: String)
    ensures
        texts(v.push(s)) == texts(v).push(s@),
{
    assert(texts(v.push(s)) =~= texts(v).push(s@));
}

/// Apply one entry, returning the complaint it earns.
fn apply_one(settings: Settings, entry: &Entry) -> (r: (Settings, Option<String>))
    ensures
        r.0@ == entry_sets(settings@, *entry),
        opt_text(r.1) == entry_complaint(*entry),
{
    let mut settings = settings;
    let key = entry.key.as_str();
    if same_text(key, "theme") {
        match &entry.value {
            TomlValue::Str(name) => {
                settings.theme = name.clone();
                (settings, None)
            },
            _ => (settings, Some("theme must be a name in quotes".to_owned())),
        }
    } else if same_text(key, "color_depth") {
        let parsed = match &entry.value {
            TomlValue::Str(v) => parse_depth(v.as_str()),
            _ => None,
        };
        match parsed {
            Some(depth) => {
                settings.color_depth = Some(depth);
                (settings, None)
            },
            None => (settings, Some(
                quoting("color_depth ", entry.shown.as_str(), " is not \"truecolor\" or \"256\""),
            )),
        }
    } else if same_text(key, "indent_width") {
        match &entry.value {
            TomlValue::Integer(n) if 1 <= *n && *n <= 16 => {
                settings.indent_width = Some(*n as usize);
                (settings, None)
            },
            _ => (settings, Some(
                quoting(
                    "indent_width ",
                    entry.shown.as_str(),
                    " is not a whole number of columns from 1 to 16",
                ),
            )),
        }
    } else if same_text(key, "whitespace") {
        let parsed = match &entry.value {
            TomlValue::Str(v) => parse_whitespace(v.as_str()),
            _ => None,
        };
        match parsed {
            Some(which) => {
                settings.whitespace = which;
                (settings, None)
            },
            None => (settings, Some(
                quoting(
                    "whitespace ",
                    entry.shown.as_str(),
                    " is not \"none\", \"trailing\", \"selection\" or \"all\"",
                ),
            )),
        }
    } else if same_text(key, "language") {
        // Handled as a whole: an array of tables is not one value with one
        // answer, and each entry stands or falls on its own.
        (settings, None)
    } else {
        let complaint = quoting("", key, " is not a setting this editor has");
        proof {
            reveal_strlit("");
            assert(complaint@ =~= key@ + " is not a setting this editor has"@);
        }
        (settings, Some(complaint))
    }
}

/// Read a parsed `config.toml`, keeping whatever parsed and reporting
/// whatever did not.
pub fn settings_from(entries: &Vec<Entry>) -> (r: (Settings, Vec<String>))
    ensures
        (r.0@, texts(r.1@)) == spec_settings_from(entries@),
{
    let mut settings = Settings::default();
    let mut complaints: Vec<String> = Vec::new();
    assert(texts(complaints@) =~= Seq::<Seq<char>>::empty());
    let mut i: usize = 0;
    while i < entries.len()
        invariant
            i <= entries@.len(),
            (settings@, texts(complaints@)) == apply_entries(entries@, i as int),
        decreases entries@.len() - i,
    {
        let ghost c = texts(complaints@);
        let ghost sv = settings@;
        let (next, complaint) = apply_one(settings, &entries[i]);
        settings = next;
        match complaint {
            Some(m) => {
                proof {
                    lemma_texts_push(complaints@, m);
                }
                complaints.push(m);
            },
            None => {},
        }
        assert((settings@, texts(complaints@)) == apply_entry((sv, c), entries@[i as int]));
        i = i + 1;
    }
    let (servers, server_complaints) = load(entries);
    settings.language_servers = servers;
    let ghost before = complaints@;
    let mut j: usize = 0;
    while j < server_complaints.len()
        invariant
            j <= server_complaints@.len(),
            texts(complaints@) == texts(before) + texts(server_complaints@).take(j as int),
        decreases server_complaints@.len() - j,
    {
        proof {
            lemma_texts_push(complaints@, server_complaints@[j as int]);
            assert(texts(server_complaints@).take(j as int + 1) =~= texts(server_complaints@).take(
                j as int,
            ).push(server_complaints@[j as int]@));
        }
        complaints.push(server_complaints[j].clone());
        j = j + 1;
    }
    assert(texts(server_complaints@).take(server_complaints@.len() as int) =~= texts(
        server_complaints@,
    ));
    (settings, complaints)
}

/// The items joined with a separator between each pair.
pub open spec fn joined_with(items: Seq<Seq<char>>, sep: Seq<char>) -> Seq<char>
    decreases items.len(),
{
    if items.len() == 0 {
        Seq::empty()
    } else if items.len() == 1 {
        items[0]
    } else {
        joined_with(items.drop_last(), sep) + sep + items.last()
    }
}

/// The single warning a config file earns: `<path>: ` and every complaint,
/// `; ` between each pair, or nothing when there is nothing to complain about.
pub open spec fn spec_warning(path: Seq<char>, complaints: Seq<Seq<char>>) -> Option<Seq<char>> {
    if complaints.len() == 0 {
        None
    } else {
        Some(path + ": "@ + joined_with(complaints, "; "@))
    }
}

/// A config file earns no warning when nothing is wrong with it, and
/// otherwise one: its name, `: `, and every complaint in order, `; ` between
/// each pair.
pub proof fn law_one_warning_per_file(path: Seq<char>, complaints: Seq<Seq<char>>, more: Seq<char>)
    ensures
        spec_warning(path, Seq::empty()) is None,
        spec_warning(path, seq![more]) == Some(path + seq![':', ' '] + more),
        complaints.len() > 0 ==> spec_warning(path, complaints.push(more)) == Some(
            path + seq![':', ' '] + joined_with(complaints, seq![';', ' ']) + seq![';', ' '] + more,
        ),
{
    reveal_strlit(": ");
    reveal_strlit("; ");
    assert(": "@ =~= seq![':', ' ']);
    assert("; "@ =~= seq![';', ' ']);
    assert(complaints.push(more).drop_last() =~= complaints);
    assert(seq![more].len() == 1);
}

/// The single warning a config file earns: its path and every complaint, or
/// nothing when there is nothing to complain about.
pub fn warning(path: &str, complaints: &Vec<String>) -> (w: Option<String>)
    ensures
        opt_text(w) == spec_warning(path@, texts(complaints@)),
{
    if complaints.len() == 0 {
        return None;
    }
    let mut m = path.to_owned();
    m.append(": ");
    let ghost start = m@;
    let ghost items = texts(complaints@);
    let mut i: usize = 0;
    while i < complaints.len()
        invariant
            i <= complaints@.len(),
            items == texts(complaints@),
            m@ == start + joined_with(items.take(i as int), "; "@),
        decreases complaints@.len() - i,
    {
        proof {
            assert(items.take(i as int + 1).drop_last() =~= items.take(i as int));
        }
        if i > 0 {
            m.append("; ");
        }
        m.append(complaints[i].as_str());
        proof {
            if i == 0 {
                assert(items.take(1)[0] == items[0]);
            }
            assert(m@ =~= start + joined_with(items.take(i as int + 1), "; "@));
        }
        i = i + 1;
    }
    assert(items.take(complaints@.len() as int) =~= items);
    Some(m)
}

/// The top-level entries `toml` reads from a config file's text, in the
/// order its table keeps them, or the message it gives for text that is not
/// TOML.
pub uninterp spec fn parsed_config(source: Seq<char>) -> Result<Seq<Entry>, Seq<char>>;

/// Calls `toml::from_str` for a `toml::Table` and converts each top-level
/// entry: its key, its value as a [`TomlValue`], and the value as `toml`
/// writes it. Trusted: the result is named [`parsed_config`] of the text, and
/// an error is `toml`'s message for it.
#[verifier::external_body]
fn parse_config(source: &str) -> (r: Result<Vec<Entry>, String>)
    ensures
        match r {
            Ok(entries) => parsed_config(source@) == Ok::<Seq<Entry>, Seq<char>>(entries@),
            Err(e) => parsed_config(source@) == Err::<Seq<Entry>, Seq<char>>(e@),
        },
{
    let table = match toml::from_str::<toml::Table>(source) {
        Ok(table) => table,
        Err(e) => return Err(e.to_string()),
    };
    let mut entries = Vec::new();
    for (key, value) in table.iter() {
        entries.push(Entry { key: key.clone(), value: toml_value(value), shown: value.to_string() });
    }
    Ok(entries)
}

/// Part of [`parse_config`]'s conversion: one `toml::Value` as a
/// [`TomlValue`], nested arrays and tables included. Nothing is claimed of
/// it beyond what `parse_config` claims of the whole.
#[verifier::external_body]
fn toml_value(value: &toml::Value) -> TomlValue {
    match value {
        toml::Value::String(s) => TomlValue::Str(s.clone()),
        toml::Value::Integer(n) => TomlValue::Integer(*n),
        toml::Value::Array(items) => TomlValue::Array(items.iter().map(toml_value).collect()),
        toml::Value::Table(t) => TomlValue::Table(t.iter().map(|(k, v)| (k.clone(), toml_value(v))).collect()),
        toml::Value::Float(_) => TomlValue::Other,
        toml::Value::Boolean(_) => TomlValue::Other,
        toml::Value::Datetime(_) => TomlValue::Other,
    }
}

/// `toml::Value`, so that [`toml_value`] can take one; nothing is seen inside.
#[verifier::external_type_specification]
#[verifier::external_body]
pub struct ExTomlValue(toml::Value);

/// What a config file's text comes to once `toml` has read it: an error
/// leaves the defaults and says `<shown>: <error>`; parsed entries give the
/// settings they set and the one warning their complaints earn.
pub open spec fn spec_settings_from_parsed(
    parsed: Result<Seq<Entry>, Seq<char>>,
    shown: Seq<char>,
) -> (SettingsView, Option<Seq<char>>) {
    match parsed {
        Err(e) => (default_settings(), Some(shown + ": "@ + e)),
        Ok(entries) => {
            let (s, complaints) = spec_settings_from(entries);
            (s, spec_warning(shown, complaints))
        },
    }
}

/// The settings and the warning for a config file `toml` has read (or
/// failed to read); `shown` is how the file is named in the warning.
pub fn settings_from_parsed(parsed: Result<Vec<Entry>, String>, shown: &str) -> (r: (
    Settings,
    Option<String>,
))
    ensures
        (r.0@, opt_text(r.1)) == spec_settings_from_parsed(
            match parsed {
                Ok(entries) => Ok::<Seq<Entry>, Seq<char>>(entries@),
                Err(e) => Err::<Seq<Entry>, Seq<char>>(e@),
            },
            shown@,
        ),
{
    match parsed {
        Err(e) => {
            let mut m = shown.to_owned();
            m.append(": ");
            m.append(e.as_str());
            (Settings::default(), Some(m))
        },
        Ok(entries) => {
            let (settings, complaints) = settings_from(&entries);
            let w = warning(shown, &complaints);
            (settings, w)
        },
    }
}

/// Read `config.toml`'s text, keeping whatever parsed and reporting whatever
/// did not: text that is not TOML leaves the defaults and says why, and a
/// bad value is reported while the rest still apply.
pub fn settings_from_source(source: &str, shown: &str) -> (r: (Settings, Option<String>))
    ensures
        (r.0@, opt_text(r.1)) == spec_settings_from_parsed(parsed_config(source@), shown@),
{
    let parsed = parse_config(source);
    settings_from_parsed(parsed, shown)
}

/// The settings a running editor starts with, from `config.toml`'s text when
/// there is one. No file, or one that cannot be read, is the normal case and
/// says nothing; `shown` is how the file is named in a warning.
pub fn load_settings(source: Option<&str>, shown: &str) -> (r: (Settings, Option<String>))
    ensures
        match source {
            None => r.0@ == default_settings() && r.1 is None,
            Some(text) => (r.0@, opt_text(r.1)) == spec_settings_from_parsed(
                parsed_config(text@),
                shown@,
            ),
        },
{
    match source {
        None => (Settings::default(), None),
        Some(text) => settings_from_source(text, shown),
    }
}

} // verus!

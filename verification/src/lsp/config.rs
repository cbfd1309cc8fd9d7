//! Which server a file gets, and where it is rooted.

use crate::config::{entry_lookup, find_entry, get, lookup, Entry, TomlValue};
use crate::path::{
    equal_paths,
    extension,
    extension_of,
    parent,
    parent_of,
    path_starts_with,
    same_path,
    starts_with_path,
};
use crate::text::{eq_ignore_ascii_case, opt_text, same_ignoring_ascii_case};
use vstd::prelude::*;

verus! {

/// One language server, and what it is for. Keyed by extension: the set of
/// files that can have a server is not the set that have a grammar.
#[derive(Debug, Clone, PartialEq, Eq)]
pub struct ServerConfig {
    /// The `languageId` sent when a document is opened: `rust`, `toml`.
    pub language_id: String,
    /// Extensions this server handles, without the dot.
    pub extensions: Vec<String>,
    /// The binary. Not found on `PATH` is the ordinary case, not an error.
    pub command: String,
    pub args: Vec<String>,
    /// Files whose presence marks a project root; any one is enough.
    pub roots: Vec<String>,
}

/// A server configuration as its parts.
pub struct ServerView {
    pub language_id: Seq<char>,
    pub extensions: Seq<Seq<char>>,
    pub command: Seq<char>,
    pub args: Seq<Seq<char>>,
    pub roots: Seq<Seq<char>>,
}

/// A list of strings as their texts.
pub open spec fn texts(v: Seq<String>) -> Seq<Seq<char>> {
    v.map_values(|s: String| s@)
}

impl View for ServerConfig {
    type V = ServerView;

    open spec fn view(&self) -> ServerView {
        ServerView {
            language_id: self.language_id@,
            extensions: texts(self.extensions@),
            command: self.command@,
            args: texts(self.args@),
            roots: texts(self.roots@),
        }
    }
}

/// A list of configurations as their parts.
pub open spec fn views(v: Seq<ServerConfig>) -> Seq<ServerView> {
    v.map_values(|c: ServerConfig| c@)
}

/// Whether a server configured with `extensions` handles `path`: the path's
/// extension is one of them, ignoring ASCII case.
pub open spec fn spec_handles(extensions: Seq<Seq<char>>, path: Seq<char>) -> bool {
    match extension_of(path) {
        None => false,
        Some(e) => exists|i: int|
            0 <= i < extensions.len() && same_ignoring_ascii_case(#[trigger] extensions[i], e),
    }
}

impl ServerConfig {
    pub fn handles(&self, path: &str) -> (yes: bool)
        ensures
            yes == spec_handles(self@.extensions, path@),
    {
        let ext = match extension(path) {
            Some(e) => e,
            None => return false,
        };
        let mut i: usize = 0;
        while i < self.extensions.len()
            invariant
                i <= self.extensions@.len(),
                extension_of(path@) == Some(ext@),
                forall|j: int|
                    0 <= j < i ==> !same_ignoring_ascii_case(texts(self.extensions@)[j], ext@),
            decreases self.extensions@.len() - i,
        {
            if eq_ignore_ascii_case(self.extensions[i].as_str(), ext.as_str()) {
                assert(texts(self.extensions@)[i as int] == self.extensions@[i as int]@);
                return true;
            }
            i = i + 1;
        }
        false
    }
}

/// Markers that mean "a project starts here" for a language with nothing
/// more specific to say.
pub open spec fn common_roots() -> Seq<Seq<char>> {
    seq!["Cargo.toml"@, "package.json"@, "pyproject.toml"@, "go.mod"@, ".git"@]
}

fn common_roots_vec() -> (v: Vec<String>)
    ensures
        texts(v@) == common_roots(),
{
    let mut v: Vec<String> = Vec::new();
    v.push("Cargo.toml".to_owned());
    v.push("package.json".to_owned());
    v.push("pyproject.toml".to_owned());
    v.push("go.mod".to_owned());
    v.push(".git".to_owned());
    assert(texts(v@) =~= common_roots());
    v
}

/// The servers known without being told: rust-analyzer, rooted only at a
/// `Cargo.toml`, and taplo, which needs its `lsp stdio` subcommand.
pub open spec fn spec_defaults() -> Seq<ServerView> {
    seq![
        ServerView {
            language_id: "rust"@,
            extensions: seq!["rs"@],
            command: "rust-analyzer"@,
            args: Seq::empty(),
            roots: seq!["Cargo.toml"@],
        },
        ServerView {
            language_id: "toml"@,
            extensions: seq!["toml"@],
            command: "taplo"@,
            args: seq!["lsp"@, "stdio"@],
            roots: common_roots(),
        },
    ]
}

/// The servers known without being told.
pub fn defaults() -> (servers: Vec<ServerConfig>)
    ensures
        views(servers@) == spec_defaults(),
{
    let mut rust_exts: Vec<String> = Vec::new();
    rust_exts.push("rs".to_owned());
    let mut rust_roots: Vec<String> = Vec::new();
    rust_roots.push("Cargo.toml".to_owned());
    let rust = ServerConfig {
        language_id: "rust".to_owned(),
        extensions: rust_exts,
        command: "rust-analyzer".to_owned(),
        args: Vec::new(),
        roots: rust_roots,
    };
    assert(rust@.extensions =~= seq!["rs"@]);
    assert(rust@.roots =~= seq!["Cargo.toml"@]);
    assert(rust@.args =~= Seq::<Seq<char>>::empty());

    let mut toml_exts: Vec<String> = Vec::new();
    toml_exts.push("toml".to_owned());
    let mut toml_args: Vec<String> = Vec::new();
    toml_args.push("lsp".to_owned());
    toml_args.push("stdio".to_owned());
    let toml = ServerConfig {
        language_id: "toml".to_owned(),
        extensions: toml_exts,
        command: "taplo".to_owned(),
        args: toml_args,
        roots: common_roots_vec(),
    };
    assert(toml@.extensions =~= seq!["toml"@]);
    assert(toml@.args =~= seq!["lsp"@, "stdio"@]);

    let mut servers: Vec<ServerConfig> = Vec::new();
    servers.push(rust);
    servers.push(toml);
    assert(views(servers@) =~= spec_defaults());
    servers
}

/// The ancestors of a path that a root may be found in, nearest first: each
/// parent in turn while it lies inside `project_root`, up to and including
/// `project_root` itself. `fuel` bounds the walk; a path's length is enough.
pub open spec fn walk(current: Option<Seq<char>>, project_root: Seq<char>, fuel: nat) -> Seq<
    Seq<char>,
>
    decreases fuel,
{
    if fuel == 0 {
        Seq::empty()
    } else {
        match current {
            None => Seq::empty(),
            Some(a) => if !starts_with_path(a, project_root) {
                Seq::empty()
            } else if equal_paths(a, project_root) {
                seq![a]
            } else {
                seq![a] + walk(parent_of(a), project_root, (fuel - 1) as nat)
            },
        }
    }
}

/// The ancestors of `file` a server root may be found in, nearest first.
///
/// Bounded by `project_root`, which matters as much as the direction: an
/// unbounded walk finds `$HOME/.git` and roots every project on the machine
/// in the home directory.
pub fn ancestors_within(file: &str, project_root: &str) -> (chain: Vec<String>)
    ensures
        texts(chain@) == walk(parent_of(file@), project_root@, file@.len()),
{
    let mut chain: Vec<String> = Vec::new();
    let mut current = parent(file);
    let ghost mut fuel: nat = file@.len();
    assert(match current {
        Some(q) => q@.len() < fuel,
        None => true,
    });
    let ghost target = walk(parent_of(file@), project_root@, file@.len());
    loop
        invariant
            target == walk(parent_of(file@), project_root@, file@.len()),
            texts(chain@) + walk(opt_text(current), project_root@, fuel) == target,
            match current {
                Some(q) => q@.len() < fuel,
                None => true,
            },
        decreases fuel,
    {
        let ghost cur: Option<Seq<char>> = opt_text(current);
        let a = match current {
            Some(a) => a,
            None => {
                assert(walk(cur, project_root@, fuel) =~= Seq::<Seq<char>>::empty());
                assert(texts(chain@) =~= target);
                return chain;
            },
        };
        assert(cur == Some(a@));
        if !path_starts_with(a.as_str(), project_root) {
            assert(walk(cur, project_root@, fuel) =~= Seq::<Seq<char>>::empty());
            assert(texts(chain@) =~= target);
            return chain;
        }
        let last = same_path(a.as_str(), project_root);
        let next = parent(a.as_str());
        proof {
            lemma_texts_push(chain@, a);
        }
        chain.push(a);
        if last {
            assert(texts(chain@) =~= target);
            return chain;
        }
        proof {
            assert(texts(chain@) + walk(opt_text(next), project_root@, (fuel - 1) as nat) =~= target);
            fuel = (fuel - 1) as nat;
        }
        current = next;
    }
}

proof fn lemma_texts_push(v: Seq<String>, s: String)
    ensures
        texts(v.push(s)) == texts(v).push(s@),
{
    assert(texts(v.push(s)) =~= texts(v).push(s@));
}

/// The outermost marked candidate, if any was marked.
pub open spec fn last_marked(marked: Seq<bool>) -> Option<int>
    decreases marked.len(),
{
    if marked.len() == 0 {
        None
    } else if marked.last() {
        Some(marked.len() - 1)
    } else {
        last_marked(marked.drop_last())
    }
}

/// Where a server should be rooted, given the ancestors a root may be found
/// in, nearest first, and which of them hold a marker.
///
/// The outermost marker wins, not the nearest: in a workspace of several
/// crates the nearest `Cargo.toml` is the crate's own, and rooting there
/// starts one server per open crate. A file with no marker above it belongs
/// to the project it was opened in.
pub fn outermost_marked(candidates: &Vec<String>, marked: &Vec<bool>, project_root: &str) -> (root:
    String)
    requires
        candidates@.len() == marked@.len(),
    ensures
        root@ == (match last_marked(marked@) {
            Some(i) => candidates@[i]@,
            None => project_root@,
        }),
{
    let mut i: usize = marked.len();
    assert(marked@.take(i as int) =~= marked@);
    while i > 0
        invariant
            i <= marked@.len(),
            candidates@.len() == marked@.len(),
            last_marked(marked@) == last_marked(marked@.take(i as int)),
        decreases i,
    {
        assert(marked@.take(i as int).drop_last() =~= marked@.take(i - 1));
        if marked[i - 1] {
            return candidates[i - 1].clone();
        }
        i = i - 1;
    }
    project_root.to_owned()
}

/// The strings among a list of values, in order; anything else is skipped.
pub open spec fn strs(items: Seq<TomlValue>) -> Seq<Seq<char>>
    decreases items.len(),
{
    if items.len() == 0 {
        Seq::empty()
    } else {
        match items.last() {
            TomlValue::Str(s) => strs(items.drop_last()).push(s@),
            _ => strs(items.drop_last()),
        }
    }
}

/// The strings in the array under `key`; empty when there is none.
pub open spec fn strings_under(table: Seq<(String, TomlValue)>, key: Seq<char>) -> Seq<Seq<char>> {
    match lookup(table, key) {
        Some(TomlValue::Array(items)) => strs(items@),
        _ => Seq::empty(),
    }
}

/// What one `[[language]]` entry configures, or why it configures nothing.
///
/// An entry needs a name and a command, in quotes, and at least one
/// extension: without one nothing could ever reach the server. With no roots
/// given, the common markers apply.
pub open spec fn spec_parse_entry(entry: TomlValue) -> Result<ServerView, Seq<char>> {
    match entry {
        TomlValue::Table(t) => {
            let table = t@;
            match as_str_value(lookup(table, "name"@)) {
                None => Err("a [[language]] entry needs a name in quotes"@),
                Some(name) => match as_str_value(lookup(table, "command"@)) {
                    None => Err("language "@ + name + " needs a command in quotes"@),
                    Some(command) => {
                        let extensions = strings_under(table, "extensions"@);
                        if extensions.len() == 0 {
                            Err("language "@ + name + " needs at least one extension"@)
                        } else {
                            let given = strings_under(table, "roots"@);
                            Ok(
                                ServerView {
                                    language_id: name,
                                    extensions,
                                    command,
                                    args: strings_under(table, "args"@),
                                    roots: if given.len() == 0 {
                                        common_roots()
                                    } else {
                                        given
                                    },
                                },
                            )
                        }
                    },
                },
            }
        },
        _ => Err("a [[language]] entry must be a table"@),
    }
}

/// The string a value holds, if it is one.
pub open spec fn as_str_value(v: Option<TomlValue>) -> Option<Seq<char>> {
    match v {
        Some(TomlValue::Str(s)) => Some(s@),
        _ => None,
    }
}

/// The strings in the array under `key`.
fn strings(table: &Vec<(String, TomlValue)>, key: &str) -> (out: Vec<String>)
    ensures
        texts(out@) == strings_under(table@, key@),
{
    let mut out: Vec<String> = Vec::new();
    match get(table, key) {
        Some(TomlValue::Array(items)) => {
            let mut i: usize = 0;
            while i < items.len()
                invariant
                    i <= items@.len(),
                    texts(out@) == strs(items@.take(i as int)),
                decreases items@.len() - i,
            {
                assert(items@.take(i as int + 1).drop_last() =~= items@.take(i as int));
                match &items[i] {
                    TomlValue::Str(s) => {
                        proof {
                            lemma_texts_push(out@, *s);
                        }
                        out.push(s.clone());
                    },
                    _ => {},
                }
                i = i + 1;
            }
            assert(items@.take(items@.len() as int) =~= items@);
            out
        },
        _ => {
            assert(texts(out@) =~= Seq::<Seq<char>>::empty());
            out
        },
    }
}

/// The string under `key`, if it is one.
fn string_under(table: &Vec<(String, TomlValue)>, key: &str) -> (s: Option<String>)
    ensures
        opt_text(s) == as_str_value(lookup(table@, key@)),
{
    match get(table, key) {
        Some(TomlValue::Str(s)) => Some(s.clone()),
        _ => None,
    }
}

/// `language <name><rest>`, for a complaint about one entry.
fn about_language(name: &str, rest: &str) -> (m: String)
    ensures
        m@ == "language "@ + name@ + rest@,
{
    let mut m = "language ".to_owned();
    m.append(name);
    m.append(rest);
    m
}

/// Read one `[[language]]` entry.
pub fn parse_entry(entry: &TomlValue) -> (r: Result<ServerConfig, String>)
    ensures
        match r {
            Ok(c) => spec_parse_entry(*entry) == Ok::<ServerView, Seq<char>>(c@),
            Err(m) => spec_parse_entry(*entry) == Err::<ServerView, Seq<char>>(m@),
        },
{
    let table = match entry {
        TomlValue::Table(t) => t,
        _ => return Err("a [[language]] entry must be a table".to_owned()),
    };
    let name = match string_under(table, "name") {
        Some(n) => n,
        None => return Err("a [[language]] entry needs a name in quotes".to_owned()),
    };
    let command = match string_under(table, "command") {
        Some(c) => c,
        None => return Err(about_language(name.as_str(), " needs a command in quotes")),
    };
    let extensions = strings(table, "extensions");
    if extensions.len() == 0 {
        // Without one, nothing would ever reach it: a silent no-op is worse
        // than a line saying the entry does nothing.
        return Err(about_language(name.as_str(), " needs at least one extension"));
    }
    let given = strings(table, "roots");
    let roots = if given.len() == 0 {
        common_roots_vec()
    } else {
        given
    };
    let args = strings(table, "args");
    let config = ServerConfig { language_id: name, extensions, command, args, roots };
    Ok(config)
}

/// Where a configuration for `language_id` sits in a list, the first if
/// several do.
pub open spec fn position_of(servers: Seq<ServerView>, language_id: Seq<char>) -> Option<int>
    decreases servers.len(),
{
    if servers.len() == 0 {
        None
    } else {
        match position_of(servers.drop_last(), language_id) {
            Some(i) => Some(i),
            None => if servers.last().language_id == language_id {
                Some(servers.len() - 1)
            } else {
                None
            },
        }
    }
}

/// A configuration added to a list: it replaces one for the same language,
/// and is appended otherwise.
pub open spec fn upsert(servers: Seq<ServerView>, config: ServerView) -> Seq<ServerView> {
    match position_of(servers, config.language_id) {
        Some(i) => servers.update(i, config),
        None => servers.push(config),
    }
}

proof fn lemma_position_of(servers: Seq<ServerView>, language_id: Seq<char>)
    ensures
        match position_of(servers, language_id) {
            Some(i) => 0 <= i < servers.len() && servers[i].language_id == language_id && forall|
                j: int,
            | 0 <= j < i ==> servers[j].language_id != language_id,
            None => forall|j: int| 0 <= j < servers.len() ==> servers[j].language_id != language_id,
        },
    decreases servers.len(),
{
    if servers.len() > 0 {
        let rest = servers.drop_last();
        lemma_position_of(rest, language_id);
        assert forall|j: int| 0 <= j < rest.len() implies rest[j] == servers[j] by {}
    }
}

/// Add one server configuration, replacing one of the same language.
pub fn add_config(configs: &mut Vec<ServerConfig>, config: ServerConfig)
    ensures
        views(final(configs)@) == upsert(views(old(configs)@), config@),
{
    proof {
        lemma_position_of(views(configs@), config@.language_id);
    }
    let mut i: usize = 0;
    while i < configs.len()
        invariant
            i <= configs@.len(),
            configs@ == old(configs)@,
            forall|j: int| 0 <= j < i ==> configs@[j]@.language_id != config@.language_id,
        decreases configs@.len() - i,
    {
        if crate::text::same_text(configs[i].language_id.as_str(), config.language_id.as_str()) {
            proof {
                let vs = views(configs@);
                lemma_position_of(vs, config@.language_id);
                assert(vs[i as int].language_id == config@.language_id);
                match position_of(vs, config@.language_id) {
                    Some(p) => {
                        assert(p == i) by {
                            if p < i {
                                assert(vs[p].language_id == configs@[p]@.language_id);
                            }
                            if p > i {
                                assert(vs[i as int].language_id == config@.language_id);
                            }
                        }
                    },
                    None => {
                        assert(vs[i as int].language_id != config@.language_id);
                    },
                }
            }
            let ghost before = configs@;
            configs.set(i, config);
            proof {
                assert(views(configs@) =~= views(before).update(i as int, config@));
            }
            return;
        }
        i = i + 1;
    }
    proof {
        let vs = views(configs@);
        lemma_position_of(vs, config@.language_id);
        match position_of(vs, config@.language_id) {
            Some(p) => {
                assert(vs[p].language_id == configs@[p]@.language_id);
            },
            None => {},
        }
    }
    let ghost before = configs@;
    configs.push(config);
    proof {
        assert(views(configs@) =~= views(before).push(config@));
    }
}

/// No two configurations are for the same language.
pub open spec fn distinct_languages(servers: Seq<ServerView>) -> bool {
    forall|i: int, j: int|
        0 <= i < servers.len() && 0 <= j < servers.len() && i != j ==> servers[i].language_id
            != servers[j].language_id
}

/// Adding a configuration keeps one per language, and the language then has
/// exactly the configuration added.
pub proof fn lemma_upsert_one_per_language(servers: Seq<ServerView>, config: ServerView)
    requires
        distinct_languages(servers),
    ensures
        distinct_languages(upsert(servers, config)),
        exists|i: int|
            0 <= i < upsert(servers, config).len() && #[trigger] upsert(servers, config)[i] == config,
{
    lemma_position_of(servers, config.language_id);
    let r = upsert(servers, config);
    match position_of(servers, config.language_id) {
        Some(p) => {
            assert(r[p] == config);
        },
        None => {
            assert(r[servers.len() as int] == config);
        },
    }
}

/// Configurations with a list of `[[language]]` entries applied in order,
/// and the complaints about the entries that configured nothing.
pub open spec fn apply_entries(items: Seq<TomlValue>) -> (Seq<ServerView>, Seq<Seq<char>>)
    decreases items.len(),
{
    if items.len() == 0 {
        (spec_defaults(), Seq::empty())
    } else {
        let (servers, complaints) = apply_entries(items.drop_last());
        match spec_parse_entry(items.last()) {
            Ok(config) => (upsert(servers, config), complaints),
            Err(complaint) => (servers, complaints.push(complaint)),
        }
    }
}

/// The servers a config file asks for: the defaults, with each `[[language]]`
/// entry replacing a default of the same name or added beside them; an entry
/// that does not parse is dropped with a complaint and the others still apply.
pub open spec fn spec_load(entries: Seq<Entry>) -> (Seq<ServerView>, Seq<Seq<char>>) {
    match entry_lookup(entries, "language"@) {
        None => (spec_defaults(), Seq::empty()),
        Some(e) => match e.value {
            TomlValue::Array(items) => apply_entries(items@),
            _ => (spec_defaults(), seq!["language must be written as [[language]] tables"@]),
        },
    }
}

/// Read `[[language]]` out of a parsed `config.toml`.
pub fn load(entries: &Vec<Entry>) -> (r: (Vec<ServerConfig>, Vec<String>))
    ensures
        views(r.0@) == spec_load(entries@).0,
        texts(r.1@) == spec_load(entries@).1,
{
    let mut servers = defaults();
    let mut complaints: Vec<String> = Vec::new();
    let entry = match find_entry(entries, "language") {
        Some(e) => e,
        None => {
            assert(texts(complaints@) =~= Seq::<Seq<char>>::empty());
            return (servers, complaints);
        },
    };
    let items = match &entry.value {
        TomlValue::Array(items) => items,
        _ => {
            complaints.push("language must be written as [[language]] tables".to_owned());
            assert(texts(complaints@) =~= seq!["language must be written as [[language]] tables"@]);
            return (servers, complaints);
        },
    };
    assert(texts(complaints@) =~= Seq::<Seq<char>>::empty());
    let mut i: usize = 0;
    while i < items.len()
        invariant
            i <= items@.len(),
            views(servers@) == apply_entries(items@.take(i as int)).0,
            texts(complaints@) == apply_entries(items@.take(i as int)).1,
        decreases items@.len() - i,
    {
        assert(items@.take(i as int + 1).drop_last() =~= items@.take(i as int));
        match parse_entry(&items[i]) {
            Ok(config) => add_config(&mut servers, config),
            Err(complaint) => {
                proof {
                    lemma_texts_push(complaints@, complaint);
                }
                complaints.push(complaint);
            },
        }
        i = i + 1;
    }
    assert(items@.take(items@.len() as int) =~= items@);
    (servers, complaints)
}

proof fn lemma_defaults_distinct()
    ensures
        distinct_languages(spec_defaults()),
{
    reveal_strlit("rust");
    reveal_strlit("toml");
    assert("rust"@[0] != "toml"@[0]);
}

proof fn lemma_apply_entries_distinct(items: Seq<TomlValue>)
    ensures
        distinct_languages(apply_entries(items).0),
    decreases items.len(),
{
    if items.len() == 0 {
        lemma_defaults_distinct();
    } else {
        lemma_apply_entries_distinct(items.drop_last());
        let (servers, _) = apply_entries(items.drop_last());
        match spec_parse_entry(items.last()) {
            Ok(config) => lemma_upsert_one_per_language(servers, config),
            Err(_) => {},
        }
    }
}

/// Whatever a config file says, each language ends up with one server
/// configuration: a configured entry replaces the default of the same name
/// rather than standing beside it.
pub proof fn lemma_load_one_per_language(entries: Seq<Entry>)
    ensures
        distinct_languages(spec_load(entries).0),
{
    lemma_defaults_distinct();
    match entry_lookup(entries, "language"@) {
        None => {},
        Some(e) => match e.value {
            TomlValue::Array(items) => lemma_apply_entries_distinct(items@),
            _ => {},
        },
    }
}

/// The first configuration that handles a path.
pub open spec fn first_handling(configs: Seq<ServerView>, path: Seq<char>) -> Option<int>
    decreases configs.len(),
{
    if configs.len() == 0 {
        None
    } else {
        match first_handling(configs.drop_last(), path) {
            Some(i) => Some(i),
            None => if spec_handles(configs.last().extensions, path) {
                Some(configs.len() - 1)
            } else {
                None
            },
        }
    }
}

proof fn lemma_first_handling(configs: Seq<ServerView>, path: Seq<char>, n: int, k: int)
    requires
        0 < n <= configs.len(),
        first_handling(configs.take(n), path) == Some(k),
    ensures
        first_handling(configs, path) == Some(k),
    decreases configs.len() - n,
{
    if n < configs.len() {
        assert(configs.take(n + 1).drop_last() =~= configs.take(n));
        lemma_first_handling(configs, path, n + 1, k);
    } else {
        assert(configs.take(n) =~= configs);
    }
}

/// A file goes to the first configuration that handles its extension, and
/// to none only when none does.
pub proof fn law_a_file_goes_to_the_first_server_for_it(configs: Seq<ServerView>, path: Seq<char>)
    ensures
        first_handling(configs, path) matches Some(k) ==> 0 <= k < configs.len() && spec_handles(
            configs[k].extensions,
            path,
        ) && forall|j: int| 0 <= j < k ==> !spec_handles(#[trigger] configs[j].extensions, path),
        first_handling(configs, path) is None ==> forall|j: int|
            0 <= j < configs.len() ==> !spec_handles(#[trigger] configs[j].extensions, path),
    decreases configs.len(),
{
    if configs.len() > 0 {
        let rest = configs.drop_last();
        law_a_file_goes_to_the_first_server_for_it(rest, path);
        assert forall|j: int| 0 <= j < rest.len() implies rest[j] == configs[j] by {}
    }
}

/// Without a config file, Rust files go to `rust-analyzer`, rooted at a
/// `Cargo.toml`, and TOML files to `taplo lsp stdio`, rooted at any of the
/// common project markers.
pub proof fn law_the_default_servers()
    ensures
        spec_defaults().len() == 2,
        spec_defaults()[0].language_id == "rust"@ && spec_defaults()[0].extensions == seq!["rs"@]
            && spec_defaults()[0].command == "rust-analyzer"@ && spec_defaults()[0].args.len() == 0
            && spec_defaults()[0].roots == seq!["Cargo.toml"@],
        spec_defaults()[1].language_id == "toml"@ && spec_defaults()[1].extensions == seq!["toml"@]
            && spec_defaults()[1].command == "taplo"@ && spec_defaults()[1].args == seq![
            "lsp"@,
            "stdio"@,
        ] && spec_defaults()[1].roots == seq![
            "Cargo.toml"@,
            "package.json"@,
            "pyproject.toml"@,
            "go.mod"@,
            ".git"@,
        ],
{
}

/// A `[[language]]` entry is a server exactly when it is a table with a
/// quoted name, a quoted command and at least one extension; it then takes
/// them as given, with its arguments, and its roots, or the common project
/// markers when it names none. Anything short of that is a complaint.
pub proof fn law_a_language_entry(entry: TomlValue)
    ensures
        spec_parse_entry(entry) is Ok <==> (entry matches TomlValue::Table(t) && as_str_value(
            lookup(t@, "name"@),
        ) is Some && as_str_value(lookup(t@, "command"@)) is Some && strings_under(t@, "extensions"@).len()
            > 0),
        entry matches TomlValue::Table(t) ==> (spec_parse_entry(entry) matches Ok(v) ==> (Some(
            v.language_id,
        ) == as_str_value(lookup(t@, "name"@)) && Some(v.command) == as_str_value(
            lookup(t@, "command"@),
        ) && v.extensions == strings_under(t@, "extensions"@) && v.args == strings_under(
            t@,
            "args"@,
        ) && (strings_under(t@, "roots"@).len() == 0 ==> v.roots == common_roots()) && (strings_under(
            t@,
            "roots"@,
        ).len() > 0 ==> v.roots == strings_under(t@, "roots"@)))),
{
}

/// Which configuration a file goes to: the first that handles it.
pub fn configuration_for(configs: &Vec<ServerConfig>, path: &str) -> (i: Option<usize>)
    ensures
        match i {
            Some(k) => first_handling(views(configs@), path@) == Some(k as int),
            None => first_handling(views(configs@), path@) is None,
        },
{
    let ghost all = views(configs@);
    let mut i: usize = 0;
    while i < configs.len()
        invariant
            i <= configs@.len(),
            all == views(configs@),
            first_handling(all.take(i as int), path@) is None,
        decreases configs@.len() - i,
    {
        proof {
            assert(all.take(i as int + 1).drop_last() =~= all.take(i as int));
            assert(all.take(i as int + 1).last() == configs@[i as int]@);
        }
        if configs[i].handles(path) {
            proof {
                lemma_first_handling(all, path@, i as int + 1, i as int);
            }
            return Some(i);
        }
        i = i + 1;
    }
    assert(all.take(configs@.len() as int) =~= all);
    None
}

} // verus!

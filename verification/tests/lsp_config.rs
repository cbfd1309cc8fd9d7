//! Servers come from config, and the defaults need none.

use typ_app::config::{Entry, TomlValue};
use typ_app::lsp::config::{ancestors_within, defaults, load, outermost_marked};
use typ_app::lsp::ServerConfig;

fn value(v: &toml::Value) -> TomlValue {
    match v {
        toml::Value::String(s) => TomlValue::Str(s.clone()),
        toml::Value::Integer(n) => TomlValue::Integer(*n),
        toml::Value::Array(items) => TomlValue::Array(items.iter().map(value).collect()),
        toml::Value::Table(t) => {
            TomlValue::Table(t.iter().map(|(k, v)| (k.clone(), value(v))).collect())
        }
        _ => TomlValue::Other,
    }
}

fn entries(text: &str) -> Vec<Entry> {
    let table: toml::Table = toml::from_str(text).unwrap();
    table
        .iter()
        .map(|(k, v)| Entry {
            key: k.clone(),
            value: value(v),
            shown: v.to_string(),
        })
        .collect()
}

#[test]
fn config_rust_and_toml_are_configured_without_a_config_file() {
    let servers = defaults();
    let rust = servers.iter().find(|s| s.language_id == "rust").unwrap();
    assert_eq!(rust.command, "rust-analyzer");
    assert!(rust.args.is_empty());

    let toml = servers.iter().find(|s| s.language_id == "toml").unwrap();
    assert_eq!(toml.command, "taplo");
    assert_eq!(toml.args, ["lsp", "stdio"], "the subcommand is the default");
}

#[test]
fn lsp_config_rust_and_toml_are_configured_without_a_config_file() {
    // The whole point of a default: a machine with the toolchain installed and
    // no `config.toml` still gets diagnostics.
    let settings = typ_app::config::Settings::default();
    let names: Vec<&str> = settings
        .language_servers
        .iter()
        .map(|s| s.language_id.as_str())
        .collect();
    assert!(names.contains(&"rust"), "{names:?}");
    assert!(names.contains(&"toml"), "{names:?}");
}

#[test]
fn a_config_entry_replaces_a_default_of_the_same_name() {
    let table = entries(
        r#"
        [[language]]
        name = "rust"
        extensions = ["rs"]
        command = "rust-analyzer-nightly"
        "#,
    );
    let (servers, complaints) = load(&table);
    assert!(complaints.is_empty(), "{complaints:?}");
    let rust: Vec<&ServerConfig> = servers.iter().filter(|s| s.language_id == "rust").collect();
    assert_eq!(rust.len(), 1, "the default was left behind beside it");
    assert_eq!(rust[0].command, "rust-analyzer-nightly");
}

#[test]
fn a_language_type_has_never_heard_of_is_added_not_rejected() {
    let table = entries(
        r#"
        [[language]]
        name = "zig"
        extensions = ["zig"]
        command = "zls"
        "#,
    );
    let (servers, complaints) = load(&table);
    assert!(complaints.is_empty(), "{complaints:?}");
    assert!(servers.iter().any(|s| s.language_id == "zig"));
    assert_eq!(servers.len(), defaults().len() + 1);
}

#[test]
fn an_entry_missing_its_command_is_dropped_with_a_complaint() {
    let table = entries(
        r#"
        [[language]]
        name = "zig"
        extensions = ["zig"]
        "#,
    );
    let (servers, complaints) = load(&table);
    assert_eq!(servers.len(), defaults().len(), "it was added anyway");
    assert_eq!(complaints.len(), 1, "{complaints:?}");
}

#[test]
fn an_entry_with_no_extensions_is_dropped_because_nothing_could_reach_it() {
    let table = entries(
        r#"
        [[language]]
        name = "zig"
        command = "zls"
        "#,
    );
    let (_, complaints) = load(&table);
    assert_eq!(complaints.len(), 1, "{complaints:?}");
}

#[test]
fn arguments_and_roots_come_through() {
    let table = entries(
        r#"
        [[language]]
        name = "zig"
        extensions = ["zig"]
        command = "zls"
        args = ["--stdio"]
        roots = ["build.zig"]
        "#,
    );
    let (servers, _) = load(&table);
    let zig = servers.iter().find(|s| s.language_id == "zig").unwrap();
    assert_eq!(zig.args, ["--stdio"]);
    assert_eq!(zig.roots, ["build.zig"]);
}

#[test]
fn no_language_table_leaves_the_defaults_alone() {
    let table = entries("theme = \"slate\"");
    let (servers, complaints) = load(&table);
    assert_eq!(servers, defaults());
    assert!(complaints.is_empty());
}

#[test]
fn two_entries_for_one_language_leave_one_server() {
    let table = entries(
        r#"
        [[language]]
        name = "zig"
        extensions = ["zig"]
        command = "zls"

        [[language]]
        name = "zig"
        extensions = ["zig"]
        command = "zls-nightly"
        "#,
    );
    let (servers, complaints) = load(&table);
    assert!(complaints.is_empty(), "{complaints:?}");
    let zig: Vec<&ServerConfig> = servers.iter().filter(|s| s.language_id == "zig").collect();
    assert_eq!(zig.len(), 1);
    assert_eq!(zig[0].command, "zls-nightly", "the later entry wins");
}

#[test]
fn a_language_that_is_not_a_list_of_tables_is_a_complaint() {
    let (servers, complaints) = load(&entries("language = \"rust\""));
    assert_eq!(servers, defaults());
    assert_eq!(complaints.len(), 1, "{complaints:?}");
}

#[test]
fn a_server_handles_its_extensions_only() {
    let servers = defaults();
    let rust = servers.iter().find(|s| s.language_id == "rust").unwrap();
    assert!(rust.handles("src/main.rs"));
    assert!(!rust.handles("Cargo.toml"));
    assert!(!rust.handles("Makefile"));
}

#[test]
fn the_walk_runs_from_the_nearest_parent_up_to_the_project_root() {
    let chain = ancestors_within("/work/crates/app/src/main.rs", "/work");
    assert_eq!(
        chain,
        ["/work/crates/app/src", "/work/crates/app", "/work/crates", "/work"]
    );
}

#[test]
fn a_file_outside_the_project_has_nowhere_to_look() {
    assert!(ancestors_within("/elsewhere/a.rs", "/work").is_empty());
}

#[test]
fn the_outermost_marked_ancestor_is_the_root() {
    let chain: Vec<String> = ["/w/crates/app/src", "/w/crates/app", "/w/crates", "/w"]
        .iter()
        .map(|s| s.to_string())
        .collect();
    assert_eq!(
        outermost_marked(&chain, &vec![false, true, false, true], "/w"),
        "/w"
    );
    assert_eq!(
        outermost_marked(&chain, &vec![false, true, false, false], "/w"),
        "/w/crates/app"
    );
    assert_eq!(
        outermost_marked(&chain, &vec![false, false, false, false], "/w"),
        "/w",
        "no marker anywhere roots the server where the project was opened"
    );
}

#[test]
fn a_file_goes_to_the_first_configuration_that_handles_it() {
    let servers = defaults();
    assert_eq!(
        typ_app::lsp::config::configuration_for(&servers, "src/main.rs").map(|i| servers[i].language_id.as_str()),
        Some("rust")
    );
    assert_eq!(
        typ_app::lsp::config::configuration_for(&servers, "Cargo.TOML").map(|i| servers[i].language_id.as_str()),
        Some("toml")
    );
    assert_eq!(typ_app::lsp::config::configuration_for(&servers, "notes.md"), None);
}

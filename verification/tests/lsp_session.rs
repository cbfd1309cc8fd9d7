//! One editor session's language servers, end to end.

use typ_app::lsp::answers::{Ask, NoAnswer};
use typ_app::lsp::config::defaults;
use typ_app::lsp::docs::SyncStep;
use typ_app::lsp::json::Json;
use typ_app::lsp::requests::Pending;
use typ_app::lsp::servers::{AfterExit, Lookup};
use typ_app::lsp::session::Session;

fn s(text: &str) -> Json {
    Json::Str(text.to_string())
}

fn obj(members: Vec<(&str, Json)>) -> Json {
    Json::Object(members.into_iter().map(|(k, v)| (k.to_string(), v)).collect())
}

fn session() -> Session<u8> {
    Session::new(defaults())
}

#[test]
fn a_rust_file_goes_to_the_rust_configuration_and_starts_once() {
    let mut lsp = session();
    let config = lsp.config_for("/w/src/main.rs").unwrap();
    assert_eq!(lsp.command(config).0, "rust-analyzer");
    assert_eq!(*lsp.roots(config), ["Cargo.toml"]);
    assert_eq!(lsp.lookup(config, "/w"), Lookup::Absent);
    assert_eq!(lsp.started(config, "/w".to_string(), true), Some(0));
    assert_eq!(lsp.lookup(config, "/w"), Lookup::Running(0));
    assert_eq!(lsp.lookup(config, "/other"), Lookup::Absent, "two projects, two servers");
    assert_eq!(lsp.running(), 1);
    assert_eq!(lsp.config_for("/w/notes.md"), None);
}

#[test]
fn a_binary_that_will_not_start_is_down_and_stays_down() {
    let mut lsp = session();
    assert_eq!(lsp.started(0, "/w".to_string(), false), None);
    assert_eq!(lsp.lookup(0, "/w"), Lookup::Down);
    assert_eq!(lsp.running(), 0);
}

#[test]
fn opening_a_file_sends_did_open_once() {
    let mut lsp = session();
    lsp.started(0, "/w".to_string(), true);
    assert!(matches!(lsp.plan("/w/a.rs", 1), SyncStep::Open));
    lsp.opened("/w/a.rs".to_string(), 0, "file:///w/a.rs".to_string(), 1);
    assert!(matches!(lsp.plan("/w/a.rs", 1), SyncStep::Current));
    assert_eq!(lsp.notifications_of("textDocument/didOpen"), 1);
    match lsp.plan("/w/a.rs", 2) {
        SyncStep::Change { version, .. } => {
            assert_eq!(version, 1);
            lsp.changed("/w/a.rs", 2, version, true);
        }
        other => panic!("{other:?}"),
    }
    assert_eq!(lsp.notifications_of("textDocument/didChange"), 1);
    assert!(matches!(lsp.plan("/w/a.rs", 2), SyncStep::Current));
}

#[test]
fn closing_a_tab_sends_did_close() {
    let mut lsp = session();
    lsp.started(0, "/w".to_string(), true);
    lsp.opened("/w/a.rs".to_string(), 0, "file:///w/a.rs".to_string(), 1);
    let gone = lsp.absent(&Vec::new());
    assert_eq!(gone, ["/w/a.rs"]);
    assert_eq!(lsp.closed("/w/a.rs"), Some((0, "file:///w/a.rs".to_string())));
    lsp.record("textDocument/didClose", true);
    assert_eq!(lsp.notifications_of("textDocument/didClose"), 1);
    assert!(lsp.absent(&Vec::new()).is_empty());
}

#[test]
fn a_server_that_exits_forgets_its_documents_and_its_work() {
    let mut lsp = session();
    lsp.started(0, "/w".to_string(), true);
    lsp.mark_ready(0);
    lsp.opened("/w/a.rs".to_string(), 0, "file:///w/a.rs".to_string(), 1);
    let begin = obj(vec![("token", s("t")), ("value", obj(vec![("kind", s("begin")), ("title", s("Indexing"))]))]);
    assert!(lsp.note_progress(0, &begin));
    assert_eq!(lsp.progress(), ["Indexing"]);
    assert_eq!(lsp.exited(0, 100, vec!["panicked".to_string()]), AfterExit::Restart);
    assert!(lsp.progress().is_empty());
    assert!(matches!(lsp.plan("/w/a.rs", 1), SyncStep::Open), "announced again after the restart");
    lsp.restarted(0, true);
    assert_eq!(lsp.running(), 1);
}

#[test]
fn a_server_that_never_started_is_not_restarted_and_can_be_asked_back() {
    let mut lsp = session();
    lsp.started(0, "/w".to_string(), true);
    assert_eq!(lsp.exited(0, 5, vec!["Unknown binary".to_string()]), AfterExit::Stop);
    assert_eq!(lsp.lookup(0, "/w"), Lookup::Down);
    assert_eq!(lsp.forgive_all(), [0]);
    lsp.restarted(0, true);
    assert_eq!(lsp.lookup(0, "/w"), Lookup::Running(0));
    assert!(lsp.forgive_all().is_empty(), "nothing left to restart");
}

#[test]
fn a_question_needs_a_ready_server_that_offers_it() {
    let mut lsp = session();
    assert_eq!(lsp.ask("/w/a.rs", true, true), Err(NoAnswer::NoServer));
    lsp.started(0, "/w".to_string(), true);
    lsp.opened("/w/a.rs".to_string(), 0, "file:///w/a.rs".to_string(), 1);
    assert_eq!(lsp.ask("/w/a.rs", false, true), Err(NoAnswer::NotReady));
    assert_eq!(lsp.ask("/w/a.rs", true, false), Err(NoAnswer::Unsupported));
    assert_eq!(lsp.ask("/w/a.rs", true, true), Ok((0, "file:///w/a.rs".to_string())));
    lsp.asked(Pending { id: 7, server: 0, kind: Ask::Hover, line: 0, column: 0 });
    lsp.asked(Pending { id: 8, server: 0, kind: Ask::Hover, line: 0, column: 0 });
    assert_eq!(lsp.cancel(Ask::Hover), [(0, 7), (0, 8)]);
    assert_eq!(lsp.take_pending(7), None);
}

#[test]
fn a_replacement_configuration_takes_the_defaults_place() {
    let mut lsp = session();
    let mut rust = defaults().remove(0);
    rust.command = "rust-analyzer-nightly".to_string();
    lsp.add(rust);
    let config = lsp.config_for("a.rs").unwrap();
    assert_eq!(lsp.command(config).0, "rust-analyzer-nightly");
}

#[test]
fn a_publish_for_an_open_document_is_kept_and_one_for_a_closed_one_is_dropped() {
    let mut lsp = session();
    lsp.started(0, "/w".to_string(), true);
    lsp.set_pushed("/w/a.rs", vec![1]);
    assert!(lsp.pushed("/w/a.rs").is_empty());
    lsp.opened("/w/a.rs".to_string(), 0, "file:///w/a.rs".to_string(), 1);
    lsp.set_pushed("/w/a.rs", vec![4, 5]);
    assert_eq!(lsp.pushed("/w/a.rs"), [4, 5]);
    assert_eq!(lsp.version("/w/a.rs"), Some(0));
    assert_eq!(lsp.owner("/w/a.rs"), Some((0, "file:///w/a.rs".to_string())));
    lsp.closed("/w/a.rs");
    assert!(lsp.pushed("/w/a.rs").is_empty());
}

//! What the servers have been told about the open documents, the questions
//! in flight, and the count of what was sent.

use typ_app::lsp::answers::Ask;
use typ_app::lsp::docs::{Docs, SyncStep};
use typ_app::lsp::requests::{Pending, Requests, Tally};

fn is_change(step: &SyncStep, uri: &str, version: i32) -> bool {
    matches!(step, SyncStep::Change { uri: u, version: v } if u == uri && *v == version)
}

#[test]
fn an_unknown_document_is_opened_once() {
    let mut docs: Docs<u8> = Docs::new();
    assert!(matches!(docs.plan("/p/a.rs", 1), SyncStep::Open));
    docs.opened("/p/a.rs".to_string(), 0, "file:///p/a.rs".to_string(), 1);
    assert!(matches!(docs.plan("/p/a.rs", 1), SyncStep::Current), "a second pass sends nothing");
    assert_eq!(docs.version("/p/a.rs"), Some(0));
}

#[test]
fn the_version_increases_with_every_change() {
    let mut docs: Docs<u8> = Docs::new();
    docs.opened("/p/a.rs".to_string(), 0, "file:///p/a.rs".to_string(), 1);
    let step = docs.plan("/p/a.rs", 2);
    assert!(is_change(&step, "file:///p/a.rs", 1));
    docs.changed("/p/a.rs", 2, 1);
    assert!(matches!(docs.plan("/p/a.rs", 2), SyncStep::Current));
    assert!(is_change(&docs.plan("/p/a.rs", 5), "file:///p/a.rs", 2));
    assert_eq!(docs.version("/p/a.rs"), Some(1));
}

#[test]
fn a_document_no_tab_holds_is_closed_and_keeps_its_version() {
    let mut docs: Docs<u8> = Docs::new();
    docs.opened("/p/a.rs".to_string(), 0, "file:///p/a.rs".to_string(), 1);
    docs.opened("/p/b.rs".to_string(), 0, "file:///p/b.rs".to_string(), 1);
    docs.set_pushed("/p/a.rs", vec![1, 2]);
    let gone = docs.absent(&vec!["/p/b.rs".to_string()]);
    assert_eq!(gone, ["/p/a.rs"]);
    let whom = docs.closed("/p/a.rs").unwrap();
    assert_eq!(whom, (0, "file:///p/a.rs".to_string()));
    assert!(docs.pushed("/p/a.rs").is_empty(), "a closed file shows nothing");
    assert!(docs.absent(&vec!["/p/b.rs".to_string()]).is_empty(), "closed once");
    assert!(is_change(&docs.plan("/p/a.rs", 1), "file:///p/a.rs", 1), "reopening keeps counting");
}

#[test]
fn diagnostics_for_a_document_nobody_holds_are_dropped() {
    let mut docs: Docs<u8> = Docs::new();
    docs.set_pushed("/p/a.rs", vec![1]);
    assert!(docs.pushed("/p/a.rs").is_empty());
    docs.opened("/p/a.rs".to_string(), 0, "file:///p/a.rs".to_string(), 1);
    docs.set_pushed("/p/a.rs", vec![7, 8]);
    assert_eq!(docs.pushed("/p/a.rs"), [7, 8]);
}

#[test]
fn a_server_that_exits_takes_its_documents_with_it() {
    let mut docs: Docs<u8> = Docs::new();
    docs.opened("/p/a.rs".to_string(), 0, "file:///p/a.rs".to_string(), 1);
    docs.opened("/p/b.toml".to_string(), 1, "file:///p/b.toml".to_string(), 1);
    docs.forget_server(0);
    assert_eq!(docs.version("/p/a.rs"), None);
    assert_eq!(docs.owner("/p/b.toml"), Some((1, "file:///p/b.toml".to_string())));
    assert!(matches!(docs.plan("/p/a.rs", 1), SyncStep::Open), "a restart announces it again");
}

fn pending(id: i64, kind: Ask) -> Pending {
    Pending { id, server: 0, kind, line: 0, column: 0 }
}

#[test]
fn cancelling_a_kind_leaves_the_others_in_order() {
    let mut requests = Requests::new();
    requests.asked(pending(1, Ask::Hover));
    requests.asked(pending(2, Ask::Definition));
    requests.asked(pending(3, Ask::Hover));
    requests.asked(pending(4, Ask::Definition));
    let stale = requests.cancel(Ask::Hover);
    assert_eq!(stale, [(0, 1), (0, 3)]);
    assert_eq!(requests.len(), 2);
    assert_eq!(requests.take(2).map(|p| p.id), Some(2));
    assert_eq!(requests.take(1), None, "cancelled");
    assert_eq!(requests.take(4).map(|p| p.kind), Some(Ask::Definition));
    assert_eq!(requests.len(), 0);
}

#[test]
fn the_cursor_is_stamped_on_the_last_question() {
    let mut requests = Requests::new();
    requests.stamp_last(3, 4);
    requests.asked(pending(9, Ask::Hover));
    requests.stamp_last(3, 4);
    let p = requests.take(9).unwrap();
    assert_eq!((p.line, p.column), (3, 4));
}

#[test]
fn the_tally_counts_what_was_sent() {
    let mut tally = Tally::new();
    assert_eq!(tally.notifications_of("textDocument/didOpen"), 0);
    tally.record("textDocument/didOpen", true);
    tally.record("textDocument/didChange", true);
    tally.record("textDocument/didChange", false);
    tally.record("textDocument/didOpen", true);
    assert_eq!(tally.notifications_of("textDocument/didOpen"), 2);
    assert_eq!(tally.notifications_of("textDocument/didChange"), 1);
    assert_eq!(tally.notifications_of("textDocument/didClose"), 0);
}

#[test]
fn a_second_pass_over_the_same_documents_sends_nothing() {
    let mut docs: Docs<u8> = Docs::new();
    docs.opened("/p/a.rs".to_string(), 0, "file:///p/a.rs".to_string(), 1);
    let pass = [("/p/a.rs", 4u64), ("/p/b.rs", 2u64), ("/p/c.rs", 7u64)];
    for (path, revision) in pass {
        match docs.plan(path, revision) {
            SyncStep::Current => {}
            SyncStep::Change { version, .. } => docs.changed(path, revision, version),
            SyncStep::Open => docs.opened(path.to_string(), 0, format!("file://{path}"), revision),
        }
    }
    for (path, revision) in pass {
        assert!(matches!(docs.plan(path, revision), SyncStep::Current), "{path}");
    }
    assert_eq!(docs.version("/p/a.rs"), Some(1));
    assert_eq!(docs.version("/p/b.rs"), Some(0));
}

#[test]
fn a_pass_naming_a_document_twice_at_one_revision_still_settles() {
    let mut docs: Docs<u8> = Docs::new();
    let pass = [("/p/a.rs", 3u64), ("/p/a.rs", 3u64)];
    for (path, revision) in pass {
        match docs.plan(path, revision) {
            SyncStep::Current => {}
            SyncStep::Change { version, .. } => docs.changed(path, revision, version),
            SyncStep::Open => docs.opened(path.to_string(), 0, format!("file://{path}"), revision),
        }
    }
    assert!(matches!(docs.plan("/p/a.rs", 3), SyncStep::Current));
    assert_eq!(docs.version("/p/a.rs"), Some(0), "the repeat sent nothing");
}

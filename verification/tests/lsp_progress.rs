//! What a server says it is doing, as the status bar shows it.

use typ_app::lsp::json::{Json, JsonNumber};
use typ_app::lsp::progress::{describe, token_name, Progress};

fn s(text: &str) -> Json {
    Json::Str(text.to_string())
}

fn n(value: u64) -> Json {
    Json::Number(JsonNumber {
        unsigned: Some(value),
        text: value.to_string(),
    })
}

fn obj(members: Vec<(&str, Json)>) -> Json {
    Json::Object(members.into_iter().map(|(k, v)| (k.to_string(), v)).collect())
}

fn note(token: Json, value: Vec<(&str, Json)>) -> Json {
    obj(vec![("token", token), ("value", obj(value))])
}

#[test]
fn a_begin_puts_the_work_in_the_status_bar() {
    let mut progress = Progress::new();
    assert!(progress.note(0, &note(s("t1"), vec![("kind", s("begin")), ("title", s("Indexing"))])));
    assert_eq!(progress.texts(), ["Indexing"]);
}

#[test]
fn a_percentage_is_shown_when_the_server_gives_one() {
    let mut progress = Progress::new();
    progress.note(0, &note(s("t1"), vec![("kind", s("begin")), ("title", s("Indexing"))]));
    assert!(progress.note(0, &note(s("t1"), vec![("kind", s("report")), ("percentage", n(40))])));
    assert_eq!(progress.texts(), ["Indexing 40%"]);
}

#[test]
fn a_report_keeps_the_title_and_takes_the_message() {
    let mut progress = Progress::new();
    progress.note(0, &note(n(7), vec![("kind", s("begin")), ("title", s("Fetching"))]));
    progress.note(0, &note(n(7), vec![("kind", s("report")), ("message", s("crates"))]));
    assert_eq!(progress.texts(), ["Fetching crates"]);
}

#[test]
fn a_report_for_work_nobody_began_is_ignored() {
    let mut progress = Progress::new();
    assert!(!progress.note(0, &note(s("ghost"), vec![("kind", s("report")), ("percentage", n(5))])));
    assert_eq!(progress.len(), 0);
}

#[test]
fn an_end_clears_it() {
    let mut progress = Progress::new();
    progress.note(0, &note(s("a"), vec![("kind", s("begin")), ("title", s("Indexing"))]));
    progress.note(0, &note(s("b"), vec![("kind", s("begin")), ("title", s("Fetching"))]));
    assert!(progress.note(0, &note(s("a"), vec![("kind", s("end"))])));
    assert_eq!(progress.texts(), ["Fetching"]);
    assert!(!progress.note(0, &note(s("a"), vec![("kind", s("end"))])), "nothing left to end");
}

#[test]
fn two_concurrent_tokens_do_not_clobber_each_other() {
    let mut progress = Progress::new();
    progress.note(0, &note(s("a"), vec![("kind", s("begin")), ("title", s("Indexing"))]));
    progress.note(0, &note(s("b"), vec![("kind", s("begin")), ("title", s("Fetching"))]));
    assert_eq!(progress.len(), 2);
    assert_eq!(progress.texts()[0], "Indexing", "the oldest work comes first");
}

#[test]
fn the_same_token_from_two_servers_is_two_pieces_of_work() {
    let mut progress = Progress::new();
    progress.note(0, &note(s("a"), vec![("kind", s("begin")), ("title", s("Indexing"))]));
    progress.note(1, &note(s("a"), vec![("kind", s("begin")), ("title", s("Checking"))]));
    assert_eq!(progress.texts(), ["Indexing", "Checking"]);
    progress.forget(0);
    assert_eq!(progress.texts(), ["Checking"]);
}

#[test]
fn a_begin_again_replaces_in_place() {
    let mut progress = Progress::new();
    progress.note(0, &note(s("a"), vec![("kind", s("begin")), ("title", s("Indexing"))]));
    progress.note(0, &note(s("b"), vec![("kind", s("begin")), ("title", s("Fetching"))]));
    progress.note(0, &note(s("a"), vec![("kind", s("begin")), ("title", s("Reindexing"))]));
    assert_eq!(progress.texts(), ["Reindexing", "Fetching"]);
}

#[test]
fn malformed_notes_change_nothing() {
    let mut progress = Progress::new();
    assert!(!progress.note(0, &obj(vec![("value", obj(vec![("kind", s("begin"))]))])));
    assert!(!progress.note(0, &obj(vec![("token", Json::Null), ("value", obj(vec![]))])));
    assert!(!progress.note(0, &obj(vec![("token", s("a"))])));
    assert!(!progress.note(0, &note(s("a"), vec![("kind", s("pause"))])));
    assert_eq!(progress.len(), 0);
}

#[test]
fn a_begin_with_no_title_is_working() {
    let mut progress = Progress::new();
    progress.note(0, &note(s("a"), vec![("kind", s("begin"))]));
    assert_eq!(progress.texts(), ["Working"]);
}

#[test]
fn a_line_of_progress_is_the_title_and_the_most_specific_thing_said() {
    assert_eq!(describe("Indexing", &obj(vec![("percentage", n(3))])), "Indexing 3%");
    assert_eq!(describe("Indexing", &obj(vec![("message", s("std"))])), "Indexing std");
    assert_eq!(describe("Indexing", &obj(vec![("message", s(""))])), "Indexing");
    assert_eq!(
        describe("Indexing", &obj(vec![("percentage", n(9)), ("message", s("std"))])),
        "Indexing 9%"
    );
}

#[test]
fn a_token_is_a_string_or_a_number() {
    assert_eq!(token_name(&s("x")).as_deref(), Some("x"));
    assert_eq!(token_name(&n(12)).as_deref(), Some("12"));
    assert_eq!(token_name(&Json::Bool(true)), None);
}

//! What the editor makes of a server's answers.

use typ_app::lsp::answers::{
    route_server_request, ServerRequestRoute,
    ask_params, configuration_reply, definition_target, flatten_markdown, hover_text, marked_string,
    may_ask, message, severity, Ask, Message, NoAnswer, Severity,
};
use typ_app::lsp::json::{Json, JsonNumber};

fn s(text: &str) -> Json {
    Json::Str(text.to_string())
}

fn n(value: u64) -> Json {
    Json::Number(JsonNumber {
        unsigned: Some(value),
        text: value.to_string(),
    })
}

fn obj(members: Vec<(&str, Json)>) -> Json {
    Json::Object(members.into_iter().map(|(k, v)| (k.to_string(), v)).collect())
}

fn position(line: u64, character: u64) -> Json {
    obj(vec![("line", n(line)), ("character", n(character))])
}

fn range(line: u64, character: u64) -> Json {
    obj(vec![("start", position(line, character)), ("end", position(line, character + 1))])
}

#[test]
fn markdown_loses_its_fences_its_ticks_and_its_stars() {
    let text = "```rust\nfn main()\n```\n\nSome **bold** and `code`.";
    assert_eq!(flatten_markdown(text), "fn main()\nSome bold and code.");
}

#[test]
fn blank_lines_add_nothing_between_lines_of_text() {
    assert_eq!(flatten_markdown("a\n\n\n\nb"), "a\nb");
    assert_eq!(flatten_markdown("\n\n  \nonly\n\n"), "only");
}

#[test]
fn trailing_space_and_carriage_returns_go() {
    assert_eq!(flatten_markdown("one   \r\ntwo\r\n"), "one\ntwo");
}

#[test]
fn nothing_but_markup_flattens_to_nothing() {
    assert_eq!(flatten_markdown("```\n```"), "");
    assert_eq!(flatten_markdown(""), "");
}

#[test]
fn a_hover_can_be_a_plain_string() {
    let answer = obj(vec![("contents", s("`i32`"))]);
    assert_eq!(hover_text(&answer).as_deref(), Some("i32"));
}

#[test]
fn a_hover_can_be_markup_content() {
    let answer = obj(vec![(
        "contents",
        obj(vec![("kind", s("markdown")), ("value", s("```rust\nfn f()\n```\nDoes **f**."))]),
    )]);
    assert_eq!(hover_text(&answer).as_deref(), Some("fn f()\nDoes f."));
}

#[test]
fn a_hover_can_be_a_list_of_marked_strings() {
    let answer = obj(vec![(
        "contents",
        Json::Array(vec![
            obj(vec![("language", s("rust")), ("value", s("fn f()"))]),
            Json::Null,
            s("Docs."),
        ]),
    )]);
    assert_eq!(hover_text(&answer).as_deref(), Some("fn f()\nDocs."));
}

#[test]
fn an_empty_or_missing_hover_is_no_hover() {
    assert_eq!(hover_text(&obj(vec![("contents", s(""))])), None);
    assert_eq!(hover_text(&obj(vec![])), None);
    assert_eq!(hover_text(&Json::Null), None);
    assert_eq!(hover_text(&obj(vec![("contents", n(3))])), None);
}

#[test]
fn a_marked_string_is_its_text_or_its_value() {
    assert_eq!(marked_string(&s("x")).as_deref(), Some("x"));
    assert_eq!(marked_string(&obj(vec![("value", s("y"))])).as_deref(), Some("y"));
    assert_eq!(marked_string(&obj(vec![("value", n(1))])), None);
}

#[test]
fn a_location_names_its_target() {
    let answer = obj(vec![("uri", s("file:///src/lib.rs")), ("range", range(4, 2))]);
    let target = definition_target(&answer).unwrap();
    assert_eq!(target.uri, "file:///src/lib.rs");
    assert_eq!((target.line, target.character), (4, 2));
}

#[test]
fn the_first_of_a_list_of_locations_wins() {
    let answer = Json::Array(vec![
        obj(vec![("uri", s("file:///a.rs")), ("range", range(1, 0))]),
        obj(vec![("uri", s("file:///b.rs")), ("range", range(9, 9))]),
    ]);
    let target = definition_target(&answer).unwrap();
    assert_eq!(target.uri, "file:///a.rs");
    assert_eq!(target.line, 1);
}

#[test]
fn a_location_link_names_its_target_selection() {
    let answer = Json::Array(vec![obj(vec![
        ("targetUri", s("file:///c.rs")),
        ("targetRange", range(10, 0)),
        ("targetSelectionRange", range(12, 4)),
    ])]);
    let target = definition_target(&answer).unwrap();
    assert_eq!(target.uri, "file:///c.rs");
    assert_eq!((target.line, target.character), (12, 4));

    let whole = obj(vec![("targetUri", s("file:///c.rs")), ("targetRange", range(10, 0))]);
    assert_eq!(definition_target(&whole).unwrap().line, 10);
}

#[test]
fn null_an_empty_list_or_a_broken_location_is_no_target() {
    assert!(definition_target(&Json::Null).is_none());
    assert!(definition_target(&Json::Array(vec![])).is_none());
    assert!(definition_target(&obj(vec![("uri", s("file:///a.rs"))])).is_none());
    assert!(definition_target(&obj(vec![("uri", n(1)), ("range", range(0, 0))])).is_none());
}

#[test]
fn positions_are_cut_to_thirty_two_bits() {
    let answer = obj(vec![("uri", s("file:///a.rs")), ("range", range(1 << 32 | 5, 0))]);
    assert_eq!(definition_target(&answer).unwrap().line, 5);
}

#[test]
fn a_configuration_request_gets_one_null_per_item() {
    let params = obj(vec![("items", Json::Array(vec![obj(vec![]), obj(vec![]), obj(vec![])]))]);
    match configuration_reply(&params) {
        Json::Array(nulls) => {
            assert_eq!(nulls.len(), 3);
            assert!(nulls.iter().all(|v| matches!(v, Json::Null)));
        }
        other => panic!("not a list: {other:?}"),
    }
    match configuration_reply(&obj(vec![])) {
        Json::Array(nulls) => assert!(nulls.is_empty()),
        other => panic!("not a list: {other:?}"),
    }
}

#[test]
fn each_unasked_question_has_its_sentence() {
    assert_eq!(NoAnswer::NoServer.message(), "No language server for this file.");
    assert_eq!(NoAnswer::NotReady.message(), "The language server is still starting.");
    assert_eq!(NoAnswer::Unsupported.message(), "This language server does not offer that.");
}

#[test]
fn a_question_goes_only_to_a_ready_server_that_offers_it() {
    assert_eq!(may_ask(false, true, true, true), Err(NoAnswer::NoServer));
    assert_eq!(may_ask(true, false, true, true), Err(NoAnswer::NoServer));
    assert_eq!(may_ask(true, true, false, true), Err(NoAnswer::NotReady));
    assert_eq!(may_ask(true, true, true, false), Err(NoAnswer::Unsupported));
    assert_eq!(may_ask(true, true, true, true), Ok(()));
}

#[test]
fn each_question_names_its_capability_and_method() {
    assert_eq!(Ask::Definition.capability(), "definitionProvider");
    assert_eq!(Ask::Hover.capability(), "hoverProvider");
    assert_eq!(Ask::Definition.method(), "textDocument/definition");
    assert_eq!(Ask::Hover.method(), "textDocument/hover");
}

#[test]
fn an_unknown_severity_is_a_warning() {
    assert_eq!(severity(Some(1)), Severity::Error);
    assert_eq!(severity(Some(2)), Severity::Warning);
    assert_eq!(severity(Some(3)), Severity::Information);
    assert_eq!(severity(Some(4)), Severity::Hint);
    assert_eq!(severity(Some(7)), Severity::Warning);
    assert_eq!(severity(None), Severity::Warning);
}

#[test]
fn a_question_names_the_document_and_the_position() {
    let params = ask_params("file:///a.rs", 3, 14);
    let Json::Object(top) = &params else { panic!("not an object") };
    assert_eq!(top[0].0, "textDocument");
    match &top[0].1 {
        Json::Object(doc) => {
            assert_eq!(doc[0].0, "uri");
            assert!(matches!(&doc[0].1, Json::Str(u) if u == "file:///a.rs"));
        }
        other => panic!("{other:?}"),
    }
    match &top[1].1 {
        Json::Object(pos) => {
            assert!(matches!(&pos[0].1, Json::Number(n) if n.unsigned == Some(3) && n.text == "3"));
            assert!(matches!(&pos[1].1, Json::Number(n) if n.unsigned == Some(14) && n.text == "14"));
        }
        other => panic!("{other:?}"),
    }
}

#[test]
fn a_message_is_its_text_whichever_shape_it_came_in() {
    assert_eq!(message(&Message::Text("unused".to_string())), "unused");
    assert_eq!(
        message(&Message::Markup { kind: "markdown".to_string(), value: "`x` unused".to_string() }),
        "`x` unused"
    );
}

#[test]
fn only_a_configuration_request_is_answered_on_the_spot() {
    assert_eq!(
        route_server_request("workspace/configuration"),
        ServerRequestRoute::AnswerConfiguration
    );
    assert_eq!(route_server_request("window/workDoneProgress/create"), ServerRequestRoute::PassOn);
    assert_eq!(route_server_request("workspace/configurationX"), ServerRequestRoute::PassOn);
}

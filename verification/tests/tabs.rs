//! The list of open files and which one is on screen.

use typ_app::tabs::{quit_step, request_quit, CloseRequest, Closed, QuitStep, Tabs};

fn three() -> Tabs<&'static str> {
    let mut tabs = Tabs::new("a");
    tabs.push("b");
    tabs.push("c");
    tabs
}

fn names(tabs: &Tabs<&'static str>) -> Vec<&'static str> {
    (0..tabs.count()).map(|i| tabs.tab(i).panel).collect()
}

#[test]
fn opening_beside_switches_to_the_new_tab() {
    let tabs = three();
    assert_eq!(names(&tabs), ["a", "b", "c"]);
    assert_eq!(tabs.active(), 2);
}

#[test]
fn next_and_previous_wrap() {
    let mut tabs = three();
    assert!(tabs.next());
    assert_eq!(tabs.active(), 0);
    assert!(tabs.prev());
    assert_eq!(tabs.active(), 2);
    let mut one = Tabs::new("only");
    assert!(!one.next(), "one tab has nowhere to go");
}

#[test]
fn activating_the_tab_on_screen_or_one_that_is_not_there_changes_nothing() {
    let mut tabs = three();
    assert!(!tabs.activate(2));
    assert!(!tabs.activate(9));
    assert!(tabs.activate(0));
    assert_eq!(tabs.active(), 0);
}

#[test]
fn closing_a_tab_off_screen_keeps_the_one_on_screen() {
    let mut tabs = three();
    tabs.activate(1);
    assert_eq!(tabs.close(0, "blank"), Closed::Removed { switched: false });
    assert_eq!(names(&tabs), ["b", "c"]);
    assert_eq!(tabs.current().panel, "b");
}

#[test]
fn closing_the_active_tab_goes_back_to_the_one_used_last() {
    let mut tabs = three();
    tabs.activate(0);
    tabs.activate(2);
    assert_eq!(tabs.most_recently_used(), 2);
    assert_eq!(tabs.close(2, "blank"), Closed::Removed { switched: true });
    assert_eq!(tabs.current().panel, "a", "a was used after b");
}

#[test]
fn closing_the_last_tab_leaves_an_empty_buffer() {
    let mut tabs = Tabs::new("a");
    assert_eq!(tabs.close(0, "blank"), Closed::Reset);
    assert_eq!(tabs.count(), 1);
    assert_eq!(tabs.current().panel, "blank");
    assert_eq!(tabs.close(5, "other"), Closed::Ignored);
}

#[test]
fn unsaved_work_is_asked_about_once() {
    let mut tabs = three();
    match tabs.request_close(1, Some("b.rs has unsaved changes."), "b.rs", "blank") {
        CloseRequest::Asked(q) => assert_eq!(
            q,
            "b.rs has unsaved changes.  Close b.rs again to discard, Ctrl+S to save."
        ),
        other => panic!("expected a question, got {other:?}"),
    }
    assert_eq!(tabs.close_pending(), Some(1));
    assert!(matches!(
        tabs.request_close(1, Some("b.rs has unsaved changes."), "b.rs", "blank"),
        CloseRequest::Done(Closed::Removed { .. })
    ));
    assert_eq!(names(&tabs), ["a", "c"]);
}

#[test]
fn a_clean_tab_closes_at_once() {
    let mut tabs = three();
    assert!(matches!(
        tabs.request_close(0, None, "a.rs", "blank"),
        CloseRequest::Done(Closed::Removed { switched: false })
    ));
    assert!(matches!(tabs.request_close(7, None, "x", "blank"), CloseRequest::Ignored));
}

#[test]
fn a_parse_goes_to_the_tab_that_asked() {
    let mut tabs = three();
    assert!(tabs.needs_parse(4));
    tabs.parse_requested(4, 11);
    assert!(!tabs.needs_parse(4));
    tabs.activate(0);
    assert_eq!(tabs.parse_arrived(11), Some(2), "the background tab gets its answer");
    assert_eq!(tabs.parse_arrived(11), None, "answered once");
}

#[test]
fn quitting_asks_first_when_work_would_be_lost() {
    assert!(matches!(request_quit(false, None), QuitStep::Quit));
    match request_quit(false, Some("main.rs has unsaved changes.")) {
        QuitStep::Ask(m) => assert_eq!(
            m,
            "main.rs has unsaved changes.  Ctrl+Q again to discard, Ctrl+S to save."
        ),
        QuitStep::Quit => panic!("quit without asking"),
    }
    assert!(matches!(request_quit(true, Some("anything")), QuitStep::Quit));
}

#[test]
fn quitting_with_unsaved_changes_asks_first() {
    let unsaved = Some("hello.rs has unsaved changes.");
    // Q: the question is put and stands.
    let (step, pending) = quit_step(false, unsaved);
    match step {
        QuitStep::Ask(m) => assert!(m.contains("unsaved"), "{m}"),
        QuitStep::Quit => panic!("quit without asking"),
    }
    assert!(pending);
    // Q; Q: the second quit is the answer.
    let (step, pending) = quit_step(pending, unsaved);
    assert!(matches!(step, QuitStep::Quit));
    assert!(!pending);
    // Q; any other input; Q: the question starts over.
    let (_, pending) = quit_step(false, unsaved);
    assert!(pending);
    let pending = false;
    assert!(matches!(quit_step(pending, unsaved).0, QuitStep::Ask(_)));
    // Nothing unsaved: one quit is enough.
    let (step, pending) = quit_step(false, None);
    assert!(matches!(step, QuitStep::Quit));
    assert!(!pending);
}

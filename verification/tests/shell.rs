//! Where keys go, what the app does with its own actions, and what the
//! status bar says.

use typ_app::prompt::{Prompt, PromptKind};
use typ_app::search::Direction;
use typ_app::shell::{
    app_step, disk_change, dispatch, is_stale, nothing_to_search, open_prompt, paste_into_prompt,
    replaces_scratch, saved, status_left, status_right, AppAction, AppStep, Binding, DiskChange,
    Dispatch, HINT,
};
use typ_app::shell::{ink, status_row, BarColour};
use typ_app::status::{Emphasis, Segment, SegmentId};

#[test]
fn the_picker_and_then_the_prompt_own_the_keyboard() {
    assert_eq!(dispatch(true, true, Some(Binding::Plain), Some('a'), false), Dispatch::Picker);
    assert_eq!(dispatch(false, true, Some(Binding::Plain), Some('a'), false), Dispatch::Prompt);
}

#[test]
fn every_key_but_a_confirming_one_retires_the_status() {
    assert_eq!(dispatch(false, false, Some(Binding::Plain), None, true), Dispatch::Bound { clear: true });
    assert_eq!(
        dispatch(false, false, Some(Binding::Confirming), None, true),
        Dispatch::Bound { clear: false }
    );
}

#[test]
fn an_unbound_chord_is_never_text() {
    assert_eq!(dispatch(false, false, None, Some('j'), false), Dispatch::Text('j'));
    assert_eq!(dispatch(false, false, None, Some('j'), true), Dispatch::Raw);
    assert_eq!(dispatch(false, false, None, None, false), Dispatch::Raw);
}

#[test]
fn a_tab_digit_counts_from_one_and_zero_is_the_first() {
    assert_eq!(app_step(AppAction::GoToTab(3), 0, false), AppStep::ActivateTab(2));
    assert_eq!(app_step(AppAction::GoToTab(1), 0, false), AppStep::ActivateTab(0));
    assert_eq!(app_step(AppAction::GoToTab(0), 0, false), AppStep::ActivateTab(0));
}

#[test]
fn close_tab_asks_about_the_active_tab() {
    assert_eq!(app_step(AppAction::CloseTab, 4, false), AppStep::RequestCloseTab(4));
    assert_eq!(app_step(AppAction::Quit, 4, false), AppStep::RequestQuit);
}

#[test]
fn search_next_before_any_search_says_so() {
    assert_eq!(app_step(AppAction::SearchNext, 0, false), AppStep::NothingToSearch);
    assert_eq!(nothing_to_search(), "Nothing to search for yet");
    assert_eq!(app_step(AppAction::SearchNext, 0, true), AppStep::Jump(Direction::Forward));
    assert_eq!(app_step(AppAction::SearchPrevious, 0, true), AppStep::Jump(Direction::Backward));
}

#[test]
fn an_action_that_is_not_the_apps_falls_through() {
    assert_eq!(app_step(AppAction::Other, 0, true), AppStep::NotMine);
}

#[test]
fn the_prompts_open_asking_their_question() {
    assert_eq!(
        app_step(AppAction::ReplaceOpen, 0, false),
        AppStep::OpenPrompt { kind: PromptKind::Search, replace: true }
    );
    let p = open_prompt(PromptKind::Search, true);
    assert!(p.is_replace_flow());
    assert_eq!(p.label(), "Search:");
    let g = open_prompt(PromptKind::GotoLine, false);
    assert_eq!(g.label(), "Go to line:");
    assert!(!g.is_replace_flow());
}

#[test]
fn a_save_says_how_it_went() {
    assert_eq!(saved(Ok(())), "Saved.");
    assert_eq!(saved(Err("disk full".to_string())), "Save failed: disk full");
}

#[test]
fn the_prompt_outranks_the_message_which_outranks_the_hint() {
    let mut prompt = Prompt::new(PromptKind::Search);
    prompt.insert_char('x');
    assert_eq!(status_left(Some(&prompt), Some("busy")), "Search: x");
    assert_eq!(status_left(None, Some("busy")), "busy");
    assert_eq!(status_left(None, None), HINT);
}

#[test]
fn the_right_half_spaces_its_segments() {
    let seg = |text: &str| Segment { id: SegmentId::FileName, text: text.to_string(), emphasis: Emphasis::Normal };
    assert_eq!(status_right(&vec![seg("main.rs"), seg("LF"), seg("1:1")]), "main.rs  LF  1:1");
    assert_eq!(status_right(&Vec::new()), "");
}

#[test]
fn a_paste_into_the_prompt_drops_control_characters() {
    let mut prompt = Prompt::new(PromptKind::Search);
    paste_into_prompt(&mut prompt, "fo\no\t!");
    assert_eq!(prompt.input(), "foo!");
}

#[test]
fn a_change_on_disk_never_loses_unsaved_work() {
    assert!(matches!(disk_change(false, true, false, true, "a.rs"), DiskChange::Ignore));
    assert!(matches!(disk_change(true, true, true, false, "a.rs"), DiskChange::Ignore));
    assert!(matches!(disk_change(true, true, false, false, "a.rs"), DiskChange::Reload));
    match disk_change(true, true, false, true, "a.rs") {
        DiskChange::Kept(m) => {
            assert_eq!(m, "a.rs changed on disk. Your unsaved changes are kept; Ctrl+S overwrites it.")
        }
        other => panic!("{other:?}"),
    }
    match disk_change(true, false, false, false, "a.rs") {
        DiskChange::Deleted(m) => assert_eq!(m, "a.rs was deleted on disk. Ctrl+S writes it back."),
        other => panic!("{other:?}"),
    }
}

#[test]
fn diagnostics_for_an_older_version_are_stale() {
    assert!(is_stale(Some(3), Some(2)));
    assert!(!is_stale(Some(3), Some(3)));
    assert!(!is_stale(Some(3), None));
    assert!(!is_stale(None, Some(1)));
}

#[test]
fn only_an_untouched_untitled_buffer_is_replaced() {
    assert!(replaces_scratch(1, false, false));
    assert!(!replaces_scratch(1, true, false));
    assert!(!replaces_scratch(1, false, true));
    assert!(!replaces_scratch(2, false, false));
}

#[test]
fn a_long_message_never_pushes_the_position_off_screen() {
    let seg = |text: &str| Segment { id: SegmentId::Position, text: text.to_string(), emphasis: Emphasis::Normal };
    let right = vec![seg("main.rs"), seg("1:1")];
    let line = typ_app::shell::status_line("a very long message indeed", &right, 20);
    assert_eq!(line.left, "a very");
    assert_eq!(line.left.chars().count() + line.gap + 12, 20);
    let short = typ_app::shell::status_line("ok", &right, 20);
    assert_eq!(short.left, "ok");
    assert_eq!(short.gap, 6);
    let cramped = typ_app::shell::status_line("ok", &right, 5);
    assert_eq!(cramped.left, "");
    assert_eq!(cramped.gap, 0);
}

#[test]
fn the_idle_status_bar_advertises_the_core_bindings() {
    let hint = status_left(None, None);
    assert!(hint.contains("Tab"), "hint was: {hint}");
    assert!(hint.contains("Ctrl+S"), "hint was: {hint}");
    assert!(hint.contains("Ctrl+Q"), "hint was: {hint}");
}

fn segment(text: &str, emphasis: Emphasis) -> Segment {
    Segment { id: SegmentId::Position, text: text.to_string(), emphasis }
}

#[test]
fn the_status_bar_spans_the_frame_in_its_own_colors() {
    let right = vec![segment("main.rs", Emphasis::Normal), segment("LF", Emphasis::Quiet)];
    let cells = status_row("ready", &right, 60);
    assert_eq!(cells.len(), 60);
    for (x, cell) in cells.iter().enumerate() {
        assert_eq!(cell.bg, BarColour::Background, "gap at column {x}");
    }
    assert_eq!(cells[0].fg, BarColour::Foreground);
    assert_eq!(cells[59].symbol, 'F');
    assert_eq!(cells[59].fg, BarColour::InactiveForeground);
}

#[test]
fn a_long_message_is_truncated_rather_than_shoving_the_position_off_screen() {
    let right = vec![
        segment("main.rs", Emphasis::Normal),
        segment("rs", Emphasis::Quiet),
        segment("LF", Emphasis::Quiet),
        segment("Spaces: 4", Emphasis::Quiet),
        segment("1:1", Emphasis::Normal),
        segment("33%", Emphasis::Quiet),
    ];
    let message = "x".repeat(200);
    let cells = status_row(&message, &right, 60);
    let row: String = cells.iter().map(|c| c.symbol).collect();
    assert_eq!(row.chars().count(), 60);
    assert!(row.ends_with("main.rs  rs  LF  Spaces: 4  1:1  33%"), "row: {row:?}");
    assert!(cells.iter().all(|c| c.bg == BarColour::Background));
}

#[test]
fn each_emphasis_has_its_own_ink_and_the_gaps_are_plain() {
    assert_eq!(ink(Emphasis::Normal), BarColour::Foreground);
    assert_eq!(ink(Emphasis::Quiet), BarColour::InactiveForeground);
    assert_eq!(ink(Emphasis::Accent), BarColour::Accent);
    let right = vec![segment("ab", Emphasis::Accent), segment("c", Emphasis::Quiet)];
    let cells = status_row("", &right, 10);
    let row: String = cells.iter().map(|c| c.symbol).collect();
    assert_eq!(row, "     ab  c");
    let fgs: Vec<BarColour> = cells.iter().map(|c| c.fg).collect();
    assert_eq!(
        fgs,
        vec![
            BarColour::Foreground,
            BarColour::Foreground,
            BarColour::Foreground,
            BarColour::Foreground,
            BarColour::Foreground,
            BarColour::Accent,
            BarColour::Accent,
            BarColour::Foreground,
            BarColour::Foreground,
            BarColour::InactiveForeground,
        ]
    );
    let line = typ_app::shell::status_line("", &right, 10);
    assert_eq!(line.fill, BarColour::Background);
}

#[test]
fn a_row_too_narrow_for_the_right_half_is_cut_at_the_edge() {
    let right = vec![segment("main.rs", Emphasis::Normal), segment("1:1", Emphasis::Normal)];
    let cells = status_row("ok", &right, 5);
    let row: String = cells.iter().map(|c| c.symbol).collect();
    assert_eq!(row, "main.");
}

#[test]
fn control_characters_are_what_the_standard_library_calls_control() {
    let mut all = String::new();
    let mut kept = String::new();
    for n in 0u32..0x200 {
        if let Some(c) = char::from_u32(n) {
            all.push(c);
            if !c.is_control() {
                kept.push(c);
            }
        }
    }
    let mut prompt = Prompt::new(PromptKind::Search);
    paste_into_prompt(&mut prompt, &all);
    assert_eq!(prompt.input(), kept);
}

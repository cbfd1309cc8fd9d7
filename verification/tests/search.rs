//! The prompt's answers: goto-line numbers, searches and replaces.

use typ_app::prompt::{Prompt, PromptKind};
use typ_app::search::{
    case_sensitive, jump, no_matches, parse_line_number, parse_usize, pick_match, prompt_key,
    replaced, Direction, Effect, PromptKey,
};

fn typed(kind: PromptKind, text: &str) -> Prompt {
    let mut prompt = Prompt::new(kind);
    for c in text.chars() {
        prompt.insert_char(c);
    }
    prompt
}

#[test]
fn a_line_number_counts_from_one() {
    assert_eq!(parse_line_number("12"), Some(11));
    assert_eq!(parse_line_number("1"), Some(0));
}

#[test]
fn line_zero_means_the_top_of_the_file() {
    assert_eq!(parse_line_number("0"), Some(0));
}

#[test]
fn surrounding_space_is_ignored() {
    assert_eq!(parse_line_number("  7 \t"), Some(6));
}

#[test]
fn anything_that_is_not_a_number_is_refused() {
    assert_eq!(parse_line_number("abc"), None);
    assert_eq!(parse_line_number(""), None);
    assert_eq!(parse_line_number("-1"), None);
    assert_eq!(parse_line_number("1 2"), None);
    assert_eq!(parse_line_number("99999999999999999999999"), None);
}

#[test]
fn usize_parsing_takes_a_plus_sign_as_the_standard_library_does() {
    assert_eq!(parse_usize("+3"), Some(3));
    assert_eq!(parse_usize("+"), None);
    assert_eq!(parse_usize("18446744073709551615"), Some(usize::MAX));
    assert_eq!(parse_usize("007"), Some(7));
}

#[test]
fn a_line_number_jumps_there_counted_from_one() {
    let (prompt, effect) = prompt_key(typed(PromptKind::GotoLine, "20"), PromptKey::Enter, false);
    assert!(prompt.is_none(), "the prompt closes on a good answer");
    assert!(matches!(effect, Effect::GotoLine(19)));
}

#[test]
fn line_zero_is_treated_as_line_one() {
    let (prompt, effect) = prompt_key(typed(PromptKind::GotoLine, "0"), PromptKey::Enter, false);
    assert!(prompt.is_none());
    assert!(matches!(effect, Effect::GotoLine(0)));
}

#[test]
fn non_numeric_input_is_rejected_without_closing_the_prompt() {
    let (prompt, effect) = prompt_key(typed(PromptKind::GotoLine, "twelve"), PromptKey::Enter, false);
    assert!(prompt.is_some(), "the prompt stays open");
    assert!(matches!(effect, Effect::Status(_)));
}

#[test]
fn the_rejected_input_is_left_in_place_to_be_corrected() {
    let (prompt, effect) = prompt_key(typed(PromptKind::GotoLine, "abc"), PromptKey::Enter, false);
    let prompt = prompt.expect("the prompt stays open");
    assert_eq!(prompt.input(), "abc");
    match effect {
        Effect::Status(message) => assert_eq!(message, "Not a line number: abc"),
        other => panic!("expected a status, got {other:?}"),
    }
}

#[test]
fn an_empty_answer_closes_the_prompt_and_does_nothing() {
    let (prompt, effect) = prompt_key(Prompt::new(PromptKind::GotoLine), PromptKey::Enter, false);
    assert!(prompt.is_none());
    assert!(matches!(effect, Effect::Nothing));
}

#[test]
fn escape_abandons_the_prompt_without_moving() {
    let (prompt, effect) = prompt_key(typed(PromptKind::Search, "fn"), PromptKey::Esc, false);
    assert!(prompt.is_none());
    assert!(matches!(effect, Effect::Nothing));
}

#[test]
fn a_chord_typed_into_the_prompt_is_not_treated_as_text() {
    let (prompt, _) = prompt_key(typed(PromptKind::Search, "a"), PromptKey::Char('f'), true);
    assert_eq!(prompt.unwrap().input(), "a");
    let (prompt, _) = prompt_key(typed(PromptKind::Search, "ab"), PromptKey::Backspace, true);
    assert_eq!(prompt.unwrap().input(), "ab");
}

#[test]
fn plain_keys_edit_the_prompt() {
    let (prompt, _) = prompt_key(typed(PromptKind::Search, "a"), PromptKey::Char('b'), false);
    let (prompt, _) = prompt_key(prompt.unwrap(), PromptKey::Char('c'), false);
    let (prompt, _) = prompt_key(prompt.unwrap(), PromptKey::Backspace, false);
    assert_eq!(prompt.unwrap().input(), "ab");
    let (prompt, effect) = prompt_key(typed(PromptKind::Search, "a"), PromptKey::Other, false);
    assert_eq!(prompt.unwrap().input(), "a");
    assert!(matches!(effect, Effect::Nothing));
}

#[test]
fn enter_on_a_search_searches() {
    let (prompt, effect) = prompt_key(typed(PromptKind::Search, "alpha"), PromptKey::Enter, false);
    assert!(prompt.is_none());
    match effect {
        Effect::Search(needle) => assert_eq!(needle, "alpha"),
        other => panic!("expected a search, got {other:?}"),
    }
}

#[test]
fn a_replace_asks_for_the_replacement_then_replaces() {
    let mut prompt = typed(PromptKind::Search, "alpha");
    prompt.become_replace_after_needle();
    let (prompt, effect) = prompt_key(prompt, PromptKey::Enter, false);
    assert!(matches!(effect, Effect::Nothing));
    let prompt = prompt.expect("the prompt asks the second question");
    assert_eq!(prompt.kind(), PromptKind::Replace);
    assert_eq!(prompt.pending_needle(), Some("alpha"));
    assert_eq!(prompt.input(), "");

    let mut prompt = prompt;
    for c in "omega".chars() {
        prompt.insert_char(c);
    }
    let (prompt, effect) = prompt_key(prompt, PromptKey::Enter, false);
    assert!(prompt.is_none());
    match effect {
        Effect::ReplaceAll { needle, replacement } => {
            assert_eq!(needle, "alpha");
            assert_eq!(replacement, "omega");
        }
        other => panic!("expected a replace, got {other:?}"),
    }
}

#[test]
fn smart_case_is_sensitive_only_with_a_capital() {
    assert!(!case_sensitive("alpha"));
    assert!(case_sensitive("Alpha"));
    assert!(case_sensitive("ÉCOLE"));
    assert!(!case_sensitive(""));
}

#[test]
fn a_replace_reports_what_it_did() {
    assert_eq!(replaced("foo", 0), "No matches for foo");
    assert_eq!(replaced("foo", 1), "1 replacement");
    assert_eq!(replaced("foo", 12), "12 replacements");
    assert_eq!(no_matches("bar"), "No matches for bar");
}

fn hits() -> Vec<((usize, usize), (usize, usize))> {
    vec![((0, 0), (0, 5)), ((1, 5), (1, 10)), ((3, 2), (3, 7))]
}

#[test]
fn forward_finds_the_first_match_at_or_after_the_cursor() {
    assert_eq!(pick_match(&hits(), (0, 0), Direction::Forward), Some(0));
    assert_eq!(pick_match(&hits(), (0, 5), Direction::Forward), Some(1));
    assert_eq!(pick_match(&hits(), (1, 5), Direction::Forward), Some(1));
    assert_eq!(pick_match(&hits(), (2, 0), Direction::Forward), Some(2));
}

#[test]
fn forward_past_the_last_match_wraps_to_the_first() {
    assert_eq!(pick_match(&hits(), (3, 7), Direction::Forward), Some(0));
}

#[test]
fn backward_finds_the_last_match_ending_before_the_cursor_and_wraps() {
    assert_eq!(pick_match(&hits(), (3, 7), Direction::Backward), Some(1));
    assert_eq!(pick_match(&hits(), (9, 0), Direction::Backward), Some(2));
    assert_eq!(pick_match(&hits(), (0, 3), Direction::Backward), Some(2));
}

#[test]
fn a_search_with_no_matches_says_so_and_moves_nothing() {
    assert_eq!(pick_match(&Vec::new(), (0, 0), Direction::Forward), None);
    let step = jump(&Vec::new(), (0, 0), Direction::Forward, "zeta");
    assert_eq!(step.target, None);
    assert_eq!(step.status, "No matches for zeta");
}

#[test]
fn a_step_counts_the_matches() {
    let step = jump(&hits(), (2, 0), Direction::Forward, "x");
    assert_eq!(step.target, Some(2));
    assert_eq!(step.status, "3 matches");
}

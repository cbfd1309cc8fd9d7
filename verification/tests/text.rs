//! Text and paths.

use typ_app::config::config_path;
use typ_app::lsp::config::ancestors_within;
use typ_app::prompt::{Prompt, PromptKind};
use typ_app::status::file_type_of;
use typ_app::tabbar::cells;
use typ_app::text::{
    contains, eq_ignore_ascii_case, first_word_of, push_decimal, push_padded, same_text,
    starts_with, trim,
};

#[test]
fn numbers_are_written_in_decimal_and_padded_on_request() {
    let mut s = String::new();
    push_decimal(&mut s, 0);
    s.push(' ');
    push_decimal(&mut s, 1234567890);
    s.push(' ');
    push_padded(&mut s, 7, 3);
    s.push(' ');
    push_padded(&mut s, 12345, 3);
    assert_eq!(s, "0 1234567890 007 12345");
}

#[test]
fn trimming_takes_unicode_whitespace_from_both_ends() {
    assert_eq!(trim("  a b \t\n"), "a b");
    assert_eq!(trim("\u{3000}x\u{a0}"), "x");
    assert_eq!(trim("   "), "");
}

#[test]
fn the_first_word_is_up_to_the_first_whitespace() {
    assert_eq!(first_word_of("  Indexing 40%").as_deref(), Some("Indexing"));
    assert_eq!(first_word_of("   "), None);
}

#[test]
fn comparisons_do_what_the_standard_library_does() {
    assert!(eq_ignore_ascii_case("RS", "rs"));
    assert!(!eq_ignore_ascii_case("é", "É"));
    assert!(starts_with("tmux-256color", "tmux"));
    assert!(!starts_with("tm", "tmux"));
    assert!(contains("xterm-kitty", "kitty"));
    assert!(contains("abc", ""));
    assert!(!contains("abc", "abd"));
    assert!(same_text("a", "a"));
    assert!(!same_text("a", "b"));
}

#[test]
fn widths_and_clusters_come_from_unicode() {
    let names = vec!["日本".to_string(), "ab".to_string()];
    let laid = cells(&names, 0, 60);
    assert_eq!(laid[0].width, 8, "two double-width characters and the chrome");
    assert_eq!(laid[1].width, 6);
    let mut prompt = Prompt::new(PromptKind::Search);
    for c in "xe\u{301}".chars() {
        prompt.insert_char(c);
    }
    prompt.delete_backward();
    assert_eq!(prompt.input(), "x", "the accent went with its letter");
}

#[test]
fn paths_come_apart_the_way_the_platform_says() {
    assert_eq!(file_type_of(Some("src/main.RS")).as_deref(), Some("rs"));
    assert_eq!(file_type_of(Some("Makefile")), None);
    assert_eq!(
        config_path(Some("/a".to_string())).map(std::path::PathBuf::from),
        Some(std::path::PathBuf::from("/a/keys.toml"))
    );
    assert_eq!(ancestors_within("/a/b/c.rs", "/a/"), ["/a/b", "/a"]);
    assert!(ancestors_within("/ab/c.rs", "/a").is_empty());
}

#[test]
fn whitespace_is_what_the_standard_library_calls_whitespace() {
    for n in 0u32..0x3100 {
        if let Some(c) = char::from_u32(n) {
            let alone = c.to_string();
            assert_eq!(trim(&alone).is_empty(), c.is_whitespace(), "U+{n:04X}");
        }
    }
}

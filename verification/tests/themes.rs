//! Theme names, and where user config lives.

use typ_app::config::config_dir_from;
use typ_app::config::theme::{builtin_origin, embedded_names, is_embedded, theme_path, unknown_theme};

#[test]
fn six_themes_ship() {
    assert_eq!(
        embedded_names(),
        ["slate", "mocha", "latte", "dracula", "rose-pine", "tokyo-night"]
    );
    assert!(is_embedded("mocha"));
    assert!(!is_embedded("Mocha"));
    assert!(!is_embedded("solarized"));
}

#[test]
fn an_unknown_theme_is_named_with_every_one_that_ships() {
    assert_eq!(
        unknown_theme("solarized"),
        "there is no theme called \"solarized\" — try one of: slate, mocha, latte, dracula, rose-pine, tokyo-night"
    );
    assert_eq!(builtin_origin("latte"), "the built-in latte theme");
}

#[test]
fn a_user_theme_lives_under_themes_in_the_config_directory() {
    let path = theme_path("/home/u/.config/typ", "mine");
    assert_eq!(std::path::Path::new(&path), std::path::Path::new("/home/u/.config/typ/themes/mine.toml"));
}

#[test]
fn the_config_directory_is_the_first_variable_that_names_one() {
    let s = |v: &str| Some(v.to_string());
    assert_eq!(config_dir_from(s("/x"), false, None, s("/xdg"), s("/home/u")), s("/x"));
    assert_eq!(
        config_dir_from(None, false, None, s("/xdg"), s("/home/u")).map(std::path::PathBuf::from),
        Some(std::path::PathBuf::from("/xdg/typ"))
    );
    assert_eq!(
        config_dir_from(None, false, None, None, s("/home/u")).map(std::path::PathBuf::from),
        Some(std::path::PathBuf::from("/home/u/.config/typ"))
    );
    assert_eq!(config_dir_from(None, true, None, s("/xdg"), s("/home/u")), None);
    assert_eq!(config_dir_from(None, false, None, None, None), None);
}

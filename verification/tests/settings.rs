//! `config.toml`, as parsed entries.

use typ_app::capability::Depth;
use typ_app::config::settings::{
    load_settings, settings_from, settings_from_parsed, settings_from_source, warning, Whitespace,
};
use typ_app::config::{config_path, settings_path, Entry, Settings, TomlValue};

fn value(v: &toml::Value) -> TomlValue {
    match v {
        toml::Value::String(s) => TomlValue::Str(s.clone()),
        toml::Value::Integer(n) => TomlValue::Integer(*n),
        toml::Value::Array(items) => TomlValue::Array(items.iter().map(value).collect()),
        toml::Value::Table(t) => {
            TomlValue::Table(t.iter().map(|(k, v)| (k.clone(), value(v))).collect())
        }
        _ => TomlValue::Other,
    }
}

fn entries(text: &str) -> Vec<Entry> {
    let table: toml::Table = toml::from_str(text).unwrap();
    table
        .iter()
        .map(|(k, v)| Entry {
            key: k.clone(),
            value: value(v),
            shown: v.to_string(),
        })
        .collect()
}

#[test]
fn nothing_configured_is_the_defaults() {
    let (settings, complaints) = settings_from(&Vec::new());
    assert!(complaints.is_empty());
    assert_eq!(settings, Settings::default());
    assert_eq!(settings.theme, "slate");
    assert_eq!(settings.color_depth, None, "None means detect it");
    assert_eq!(settings.indent_width, None, "None means measure it");
    assert_eq!(settings.whitespace, Whitespace::Selection);
}

#[test]
fn each_setting_is_read() {
    let (settings, complaints) = settings_from(&entries(
        "theme = \"mocha\"\ncolor_depth = \"256\"\nindent_width = 2\nwhitespace = \"all\"\n",
    ));
    assert!(complaints.is_empty(), "{complaints:?}");
    assert_eq!(settings.theme, "mocha");
    assert_eq!(settings.color_depth, Some(Depth::Ansi256));
    assert_eq!(settings.indent_width, Some(2));
    assert_eq!(settings.whitespace, Whitespace::All);
}

#[test]
fn a_bad_value_is_reported_and_the_rest_still_apply() {
    let (settings, complaints) = settings_from(&entries(
        "theme = \"mocha\"\ncolor_depth = \"thousands\"\nindent_width = 0\nwombat = true\n",
    ));
    assert_eq!(settings.theme, "mocha");
    assert_eq!(settings.color_depth, None);
    assert_eq!(settings.indent_width, None);
    assert_eq!(complaints.len(), 3, "{complaints:?}");
    assert!(complaints.iter().any(|c| c.contains("thousands")));
    assert!(complaints.iter().any(|c| c.contains("indent_width")));
    assert!(complaints.iter().any(|c| c.contains("wombat")));
}

#[test]
fn the_warning_names_the_file_and_every_complaint() {
    let complaints = vec!["one".to_string(), "two".to_string()];
    assert_eq!(
        warning("/c/config.toml", &complaints).as_deref(),
        Some("/c/config.toml: one; two")
    );
    assert_eq!(warning("/c/config.toml", &Vec::new()), None);
}

#[test]
fn the_config_files_live_in_the_config_directory() {
    let keys = config_path(Some("/home/u/.config/typ".to_string())).unwrap();
    assert!(keys.ends_with("keys.toml"), "{keys}");
    let settings = settings_path(Some("/home/u/.config/typ".to_string())).unwrap();
    assert!(settings.ends_with("config.toml"), "{settings}");
    assert_eq!(config_path(None), None);
}

const SHOWN: &str = "/c/config.toml";

#[test]
fn no_settings_file_yields_the_defaults_and_no_complaint() {
    let (settings, warning) = load_settings(None, SHOWN);

    assert!(warning.is_none());
    assert_eq!(settings.theme, "slate");
    assert_eq!(settings.color_depth, None, "None means detect it");
}

#[test]
fn a_missing_settings_file_is_not_an_error() {
    // A file that cannot be read arrives as no text at all.
    let (_, warning) = load_settings(None, "does/not/exist/config.toml");
    assert!(warning.is_none(), "an absent config is the normal case");
}

#[test]
fn the_theme_name_comes_from_the_settings_file() {
    let (settings, warning) = load_settings(Some("theme = \"mocha\"\n"), SHOWN);

    assert!(warning.is_none(), "{warning:?}");
    assert_eq!(settings.theme, "mocha");
}

#[test]
fn colour_depth_can_be_forced() {
    let (settings, warning) = load_settings(Some("color_depth = \"256\"\n"), SHOWN);

    assert!(warning.is_none(), "{warning:?}");
    assert_eq!(settings.color_depth, Some(Depth::Ansi256));
}

#[test]
fn an_unknown_colour_depth_warns_and_leaves_it_to_detection() {
    let (settings, warning) = load_settings(Some("color_depth = \"thousands\"\n"), SHOWN);

    let warning = warning.expect("a bad depth has to be reported");
    assert!(warning.contains("thousands"), "warning: {warning}");
    assert_eq!(settings.color_depth, None);
}

#[test]
fn the_indent_width_can_be_stated_instead_of_measured() {
    let (settings, warning) = load_settings(Some("indent_width = 2\n"), SHOWN);

    assert!(warning.is_none(), "{warning:?}");
    assert_eq!(settings.indent_width, Some(2));
}

#[test]
fn no_indent_width_leaves_it_to_the_file() {
    let (settings, _) = load_settings(None, SHOWN);
    assert_eq!(settings.indent_width, None, "None means measure it");
}

#[test]
fn an_indent_width_of_zero_warns_and_leaves_it_to_detection() {
    let (settings, warning) = load_settings(Some("indent_width = 0\n"), SHOWN);

    let warning = warning.expect("a zero width has to be reported");
    assert!(warning.contains("indent_width"), "warning: {warning}");
    assert_eq!(settings.indent_width, None);
}

#[test]
fn whitespace_defaults_to_marking_only_what_is_selected() {
    let (settings, _) = load_settings(None, SHOWN);
    assert_eq!(settings.whitespace, Whitespace::Selection);
}

#[test]
fn each_whitespace_value_parses() {
    for (text, expected) in [
        ("none", Whitespace::Off),
        ("trailing", Whitespace::Trailing),
        ("selection", Whitespace::Selection),
        ("all", Whitespace::All),
    ] {
        let source = format!("whitespace = {text:?}\n");
        let (settings, warning) = load_settings(Some(&source), SHOWN);
        assert!(warning.is_none(), "{text}: {warning:?}");
        assert_eq!(settings.whitespace, expected, "{text}");
    }
}

#[test]
fn an_unknown_whitespace_value_warns_and_keeps_the_default() {
    let (settings, warning) = load_settings(Some("whitespace = \"boundary\"\n"), SHOWN);

    let warning = warning.expect("an unknown value has to be reported");
    assert!(warning.contains("whitespace"), "warning: {warning}");
    assert_eq!(settings.whitespace, Whitespace::Selection);
}

#[test]
fn an_unknown_setting_warns_and_keeps_the_rest() {
    let (settings, warning) = load_settings(Some("theme = \"mocha\"\nwombat = true\n"), SHOWN);

    let warning = warning.expect("an unknown key has to be reported");
    assert!(warning.contains("wombat"), "warning: {warning}");
    assert_eq!(settings.theme, "mocha");
}

#[test]
fn text_that_is_not_toml_keeps_the_defaults_and_names_the_file() {
    let (settings, warning) = settings_from_source("theme = [unclosed\n", SHOWN);

    let warning = warning.expect("a file that does not parse has to be reported");
    assert!(warning.starts_with("/c/config.toml: "), "warning: {warning}");
    assert!(warning.len() > SHOWN.len() + 2, "the parser's reason follows: {warning}");
    assert_eq!(settings, Settings::default());
}

#[test]
fn a_parse_error_is_quoted_after_the_file_name() {
    let (settings, warning) = settings_from_parsed(Err("expected `]`".to_string()), SHOWN);
    assert_eq!(warning.as_deref(), Some("/c/config.toml: expected `]`"));
    assert_eq!(settings, Settings::default());
}

#[test]
fn parsed_entries_give_their_settings_and_one_warning() {
    let (settings, warning) =
        settings_from_parsed(Ok(entries("theme = \"mocha\"\nindent_width = 99\n")), SHOWN);
    assert_eq!(settings.theme, "mocha");
    assert_eq!(settings.indent_width, None);
    assert_eq!(
        warning.as_deref(),
        Some("/c/config.toml: indent_width 99 is not a whole number of columns from 1 to 16")
    );
}

#[test]
fn the_source_reaches_the_parser_unchanged() {
    // Each key read from the text itself: a parser handed anything else would
    // not find them.
    let (settings, warning) = settings_from_source("theme = \"latte\"\nwhitespace = \"all\"\n", SHOWN);
    assert!(warning.is_none(), "{warning:?}");
    assert_eq!(settings.theme, "latte");
    assert_eq!(settings.whitespace, Whitespace::All);
}

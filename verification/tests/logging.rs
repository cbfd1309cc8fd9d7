//! Log lines: a time, a level, a module and a message.

use typ_app::logging::{log_line, timestamp, Level};

#[test]
fn the_time_of_day_is_zero_padded() {
    assert_eq!(timestamp(0, 0), "00:00:00.000");
    assert_eq!(timestamp(3661, 7), "01:01:01.007");
    assert_eq!(timestamp(86399, 999), "23:59:59.999");
}

#[test]
fn the_date_is_left_to_the_file() {
    assert_eq!(timestamp(86400 * 3 + 45296, 120), "12:34:56.120");
}

#[test]
fn level_names_share_one_width() {
    assert_eq!(Level::Info.name(), "INFO ");
    assert_eq!(Level::Warn.name(), "WARN ");
    assert_eq!(Level::Error.name(), "ERROR");
}

#[test]
fn a_line_carries_the_time_the_level_the_module_and_the_message() {
    let text = log_line("12:00:00.000", Level::Warn, "typ_app::config", "keys.toml is unreadable");
    assert_eq!(text, "12:00:00.000 WARN  typ_app::config: keys.toml is unreadable");
    let stamp = text.split_whitespace().next().unwrap();
    assert_eq!(stamp.matches(':').count(), 2);
    assert!(stamp.contains('.'));
}

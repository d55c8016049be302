//! Levels and log lines.

use pv::log::{init, level_from_env, log_line, parse_level, timestamp, Level, LevelFilter};

#[test]
fn parse_level_accepts_standard_names() {
    for (s, want) in [
        ("off", LevelFilter::Off),
        ("error", LevelFilter::Error),
        ("warn", LevelFilter::Warn),
        ("info", LevelFilter::Info),
        ("debug", LevelFilter::Debug),
        ("trace", LevelFilter::Trace),
    ] {
        assert_eq!(parse_level(s), Some(want), "{s} should parse");
    }
}

#[test]
fn parse_level_rejects_garbage() {
    assert_eq!(parse_level("nonsense"), None);
    assert_eq!(parse_level(""), None);
}

#[test]
fn names_are_read_in_any_case() {
    assert_eq!(parse_level("WaRn"), Some(LevelFilter::Warn));
    assert_eq!(parse_level(" warn"), None);
}

#[test]
fn the_variable_wins_over_the_default() {
    assert_eq!(level_from_env(&Some("debug".to_string()), "info"), LevelFilter::Debug);
    assert_eq!(level_from_env(&Some("?".to_string()), "info"), LevelFilter::Info);
    assert_eq!(level_from_env(&None, "?"), LevelFilter::Warn);
}

#[test]
fn filters_let_the_more_urgent_through() {
    assert!(LevelFilter::Warn.enabled(Level::Error));
    assert!(LevelFilter::Warn.enabled(Level::Warn));
    assert!(!LevelFilter::Warn.enabled(Level::Info));
    assert!(!LevelFilter::Off.enabled(Level::Error));
    assert!(LevelFilter::Trace.enabled(Level::Trace));
}

#[test]
fn lines_carry_time_level_and_target() {
    assert_eq!(timestamp(0), "00:00:00");
    assert_eq!(timestamp(90_061), "01:01:01");
    assert_eq!(
        log_line(86_399, Level::Warn, "pv::x", "hello"),
        "[pv 23:59:59 WARN  pv::x] hello"
    );
}

#[test]
fn a_logger_is_installed_once() {
    assert_eq!(init(false, &None, "info"), Some(LevelFilter::Info));
    assert_eq!(init(true, &Some("trace".to_string()), "info"), None);
}

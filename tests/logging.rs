use tagrss::logger::{parse_log_level, LogConfig, LogLevel};
use tagrss::text::same_text;

#[test]
fn log_levels_parse_in_any_case() {
    assert_eq!(parse_log_level("off"), LogLevel::Off);
    assert_eq!(parse_log_level("ERROR"), LogLevel::Error);
    assert_eq!(parse_log_level("Warn"), LogLevel::Warn);
    assert_eq!(parse_log_level("info"), LogLevel::Info);
    assert_eq!(parse_log_level("DeBuG"), LogLevel::Debug);
    assert_eq!(parse_log_level("TRACE"), LogLevel::Trace);
}

#[test]
fn unknown_log_level_is_info() {
    assert_eq!(parse_log_level("verbose"), LogLevel::Info);
    assert_eq!(parse_log_level(""), LogLevel::Info);
}

#[test]
fn default_log_config() {
    let c = LogConfig::default();
    assert_eq!(c.console_level, LogLevel::Info);
    assert_eq!(c.file_level, LogLevel::Debug);
    assert!(c.log_file.is_none());
}

#[test]
fn same_text_compares_characters() {
    assert!(same_text("abc", "abc"));
    assert!(!same_text("abc", "abd"));
    assert!(!same_text("abc", "ab"));
}

use pg_logstats::output::json::JsonFormatter;
use pg_logstats::output::text::{bold, TextFormatter};

#[test]
fn test_text_formatter_new() {
    let formatter = TextFormatter::new();
    assert!(!formatter.enable_color);
}

#[test]
fn test_text_formatter_with_color() {
    let formatter = TextFormatter::new().with_color(true);
    assert!(formatter.enable_color);
    let formatter = TextFormatter::new().with_color(false);
    assert!(!formatter.enable_color);
    assert!(!formatter.is_color_enabled());
}

#[test]
fn test_bold_function_no_color() {
    let result = bold("test", Some("red"), false);
    assert_eq!(result, "test");
}

#[test]
fn test_bold_function_with_color() {
    let result = bold("test", Some("red"), true);
    assert!(result.contains("\x1b[31;1m"));
    assert!(result.contains("test"));
    assert!(result.contains("\x1b[0m"));
}

#[test]
fn test_bold_function_different_colors() {
    let colors = vec![
        ("red", "\x1b[31;1m"),
        ("green", "\x1b[32;1m"),
        ("yellow", "\x1b[33;1m"),
        ("blue", "\x1b[34;1m"),
        ("magenta", "\x1b[35;1m"),
        ("cyan", "\x1b[36;1m"),
        ("white", "\x1b[37;1m"),
        ("unknown", "\x1b[37;1m"),
    ];
    for (color, expected_code) in colors {
        let result = bold("test", Some(color), true);
        assert!(result.contains(expected_code));
    }
}

#[test]
fn bold_wraps_exactly() {
    assert_eq!(bold("x", None, true), "\x1b[37;1mx\x1b[0m");
    assert_eq!(bold("x", Some("green"), true), "\x1b[32;1mx\x1b[0m");
}

#[test]
fn test_json_formatter_new() {
    let formatter = JsonFormatter::new();
    assert!(!formatter.pretty);
    assert_eq!(formatter.tool_version, "0.1.0");
    assert!(formatter.log_files_processed.is_empty());
    assert_eq!(formatter.total_log_entries, 0);
}

#[test]
fn test_json_formatter_with_pretty() {
    let formatter = JsonFormatter::new().with_pretty(true);
    assert!(formatter.pretty);
    let formatter = JsonFormatter::new().with_pretty(false);
    assert!(!formatter.pretty);
}

#[test]
fn test_json_formatter_with_metadata() {
    let files = vec!["file1.log".to_string(), "file2.log".to_string()];
    let formatter = JsonFormatter::new().with_metadata("1.0.0", files.clone(), 1000);
    assert_eq!(formatter.tool_version, "1.0.0");
    assert_eq!(formatter.log_files_processed, files);
    assert_eq!(formatter.total_log_entries, 1000);
}

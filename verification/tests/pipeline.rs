use loglyzer::entry::LogEntry;
use loglyzer::filter::filter_errors;
use loglyzer::json::render_json;
use loglyzer::csv::render_csv;
use loglyzer::parse::{parse_log_line, parse_lines};
use loglyzer::render::{process_lines, render, OutputFormat};
use loglyzer::table::render_table;

fn entry(timestamp: &str, level: &str, message: &str) -> LogEntry {
    LogEntry {
        timestamp: timestamp.to_string(),
        level: level.to_string(),
        message: message.to_string(),
    }
}

#[test]
fn parses_error_line() {
    let e = parse_log_line("2024-01-15 10:30:00 [ERROR] disk full").unwrap();
    assert_eq!(e.timestamp, "2024-01-15 10:30:00");
    assert_eq!(e.level, "ERROR");
    assert_eq!(e.message, "disk full");
}

#[test]
fn parsing_is_deterministic() {
    let a = parse_log_line("2024-01-15 10:30:00 [WARN_2] spaced   message").unwrap();
    let b = parse_log_line("2024-01-15 10:30:00 [WARN_2] spaced   message").unwrap();
    assert_eq!(a.timestamp, b.timestamp);
    assert_eq!(a.level, b.level);
    assert_eq!(a.message, b.message);
    assert_eq!(a.message, "spaced   message");
}

#[test]
fn rejects_line_without_brackets() {
    assert!(parse_log_line("malformed line without brackets").is_none());
}

#[test]
fn rejects_malformed_lines() {
    assert!(parse_log_line("").is_none());
    assert!(parse_log_line("2024-1-15 10:30:00 [ERROR] short year").is_none());
    assert!(parse_log_line("2024-01-15 10:30 [ERROR] short clock").is_none());
    assert!(parse_log_line("2024-01-15 10:30:00 ERROR] no opening").is_none());
    assert!(parse_log_line("2024-01-15 10:30:00 [ERROR no closing").is_none());
    assert!(parse_log_line("2024-01-15 10:30:00 [] empty level").is_none());
    assert!(parse_log_line("2024-01-15 10:30:00 [ERROR]").is_none());
    assert!(parse_log_line("2024-01-15 10:30:00 [ERROR] ").is_none());
    assert!(parse_log_line("2024-01-15 10:30:00 [BAD LEVEL] space in level").is_none());
    assert!(parse_log_line("x2024-01-15 10:30:00 [ERROR] leading junk").is_none());
}

#[test]
fn count_excludes_non_matching_lines() {
    let lines = vec![
        "2024-01-15 10:30:00 [INFO] one".to_string(),
        "not a log line".to_string(),
        "2024-01-15 10:30:01 [ERROR] two".to_string(),
        "".to_string(),
    ];
    let entries = parse_lines(&lines);
    assert_eq!(entries.len(), 2);
    assert_eq!(entries[0].message, "one");
    assert_eq!(entries[1].message, "two");
}

#[test]
fn filter_keeps_exact_error_level_only() {
    let entries = vec![
        entry("2024-01-15 10:30:00", "ERROR", "a"),
        entry("2024-01-15 10:30:01", "error", "b"),
        entry("2024-01-15 10:30:02", "Error", "c"),
        entry("2024-01-15 10:30:03", "ERRORS", "d"),
        entry("2024-01-15 10:30:04", "ERROR", "e"),
    ];
    let kept = filter_errors(&entries);
    assert_eq!(kept.len(), 2);
    assert_eq!(kept[0].message, "a");
    assert_eq!(kept[1].message, "e");
}

#[test]
fn filter_is_idempotent() {
    let entries = vec![
        entry("2024-01-15 10:30:00", "ERROR", "a"),
        entry("2024-01-15 10:30:01", "INFO", "b"),
        entry("2024-01-15 10:30:02", "ERROR", "c"),
    ];
    let once = filter_errors(&entries);
    let twice = filter_errors(&once);
    assert_eq!(once.len(), twice.len());
    for (x, y) in once.iter().zip(twice.iter()) {
        assert_eq!(x.timestamp, y.timestamp);
        assert_eq!(x.level, y.level);
        assert_eq!(x.message, y.message);
    }
}

#[test]
fn order_is_preserved() {
    let lines = vec![
        "2024-01-15 10:30:00 [ERROR] first".to_string(),
        "garbage".to_string(),
        "2024-01-15 10:30:01 [INFO] second".to_string(),
        "2024-01-15 10:30:02 [ERROR] third".to_string(),
    ];
    let entries = parse_lines(&lines);
    let messages: Vec<&str> = entries.iter().map(|e| e.message.as_str()).collect();
    assert_eq!(messages, vec!["first", "second", "third"]);
    let errors = filter_errors(&entries);
    let messages: Vec<&str> = errors.iter().map(|e| e.message.as_str()).collect();
    assert_eq!(messages, vec!["first", "third"]);
}

#[test]
fn errors_only_run_keeps_one_of_three() {
    let lines = vec![
        "2024-01-15 10:30:00 [ERROR] disk full".to_string(),
        "2024-01-15 10:30:01 [INFO] all well".to_string(),
        "2024-01-15 10:30:02 [INFO] still well".to_string(),
    ];
    let out = process_lines(&lines, true, OutputFormat::Csv);
    assert_eq!(out, "timestamp,level,message\n2024-01-15 10:30:00,ERROR,disk full\n");
}

#[test]
fn csv_of_no_entries_is_header_only() {
    let out = render_csv(&vec![]);
    assert_eq!(out, "timestamp,level,message\n");
}

#[test]
fn csv_does_not_escape_fields() {
    let entries = vec![entry("2024-01-15 10:30:00", "ERROR", "a,b \"c\"")];
    let out = render_csv(&entries);
    assert_eq!(out, "timestamp,level,message\n2024-01-15 10:30:00,ERROR,a,b \"c\"\n");
}

#[test]
fn json_of_no_entries_is_empty_array() {
    let out = render_json(&vec![]);
    assert_eq!(out, "[]");
}

#[test]
fn json_of_two_entries_is_pretty_array() {
    let entries = vec![
        entry("2024-01-15 10:30:00", "ERROR", "disk full"),
        entry("2024-01-15 10:31:00", "INFO", "ok"),
    ];
    let out = render_json(&entries);
    let expected = "[\n  {\n    \"timestamp\": \"2024-01-15 10:30:00\",\n    \"level\": \"ERROR\",\n    \"message\": \"disk full\"\n  },\n  {\n    \"timestamp\": \"2024-01-15 10:31:00\",\n    \"level\": \"INFO\",\n    \"message\": \"ok\"\n  }\n]";
    assert_eq!(out, expected);
}

#[test]
fn json_is_valid_and_round_trips() {
    let entries = vec![
        entry("2024-01-15 10:30:00", "ERROR", "quote \" backslash \\ tab \t"),
        entry("2024-01-15 10:31:00", "INFO", "control \u{1} and \u{1f} chars"),
        entry("2024-01-15 10:32:00", "DEBUG", "plain"),
    ];
    let out = render_json(&entries);
    let decoded: serde_json::Value = serde_json::from_str(&out).unwrap();
    let arr = decoded.as_array().unwrap();
    assert_eq!(arr.len(), entries.len());
    for (v, e) in arr.iter().zip(entries.iter()) {
        let obj = v.as_object().unwrap();
        assert_eq!(obj.len(), 3);
        assert_eq!(obj["timestamp"].as_str().unwrap(), e.timestamp);
        assert_eq!(obj["level"].as_str().unwrap(), e.level);
        assert_eq!(obj["message"].as_str().unwrap(), e.message);
    }
}

#[test]
fn json_escapes_control_characters() {
    let entries = vec![entry("2024-01-15 10:30:00", "ERROR", "a\u{1}b\nc")];
    let out = render_json(&entries);
    assert!(out.contains("a\\u0001b\\nc"));
}

#[test]
fn table_of_no_entries_is_header_only() {
    let out = render_table(&vec![]);
    let expected = "+-----------+-------+---------+\n\
                    | Timestamp | Level | Message |\n\
                    +-----------+-------+---------+\n";
    assert_eq!(out, expected);
}

#[test]
fn table_of_one_entry_is_bordered() {
    let entries = vec![entry("2024-01-15 10:30:00", "ERROR", "disk full")];
    let out = render_table(&entries);
    let expected = "+---------------------+-------+-----------+\n\
                    | Timestamp           | Level | Message   |\n\
                    +---------------------+-------+-----------+\n\
                    | 2024-01-15 10:30:00 | ERROR | disk full |\n\
                    +---------------------+-------+-----------+\n";
    assert_eq!(out, expected);
}

#[test]
fn render_dispatches_on_format() {
    let entries = vec![entry("2024-01-15 10:30:00", "ERROR", "disk full")];
    assert_eq!(render(&entries, OutputFormat::Csv), render_csv(&entries));
    assert_eq!(render(&entries, OutputFormat::Json), render_json(&entries));
    assert_eq!(render(&entries, OutputFormat::Text), render_table(&entries));
}

#[test]
fn non_ascii_text_passes_through() {
    let e = parse_log_line("2024-01-15 10:30:00 [ERROR] caf\u{e9} \u{2603} \u{fc}ber").unwrap();
    assert_eq!(e.message, "caf\u{e9} \u{2603} \u{fc}ber");
    let entries = vec![e];
    let csv = render_csv(&entries);
    assert_eq!(
        csv,
        "timestamp,level,message\n2024-01-15 10:30:00,ERROR,caf\u{e9} \u{2603} \u{fc}ber\n"
    );
    let decoded: serde_json::Value = serde_json::from_str(&render_json(&entries)).unwrap();
    assert_eq!(
        decoded[0]["message"].as_str().unwrap(),
        "caf\u{e9} \u{2603} \u{fc}ber"
    );
}

#[test]
fn empty_input_renders_empty_forms() {
    let lines: Vec<String> = vec![];
    assert_eq!(parse_lines(&lines).len(), 0);
    assert_eq!(process_lines(&lines, false, OutputFormat::Json), "[]");
    assert_eq!(process_lines(&lines, false, OutputFormat::Csv), "timestamp,level,message\n");
    let expected_table = "+-----------+-------+---------+\n\
                          | Timestamp | Level | Message |\n\
                          +-----------+-------+---------+\n";
    assert_eq!(process_lines(&lines, false, OutputFormat::Text), expected_table);
}

use gateway::cli::{log_line, server_entry_lines, stats_lines};

#[test]
fn server_entry_without_key() {
    assert_eq!(
        server_entry_lines("demo", "http://localhost:3000", None),
        vec![
            "Add to config/default.toml:\n".to_string(),
            "[[servers]]".to_string(),
            "name = \"demo\"".to_string(),
            "url = \"http://localhost:3000\"".to_string(),
            "enabled = true".to_string(),
        ]
    );
}

#[test]
fn server_entry_with_key_quotes_values() {
    let lines = server_entry_lines("a\"b", "u", Some("k\\1"));
    assert_eq!(lines.len(), 7);
    assert_eq!(lines[2], "name = \"a\\\"b\"");
    assert_eq!(lines[5], "api_key = \"k\\\\1\"");
    assert_eq!(lines[6], "auth_header = \"Authorization\"");
}

#[test]
fn log_line_formats_columns() {
    assert_eq!(
        log_line(Some("2026-01-01T00:00:00Z"), Some("GET"), Some("/tools/list"), Some(200), Some(42)),
        "2026-01-01T00:00:00Z  GET  /tools/list  200  42ms"
    );
    assert_eq!(log_line(None, None, None, None, None), "-  -  -  -  -");
    assert_eq!(log_line(Some("t"), Some("POST"), Some("/"), Some(-1), Some(i64::MIN)), "t  POST  /  -1  -9223372036854775808ms");
}

#[test]
fn stats_lines_count_errors() {
    let (total, errors) = stats_lines(&vec![true, false, true, false, false]);
    assert_eq!(total, "total requests : 5");
    assert_eq!(errors, "errors         : 2");
    let (total, errors) = stats_lines(&vec![]);
    assert_eq!(total, "total requests : 0");
    assert_eq!(errors, "errors         : 0");
}

#[test]
fn stats_url_appends_path() {
    assert_eq!(gateway::cli::stats_url("http://localhost:8080"), "http://localhost:8080/stats");
}

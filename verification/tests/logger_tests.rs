use ytdlp_guard::logger::error;
use ytdlp_guard::logger::error_with_context;
use ytdlp_guard::logger::format_log_entry;
use ytdlp_guard::logger::info;
use ytdlp_guard::logger::init;
use ytdlp_guard::logger::tail_lines;
use ytdlp_guard::logger::warn;

#[test]
fn test_init_joins_log_path() {
    assert_eq!(init("/data/app"), "/data/app/log.txt");
}

#[test]
fn test_format_log_entry_exact() {
    let line = format_log_entry("2024-01-02 03:04:05.678", "INFO", "started");
    assert_eq!(line, "[2024-01-02 03:04:05.678] [INFO] started\n");
}

#[test]
fn test_level_lines_carry_level_and_message() {
    let e = error("boom");
    assert!(e.starts_with('['));
    assert!(e.contains("] [ERROR] "));
    assert!(e.ends_with("boom\n"));
    let w = warn("careful");
    assert!(w.contains("] [WARN] "));
    assert!(w.ends_with("careful\n"));
    let i = info("hello");
    assert!(i.contains("] [INFO] "));
    assert!(i.ends_with("hello\n"));
    let c = error_with_context("settings", "bad value");
    assert!(c.contains("] [ERROR] [settings] bad value"));
}

#[test]
fn test_tail_lines_takes_last_lines_in_order() {
    assert_eq!(tail_lines("a\nb\nc", 2), "b\nc");
    assert_eq!(tail_lines("a\nb\nc\n", 2), "b\nc");
    assert_eq!(tail_lines("a\nb\nc", 3), "a\nb\nc");
    assert_eq!(tail_lines("a\nb\nc", 10), "a\nb\nc");
    assert_eq!(tail_lines("only", 5), "only");
    assert_eq!(tail_lines("", 3), "");
    assert_eq!(tail_lines("a\nb\nc", 0), "");
}

#[test]
fn test_tail_lines_keeps_interior_empty_lines() {
    assert_eq!(tail_lines("a\n\nb", 3), "a\n\nb");
    assert_eq!(tail_lines("a\n\nb", 2), "\nb");
}

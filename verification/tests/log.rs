use roextract::log::{get_anonymous_logs, get_logs, log_line, LogBuffer, MAX_LOG_BYTES};

/// The log as the program keeps it, written with std alone.
fn reference_push(log: &mut String, line: &str) {
    log.push_str(&format!("{line}\n"));
    if log.len() > MAX_LOG_BYTES {
        let cut = log.len() - MAX_LOG_BYTES;
        let start = log[cut..].find('\n').map(|p| cut + p + 1).unwrap_or(cut);
        let trimmed = log.split_off(start);
        *log = trimmed;
    }
}

#[test]
fn log_line_format() {
    assert_eq!(
        log_line("2024-01-01 00:00:00", "INFO:  ", "hello", "src/main.rs", 10, 5),
        "2024-01-01 00:00:00  INFO:  hello [src/main.rs:10:5]"
    );
    assert_eq!(log_line("t", "ERROR: ", "", "f", 0, 0), "t  ERROR:  [f:0:0]");
}

#[test]
fn pushed_lines_end_with_line_feeds() {
    let mut log = LogBuffer::new();
    assert_eq!(get_logs(&log), "");
    log.push("first");
    log.push("second");
    assert_eq!(get_logs(&log), "first\nsecond\n");
}

#[test]
fn log_is_trimmed_at_a_line_boundary() {
    let mut log = LogBuffer::new();
    let mut reference = String::new();
    for i in 0..900 {
        let line = format!("{i:05} {}", "x".repeat(1200));
        assert!(!log.push_would_fail(&line));
        log.push(&line);
        reference_push(&mut reference, &line);
    }
    let text = get_logs(&log);
    assert_eq!(text, reference);
    assert!(text.len() <= MAX_LOG_BYTES);
    assert!(text.starts_with("0"));
    assert!(text.ends_with(&format!("00899 {}\n", "x".repeat(1200))));
}

#[test]
fn long_line_without_feed_after_the_excess_empties_the_log() {
    let mut log = LogBuffer::new();
    let line = format!("{}a", "é".repeat(500_000));
    assert!(!log.push_would_fail(&line));
    log.push(&line);
    let mut reference = String::new();
    reference_push(&mut reference, &line);
    assert_eq!(get_logs(&log), reference);
    assert_eq!(get_logs(&log), "");
}

#[test]
fn cut_inside_a_character_is_refused() {
    let log = LogBuffer::new();
    assert!(log.push_would_fail(&"é".repeat(500_000)));
    assert!(log.push_would_fail(&format!("a{}", "é".repeat(500_000))));
    assert!(!log.push_would_fail("short"));
}

#[test]
fn anonymous_logs_hide_names_in_order() {
    let mut log = LogBuffer::new();
    log.push("alice on alice-pc (Alice Smith)");
    assert_eq!(
        get_anonymous_logs(&log, "alice", "Alice Smith", "alice-pc"),
        "username on username-pc (Real Name)\n"
    );
    assert_eq!(get_anonymous_logs(&log, "bob", "Bob", "box"), "alice on alice-pc (Alice Smith)\n");
    assert_eq!(get_logs(&log), "alice on alice-pc (Alice Smith)\n");
}

#[test]
fn log_stays_within_its_limit() {
    let mut log = LogBuffer::new();
    let line = "z".repeat(300_000);
    for _ in 0..10 {
        log.push(&line);
        let text = get_logs(&log);
        assert!(text.len() <= MAX_LOG_BYTES);
        assert!(text.is_empty() || text.ends_with('\n'));
    }
}

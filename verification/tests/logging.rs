use bilibili_converter::logger::{
    classify_log_file, compress_log_file, dated_log_file_name, find_next_sequence, flush,
    format_date, format_log_entry, format_timestamp, get_date_string, get_log_level, get_stats,
    parse_thread_id, plan_log_cleanup, should_flush, record_location, sanitize_path, sequence_name_usable, sequenced_log_file_name,
    set_log_level, FileChoice, LocalDateTime, LogFileInfo, LogFormat, LogLevel, LoggerConfig,
    LoggerState, LoggerStats,
};
use std::io::Read;

const DAY: u128 = 86_400_000_000_000;

fn info(name: &str, modified_nanos: u128, is_gz: bool) -> LogFileInfo {
    LogFileInfo { name: name.to_string(), modified_nanos, is_gz }
}

#[test]
fn level_names_and_parsing() {
    assert_eq!(LogLevel::Warn.as_str(), "WARN");
    assert_eq!(LogLevel::Trace.as_str(), "TRACE");
    assert_eq!(LogLevel::parse("Warn"), Ok(LogLevel::Warn));
    assert_eq!(LogLevel::parse("debug"), Ok(LogLevel::Debug));
    assert_eq!(LogLevel::parse("bad"), Err("Invalid log level: bad".to_string()));
    assert!(LogLevel::Error.at_least(LogLevel::Warn));
    assert!(!LogLevel::Debug.at_least(LogLevel::Info));
    assert_eq!(LogLevel::default(), LogLevel::Info);
    assert_eq!(LogFormat::default(), LogFormat::Plain);
}

#[test]
fn default_configuration() {
    let c = LoggerConfig::default();
    assert_eq!(c.log_dir, ".");
    assert_eq!(c.min_level, LogLevel::Info);
    assert_eq!(c.max_file_size, 10 * 1024 * 1024);
    assert_eq!(c.max_files, 30);
    assert!(c.include_thread_id && c.include_location && c.sanitize_paths);
    assert!(!c.compress_old_logs);
    let s = LoggerStats::default();
    assert_eq!(s.total_entries, 0);
    assert_eq!(s.log_directory, "");
}

#[test]
fn masking_user_folders() {
    let home = Some("/home/alice");
    assert_eq!(sanitize_path("/home/alice/docs/a.txt", home), "/home/***/docs/a.txt");
    assert_eq!(
        sanitize_path("C:\\Users\\用户名\\Documents\\video.mp4", Some("C:\\Users\\用户名")),
        "C:\\Users\\***\\Documents\\video.mp4"
    );
    assert_eq!(sanitize_path("/home/alicex/f", home), "/home/***/alicex/f");
    assert_eq!(sanitize_path("/home/bob/x", home), "/home/***/bob/x");
    assert_eq!(sanitize_path("/home/alice", home), "/home/***/alice");
    assert_eq!(sanitize_path("C:\\Users\\me\\f", None), "C:\\Users\\***\\me\\f");
    assert_eq!(sanitize_path("/Users/me/f", None), "/Users/***/me/f");
    assert_eq!(sanitize_path("/home/***/x", None), "/home/***/x");
    assert_eq!(sanitize_path("relative/path", None), "relative/path");
}

#[test]
fn plain_entries() {
    let st = LoggerState::new(Some("/home/alice".to_string()));
    assert_eq!(
        format_log_entry(&st, "2024-01-02 03:04:05", LogLevel::Info, "app", "hello", Some("main.rs:10"), Some(7)),
        "[2024-01-02 03:04:05] [INFO ] [app] [T7] [main.rs:10] hello"
    );
    assert_eq!(
        format_log_entry(&st, "ts", LogLevel::Error, "t", "open /home/alice/x/y failed", None, None),
        "[ts] [ERROR] [t] open /home/alice/x/y failed"
    );
    assert_eq!(
        format_log_entry(&st, "ts", LogLevel::Debug, "t", "/home/alice/x/y", None, None),
        "[ts] [DEBUG] [t] /home/***/x/y"
    );
}

#[test]
fn thread_and_location_follow_the_configuration() {
    let mut st = LoggerState::new(None);
    let mut cfg = LoggerConfig::default();
    cfg.include_thread_id = false;
    st.configure(cfg.clone());
    assert_eq!(
        format_log_entry(&st, "ts", LogLevel::Info, "t", "m", Some("a.rs:1"), Some(7)),
        "[ts] [INFO ] [t] [a.rs:1] m"
    );
    cfg.include_thread_id = true;
    cfg.include_location = false;
    st.configure(cfg);
    assert_eq!(
        format_log_entry(&st, "ts", LogLevel::Info, "t", "m", Some("a.rs:1"), Some(7)),
        "[ts] [INFO ] [t] [T7] m"
    );
}

#[test]
fn json_entries() {
    let mut st = LoggerState::new(None);
    let mut cfg = LoggerConfig::default();
    cfg.log_format = LogFormat::Json;
    cfg.sanitize_paths = false;
    st.configure(cfg);
    assert_eq!(
        format_log_entry(&st, "2024-01-02 03:04:05", LogLevel::Error, "t", "msg \"q\"\n", None, None),
        "{\"timestamp\":\"2024-01-02 03:04:05\",\"level\":\"ERROR\",\"target\":\"t\",\"message\":\"msg \\\"q\\\"\\n\"}"
    );
    assert_eq!(
        format_log_entry(&st, "ts", LogLevel::Warn, "t", "m", Some("a.rs:1"), Some(3)),
        "{\"timestamp\":\"ts\",\"level\":\"WARN\",\"target\":\"t\",\"message\":\"m\",\"thread_id\":3,\"location\":\"a.rs:1\"}"
    );
    assert_eq!(
        format_log_entry(&st, "ts", LogLevel::Info, "t", "a\u{1}\tb/\\é\u{7f}\u{1f}", None, None),
        "{\"timestamp\":\"ts\",\"level\":\"INFO\",\"target\":\"t\",\"message\":\"a\\u0001\\tb/\\\\é\u{7f}\\u001f\"}"
    );
}

#[test]
fn which_file_an_entry_goes_to() {
    let mut st = LoggerState::new(None);
    assert_eq!(st.log_file_choice("2024-01-02"), FileChoice::Dated);
    assert!(!flush(&st));
    st.file_opened("2024-01-02".to_string());
    assert!(flush(&st));
    assert_eq!(st.log_file_choice("2024-01-02"), FileChoice::Current);
    assert_eq!(st.log_file_choice("2024-01-03"), FileChoice::Dated);
    st.record_write(10 * 1024 * 1024 + 1, LogLevel::Info);
    assert_eq!(st.log_file_choice("2024-01-02"), FileChoice::Sequenced);
    let m = st.change_log_directory("/logs".to_string());
    assert_eq!(m, "Log directory changed to: /logs");
    assert_eq!(st.config.log_dir, "/logs");
    assert!(!st.file_open);
}

#[test]
fn counters_and_levels() {
    let mut st = LoggerState::new(None);
    st.file_opened("d".to_string());
    st.record_write(10, LogLevel::Error);
    st.record_write(5, LogLevel::Info);
    let s = get_stats(&st);
    assert_eq!(s.total_entries, 2);
    assert_eq!(s.error_count, 1);
    assert_eq!(s.current_file_size, 15);
    assert_eq!(s.log_directory, ".");
    assert_eq!(s.min_level, LogLevel::Info);
    assert_eq!(set_log_level(&mut st, LogLevel::Debug), "Log level changed to: DEBUG");
    assert_eq!(get_log_level(&st), LogLevel::Debug);
    assert!(st.should_log(LogLevel::Debug));
    assert!(!st.should_log(LogLevel::Trace));
    st.current_file_size = u64::MAX;
    st.record_write(2, LogLevel::Warn);
    assert_eq!(st.current_file_size, 1);
}

#[test]
fn log_file_names_and_sequences() {
    assert_eq!(dated_log_file_name("2024-01-02"), "bilibili-converter-2024-01-02.log");
    assert_eq!(sequenced_log_file_name("2024-01-02", 3), "bilibili-converter-2024-01-02-3.log");
    let names = vec![
        "bilibili-converter-2024-01-02-3.log".to_string(),
        "other.log".to_string(),
        "bilibili-converter-2024-01-01-9.log".to_string(),
    ];
    assert_eq!(find_next_sequence(&names, "2024-01-02"), 4);
    // The day's own file carries no number: the first split file is `-1`.
    let names = vec!["bilibili-converter-2024-01-02.log".to_string()];
    assert_eq!(find_next_sequence(&names, "2024-01-02"), 1);
    let names = vec![
        "bilibili-converter-2024-01-02-4.log.gz".to_string(),
        "bilibili-converter-2024-01-02-x.log".to_string(),
        "bilibili-converter-2024-01-02-5.txt".to_string(),
    ];
    assert_eq!(find_next_sequence(&names, "2024-01-02"), 5);
    assert_eq!(find_next_sequence(&vec![], "2024-01-02"), 1);
    assert!(sequence_name_usable("bilibili-converter-2024-01-02-3.log", "2024-01-02"));
    assert!(sequence_name_usable("unrelated-name", "2024-01-02"));
    assert!(sequence_name_usable("bilibili-converter-2024-01-02.log.old-x", "2024-01-02"));
    assert!(!sequence_name_usable(
        "bilibili-converter-2024-01-02-18446744073709551615.log",
        "2024-01-02"
    ));
}

#[test]
fn logger_files_are_recognised() {
    assert_eq!(classify_log_file("bilibili-converter-2024-01-02.log"), Some(false));
    assert_eq!(classify_log_file("bilibili-converter-2024-01-02.log.gz"), Some(true));
    assert_eq!(classify_log_file("x.log.gz"), Some(true));
    assert_eq!(classify_log_file("other.log"), None);
    assert_eq!(classify_log_file("notes.txt"), None);
}

#[test]
fn cleanup_plans() {
    let files = vec![info("a", 100, false), info("b", 300, true), info("c", 200, false)];
    let plan = plan_log_cleanup(&files, 2, true, 200 + DAY);
    assert_eq!(plan.compress, vec!["c", "a"]);
    assert_eq!(plan.delete, vec!["a"]);
    let plan = plan_log_cleanup(&files, 2, true, 250);
    assert!(plan.compress.is_empty());
    let plan = plan_log_cleanup(&files, 0, false, 250);
    assert!(plan.compress.is_empty() && plan.delete.is_empty());
    let plan = plan_log_cleanup(&files, 1, false, 250);
    assert_eq!(plan.delete, vec!["c", "a"]);
    let tied = vec![info("x", 5, false), info("y", 5, false), info("z", 9, false)];
    let plan = plan_log_cleanup(&tied, 1, false, 0);
    assert_eq!(plan.delete, vec!["x", "y"]);
}

#[test]
fn compression_round_trip() {
    let data = b"line one\nline two\n".repeat(50);
    let gz = compress_log_file(&data).unwrap();
    assert_ne!(gz, data);
    let mut back = Vec::new();
    flate2::read::GzDecoder::new(gz.as_slice()).read_to_end(&mut back).unwrap();
    assert_eq!(back, data);
}

#[test]
fn dates_and_times() {
    let t = LocalDateTime { year: 2024, month: 3, day: 5, hour: 7, minute: 8, second: 9, nanosecond: 0 };
    assert_eq!(format_date(&t), "2024-03-05");
    assert_eq!(format_timestamp(&t), "2024-03-05 07:08:09");
    let leap = LocalDateTime { second: 59, nanosecond: 1_500_000_000, ..t };
    assert_eq!(format_timestamp(&leap), "2024-03-05 07:08:60");
    let far = LocalDateTime { year: 12345, ..t };
    assert_eq!(format_date(&far), "+12345-03-05");
    let old = LocalDateTime { year: -5, ..t };
    assert_eq!(format_date(&old), "-0005-03-05");
    assert_eq!(get_date_string().len(), 10);
}

#[test]
fn every_level_name_parses_back() {
    for l in [LogLevel::Trace, LogLevel::Debug, LogLevel::Info, LogLevel::Warn, LogLevel::Error] {
        assert_eq!(LogLevel::parse(l.as_str()), Ok(l));
        assert_eq!(LogLevel::parse(&l.as_str().to_lowercase()), Ok(l));
    }
    assert_eq!(LogLevel::parse("wArN"), Ok(LogLevel::Warn));
}

#[test]
fn next_numbered_log_is_a_new_name() {
    let date = "2024-05-06";
    let names = vec![
        dated_log_file_name(date),
        sequenced_log_file_name(date, 2),
        sequenced_log_file_name(date, 7),
        sequenced_log_file_name("2024-05-05", 40),
    ];
    let next = find_next_sequence(&names, date);
    assert_eq!(next, 8);
    let new_name = sequenced_log_file_name(date, next);
    assert!(!names.contains(&new_name));
}

#[test]
fn thread_numbers_and_locations() {
    assert_eq!(parse_thread_id("ThreadId(17)"), Some(17));
    assert_eq!(parse_thread_id("ThreadId(ThreadId(3))"), Some(3));
    assert_eq!(parse_thread_id("main"), None);
    assert_eq!(parse_thread_id("ThreadId()"), None);
    assert_eq!(parse_thread_id("ThreadId(18446744073709551616)"), None);
    assert_eq!(record_location(Some("src/a.rs"), Some(12)), "src/a.rs:12");
    assert_eq!(record_location(None, None), "unknown:0");
}

#[test]
fn errors_never_outnumber_entries() {
    let mut st = LoggerState::new(None);
    let mut last = get_stats(&st);
    for level in [LogLevel::Error, LogLevel::Info, LogLevel::Error, LogLevel::Warn] {
        st.record_write(3, level);
        let now = get_stats(&st);
        assert!(now.error_count <= now.total_entries);
        assert_eq!(now.total_entries, last.total_entries + 1);
        assert!(now.error_count >= last.error_count);
        last = now;
    }
    st.configure(LoggerConfig::default());
    st.change_log_directory("/x".to_string());
    let after = get_stats(&st);
    assert_eq!((after.total_entries, after.error_count), (4, 2));
}

#[test]
fn warnings_and_errors_are_flushed_at_once() {
    assert!(should_flush(LogLevel::Error));
    assert!(should_flush(LogLevel::Warn));
    assert!(!should_flush(LogLevel::Info));
    assert!(!should_flush(LogLevel::Debug));
    assert!(!should_flush(LogLevel::Trace));
}

#[test]
fn level_names_read_back_in_any_case() {
    for l in [LogLevel::Trace, LogLevel::Debug, LogLevel::Info, LogLevel::Warn, LogLevel::Error] {
        assert_eq!(l.as_str().parse::<LogLevel>(), Ok(l));
        assert_eq!(l.as_str().to_lowercase().parse::<LogLevel>(), Ok(l));
    }
}

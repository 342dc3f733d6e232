use chrono::{Local, TimeZone};
use logwatch::config::Config;
use logwatch::history::History;
use logwatch::level::LogLevel;
use logwatch::output::Output;
use logwatch::paths::PathStyle;
use logwatch::pattern::{LinePattern, LogFilter};
use logwatch::report::ReportBody;
use logwatch::stats::{Stats, StatsBucket};
use logwatch::config::STATS_MAX_BUCKETS;
use logwatch::text::truncate_end;

fn roots(paths: &[&str]) -> Vec<String> {
    paths.iter().map(|p| p.to_string()).collect()
}

fn history_of(lines: &[&str], limit: usize) -> History {
    let mut history = History::new(limit);
    for line in lines {
        history.push(line, LogLevel::detect(line));
    }
    history
}

fn regex(source: &str) -> LinePattern {
    LinePattern::new(source).unwrap()
}

/// Epoch seconds of "YYYY-MM-DD HH:MM:SS" read as a local time.
fn ts(hms: &str) -> i64 {
    let naive = chrono::NaiveDateTime::parse_from_str(hms, "%Y-%m-%d %H:%M:%S").expect("valid datetime");
    Local.from_local_datetime(&naive).single().expect("unambiguous").timestamp()
}

#[test]
fn test_default_config() {
    let config = Config::default();
    assert_eq!(config.watch.file_pattern, "*.log");
    assert_eq!(config.display.path_style, "relative");
    assert!(config.watch.directories.is_empty());
}

#[test]
fn path_style_parses_documented_values() {
    assert_eq!(PathStyle::parse("full").unwrap(), PathStyle::Full);
    assert_eq!(PathStyle::parse("relative").unwrap(), PathStyle::Relative);
    assert_eq!(PathStyle::parse("filename").unwrap(), PathStyle::Filename);
}

#[test]
fn path_style_rejects_unknown_values() {
    assert!(PathStyle::parse("basename").is_err());
}

#[test]
fn path_style_renders_each_variant() {
    let path = "/var/log/app/error.log";
    let watch_roots = roots(&["/var/log"]);

    assert_eq!(PathStyle::Full.render(path, &watch_roots), "/var/log/app/error.log");
    assert_eq!(PathStyle::Relative.render(path, &watch_roots), "app/error.log");
    assert_eq!(PathStyle::Filename.render(path, &watch_roots), "error.log");
}

#[test]
fn relative_falls_back_to_full_path_when_no_root_matches() {
    let path = "/opt/other/error.log";
    assert_eq!(PathStyle::Relative.render(path, &roots(&["/var/log"])), "/opt/other/error.log");
}

#[test]
fn relative_uses_the_first_matching_root() {
    let path = "/var/log/app/error.log";
    assert_eq!(
        PathStyle::Relative.render(path, &roots(&["/var/log", "/var/log/app"])),
        "app/error.log"
    );
}

#[test]
fn filter_requires_an_include_match_and_no_exclude_match() {
    let filter = LogFilter::new(vec!["ERROR".into()], vec!["expected".into()]).unwrap();

    assert!(filter.matches("ERROR: database is down"));
    assert!(!filter.matches("INFO: all good"));
    assert!(!filter.matches("ERROR: expected failure in test"));
}

#[test]
fn filter_without_includes_passes_everything_not_excluded() {
    let filter = LogFilter::new(vec![], vec!["DEBUG".into()]).unwrap();

    assert!(filter.matches("INFO: all good"));
    assert!(!filter.matches("DEBUG: noisy"));
}

#[test]
fn filter_rejects_invalid_regex() {
    assert!(LogFilter::new(vec!["[unclosed".into()], vec![]).is_err());
}

#[test]
fn log_level_detects_severities() {
    assert_eq!(LogLevel::detect("service PANIC unwound"), LogLevel::Fatal);
    assert_eq!(LogLevel::detect("ERROR: db down"), LogLevel::Error);
    assert_eq!(LogLevel::detect("WARNING: slow"), LogLevel::Warn);
    assert_eq!(LogLevel::detect("INFO: started"), LogLevel::Info);
    assert_eq!(LogLevel::detect("TRACE: entering"), LogLevel::Debug);
    assert_eq!(LogLevel::detect("plain message"), LogLevel::Other);
}

#[test]
fn log_level_detection_is_case_insensitive() {
    assert_eq!(LogLevel::detect("error: lowercase"), LogLevel::Error);
}

#[test]
fn history_evicts_oldest_lines_past_the_limit() {
    let history = history_of(&["one", "two", "three"], 2);

    assert_eq!(history.entries().len(), 2);
    assert_eq!(history.entries()[0].rendered, "two");
    assert_eq!(history.entries()[1].rendered, "three");
}

#[test]
fn history_of_zero_retains_nothing() {
    let history = history_of(&["one", "two"], 0);

    assert!(!history.is_enabled());
    assert!(history.entries().is_empty());
}

#[test]
fn history_search_matches_message_and_path() {
    let history = history_of(
        &[
            "[t] app/server.log: ERROR: connection timeout",
            "[t] api/requests.log: INFO: ok",
            "[t] app/server.log: WARN: retrying",
        ],
        10,
    );

    let by_message = history.search(&regex("timeout"));
    assert_eq!(by_message.len(), 1);

    // The rendered line is searched, so the file path is matchable too.
    let by_path = history.search(&regex("app/server"));
    assert_eq!(by_path.len(), 2);
}

#[test]
fn history_retains_lines_the_filter_would_hide() {
    let filter = LogFilter::new(vec!["ERROR".into()], vec![]).unwrap();
    let mut history = History::new(10);

    for line in ["ERROR: db down", "WARN: disk almost full"] {
        history.push(line, LogLevel::detect(line));
    }

    assert!(!filter.matches("WARN: disk almost full"));
    assert_eq!(history.search(&regex("disk")).len(), 1);
}

#[test]
fn history_search_preserves_detected_level() {
    let history = history_of(&["ERROR: db down"], 10);
    let matches = history.search(&regex("db"));

    assert_eq!(matches[0].level, LogLevel::Error);
}

#[test]
fn output_writes_plain_lines_to_the_export_file() {
    let mut output = Output::new(true, true);
    let mut term = String::new();
    let mut file = String::new();

    let (shown, exported) = output.log("[t] app.log: ERROR: boom", LogLevel::Error);
    term.push_str(&shown);
    if let Some(line) = exported {
        file.push_str(&line);
    }
    // Chrome and search replays never reach the export file.
    term.push_str(&output.notice("[INFO] Now watching: app.log"));
    term.push_str(&output.echo("[t] app.log: ERROR: boom", LogLevel::Error));
    assert!(output.flush());

    assert_eq!(file, "[t] app.log: ERROR: boom\n");
    assert!(!file.contains('\u{1b}'), "export file must not contain ANSI color");
    // All three writes still reached the terminal.
    assert_eq!(term.lines().count(), 3);
}

#[test]
fn raw_mode_terminates_lines_with_carriage_return() {
    let mut output = Output::new(false, false);
    let mut term = String::new();

    term.push_str(&output.notice("cooked"));
    output.set_raw_mode(true);
    term.push_str(&output.notice("raw"));

    assert_eq!(term, "cooked\nraw\r\n");
}

#[test]
fn color_is_applied_only_when_enabled() {
    let output = Output::new(false, true);
    let colored = output.echo("ERROR: boom", LogLevel::Error);
    assert!(colored.contains('\u{1b}'));
    assert!(colored.contains("ERROR: boom"));

    let output = Output::new(false, false);
    let plain = output.echo("ERROR: boom", LogLevel::Error);
    assert_eq!(plain, "ERROR: boom\n");
}

#[test]
fn unclassified_lines_are_never_colored() {
    let output = Output::new(false, true);
    assert_eq!(output.echo("plain message", LogLevel::Other), "plain message\n");
}

#[test]
fn stats_buckets_by_interval() {
    let mut stats = Stats::new(60, STATS_MAX_BUCKETS);
    // Two lines in the same minute, one in the next.
    stats.record(ts("2026-07-23 14:16:05"), LogLevel::Error, "app.log");
    stats.record(ts("2026-07-23 14:16:59"), LogLevel::Warn, "app.log");
    stats.record(ts("2026-07-23 14:17:00"), LogLevel::Info, "app.log");

    assert_eq!(stats.bucket_count(), 2);
    assert_eq!(stats.total_lines(), 3);
}

#[test]
fn stats_interval_changes_bucket_granularity() {
    let mut stats = Stats::new(300, STATS_MAX_BUCKETS); // 5-minute buckets
    stats.record(ts("2026-07-23 14:16:05"), LogLevel::Error, "app.log");
    stats.record(ts("2026-07-23 14:17:00"), LogLevel::Info, "app.log");
    // Both fall in the same 5-minute window.
    assert_eq!(stats.bucket_count(), 1);
}

#[test]
fn stats_track_levels_and_files_jointly() {
    let mut stats = Stats::new(60, STATS_MAX_BUCKETS);
    stats.record(ts("2026-07-23 14:16:05"), LogLevel::Error, "app.log");
    stats.record(ts("2026-07-23 14:16:06"), LogLevel::Error, "app.log");
    stats.record(ts("2026-07-23 14:16:07"), LogLevel::Warn, "db.log");

    let levels = stats.level_totals();
    assert_eq!(levels[LogLevel::Error.index()], 2);
    assert_eq!(levels[LogLevel::Warn.index()], 1);

    let files = stats.file_totals();
    // Highest-volume file first.
    assert_eq!(files[0], ("app.log".to_string(), 2));
    assert_eq!(files[1], ("db.log".to_string(), 1));
}

#[test]
fn stats_evict_oldest_bucket_past_the_cap() {
    let mut stats = Stats::new(60, 2);
    stats.record(ts("2026-07-23 14:16:00"), LogLevel::Info, "a.log");
    stats.record(ts("2026-07-23 14:17:00"), LogLevel::Info, "a.log");
    stats.record(ts("2026-07-23 14:18:00"), LogLevel::Info, "a.log");

    assert_eq!(stats.bucket_count(), 2);
    // The 14:16 bucket was dropped; the two most recent survive.
    let first = stats.bucket_starts()[0];
    assert_eq!(
        Local.timestamp_opt(first, 0).single().unwrap().format("%H:%M").to_string(),
        "14:17"
    );
}

#[test]
fn stats_fatal_and_error_share_the_error_bar_segment() {
    let mut bucket = StatsBucket::default();
    bucket.record(LogLevel::Fatal, "a.log");
    bucket.record(LogLevel::Error, "a.log");
    let stats = Stats::new(60, STATS_MAX_BUCKETS);
    // Whole bucket is error/fatal, so the bar is all '▓', no other shades.
    let bar = stats.bar(&bucket, 2);
    assert!(bar.chars().all(|c| c == '▓'), "bar was {bar:?}");
}

#[test]
fn stats_csv_is_tidy_long_format() {
    let mut stats = Stats::new(60, STATS_MAX_BUCKETS);
    stats.record(ts("2026-07-23 14:16:05"), LogLevel::Error, "app.log");
    stats.record(ts("2026-07-23 14:16:06"), LogLevel::Warn, "app.log");

    let csv = stats.to_csv();
    let lines: Vec<&str> = csv.lines().collect();
    assert_eq!(lines[0], "bucket_start,file,level,count");
    // One row per (bucket, file, level) with a nonzero count.
    assert!(lines.iter().any(|l| l.contains("app.log,error,1")));
    assert!(lines.iter().any(|l| l.contains("app.log,warn,1")));
    // Zero-count levels are omitted.
    assert!(!lines.iter().any(|l| l.contains(",info,")));
}

#[test]
fn stats_csv_quotes_fields_with_commas() {
    let mut stats = Stats::new(60, STATS_MAX_BUCKETS);
    stats.record(ts("2026-07-23 14:16:05"), LogLevel::Info, "weird,name.log");
    let csv = stats.to_csv();
    assert!(csv.contains("\"weird,name.log\""), "csv was:\n{csv}");
}

#[test]
fn stats_json_round_trips_to_expected_shape() {
    let mut stats = Stats::new(120, STATS_MAX_BUCKETS);
    stats.record(ts("2026-07-23 14:16:05"), LogLevel::Error, "app.log");

    let report = stats.to_json();
    assert_eq!(report.interval_seconds, 120);
    assert_eq!(report.total_lines, 1);
    let bucket = &report.buckets[0];
    assert_eq!(bucket.total, 1);
    assert_eq!(bucket.by_level, vec![("error".to_string(), 1)]);
    assert_eq!(bucket.by_file[0].0, "app.log");
    assert_eq!(bucket.by_file[0].1, vec![("error".to_string(), 1)]);
}

#[test]
fn stats_report_by_extension_writes_json_or_csv() {
    let mut stats = Stats::new(60, STATS_MAX_BUCKETS);
    stats.record(ts("2026-07-23 14:16:05"), LogLevel::Error, "app.log");

    match stats.report_body("stats/report.json") {
        ReportBody::Json(report) => assert_eq!(report.interval_seconds, 60),
        ReportBody::Csv(_) => panic!("a .json path selects JSON"),
    }
    match stats.report_body("stats/report.csv") {
        ReportBody::Csv(csv) => assert!(csv.starts_with("bucket_start,file,level,count")),
        ReportBody::Json(_) => panic!("a .csv path selects CSV"),
    }
}

#[test]
fn stats_render_report_is_empty_message_when_no_activity() {
    let stats = Stats::new(60, STATS_MAX_BUCKETS);
    assert_eq!(stats.render_report(), vec!["-- no activity recorded yet --".to_string()]);
}

#[test]
fn stats_render_report_includes_histogram_and_summary() {
    let mut stats = Stats::new(60, STATS_MAX_BUCKETS);
    stats.record(ts("2026-07-23 14:16:05"), LogLevel::Error, "app.log");
    stats.record(ts("2026-07-23 14:16:06"), LogLevel::Warn, "db.log");

    let report = stats.render_report().join("\n");
    assert!(report.contains("Activity"));
    assert!(report.contains("14:16"));
    assert!(report.contains("Totals: 2 lines"));
    assert!(report.contains("By file:"));
    assert!(report.contains("app.log"));
}

#[test]
fn truncate_end_keeps_the_tail() {
    assert_eq!(truncate_end("short", 10), "short");
    assert_eq!(truncate_end("averylongfilename.log", 8), "…ame.log");
}

use logwatch::config::{CommandLine, Config, Settings, SettingsError};
use logwatch::display::{
    render_line, startup_commands, Command, DisplayLoop, DisplaySettings, KeyCode, KeyPress, PromptStep, SearchPrompt,
};
use logwatch::level::{LevelColor, LogLevel};
use logwatch::output::Output;
use logwatch::paths::{report_format, PathStyle, ReportFormat};
use logwatch::pattern::{FileGlob, LinePattern, LogFilter, PatternList};
use logwatch::report::{BucketReport, StatsReport};
use logwatch::source::{line_to_send, should_follow, ChangeAction, FileTracker, StreamParser};
use logwatch::stats::Stats;
use logwatch::text::csv_field;

fn describe(commands: &[Command]) -> Vec<String> {
    commands
        .iter()
        .map(|c| match c {
            Command::Notice(s) => format!("notice {s}"),
            Command::Log { line, text, level } => format!("log {line} {level:?} {text}"),
            Command::Echo { text, level } => format!("echo {level:?} {text}"),
            Command::ClearScreen => "clear".to_string(),
            Command::Flush => "flush".to_string(),
            Command::Prompt => "prompt".to_string(),
            Command::ShowStats => "stats".to_string(),
            Command::Stop => "stop".to_string(),
        })
        .collect()
}

fn settings(before: usize, after: usize, interactive: bool) -> DisplaySettings {
    DisplaySettings {
        path_style: PathStyle::Relative,
        before_context: before,
        after_context: after,
        history_limit: 10,
        stats_interval: 60,
        stats_max_buckets: 10,
        interactive,
    }
}

fn key(c: char) -> KeyPress {
    KeyPress { code: KeyCode::Char(c), control: false, other_modifiers: false }
}

fn command_line() -> CommandLine {
    CommandLine {
        directories: vec![],
        full_paths: false,
        inclusions: vec![],
        exclusions: vec![],
        before_context: 0,
        after_context: 0,
        context: None,
        file_pattern: "*.log".to_string(),
        stdin: false,
        output: None,
        append: false,
        history: None,
        stats_interval: None,
        stats_out: None,
    }
}

// --- settings ---------------------------------------------------------------

#[test]
fn settings_take_defaults_from_an_empty_configuration() {
    let mut cli = command_line();
    cli.directories = vec!["/var/log".to_string()];
    let s = Settings::resolve(cli, Config::default()).ok().unwrap();
    assert_eq!(s.path_style, PathStyle::Relative);
    assert_eq!(s.history_limit, 10000);
    assert_eq!(s.stats_interval, 60);
    assert_eq!(s.directories, vec!["/var/log".to_string()]);
    assert_eq!(s.file_pattern, "*.log");
    assert_eq!(s.output, None);
    assert!(!s.append);
}

#[test]
fn settings_prefer_the_command_line_over_the_configuration() {
    let mut config = Config::default();
    config.watch.directories = vec!["/from/config".to_string()];
    config.watch.file_pattern = "*.txt".to_string();
    config.history.limit = Some(5);
    config.stats.interval = Some(30);
    config.output.file = Some("config.out".to_string());
    config.filters.inclusions = vec!["B".to_string()];
    let mut cli = command_line();
    cli.directories = vec!["/from/cli".to_string()];
    cli.history = Some(0);
    cli.stats_interval = Some(5);
    cli.output = Some("cli.out".to_string());
    cli.inclusions = vec!["A".to_string()];
    cli.file_pattern = "*.err".to_string();
    let s = Settings::resolve(cli, config).ok().unwrap();
    assert_eq!(s.directories, vec!["/from/cli".to_string()]);
    assert_eq!(s.history_limit, 0);
    assert_eq!(s.stats_interval, 5);
    assert_eq!(s.output, Some("cli.out".to_string()));
    assert_eq!(s.inclusions, vec!["A".to_string(), "B".to_string()]);
    assert_eq!(s.file_pattern, "*.err");
}

#[test]
fn settings_fall_back_to_the_configured_values() {
    let mut config = Config::default();
    config.watch.directories = vec!["/from/config".to_string()];
    config.watch.file_pattern = "*.txt".to_string();
    config.history.limit = Some(5);
    config.stats.out = Some("stats.json".to_string());
    config.output.append = true;
    config.display.path_style = "filename".to_string();
    let s = Settings::resolve(command_line(), config).ok().unwrap();
    assert_eq!(s.directories, vec!["/from/config".to_string()]);
    assert_eq!(s.file_pattern, "*.txt");
    assert_eq!(s.history_limit, 5);
    assert_eq!(s.stats_out, Some("stats.json".to_string()));
    assert!(s.append);
    assert_eq!(s.path_style, PathStyle::Filename);
}

#[test]
fn settings_context_fills_only_unset_sides() {
    let mut cli = command_line();
    cli.stdin = true;
    cli.before_context = 2;
    cli.context = Some(4);
    let s = Settings::resolve(cli, Config::default()).ok().unwrap();
    assert_eq!(s.before_context, 2);
    assert_eq!(s.after_context, 4);
    assert!(s.directories.is_empty());
}

#[test]
fn settings_full_paths_flag_overrides_the_configured_style() {
    let mut config = Config::default();
    config.display.path_style = "bogus".to_string();
    let mut cli = command_line();
    cli.stdin = true;
    cli.full_paths = true;
    let s = Settings::resolve(cli, config).ok().unwrap();
    assert_eq!(s.path_style, PathStyle::Full);
}

#[test]
fn settings_reject_an_unknown_path_style() {
    let mut config = Config::default();
    config.display.path_style = "basename".to_string();
    let mut cli = command_line();
    cli.stdin = true;
    match Settings::resolve(cli, config) {
        Err(SettingsError::PathStyle(e)) => assert_eq!(e.value, "basename"),
        _ => panic!("expected a path style error"),
    }
}

#[test]
fn settings_reject_a_stats_interval_below_one() {
    let mut cli = command_line();
    cli.stdin = true;
    cli.stats_interval = Some(0);
    match Settings::resolve(cli, Config::default()) {
        Err(SettingsError::StatsInterval(n)) => assert_eq!(n, 0),
        _ => panic!("expected a stats interval error"),
    }
}

#[test]
fn settings_need_a_directory_when_watching_files() {
    assert!(matches!(Settings::resolve(command_line(), Config::default()), Err(SettingsError::NoDirectories)));
}

#[test]
fn config_file_pattern_is_none_at_the_default() {
    let mut config = Config::default();
    assert_eq!(config.file_pattern(), None);
    config.watch.file_pattern = "*.txt".to_string();
    assert_eq!(config.file_pattern(), Some("*.txt".to_string()));
    config.watch.directories = vec!["a".to_string(), "b".to_string()];
    assert_eq!(config.watch_directories(), vec!["a".to_string(), "b".to_string()]);
}

// --- standard input -----------------------------------------------------------

#[test]
fn stream_parser_reads_path_prefixes_and_tail_headers() {
    let mut p = StreamParser::new();
    assert_eq!(p.parse_line("plain message"), Some(("stdin".to_string(), "plain message".to_string())));
    assert_eq!(
        p.parse_line("/var/log/app.log:   ERROR: boom"),
        Some(("/var/log/app.log".to_string(), "ERROR: boom".to_string()))
    );
    assert_eq!(p.parse_line("app.log: hello"), Some(("app.log".to_string(), "hello".to_string())));
    assert_eq!(p.parse_line("  ==> /srv/x.log <==  "), None);
    assert_eq!(p.parse_line("Note: not a path"), Some(("/srv/x.log".to_string(), "Note: not a path".to_string())));
    assert_eq!(p.parse_line("no colon"), Some(("/srv/x.log".to_string(), "no colon".to_string())));
    assert_eq!(p.parse_line(""), None);
    assert_eq!(p.parse_line("dir/file.log:   "), None);
}

// --- followed files -------------------------------------------------------------

#[test]
fn tracker_starts_at_the_end_then_reads_appended_lines() {
    let mut t = FileTracker::new();
    assert!(matches!(t.on_change("/l/a.log", 100), ChangeAction::Start));
    assert_eq!(t.set_position("/l/a.log", 100), Some("Now watching: /l/a.log".to_string()));
    assert!(matches!(t.on_change("/l/a.log", 150), ChangeAction::ReadFrom { pos: 100, reopen: false }));
    assert_eq!(t.set_position("/l/a.log", 150), None);
    // Shrunk below the last position: rotated, read again from the start.
    assert!(matches!(t.on_change("/l/a.log", 10), ChangeAction::ReadFrom { pos: 0, reopen: true }));
    assert!(matches!(t.on_change("/l/b.log", 10), ChangeAction::Start));
}

#[test]
fn followed_lines_skip_blanks_and_drop_trailing_space() {
    assert_eq!(line_to_send("  \n"), None);
    assert_eq!(line_to_send("  ERROR: x  \r\n"), Some("  ERROR: x".to_string()));
}

#[test]
fn only_files_whose_name_matches_the_glob_are_followed() {
    let glob = FileGlob::new("*.log").ok().unwrap();
    assert!(should_follow(&glob, "/var/log/app/server.log"));
    assert!(!should_follow(&glob, "/var/log/app/server.txt"));
    assert!(!should_follow(&glob, "/"));
    assert!(FileGlob::new("[").is_err());
}

// --- filters and paths ------------------------------------------------------------

#[test]
fn filter_reports_which_pattern_is_invalid() {
    let err = LogFilter::new(vec!["ok".into()], vec!["fine".into(), "(".into(), "[".into()]).err().unwrap();
    assert_eq!(err.list, PatternList::Exclusion);
    assert_eq!(err.pattern, "(");
    assert!(!err.reason.is_empty());
}

#[test]
fn report_format_follows_the_extension() {
    assert_eq!(report_format("out/report.JSON"), ReportFormat::Json);
    assert_eq!(report_format("out/report.csv"), ReportFormat::Csv);
    assert_eq!(report_format("report"), ReportFormat::Csv);
}

#[test]
fn levels_have_labels_and_colors() {
    assert_eq!(LogLevel::Fatal.label(), "fatal");
    assert_eq!(LogLevel::Other.label(), "other");
    assert_eq!(LogLevel::Error.color(), Some(LevelColor::DarkRed));
    assert_eq!(LogLevel::Other.color(), None);
    assert_eq!(LogLevel::Debug.index(), 4);
    assert_eq!(LogLevel::detect("CRITICAL disk"), LogLevel::Fatal);
}

#[test]
fn csv_fields_are_quoted_only_when_needed() {
    assert_eq!(csv_field("plain"), "plain");
    assert_eq!(csv_field("a\"b"), "\"a\"\"b\"");
    assert_eq!(csv_field("line\nbreak"), "\"line\nbreak\"");
}

// --- stats --------------------------------------------------------------------------

#[test]
fn stats_record_counts_per_bucket_and_evicts_the_oldest() {
    let mut stats = Stats::new(60, 2);
    stats.record(0, LogLevel::Info, "a.log");
    stats.record(59, LogLevel::Error, "b.log");
    stats.record(60, LogLevel::Info, "a.log");
    assert_eq!(stats.bucket_starts(), vec![0, 60]);
    // An older bucket past the cap is the oldest, so it goes at once.
    stats.record(-1, LogLevel::Warn, "a.log");
    assert_eq!(stats.bucket_starts(), vec![0, 60]);
    assert_eq!(stats.total_lines(), 3);
    stats.record(120, LogLevel::Info, "a.log");
    assert_eq!(stats.bucket_starts(), vec![60, 120]);
    assert_eq!(stats.total_lines(), 2);
    assert_eq!(stats.bucket_key(119), 60);
    assert_eq!(stats.bucket_key(-61), -120);
}

#[test]
fn stats_csv_with_given_starts_is_exact() {
    let mut stats = Stats::new(60, 10);
    stats.record(0, LogLevel::Error, "b.log");
    stats.record(1, LogLevel::Error, "a,1.log");
    stats.record(2, LogLevel::Warn, "b.log");
    stats.record(61, LogLevel::Info, "b.log");
    let csv = stats.csv_with_starts(&vec!["t0".to_string(), "t,1".to_string()]);
    assert_eq!(
        csv,
        "bucket_start,file,level,count\nt0,\"a,1.log\",error,1\nt0,b.log,error,1\nt0,b.log,warn,1\n\"t,1\",b.log,info,1\n"
    );
}

#[test]
fn stats_json_data_lists_nonzero_levels_per_bucket_and_file() {
    let mut stats = Stats::new(60, 10);
    stats.record(0, LogLevel::Error, "b.log");
    stats.record(1, LogLevel::Fatal, "a.log");
    stats.record(2, LogLevel::Error, "b.log");
    let report: StatsReport = stats.json_with_starts(vec!["t0".to_string()], "now".to_string());
    assert_eq!(report.generated_at, "now");
    assert_eq!(report.total_lines, 3);
    let b: &BucketReport = &report.buckets[0];
    assert_eq!(b.start, "t0");
    assert_eq!(b.total, 3);
    assert_eq!(b.by_level, vec![("fatal".to_string(), 1), ("error".to_string(), 2)]);
    assert_eq!(b.by_file[0], ("a.log".to_string(), vec![("fatal".to_string(), 1)]));
    assert_eq!(b.by_file[1], ("b.log".to_string(), vec![("error".to_string(), 2)]));
}

#[test]
fn stats_bar_scales_and_stacks_severities() {
    let mut stats = Stats::new(60, 10);
    stats.record(0, LogLevel::Error, "a.log");
    stats.record(1, LogLevel::Warn, "a.log");
    stats.record(2, LogLevel::Info, "a.log");
    stats.record(3, LogLevel::Info, "a.log");
    let bucket = stats.bucket_at(0).bucket();
    assert_eq!(stats.bar(bucket, 4), format!("{}{}{}", "▓".repeat(8), "▒".repeat(8), "░".repeat(16)));
    assert_eq!(stats.bar(bucket, 8), format!("{}{}{}", "▓".repeat(4), "▒".repeat(4), "░".repeat(8)));
    assert_eq!(stats.bar(bucket, 0), "");
}

#[test]
fn stats_report_lines_are_exact_for_given_labels() {
    let mut stats = Stats::new(60, 10);
    stats.record(0, LogLevel::Error, "app.log");
    stats.record(1, LogLevel::Warn, "db.log");
    stats.record(2, LogLevel::Error, "app.log");
    let lines = stats.report_lines("SPAN", &vec!["L0".to_string()]);
    assert_eq!(lines[0], "── Activity ── 60s buckets ── SPAN ──");
    assert_eq!(lines[1], "   (▓ error/fatal  ▒ warn  ░ info/debug/other)");
    assert_eq!(lines[2], format!("L0  {}{}  3", "▓".repeat(21), "▒".repeat(11)));
    assert_eq!(lines[3], "Totals: 3 lines — error 2, warn 1");
    assert_eq!(lines[4], "By file:");
    assert_eq!(lines[5], format!("  {:<28} {:>8}  {}", "app.log", 2, "█".repeat(24)));
    assert_eq!(lines[6], format!("  {:<28} {:>8}  {}", "db.log", 1, "█".repeat(12)));
    assert_eq!(lines.len(), 7);
}

// --- display loop -----------------------------------------------------------------

#[test]
fn display_shows_matches_with_context_once() {
    let filter = LogFilter::new(vec!["ERROR".into()], vec![]).unwrap();
    let mut d = DisplayLoop::new(&settings(1, 1, true), filter, vec!["/l".to_string()]);
    assert!(describe(&d.on_line("/l/a.log", "one", 0, "T")).is_empty());
    assert!(describe(&d.on_line("/l/a.log", "two", 1, "T")).is_empty());
    assert_eq!(
        describe(&d.on_line("/l/a.log", "ERROR x", 2, "T")),
        vec!["log 2 Other [T] a.log: two".to_string(), "log 3 Error [T] a.log: ERROR x".to_string()]
    );
    assert_eq!(describe(&d.on_line("/l/a.log", "after", 3, "T")), vec!["log 4 Other [T] a.log: after".to_string()]);
    assert!(describe(&d.on_line("/l/a.log", "later", 4, "T")).is_empty());
    assert_eq!(d.history().len(), 5);
    assert_eq!(d.stats().total_lines(), 5);
}

#[test]
fn display_keys_pause_and_stop() {
    let filter = LogFilter::new(vec![], vec![]).unwrap();
    let mut d = DisplayLoop::new(&settings(0, 0, true), filter, vec![]);
    assert_eq!(describe(&d.on_key(key('p'))), vec!["notice -- PAUSED - incoming lines are buffered --".to_string()]);
    assert!(!d.wants_messages());
    assert_eq!(describe(&d.on_key(key('p'))), vec!["notice -- RESUMED --".to_string()]);
    assert!(d.wants_messages());
    assert_eq!(describe(&d.on_key(key('/'))), vec!["prompt".to_string()]);
    assert_eq!(describe(&d.on_key(key('s'))), vec!["stats".to_string()]);
    assert_eq!(describe(&d.on_key(key('x'))), Vec::<String>::new());
    let ctrl_c = KeyPress { code: KeyCode::Char('c'), control: true, other_modifiers: false };
    assert_eq!(describe(&d.on_key(ctrl_c)), vec!["stop".to_string()]);
    assert_eq!(describe(&d.on_key(key('c')))[0], "clear");
    assert_eq!(describe(&d.on_info("hi")), vec!["notice [INFO] hi".to_string()]);
    assert_eq!(describe(&d.on_timeout()), vec!["flush".to_string()]);
    assert_eq!(
        describe(&d.on_disconnected()),
        vec!["flush".to_string(), "notice -- input stream ended, history still searchable, press 'q' to quit --".to_string()]
    );
    assert!(!d.wants_messages());
}

#[test]
fn display_without_a_terminal_stops_when_the_stream_ends() {
    let filter = LogFilter::new(vec![], vec![]).unwrap();
    let mut d = DisplayLoop::new(&settings(0, 0, false), filter, vec![]);
    assert_eq!(describe(&d.on_disconnected()), vec!["flush".to_string(), "stop".to_string()]);
    assert_eq!(describe(&d.on_shutdown()), vec!["stop".to_string()]);
}

#[test]
fn display_search_replays_matches() {
    let filter = LogFilter::new(vec![], vec![]).unwrap();
    let mut d = DisplayLoop::new(&settings(0, 0, true), filter, vec![]);
    d.on_line("a.log", "ERROR one", 0, "T");
    d.on_line("a.log", "INFO two", 1, "T");
    assert_eq!(
        describe(&d.search_commands("ERROR")),
        vec![
            "notice -- 1 match for /ERROR (2 lines retained) --".to_string(),
            "echo Error [T] a.log: ERROR one".to_string(),
            "notice -- end of matches, streaming resumed --".to_string(),
        ]
    );
    assert_eq!(
        describe(&d.search_commands("nothing")),
        vec!["notice -- no matches for /nothing in 2 retained lines --".to_string()]
    );
    assert!(describe(&d.search_commands("("))[0].starts_with("notice -- invalid search pattern: "));
}

#[test]
fn display_search_is_unavailable_without_history() {
    let filter = LogFilter::new(vec![], vec![]).unwrap();
    let mut s = settings(0, 0, true);
    s.history_limit = 0;
    let d = DisplayLoop::new(&s, filter, vec![]);
    assert_eq!(
        describe(&d.search_commands("x")),
        vec!["notice -- search unavailable: history is disabled (--history 0) --".to_string()]
    );
}

#[test]
fn display_finish_summarises_the_session() {
    let filter = LogFilter::new(vec![], vec![]).unwrap();
    let mut d = DisplayLoop::new(&settings(0, 0, true), filter, vec![]);
    d.on_line("a.log", "x", 0, "T");
    d.on_line("b.log", "y", 61, "T");
    assert_eq!(
        describe(&d.finish_commands(Some("r.csv"))),
        vec![
            "notice [INFO] wrote activity stats to: r.csv".to_string(),
            "notice -- session: 2 lines in 2 buckets across 2 file(s) --".to_string(),
        ]
    );
}

#[test]
fn startup_announces_the_export_file() {
    assert_eq!(
        describe(&startup_commands(false, Some("out.log"), true)),
        vec![
            "notice LogWatch - non-interactive mode (no terminal attached)".to_string(),
            format!("notice {}", "─".repeat(69)),
            "notice [INFO] appending output to: out.log".to_string(),
        ]
    );
    assert_eq!(describe(&startup_commands(true, None, false))[0], "clear");
    assert_eq!(render_line("T", "p", "l"), "[T] p: l");
}

#[test]
fn search_prompt_edits_and_submits() {
    let mut p = SearchPrompt::new();
    assert!(matches!(p.on_key(key('a')), PromptStep::Redraw));
    assert!(matches!(p.on_key(key('b')), PromptStep::Redraw));
    let bs = KeyPress { code: KeyCode::Backspace, control: false, other_modifiers: false };
    assert!(matches!(p.on_key(bs), PromptStep::Redraw));
    assert_eq!(p.text(), "search: /a");
    let enter = KeyPress { code: KeyCode::Enter, control: false, other_modifiers: false };
    match p.on_key(enter) {
        PromptStep::Done(q) => assert_eq!(q, Some("a".to_string())),
        PromptStep::Redraw => panic!("enter submits"),
    }
    let mut empty = SearchPrompt::new();
    assert!(matches!(empty.on_key(enter), PromptStep::Done(None)));
    let esc = KeyPress { code: KeyCode::Esc, control: false, other_modifiers: false };
    assert!(matches!(p.on_key(esc), PromptStep::Done(None)));
}

#[test]
fn display_search_replays_only_the_most_recent_hundred() {
    let filter = LogFilter::new(vec![], vec![]).unwrap();
    let mut s = settings(0, 0, true);
    s.history_limit = 1000;
    let mut d = DisplayLoop::new(&s, filter, vec![]);
    for i in 0..150 {
        d.on_line("a.log", &format!("hit {i}"), i, "T");
    }
    let out = describe(&d.search_commands("hit"));
    assert_eq!(out.len(), 102);
    assert_eq!(out[0], "notice -- most recent 100 of 150 matches for /hit (150 lines retained) --");
    assert_eq!(out[1], "echo Other [T] a.log: hit 50");
    assert_eq!(out[100], "echo Other [T] a.log: hit 149");
    assert_eq!(out[101], "notice -- end of matches, streaming resumed --");
}

#[test]
fn detection_is_the_same_for_lines_equal_up_to_case() {
    assert_eq!(LogLevel::detect("Warning: x"), LogLevel::detect("WARNING: X"));
    assert_eq!(LogLevel::detect("debug"), LogLevel::Debug);
}

#[test]
fn export_text_ignores_color_and_raw_mode() {
    let mut output = Output::new(true, true);
    output.set_raw_mode(true);
    let (shown, exported) = output.log("ERROR: boom", LogLevel::Error);
    assert!(shown.ends_with("\r\n"));
    assert!(shown.contains("ERROR: boom"));
    assert_eq!(exported, Some("ERROR: boom\n".to_string()));
    assert!(output.flush());
    assert!(!output.flush());
    let mut plain = Output::new(false, false);
    assert_eq!(plain.log("x", LogLevel::Other), ("x\n".to_string(), None));
    assert!(!plain.flush());
}

#[test]
fn bucket_label_is_the_local_clock_time() {
    let stats = Stats::new(60, 10);
    let label = stats.bucket_label(0);
    let expected = chrono::TimeZone::timestamp_opt(&chrono::Local, 0, 0).single().unwrap().format("%H:%M").to_string();
    assert_eq!(label, expected);
    assert_eq!(label.chars().count(), 5);
    assert_eq!(label.chars().nth(2), Some(':'));
}

#[test]
fn pattern_errors_carry_the_compiler_message() {
    let expected = regex::Regex::new("(").unwrap_err().to_string();
    assert_eq!(LinePattern::new("(").err().unwrap(), expected);
    let err = LogFilter::new(vec!["(".into()], vec![]).err().unwrap();
    assert_eq!(err.reason, expected);
    let glob_expected = glob::Pattern::new("[").unwrap_err().to_string();
    assert_eq!(FileGlob::new("[").err().unwrap(), glob_expected);

    let filter = LogFilter::new(vec![], vec![]).unwrap();
    let d = DisplayLoop::new(&settings(0, 0, true), filter, vec![]);
    assert_eq!(
        describe(&d.search_commands("(")),
        vec![format!("notice -- invalid search pattern: {} --", expected.replace('\n', " "))]
    );
}

#[test]
fn every_count_of_the_lines_agrees() {
    let mut stats = Stats::new(60, 10);
    stats.record(0, LogLevel::Error, "a.log");
    stats.record(1, LogLevel::Warn, "b.log");
    stats.record(61, LogLevel::Info, "a.log");
    stats.record(122, LogLevel::Fatal, "c.log");
    let total = stats.total_lines();
    assert_eq!(total, 4);
    assert_eq!(stats.level_totals().iter().sum::<u64>(), total);
    assert_eq!(stats.file_totals().iter().map(|(_, c)| *c).sum::<u64>(), total);
    let by_bucket: u64 = (0..stats.bucket_count()).map(|i| stats.bucket_at(i).bucket().total()).sum();
    assert_eq!(by_bucket, total);
    assert_eq!(Stats::new(60, 10).total_lines(), 0);
}

#[test]
fn recording_counts_the_cell_and_keeps_the_newest_buckets() {
    let mut stats = Stats::new(60, 2);
    stats.record(0, LogLevel::Error, "a.log");
    stats.record(60, LogLevel::Error, "a.log");
    stats.record(61, LogLevel::Error, "a.log");
    stats.record(62, LogLevel::Warn, "b.log");
    let b = stats.bucket_at(1).bucket();
    assert_eq!(b.file_at(0).file(), "a.log");
    assert_eq!(b.file_at(0).count(LogLevel::Error), 2);
    assert_eq!(b.file_at(1).count(LogLevel::Warn), 1);
    stats.record(125, LogLevel::Info, "a.log");
    assert_eq!(stats.bucket_starts(), vec![60, 120]);
    assert_eq!(stats.bucket_at(0).bucket().file_at(0).count(LogLevel::Error), 2);
}

#[test]
fn report_starts_are_local_times() {
    let mut stats = Stats::new(60, 10);
    stats.record(0, LogLevel::Error, "a.log");
    let expected = chrono::TimeZone::timestamp_opt(&chrono::Local, 0, 0)
        .single()
        .unwrap()
        .format("%Y-%m-%dT%H:%M:%S%:z")
        .to_string();
    let csv = stats.to_csv();
    assert_eq!(csv.lines().nth(1).unwrap(), format!("{},a.log,error,1", expected));
    assert_eq!(stats.to_json().buckets[0].start, expected);
    let report = stats.render_report();
    assert!(report[0].contains(
        &chrono::TimeZone::timestamp_opt(&chrono::Local, 0, 0).single().unwrap().format("%Y-%m-%d %H:%M-%H:%M").to_string()
    ));
}

#[test]
fn colored_lines_show_the_painted_text_only_when_color_is_on() {
    let on = Output::new(false, true);
    assert_eq!(on.colored_line("ERROR: boom", LogLevel::Error, "P"), "P\n");
    assert_eq!(on.colored_line("plain", LogLevel::Other, "P"), "plain\n");
    let off = Output::new(false, false);
    assert_eq!(off.colored_line("ERROR: boom", LogLevel::Error, "P"), "ERROR: boom\n");

    let shown = on.echo("ERROR: boom", LogLevel::Error);
    assert!(
        shown == "\u{1b}[38;5;1mERROR: boom\u{1b}[39m\n" || shown == "\u{1b}[mERROR: boom\u{1b}[m\n",
        "shown was {shown:?}"
    );
}

#[test]
fn stamped_lines_carry_the_local_time() {
    let filter = LogFilter::new(vec![], vec![]).unwrap();
    let mut d = DisplayLoop::new(&settings(0, 0, true), filter, vec![]);
    let time = chrono::TimeZone::timestamp_opt(&chrono::Local, 90, 0)
        .single()
        .unwrap()
        .format("%Y-%m-%d %H:%M:%S")
        .to_string();
    assert_eq!(
        describe(&d.on_stamped_line("a.log", "x", 90)),
        vec![format!("log 1 Other [{time}] a.log: x")]
    );
}

#[test]
fn times_outside_the_calendar_fall_back_to_epoch_seconds() {
    let stats = Stats::new(60, 10);
    assert_eq!(stats.bucket_label(9_000_000_000_000_000), "9000000000000000");
    assert_eq!(stats.bucket_label(-9_000_000_000_000_000), "-9000000000000000");
    assert_ne!(stats.bucket_label(8_000_000_000_000), "8000000000000");
}

#[test]
fn bar_scales_past_the_full_width_when_a_bucket_exceeds_the_maximum() {
    let mut stats = Stats::new(60, 10);
    stats.record(0, LogLevel::Info, "a.log");
    stats.record(1, LogLevel::Info, "a.log");
    let bucket = stats.bucket_at(0).bucket();
    assert_eq!(stats.bar(bucket, 1), "░".repeat(64));
}

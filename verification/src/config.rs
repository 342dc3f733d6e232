//! Configuration file contents and how they combine with command-line
//! options into the settings of a run.

use vstd::prelude::*;
use crate::paths::{PathStyle, PathStyleError, parse_spec, opt_view};
use crate::text::{views, chars_of, seq_eq};

verus! {

/// The configuration file's contents. Every section may be left out.
pub struct Config {
    pub watch: Watch,
    pub display: Display,
    pub filters: Filters,
    pub history: HistoryConfig,
    pub output: OutputConfig,
    pub stats: StatsConfig,
}

/// The `[watch]` section: where to look and which files to follow.
pub struct Watch {
    pub directories: Vec<String>,
    pub file_pattern: String,
}

/// The `[display]` section.
pub struct Display {
    pub path_style: String,
}

/// The `[filters]` section: regular expressions a line must match, and
/// must not match, to be shown.
pub struct Filters {
    pub inclusions: Vec<String>,
    pub exclusions: Vec<String>,
}

/// Lines retained in memory for `/` search. `None` leaves the built-in default
/// in place, which lets the CLI tell "unset" apart from an explicit `0`.
pub struct HistoryConfig {
    pub limit: Option<usize>,
}

/// Optional export of displayed lines to a file.
pub struct OutputConfig {
    pub file: Option<String>,
    pub append: bool,
}

/// The `[stats]` section: bucket size in seconds and the exit-time report
/// file.
pub struct StatsConfig {
    pub interval: Option<i64>,
    pub out: Option<String>,
}

/// The file pattern used when none is configured.
pub fn default_file_pattern() -> (res: String)
    ensures
        res@ == "*.log"@,
{
    "*.log".to_owned()
}

/// The path style used when none is configured.
pub fn default_path_style() -> (res: String)
    ensures
        res@ == "relative"@,
{
    "relative".to_owned()
}

/// A copy of a list of strings.
fn copy_strings(v: &Vec<String>) -> (res: Vec<String>)
    ensures
        views(res@) == views(v@),
{
    let mut out: Vec<String> = Vec::new();
    let mut i: usize = 0;
    while i < v.len()
        invariant
            i <= v.len(),
            out@.len() == i,
            forall|k: int| 0 <= k < i ==> #[trigger] out@[k]@ == v@[k]@,
        decreases v.len() - i,
    {
        let s = v[i].clone();
        out.push(s);
        i += 1;
    }
    assert(views(out@) =~= views(v@));
    out
}

impl Default for Watch {
    fn default() -> (res: Watch)
        ensures
            res.directories@.len() == 0,
            res.file_pattern@ == "*.log"@,
    {
        Watch { directories: Vec::new(), file_pattern: default_file_pattern() }
    }
}

impl Default for Display {
    fn default() -> (res: Display)
        ensures
            res.path_style@ == "relative"@,
    {
        Display { path_style: default_path_style() }
    }
}

impl Default for Filters {
    fn default() -> (res: Filters)
        ensures
            res.inclusions@.len() == 0,
            res.exclusions@.len() == 0,
    {
        Filters { inclusions: Vec::new(), exclusions: Vec::new() }
    }
}

impl Default for HistoryConfig {
    fn default() -> (res: HistoryConfig)
        ensures
            res.limit is None,
    {
        HistoryConfig { limit: None }
    }
}

impl Default for OutputConfig {
    fn default() -> (res: OutputConfig)
        ensures
            res.file is None,
            !res.append,
    {
        OutputConfig { file: None, append: false }
    }
}

impl Default for StatsConfig {
    fn default() -> (res: StatsConfig)
        ensures
            res.interval is None,
            res.out is None,
    {
        StatsConfig { interval: None, out: None }
    }
}

impl Config {
    /// Every setting at its default.
    pub open spec fn is_default(&self) -> bool {
        &&& self.watch.directories@.len() == 0
        &&& self.watch.file_pattern@ == "*.log"@
        &&& self.display.path_style@ == "relative"@
        &&& self.filters.inclusions@.len() == 0
        &&& self.filters.exclusions@.len() == 0
        &&& self.history.limit is None
        &&& self.output.file is None
        &&& !self.output.append
        &&& self.stats.interval is None
        &&& self.stats.out is None
    }

    /// The configured watch directories.
    pub fn watch_directories(&self) -> (res: Vec<String>)
        ensures
            views(res@) == views(self.watch.directories@),
    {
        copy_strings(&self.watch.directories)
    }

    /// The configured file pattern, or `None` when it is the default
    /// `*.log`.
    pub fn file_pattern(&self) -> (res: Option<String>)
        ensures
            opt_view(res) == (if self.watch.file_pattern@ == "*.log"@ {
                None
            } else {
                Some(self.watch.file_pattern@)
            }),
    {
        let p = chars_of(self.watch.file_pattern.as_str());
        if seq_eq(&p, &chars_of("*.log")) {
            None
        } else {
            Some(self.watch.file_pattern.clone())
        }
    }
}

impl Default for Config {
    fn default() -> (res: Config)
        ensures
            res.is_default(),
    {
        Config {
            watch: Watch::default(),
            display: Display::default(),
            filters: Filters::default(),
            history: HistoryConfig::default(),
            output: OutputConfig::default(),
            stats: StatsConfig::default(),
        }
    }
}

// ---------------------------------------------------------------------------
// Settings of a run
// ---------------------------------------------------------------------------

/// Lines retained for `/` search when neither the command line nor the
/// configuration says.
pub const DEFAULT_HISTORY_LIMIT: usize = 10000;

/// Stats bucket size in seconds when neither the command line nor the
/// configuration says.
pub const DEFAULT_STATS_INTERVAL_SECS: i64 = 60;

/// Buckets the activity stats retain; at the default interval, well over a
/// day.
pub const STATS_MAX_BUCKETS: usize = 2000;

/// What the command line asked for.
pub struct CommandLine {
    pub directories: Vec<String>,
    pub full_paths: bool,
    pub inclusions: Vec<String>,
    pub exclusions: Vec<String>,
    pub before_context: usize,
    pub after_context: usize,
    pub context: Option<usize>,
    pub file_pattern: String,
    pub stdin: bool,
    pub output: Option<String>,
    pub append: bool,
    pub history: Option<usize>,
    pub stats_interval: Option<i64>,
    pub stats_out: Option<String>,
}

/// The settings of a run, after the command line and the configuration
/// have been combined.
pub struct Settings {
    pub path_style: PathStyle,
    pub before_context: usize,
    pub after_context: usize,
    pub history_limit: usize,
    pub output: Option<String>,
    pub append: bool,
    pub stats_interval: i64,
    pub stats_out: Option<String>,
    /// Directories to watch; empty when lines come from standard input.
    pub directories: Vec<String>,
    pub file_pattern: String,
    pub inclusions: Vec<String>,
    pub exclusions: Vec<String>,
}

/// Why the command line and the configuration do not make a run.
pub enum SettingsError {
    /// The configured `path_style` is not one of the documented values.
    PathStyle(PathStyleError),
    /// The stats interval is below one second.
    StatsInterval(i64),
    /// Watching files, but no directory was given.
    NoDirectories,
}

/// A context width: the flag's own value unless it is 0 and `-C` was given.
pub open spec fn context_spec(flag: usize, context: Option<usize>) -> usize {
    match context {
        Some(c) => if flag == 0 { c } else { flag },
        None => flag,
    }
}

/// The first of two options that is set.
pub open spec fn first_set<T>(a: Option<T>, b: Option<T>) -> Option<T> {
    match a {
        Some(x) => Some(x),
        None => b,
    }
}

/// The history limit: command line, then configuration, then the default.
pub open spec fn history_limit_spec(cli: &CommandLine, config: &Config) -> usize {
    match first_set(cli.history, config.history.limit) {
        Some(n) => n,
        None => DEFAULT_HISTORY_LIMIT,
    }
}

/// The stats interval: command line, then configuration, then the default.
pub open spec fn stats_interval_spec(cli: &CommandLine, config: &Config) -> i64 {
    match first_set(cli.stats_interval, config.stats.interval) {
        Some(n) => n,
        None => DEFAULT_STATS_INTERVAL_SECS,
    }
}

/// The path style asked for: `-P` wins, else the configured value.
pub open spec fn path_style_spec(cli: &CommandLine, config: &Config) -> Option<PathStyle> {
    if cli.full_paths {
        Some(PathStyle::Full)
    } else {
        parse_spec(config.display.path_style@)
    }
}

/// The directories to watch: none from standard input, else those of the
/// command line, or if it names none, those of the configuration.
pub open spec fn directories_spec(cli: &CommandLine, config: &Config) -> Seq<Seq<char>> {
    if cli.stdin {
        Seq::empty()
    } else if cli.directories@.len() > 0 {
        views(cli.directories@)
    } else {
        views(config.watch.directories@)
    }
}

/// The file pattern: the command line's unless it is the default, else the
/// configuration's.
pub open spec fn file_pattern_spec(cli: &CommandLine, config: &Config) -> Seq<char> {
    if cli.file_pattern@ != "*.log"@ {
        cli.file_pattern@
    } else {
        config.watch.file_pattern@
    }
}

/// The error the command line and configuration give, if any, in the order
/// they are checked.
pub open spec fn settings_error_spec(cli: &CommandLine, config: &Config) -> Option<SettingsError> {
    if path_style_spec(cli, config) is None {
        Some(SettingsError::PathStyle(PathStyleError { value: config.display.path_style }))
    } else if stats_interval_spec(cli, config) < 1 {
        Some(SettingsError::StatsInterval(stats_interval_spec(cli, config)))
    } else if !cli.stdin && directories_spec(cli, config).len() == 0 {
        Some(SettingsError::NoDirectories)
    } else {
        None
    }
}

/// The settings the command line and configuration give when no error
/// comes.
pub open spec fn settings_match(s: Settings, cli: &CommandLine, config: &Config) -> bool {
    &&& Some(s.path_style) == path_style_spec(cli, config)
    &&& s.before_context == context_spec(cli.before_context, cli.context)
    &&& s.after_context == context_spec(cli.after_context, cli.context)
    &&& s.history_limit == history_limit_spec(cli, config)
    &&& opt_view(s.output) == opt_view(first_set(cli.output, config.output.file))
    &&& s.append == (cli.append || config.output.append)
    &&& s.stats_interval == stats_interval_spec(cli, config)
    &&& opt_view(s.stats_out) == opt_view(first_set(cli.stats_out, config.stats.out))
    &&& views(s.directories@) == directories_spec(cli, config)
    &&& s.file_pattern@ == file_pattern_spec(cli, config)
    &&& views(s.inclusions@) == views(cli.inclusions@) + views(config.filters.inclusions@)
    &&& views(s.exclusions@) == views(cli.exclusions@) + views(config.filters.exclusions@)
}

/// The error matches the one that comes first.
pub open spec fn error_match(e: SettingsError, cli: &CommandLine, config: &Config) -> bool {
    match settings_error_spec(cli, config) {
        Some(SettingsError::PathStyle(p)) => e matches SettingsError::PathStyle(q) && q.value@ == p.value@,
        Some(SettingsError::StatsInterval(n)) => e matches SettingsError::StatsInterval(m) && m == n,
        Some(SettingsError::NoDirectories) => e matches SettingsError::NoDirectories,
        None => false,
    }
}

/// The strings of `a` followed by those of `b`.
fn concat_strings(a: Vec<String>, b: Vec<String>) -> (res: Vec<String>)
    ensures
        views(res@) == views(a@) + views(b@),
{
    let mut out = a;
    let mut rest = b;
    out.append(&mut rest);
    assert(views(out@) =~= views(a@) + views(b@));
    out
}

/// The first of two optional strings that is set.
fn first_string(a: Option<String>, b: Option<String>) -> (res: Option<String>)
    ensures
        opt_view(res) == opt_view(first_set(a, b)),
{
    match a {
        Some(x) => Some(x),
        None => b,
    }
}

/// A context width: the flag's own value unless it is 0 and `-C` was given.
fn context_width(flag: usize, context: Option<usize>) -> (res: usize)
    ensures
        res == context_spec(flag, context),
{
    match context {
        Some(c) => if flag == 0 {
            c
        } else {
            flag
        },
        None => flag,
    }
}

impl Settings {
    /// Combines the command line with the configuration. The command line
    /// wins; filters of both apply, the command line's first.
    pub fn resolve(cli: CommandLine, config: Config) -> (res: Result<Settings, SettingsError>)
        ensures
            match res {
                Ok(s) => settings_error_spec(&cli, &config) is None && settings_match(s, &cli, &config),
                Err(e) => error_match(e, &cli, &config),
            },
    {
        let path_style = if cli.full_paths {
            PathStyle::Full
        } else {
            match PathStyle::parse(config.display.path_style.as_str()) {
                Ok(p) => p,
                Err(e) => {
                    return Err(SettingsError::PathStyle(e));
                },
            }
        };
        let history_limit = match cli.history {
            Some(n) => n,
            None => match config.history.limit {
                Some(n) => n,
                None => DEFAULT_HISTORY_LIMIT,
            },
        };
        let stats_interval = match cli.stats_interval {
            Some(n) => n,
            None => match config.stats.interval {
                Some(n) => n,
                None => DEFAULT_STATS_INTERVAL_SECS,
            },
        };
        if stats_interval < 1 {
            return Err(SettingsError::StatsInterval(stats_interval));
        }
        let directories = if cli.stdin {
            Vec::new()
        } else if cli.directories.len() > 0 {
            cli.directories
        } else {
            config.watch.directories
        };
        if !cli.stdin && directories.len() == 0 {
            return Err(SettingsError::NoDirectories);
        }
        let file_pattern = if !seq_eq(&chars_of(cli.file_pattern.as_str()), &chars_of("*.log")) {
            cli.file_pattern
        } else {
            config.watch.file_pattern
        };
        let res = Settings {
            path_style,
            before_context: context_width(cli.before_context, cli.context),
            after_context: context_width(cli.after_context, cli.context),
            history_limit,
            output: first_string(cli.output, config.output.file),
            append: cli.append || config.output.append,
            stats_interval,
            stats_out: first_string(cli.stats_out, config.stats.out),
            directories,
            file_pattern,
            inclusions: concat_strings(cli.inclusions, config.filters.inclusions),
            exclusions: concat_strings(cli.exclusions, config.filters.exclusions),
        };
        if cli.stdin {
            assert(views(res.directories@) =~= Seq::<Seq<char>>::empty());
        }
        Ok(res)
    }

    /// The display loop's part of the settings.
    pub fn display_settings(&self, interactive: bool) -> (res: crate::display::DisplaySettings)
        ensures
            res.path_style == self.path_style,
            res.before_context == self.before_context,
            res.after_context == self.after_context,
            res.history_limit == self.history_limit,
            res.stats_interval == self.stats_interval,
            res.stats_max_buckets == STATS_MAX_BUCKETS,
            res.interactive == interactive,
    {
        crate::display::DisplaySettings {
            path_style: self.path_style,
            before_context: self.before_context,
            after_context: self.after_context,
            history_limit: self.history_limit,
            stats_interval: self.stats_interval,
            stats_max_buckets: STATS_MAX_BUCKETS,
            interactive,
        }
    }
}

/// The filters of a run are those of both sources, the command line's
/// first: every pattern given with `-i`/`-e` and every pattern of the
/// configuration's `[filters]` section is kept, in order, and nothing else
/// is added.
pub proof fn law_settings_keep_every_filter(s: Settings, cli: &CommandLine, config: &Config)
    requires
        settings_match(s, cli, config),
    ensures
        s.inclusions@.len() == cli.inclusions@.len() + config.filters.inclusions@.len(),
        s.exclusions@.len() == cli.exclusions@.len() + config.filters.exclusions@.len(),
        forall|i: int| 0 <= i < cli.inclusions@.len() ==> #[trigger] s.inclusions@[i]@ == cli.inclusions@[i]@,
        forall|j: int|
            0 <= j < config.filters.inclusions@.len() ==> s.inclusions@[cli.inclusions@.len() + j]@
                == #[trigger] config.filters.inclusions@[j]@,
        forall|i: int| 0 <= i < cli.exclusions@.len() ==> #[trigger] s.exclusions@[i]@ == cli.exclusions@[i]@,
        forall|j: int|
            0 <= j < config.filters.exclusions@.len() ==> s.exclusions@[cli.exclusions@.len() + j]@
                == #[trigger] config.filters.exclusions@[j]@,
{
    let si = views(s.inclusions@);
    let se = views(s.exclusions@);
    assert(si.len() == s.inclusions@.len());
    assert(se.len() == s.exclusions@.len());
    assert forall|i: int| 0 <= i < cli.inclusions@.len() implies #[trigger] s.inclusions@[i]@ == cli.inclusions@[i]@ by {
        assert(si[i] == s.inclusions@[i]@);
        assert(views(cli.inclusions@)[i] == cli.inclusions@[i]@);
    }
    assert forall|j: int| 0 <= j < config.filters.inclusions@.len() implies s.inclusions@[cli.inclusions@.len() + j]@
        == #[trigger] config.filters.inclusions@[j]@ by {
        assert(si[cli.inclusions@.len() + j] == s.inclusions@[cli.inclusions@.len() + j]@);
        assert(views(config.filters.inclusions@)[j] == config.filters.inclusions@[j]@);
    }
    assert forall|i: int| 0 <= i < cli.exclusions@.len() implies #[trigger] s.exclusions@[i]@ == cli.exclusions@[i]@ by {
        assert(se[i] == s.exclusions@[i]@);
        assert(views(cli.exclusions@)[i] == cli.exclusions@[i]@);
    }
    assert forall|j: int| 0 <= j < config.filters.exclusions@.len() implies s.exclusions@[cli.exclusions@.len() + j]@
        == #[trigger] config.filters.exclusions@[j]@ by {
        assert(se[cli.exclusions@.len() + j] == s.exclusions@[cli.exclusions@.len() + j]@);
        assert(views(config.filters.exclusions@)[j] == config.filters.exclusions@[j]@);
    }
}

/// The command line wins over the configuration file, which wins over the
/// built-in defaults: for the history limit (10000), the stats interval
/// (60 seconds), the export file and the stats report file; `--append`
/// from either source appends; `-P` forces full paths, else the configured
/// style is used; `-C` fills only the context sides left at 0; lines from
/// standard input watch no directory, else the command line's directories
/// are used when it names any; a file pattern other than `*.log` on the
/// command line wins.
pub proof fn law_settings_precedence(s: Settings, cli: &CommandLine, config: &Config)
    requires
        settings_match(s, cli, config),
    ensures
        cli.history matches Some(n) ==> s.history_limit == n,
        cli.history is None ==> (config.history.limit matches Some(n) ==> s.history_limit == n),
        cli.history is None && config.history.limit is None ==> s.history_limit == 10000,
        cli.stats_interval matches Some(n) ==> s.stats_interval == n,
        cli.stats_interval is None ==> (config.stats.interval matches Some(n) ==> s.stats_interval == n),
        cli.stats_interval is None && config.stats.interval is None ==> s.stats_interval == 60,
        cli.output matches Some(p) ==> (s.output matches Some(q) && q@ == p@),
        cli.output is None ==> opt_view(s.output) == opt_view(config.output.file),
        cli.stats_out matches Some(p) ==> (s.stats_out matches Some(q) && q@ == p@),
        cli.stats_out is None ==> opt_view(s.stats_out) == opt_view(config.stats.out),
        s.append == (cli.append || config.output.append),
        cli.full_paths ==> s.path_style == PathStyle::Full,
        !cli.full_paths && config.display.path_style@ == "full"@ ==> s.path_style == PathStyle::Full,
        !cli.full_paths && config.display.path_style@ == "relative"@ ==> s.path_style == PathStyle::Relative,
        !cli.full_paths && config.display.path_style@ == "filename"@ ==> s.path_style == PathStyle::Filename,
        cli.context is None ==> s.before_context == cli.before_context && s.after_context == cli.after_context,
        cli.context matches Some(c) ==> (s.before_context == (if cli.before_context == 0 { c } else { cli.before_context })
            && s.after_context == (if cli.after_context == 0 { c } else { cli.after_context })),
        cli.stdin ==> s.directories@.len() == 0,
        !cli.stdin && cli.directories@.len() > 0 ==> views(s.directories@) == views(cli.directories@),
        !cli.stdin && cli.directories@.len() == 0 ==> views(s.directories@) == views(config.watch.directories@),
        cli.file_pattern@ != "*.log"@ ==> s.file_pattern@ == cli.file_pattern@,
        cli.file_pattern@ == "*.log"@ ==> s.file_pattern@ == config.watch.file_pattern@,
{
    reveal_strlit("full");
    reveal_strlit("relative");
    reveal_strlit("filename");
    assert("full"@.len() == 4 && "relative"@.len() == 8 && "filename"@.len() == 8);
    assert("relative"@[0] != "filename"@[0]);
    assert("relative"@ != "full"@ && "filename"@ != "full"@ && "filename"@ != "relative"@);
    assert(views(s.directories@).len() == s.directories@.len());
}

/// When the command line and configuration make no run: an unknown
/// configured path style (unless `-P` overrides it) comes first, then a
/// stats interval below one second, then, when watching files, the lack
/// of any directory. Otherwise the settings come.
pub proof fn law_settings_errors(cli: &CommandLine, config: &Config)
    ensures
        ({
            let style_ok = cli.full_paths || config.display.path_style@ == "full"@ || config.display.path_style@
                == "relative"@ || config.display.path_style@ == "filename"@;
            let interval = match cli.stats_interval {
                Some(n) => n,
                None => match config.stats.interval {
                    Some(n) => n,
                    None => 60i64,
                },
            };
            let dirs = cli.directories@.len() > 0 || config.watch.directories@.len() > 0;
            &&& !style_ok ==> (settings_error_spec(cli, config) matches Some(SettingsError::PathStyle(e))
                && e.value@ == config.display.path_style@)
            &&& style_ok && interval < 1 ==> (settings_error_spec(cli, config) matches Some(
                SettingsError::StatsInterval(n),
            ) && n == interval)
            &&& style_ok && interval >= 1 && !cli.stdin && !dirs ==> (settings_error_spec(cli, config) matches Some(
                SettingsError::NoDirectories,
            ))
            &&& style_ok && interval >= 1 && (cli.stdin || dirs) ==> (settings_error_spec(cli, config) is None)
        }),
{
    reveal_strlit("full");
    reveal_strlit("relative");
    reveal_strlit("filename");
    assert(views(cli.directories@).len() == cli.directories@.len());
    assert(views(config.watch.directories@).len() == config.watch.directories@.len());
}

} // verus!

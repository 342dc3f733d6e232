//! Severity parsed out of a log line.

use vstd::prelude::*;
use crate::text::{ascii_upper_seq, contains, str_contains, to_ascii_upper};

verus! {

/// Number of severities; the width of a per-level count array.
pub const LEVEL_COUNT: usize = 6;

/// Severity parsed out of a log line. Retained alongside each history entry
/// so search results keep their coloring without re-parsing the message.
#[derive(Clone, Copy, Debug, PartialEq, Eq, Structural)]
pub enum LogLevel {
    Fatal,
    Error,
    Warn,
    Info,
    Debug,
    Other,
}

/// Terminal color of a severity.
#[derive(Clone, Copy, Debug, PartialEq, Eq, Structural)]
pub enum LevelColor {
    Red,
    DarkRed,
    Yellow,
    Blue,
    DarkGrey,
}

/// The severity a line is classified as: the first group, in the order
/// fatal, error, warn, info, debug, whose keyword occurs in the line with
/// ASCII letters upper-cased; `Other` when none does.
pub open spec fn detect_spec(line: Seq<char>) -> LogLevel {
    let u = ascii_upper_seq(line);
    if contains(u, "FATAL"@) || contains(u, "CRITICAL"@) || contains(u, "PANIC"@) {
        LogLevel::Fatal
    } else if contains(u, "ERROR"@) || contains(u, "ERR"@) {
        LogLevel::Error
    } else if contains(u, "WARN"@) || contains(u, "WARNING"@) {
        LogLevel::Warn
    } else if contains(u, "INFO"@) {
        LogLevel::Info
    } else if contains(u, "DEBUG"@) || contains(u, "TRACE"@) {
        LogLevel::Debug
    } else {
        LogLevel::Other
    }
}

/// Position of a severity in the fixed order fatal, error, warn, info,
/// debug, other.
pub open spec fn level_index(l: LogLevel) -> int {
    match l {
        LogLevel::Fatal => 0,
        LogLevel::Error => 1,
        LogLevel::Warn => 2,
        LogLevel::Info => 3,
        LogLevel::Debug => 4,
        LogLevel::Other => 5,
    }
}

/// The severity at position `i` of the fixed order.
pub open spec fn level_at(i: int) -> LogLevel {
    if i == 0 {
        LogLevel::Fatal
    } else if i == 1 {
        LogLevel::Error
    } else if i == 2 {
        LogLevel::Warn
    } else if i == 3 {
        LogLevel::Info
    } else if i == 4 {
        LogLevel::Debug
    } else {
        LogLevel::Other
    }
}

/// Lowercase label of a severity, used in stats reports.
pub open spec fn level_label(l: LogLevel) -> Seq<char> {
    match l {
        LogLevel::Fatal => "fatal"@,
        LogLevel::Error => "error"@,
        LogLevel::Warn => "warn"@,
        LogLevel::Info => "info"@,
        LogLevel::Debug => "debug"@,
        LogLevel::Other => "other"@,
    }
}

/// Color of a severity; unclassified lines have none.
pub open spec fn level_color(l: LogLevel) -> Option<LevelColor> {
    match l {
        LogLevel::Fatal => Some(LevelColor::Red),
        LogLevel::Error => Some(LevelColor::DarkRed),
        LogLevel::Warn => Some(LevelColor::Yellow),
        LogLevel::Info => Some(LevelColor::Blue),
        LogLevel::Debug => Some(LevelColor::DarkGrey),
        LogLevel::Other => None,
    }
}

impl LogLevel {
    /// Classifies a line by the severity keywords it contains, ignoring
    /// ASCII case.
    pub fn detect(line: &str) -> (res: LogLevel)
        ensures
            res == detect_spec(line@),
    {
        let upper = to_ascii_upper(line);
        if str_contains(&upper, "FATAL") || str_contains(&upper, "CRITICAL") || str_contains(
            &upper,
            "PANIC",
        ) {
            LogLevel::Fatal
        } else if str_contains(&upper, "ERROR") || str_contains(&upper, "ERR") {
            LogLevel::Error
        } else if str_contains(&upper, "WARN") || str_contains(&upper, "WARNING") {
            LogLevel::Warn
        } else if str_contains(&upper, "INFO") {
            LogLevel::Info
        } else if str_contains(&upper, "DEBUG") || str_contains(&upper, "TRACE") {
            LogLevel::Debug
        } else {
            LogLevel::Other
        }
    }

    /// The terminal color of this severity, if any.
    pub fn color(self) -> (res: Option<LevelColor>)
        ensures
            res == level_color(self),
    {
        match self {
            LogLevel::Fatal => Some(LevelColor::Red),
            LogLevel::Error => Some(LevelColor::DarkRed),
            LogLevel::Warn => Some(LevelColor::Yellow),
            LogLevel::Info => Some(LevelColor::Blue),
            LogLevel::Debug => Some(LevelColor::DarkGrey),
            LogLevel::Other => None,
        }
    }

    /// Position of this level in `all_levels`, for array indexing.
    pub fn index(self) -> (res: usize)
        ensures
            res == level_index(self),
            res < LEVEL_COUNT,
    {
        match self {
            LogLevel::Fatal => 0,
            LogLevel::Error => 1,
            LogLevel::Warn => 2,
            LogLevel::Info => 3,
            LogLevel::Debug => 4,
            LogLevel::Other => 5,
        }
    }

    /// Lowercase label used in stats reports (CSV/JSON columns).
    pub fn label(self) -> (res: &'static str)
        ensures
            res@ == level_label(self),
    {
        match self {
            LogLevel::Fatal => "fatal",
            LogLevel::Error => "error",
            LogLevel::Warn => "warn",
            LogLevel::Info => "info",
            LogLevel::Debug => "debug",
            LogLevel::Other => "other",
        }
    }
}

/// Every severity, in the fixed order used to index per-level counts.
pub fn all_levels() -> (res: [LogLevel; 6])
    ensures
        forall|i: int| 0 <= i < LEVEL_COUNT ==> #[trigger] res@[i] == level_at(i),
{
    [LogLevel::Fatal, LogLevel::Error, LogLevel::Warn, LogLevel::Info, LogLevel::Debug, LogLevel::Other]
}

/// Two characters equal ignoring ASCII case upper-case alike.
proof fn lemma_upper_of_same_lower(a: char, b: char)
    requires
        crate::text::ascii_lower(a) == crate::text::ascii_lower(b),
    ensures
        crate::text::ascii_upper(a) == crate::text::ascii_upper(b),
{
    let (x, y) = (a as u32, b as u32);
    if 'A' <= a && a <= 'Z' {
        assert((x + 32) as char == crate::text::ascii_lower(a));
    }
    if 'A' <= b && b <= 'Z' {
        assert((y + 32) as char == crate::text::ascii_lower(b));
    }
}

/// Severity detection ignores ASCII case: lines equal up to ASCII case are
/// classified alike.
pub proof fn law_detection_ignores_ascii_case(a: Seq<char>, b: Seq<char>)
    requires
        crate::text::eq_ignore_ascii_case(a, b),
    ensures
        detect_spec(a) == detect_spec(b),
{
    assert forall|i: int| 0 <= i < a.len() implies #[trigger] ascii_upper_seq(a)[i] == ascii_upper_seq(b)[i] by {
        lemma_upper_of_same_lower(a[i], b[i]);
    }
    assert(ascii_upper_seq(a) =~= ascii_upper_seq(b));
}

/// Severity keywords decide, most severe first: a line whose upper-cased
/// text holds `FATAL`, `CRITICAL` or `PANIC` is fatal; else one holding
/// `ERR` (so also `ERROR`) is an error; else one holding `WARN` (so also
/// `WARNING`) is a warning; else `INFO` makes it info; else `DEBUG` or
/// `TRACE` makes it debug; a line with none of these keywords is other.
pub proof fn law_detection_by_keyword(line: Seq<char>)
    ensures
        ({
            let u = ascii_upper_seq(line);
            let fatal = contains(u, "FATAL"@) || contains(u, "CRITICAL"@) || contains(u, "PANIC"@);
            let error = contains(u, "ERR"@);
            let warn = contains(u, "WARN"@);
            let info = contains(u, "INFO"@);
            let debug = contains(u, "DEBUG"@) || contains(u, "TRACE"@);
            &&& fatal ==> detect_spec(line) == LogLevel::Fatal
            &&& !fatal && error ==> detect_spec(line) == LogLevel::Error
            &&& !fatal && !error && warn ==> detect_spec(line) == LogLevel::Warn
            &&& !fatal && !error && !warn && info ==> detect_spec(line) == LogLevel::Info
            &&& !fatal && !error && !warn && !info && debug ==> detect_spec(line) == LogLevel::Debug
            &&& !fatal && !error && !warn && !info && !debug ==> detect_spec(line) == LogLevel::Other
        }),
{
    let u = ascii_upper_seq(line);
    reveal_strlit("ERR");
    reveal_strlit("ERROR");
    reveal_strlit("WARN");
    reveal_strlit("WARNING");
    assert("ERROR"@.take(3) =~= "ERR"@);
    assert("WARNING"@.take(4) =~= "WARN"@);
    lemma_contains_extends(u, "ERR"@, "ERROR"@);
    lemma_contains_extends(u, "WARN"@, "WARNING"@);
}

/// A text holding a word holds every prefix of that word.
proof fn lemma_contains_extends(u: Seq<char>, short: Seq<char>, long: Seq<char>)
    requires
        short.len() <= long.len(),
        long.take(short.len() as int) == short,
    ensures
        contains(u, long) ==> contains(u, short),
{
    if contains(u, long) {
        let i = choose|i: int| crate::text::occurs_at(u, long, i);
        assert(u.subrange(i, i + short.len()) =~= long.take(short.len() as int));
        assert(crate::text::occurs_at(u, short, i));
    }
}

} // verus!

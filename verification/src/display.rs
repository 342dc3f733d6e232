//! Decisions of the interactive display loop: what each incoming line,
//! notice, key press and end of stream makes the terminal (and the export
//! file) show, with `grep`-style leading and trailing context.

use vstd::prelude::*;
use std::collections::VecDeque;
use crate::history::{History, EntryModel, matching, HistoryEntry};
use crate::level::{LogLevel, detect_spec, level_index};
use crate::paths::{PathStyle, render_spec};
use crate::pattern::{regex_error_text, LogFilter, LinePattern, passes, regex_compiles};
use crate::stats::{Stats, StatsModel, stats_add, stats_total, keep_last, bucket_start};
use crate::text::{chars_of, string_of, push_chars, push_dec, dec, views};
use vstd::string::*;

verus! {

/// First line of the screen in interactive mode.
pub const BANNER: &'static str = "LogWatch - 'q' quit  'c' clear  'p' pause  '/' search  's' stats";

/// Separator under the banner.
pub const RULE: &'static str = "\u{2500}\u{2500}\u{2500}\u{2500}\u{2500}\u{2500}\u{2500}\u{2500}\u{2500}\u{2500}\u{2500}\u{2500}\u{2500}\u{2500}\u{2500}\u{2500}\u{2500}\u{2500}\u{2500}\u{2500}\u{2500}\u{2500}\u{2500}\u{2500}\u{2500}\u{2500}\u{2500}\u{2500}\u{2500}\u{2500}\u{2500}\u{2500}\u{2500}\u{2500}\u{2500}\u{2500}\u{2500}\u{2500}\u{2500}\u{2500}\u{2500}\u{2500}\u{2500}\u{2500}\u{2500}\u{2500}\u{2500}\u{2500}\u{2500}\u{2500}\u{2500}\u{2500}\u{2500}\u{2500}\u{2500}\u{2500}\u{2500}\u{2500}\u{2500}\u{2500}\u{2500}\u{2500}\u{2500}\u{2500}\u{2500}\u{2500}\u{2500}\u{2500}\u{2500}";

/// Most matches a single search replays, so a broad pattern cannot flood
/// the terminal with the entire history.
pub const SEARCH_RESULT_LIMIT: usize = 100;

/// What the terminal (and export file) should do.
pub enum Command {
    /// Terminal-only chrome: banners, `[INFO]` notices, search headers.
    Notice(String),
    /// A line of the live stream: terminal and export file.
    Log { line: u64, text: String, level: LogLevel },
    /// A replayed line: terminal only.
    Echo { text: String, level: LogLevel },
    /// Clear the screen and move to its top.
    ClearScreen,
    /// Flush the terminal and export file.
    Flush,
    /// Read a search pattern at the `/` prompt.
    Prompt,
    /// Show the activity-stats histogram.
    ShowStats,
    /// Leave the loop.
    Stop,
}

/// A command as a model.
pub ghost enum CommandModel {
    Notice(Seq<char>),
    Log(int, Seq<char>, LogLevel),
    Echo(Seq<char>, LogLevel),
    ClearScreen,
    Flush,
    Prompt,
    ShowStats,
    Stop,
}

/// The model of a command.
pub open spec fn command_model(c: Command) -> CommandModel {
    match c {
        Command::Notice(s) => CommandModel::Notice(s@),
        Command::Log { line, text, level } => CommandModel::Log(line as int, text@, level),
        Command::Echo { text, level } => CommandModel::Echo(text@, level),
        Command::ClearScreen => CommandModel::ClearScreen,
        Command::Flush => CommandModel::Flush,
        Command::Prompt => CommandModel::Prompt,
        Command::ShowStats => CommandModel::ShowStats,
        Command::Stop => CommandModel::Stop,
    }
}

/// The models of a list of commands.
pub open spec fn commands_model(v: Seq<Command>) -> Seq<CommandModel> {
    v.map_values(|c: Command| command_model(c))
}

/// A key of the terminal, as far as the loop cares.
#[derive(Clone, Copy, Debug, PartialEq, Eq, Structural)]
pub enum KeyCode {
    Char(char),
    Enter,
    Esc,
    Backspace,
    Other,
}

/// A key press, with whether Control was held.
#[derive(Clone, Copy, Debug, PartialEq, Eq, Structural)]
pub struct KeyPress {
    pub code: KeyCode,
    /// Control was held.
    pub control: bool,
    /// A modifier other than Control was held.
    pub other_modifiers: bool,
}

/// A remembered line for leading context: its number, text and severity.
pub type ContextModel = (int, Seq<char>, LogLevel);

/// The remembered lines that have not been shown yet (their number is past
/// `last`), in order.
pub open spec fn unprinted(prev: Seq<ContextModel>, last: int) -> Seq<ContextModel>
    decreases prev.len(),
{
    if prev.len() == 0 {
        prev
    } else {
        let r = unprinted(prev.drop_last(), last);
        if prev.last().0 > last {
            r.push(prev.last())
        } else {
            r
        }
    }
}

/// The log commands that show remembered lines.
pub open spec fn context_logs(c: Seq<ContextModel>) -> Seq<CommandModel> {
    c.map_values(|e: ContextModel| CommandModel::Log(e.0, e.1, e.2))
}

/// A line as the stream shows it: `[time] path: line`.
pub open spec fn render_line_spec(time: Seq<char>, path: Seq<char>, line: Seq<char>) -> Seq<char> {
    seq!['['] + time + seq![']', ' '] + path + seq![':', ' '] + line
}

/// One line taken by the loop: `post` and the commands `res` are what
/// taking `line` from `path`, seen at `epoch` seconds and stamped `time`,
/// makes of `pre`.
pub open spec fn line_step(
    pre: DisplayLoop,
    post: DisplayLoop,
    res: Seq<CommandModel>,
    path: Seq<char>,
    line: Seq<char>,
    epoch: int,
    time: Seq<char>,
) -> bool {
    let n = pre.lines_seen() + 1;
    let shown_path = render_spec(pre.style(), path, pre.roots());
    let rendered = render_line_spec(time, shown_path, line);
    let level = detect_spec(line);
    let me = CommandModel::Log(n, rendered, level);
    &&& post.lines_seen() == n
    &&& post.history_model() == if pre.history_capacity() == 0 {
        pre.history_model()
    } else {
        keep_last(pre.history_model().push((rendered, level)), pre.history_capacity())
    }
    &&& post.stats_model() == keep_last(
        stats_add(pre.stats_model(), bucket_start(epoch, pre.stats_interval()), level_index(level), shown_path),
        pre.stats_capacity(),
    )
    &&& post.previous() == if pre.before() > 0 {
        keep_last(pre.previous().push((n, rendered, level)), pre.before())
    } else {
        pre.previous()
    }
    &&& if passes(pre.inclusions(), pre.exclusions(), line) {
        &&& res == context_logs(unprinted(pre.previous(), pre.last_printed())).push(me)
        &&& post.last_printed() == n
        &&& post.trailing() == pre.after()
    } else if pre.trailing() > 0 {
        &&& res == seq![me]
        &&& post.last_printed() == n
        &&& post.trailing() == pre.trailing() - 1
    } else {
        &&& res == Seq::<CommandModel>::empty()
        &&& post.last_printed() == pre.last_printed()
        &&& post.trailing() == 0
    }
}

/// Line numbers of remembered lines increase strictly.
pub open spec fn numbers_increase(prev: Seq<ContextModel>) -> bool {
    forall|i: int, j: int| 0 <= i < j < prev.len() ==> prev[i].0 < prev[j].0
}

/// How the display loop is set up.
pub struct DisplaySettings {
    pub path_style: PathStyle,
    pub before_context: usize,
    pub after_context: usize,
    pub history_limit: usize,
    pub stats_interval: i64,
    pub stats_max_buckets: usize,
    pub interactive: bool,
}

/// State of the display loop.
pub struct DisplayLoop {
    history: History,
    stats: Stats,
    filter: LogFilter,
    watch_roots: Vec<String>,
    path_style: PathStyle,
    before_context: usize,
    after_context: usize,
    interactive: bool,
    paused: bool,
    stream_ended: bool,
    line_number: u64,
    last_printed_line: u64,
    trailing_context_remaining: usize,
    previous_lines: VecDeque<(u64, String, LogLevel)>,
}

impl DisplayLoop {
    pub closed spec fn history_model(&self) -> Seq<EntryModel> {
        self.history.model()
    }

    pub closed spec fn history_capacity(&self) -> nat {
        self.history.capacity()
    }

    pub closed spec fn stats_model(&self) -> StatsModel {
        self.stats.model()
    }

    pub closed spec fn stats_interval(&self) -> int {
        self.stats.interval()
    }

    pub closed spec fn stats_capacity(&self) -> nat {
        self.stats.capacity()
    }

    pub closed spec fn inclusions(&self) -> Seq<Seq<char>> {
        self.filter.inclusion_sources()
    }

    pub closed spec fn exclusions(&self) -> Seq<Seq<char>> {
        self.filter.exclusion_sources()
    }

    pub closed spec fn roots(&self) -> Seq<Seq<char>> {
        views(self.watch_roots@)
    }

    pub closed spec fn style(&self) -> PathStyle {
        self.path_style
    }

    pub closed spec fn before(&self) -> nat {
        self.before_context as nat
    }

    pub closed spec fn after(&self) -> nat {
        self.after_context as nat
    }

    pub closed spec fn is_interactive(&self) -> bool {
        self.interactive
    }

    pub closed spec fn is_paused(&self) -> bool {
        self.paused
    }

    pub closed spec fn has_ended(&self) -> bool {
        self.stream_ended
    }

    /// Lines received so far.
    pub closed spec fn lines_seen(&self) -> int {
        self.line_number as int
    }

    /// Number of the last line shown (0 before any).
    pub closed spec fn last_printed(&self) -> int {
        self.last_printed_line as int
    }

    /// Lines still to show after the last match.
    pub closed spec fn trailing(&self) -> nat {
        self.trailing_context_remaining as nat
    }

    /// The last lines remembered for leading context.
    pub closed spec fn previous(&self) -> Seq<ContextModel> {
        self.previous_lines@.map_values(|e: (u64, String, LogLevel)| (e.0 as int, e.1@, e.2))
    }

    /// Everything but the pause and end-of-stream flags is the same in both.
    pub open spec fn same_content(&self, o: &Self) -> bool {
        &&& self.history_model() == o.history_model()
        &&& self.history_capacity() == o.history_capacity()
        &&& self.stats_model() == o.stats_model()
        &&& self.stats_interval() == o.stats_interval()
        &&& self.stats_capacity() == o.stats_capacity()
        &&& self.inclusions() == o.inclusions()
        &&& self.exclusions() == o.exclusions()
        &&& self.roots() == o.roots()
        &&& self.style() == o.style()
        &&& self.before() == o.before()
        &&& self.after() == o.after()
        &&& self.lines_seen() == o.lines_seen()
        &&& self.last_printed() == o.last_printed()
        &&& self.trailing() == o.trailing()
        &&& self.previous() == o.previous()
    }

    /// Internal consistency: history and stats are well formed, the shown
    /// line number never passes the received one, and remembered lines are
    /// numbered increasingly, all already received, at most `before` of
    /// them.
    pub open spec fn wf(&self) -> bool {
        &&& self.history_model().len() <= self.history_capacity()
        &&& self.stats_interval() >= 1
        &&& self.stats_capacity() >= 1
        &&& self.stats_model().len() <= self.stats_capacity()
        &&& crate::stats::stats_sorted(self.stats_model())
        &&& stats_total(self.stats_model()) <= u64::MAX
        &&& self.last_printed() <= self.lines_seen()
        &&& numbers_increase(self.previous())
        &&& forall|i: int| 0 <= i < self.previous().len() ==> #[trigger] self.previous()[i].0 <= self.lines_seen()
        &&& self.previous().len() <= self.before()
    }

    /// A loop that has seen nothing yet.
    pub fn new(settings: &DisplaySettings, filter: LogFilter, watch_roots: Vec<String>) -> (res: DisplayLoop)
        ensures
            res.wf(),
            res.lines_seen() == 0,
            res.last_printed() == 0,
            res.trailing() == 0,
            res.previous() == Seq::<ContextModel>::empty(),
            res.history_model() == Seq::<EntryModel>::empty(),
            res.history_capacity() == settings.history_limit,
            res.stats_model() == Seq::<(int, crate::stats::BucketModel)>::empty(),
            res.stats_interval() == if settings.stats_interval >= 1 { settings.stats_interval as int } else { 1 },
            res.stats_capacity() == if settings.stats_max_buckets >= 1 { settings.stats_max_buckets as nat } else { 1 },
            res.inclusions() == filter.inclusion_sources(),
            res.exclusions() == filter.exclusion_sources(),
            res.roots() == views(watch_roots@),
            res.style() == settings.path_style,
            res.before() == settings.before_context,
            res.after() == settings.after_context,
            res.is_interactive() == settings.interactive,
            !res.is_paused(),
            !res.has_ended(),
    {
        let res = DisplayLoop {
            history: History::new(settings.history_limit),
            stats: Stats::new(settings.stats_interval, settings.stats_max_buckets),
            filter,
            watch_roots,
            path_style: settings.path_style,
            before_context: settings.before_context,
            after_context: settings.after_context,
            interactive: settings.interactive,
            paused: false,
            stream_ended: false,
            line_number: 0,
            last_printed_line: 0,
            trailing_context_remaining: 0,
            previous_lines: VecDeque::new(),
        };
        assert(res.previous() =~= Seq::<ContextModel>::empty());
        res
    }

    /// The retained history.
    pub fn history(&self) -> (res: &History)
        ensures
            res.model() == self.history_model(),
            res.capacity() == self.history_capacity(),
    {
        &self.history
    }

    /// The activity statistics.
    pub fn stats(&self) -> (res: &Stats)
        ensures
            res.model() == self.stats_model(),
            res.interval() == self.stats_interval(),
            res.capacity() == self.stats_capacity(),
    {
        &self.stats
    }

    /// Whether the loop should take the next message from the stream: not
    /// while paused (lines queue up instead), and not after the stream
    /// ended.
    pub fn wants_messages(&self) -> (res: bool)
        ensures
            res == (!self.is_paused() && !self.has_ended()),
    {
        !self.paused && !self.stream_ended
    }

    /// Whether a line seen at `epoch` seconds can be taken without a counter
    /// overflowing.
    pub fn can_take_line(&self, epoch: i64) -> (res: bool)
        requires
            self.wf(),
        ensures
            res == (self.lines_seen() < u64::MAX && stats_total(self.stats_model()) < u64::MAX
                && bucket_start(epoch as int, self.stats_interval()) >= i64::MIN),
    {
        self.line_number < u64::MAX && self.stats.total_lines() < u64::MAX && self.stats.key_fits(epoch)
    }

    /// Takes one line of the stream from `path`, seen at `epoch` seconds and
    /// rendered with the time text `time`. Every line is retained in the
    /// history and counted in the stats, shown or not. A line that passes
    /// the filter is shown with the not yet shown lines remembered before
    /// it; a line that does not is shown only while trailing context after
    /// a match remains.
    pub fn on_line(&mut self, path: &str, line: &str, epoch: i64, time: &str) -> (res: Vec<Command>)
        requires
            old(self).wf(),
            old(self).lines_seen() < u64::MAX,
            stats_total(old(self).stats_model()) < u64::MAX,
            bucket_start(epoch as int, old(self).stats_interval()) >= i64::MIN,
        ensures
            final(self).wf(),
            line_step(*old(self), *final(self), commands_model(res@), path@, line@, epoch as int, time@),
            final(self).style() == old(self).style(),
            final(self).roots() == old(self).roots(),
            final(self).inclusions() == old(self).inclusions(),
            final(self).exclusions() == old(self).exclusions(),
            final(self).before() == old(self).before(),
            final(self).after() == old(self).after(),
            final(self).history_capacity() == old(self).history_capacity(),
            final(self).stats_interval() == old(self).stats_interval(),
            final(self).stats_capacity() == old(self).stats_capacity(),
            final(self).is_interactive() == old(self).is_interactive(),
            final(self).is_paused() == old(self).is_paused(),
            final(self).has_ended() == old(self).has_ended(),
    {
        self.line_number = self.line_number + 1;
        let n = self.line_number;
        let shown_path = self.path_style.render(path, self.watch_roots.as_slice());
        let rendered = render_line(time, shown_path.as_str(), line);
        let level = LogLevel::detect(line);

        self.history.push(rendered.as_str(), level);
        self.stats.record(epoch, level, shown_path.as_str());

        let ghost prev = self.previous();
        let ghost last0 = self.last_printed();
        let ghost trail0 = self.trailing();
        let mut out: Vec<Command> = Vec::new();
        if self.filter.matches(line) {
            out = self.emit_context(n);
            out.push(Command::Log { line: n, text: rendered.clone(), level });
            self.last_printed_line = n;
            self.trailing_context_remaining = self.after_context;
        } else if self.trailing_context_remaining > 0 {
            out.push(Command::Log { line: n, text: rendered.clone(), level });
            self.last_printed_line = n;
            self.trailing_context_remaining = self.trailing_context_remaining - 1;
        }
        proof {
            let me = CommandModel::Log(n as int, rendered@, level);
            assert(commands_model(out@) =~= if passes(self.inclusions(), self.exclusions(), line@) {
                context_logs(unprinted(prev, last0)).push(me)
            } else if trail0 > 0 {
                seq![me]
            } else {
                Seq::<CommandModel>::empty()
            });
        }
        self.remember(n, rendered, level);
        out
    }
}

impl DisplayLoop {
    /// Shows the remembered lines that have not been shown yet, in order,
    /// ahead of line `n`.
    fn emit_context(&mut self, n: u64) -> (res: Vec<Command>)
        requires
            old(self).wf(),
            old(self).lines_seen() == n,
            n >= 1,
            forall|j: int| 0 <= j < old(self).previous().len() ==> #[trigger] old(self).previous()[j].0 < n,
            old(self).last_printed() < n,
        ensures
            commands_model(res@) == context_logs(unprinted(old(self).previous(), old(self).last_printed())),
            final(self).last_printed() < n,
            old(self).last_printed() <= final(self).last_printed(),
            final(self).previous() == old(self).previous(),
            final(self).lines_seen() == old(self).lines_seen(),
            final(self).trailing() == old(self).trailing(),
            *final(self) == (DisplayLoop { last_printed_line: final(self).last_printed_line, ..*old(self) }),
    {
        let ghost prev = self.previous();
        let ghost last0 = self.last_printed();
        let mut out: Vec<Command> = Vec::new();
        let mut i: usize = 0;
        assert(prev.take(0) =~= Seq::<ContextModel>::empty());
        while i < self.previous_lines.len()
            invariant
                prev == self.previous(),
                i <= self.previous_lines.len(),
                numbers_increase(prev),
                last0 <= self.last_printed_line < n,
                forall|j: int| 0 <= j < prev.len() ==> #[trigger] prev[j].0 < n,
                commands_model(out@) == context_logs(unprinted(prev.take(i as int), last0)),
                self.last_printed_line == if unprinted(prev.take(i as int), last0).len() == 0 {
                    last0
                } else {
                    unprinted(prev.take(i as int), last0).last().0
                },
                *self == (DisplayLoop { last_printed_line: self.last_printed_line, ..*old(self) }),
            decreases self.previous_lines.len() - i,
        {
            let entry = &self.previous_lines[i];
            let ghost t = prev.take(i as int);
            let ghost t1 = prev.take(i + 1);
            assert(prev[i as int] == (entry.0 as int, entry.1@, entry.2));
            assert(t1.drop_last() =~= t);
            assert(t1.last() == prev[i as int]);
            proof {
                assert(numbers_increase(t));
                lemma_unprinted_bounds(t, last0);
                if unprinted(t, last0).len() > 0 {
                    assert(t.last() == prev[i - 1]);
                }
            }
            if entry.0 > self.last_printed_line {
                let text = entry.1.clone();
                let num = entry.0;
                let lvl = entry.2;
                let ghost tv = text@;
                let ghost before = commands_model(out@);
                assert(tv == prev[i as int].1);
                out.push(Command::Log { line: num, text, level: lvl });
                self.last_printed_line = num;
                assert(commands_model(out@) =~= before.push(CommandModel::Log(num as int, tv, lvl)));
                assert(context_logs(unprinted(t, last0).push(prev[i as int])) =~= context_logs(unprinted(t, last0)).push(CommandModel::Log(num as int, tv, lvl)));
                assert(unprinted(t1, last0) == unprinted(t, last0).push(prev[i as int]));
                assert(commands_model(out@) =~= context_logs(unprinted(t1, last0)));
            } else {
                assert(unprinted(t1, last0) == unprinted(t, last0));
            }
            i += 1;
        }
        assert(prev.take(prev.len() as int) =~= prev);
        out
    }

    /// Remembers line `n` for leading context, keeping the last
    /// `before_context` lines.
    fn remember(&mut self, n: u64, rendered: String, level: LogLevel)
        requires
            forall|j: int| 0 <= j < old(self).previous().len() ==> #[trigger] old(self).previous()[j].0 < n,
            numbers_increase(old(self).previous()),
            old(self).previous().len() <= old(self).before(),
        ensures
            final(self).previous() == if old(self).before() > 0 {
                keep_last(old(self).previous().push((n as int, rendered@, level)), old(self).before())
            } else {
                old(self).previous()
            },
            numbers_increase(final(self).previous()),
            forall|j: int| 0 <= j < final(self).previous().len() ==> #[trigger] final(self).previous()[j].0 <= n,
            final(self).previous().len() <= final(self).before(),
            *final(self) == (DisplayLoop { previous_lines: final(self).previous_lines, ..*old(self) }),
    {
        let ghost prev = self.previous();
        if self.before_context > 0 {
            let ghost p = prev.push((n as int, rendered@, level));
            self.previous_lines.push_back((n, rendered, level));
            assert(self.previous() =~= p);
            if self.previous_lines.len() > self.before_context {
                self.previous_lines.pop_front();
                assert(self.previous() =~= p.skip(1));
            }
            assert(self.previous() =~= keep_last(p, self.before_context as nat));
            assert(numbers_increase(p));
        }
    }
}

/// Bounds on the unprinted lines of an increasing list: all are past
/// `last`, numbered increasingly, and the last of them is the last of the
/// list.
proof fn lemma_unprinted_bounds(prev: Seq<ContextModel>, last: int)
    requires
        numbers_increase(prev),
    ensures
        forall|k: int| 0 <= k < unprinted(prev, last).len() ==> #[trigger] unprinted(prev, last)[k].0 > last,
        unprinted(prev, last).len() > 0 ==> unprinted(prev, last).last() == prev.last(),
        unprinted(prev, last).len() <= prev.len(),
    decreases prev.len(),
{
    if prev.len() > 0 {
        let t = prev.drop_last();
        assert(numbers_increase(t));
        lemma_unprinted_bounds(t, last);
        if prev.last().0 <= last && unprinted(t, last).len() > 0 {
            assert(t.last().0 < prev.last().0);
            assert(unprinted(t, last).last().0 > last);
        }
    }
}

impl DisplayLoop {
    /// Takes one line of the stream from `path`, seen at `epoch` seconds,
    /// stamped with that instant's local time as `%Y-%m-%d %H:%M:%S` (or
    /// with the epoch seconds when that local time does not exist), as
    /// `on_line` does.
    pub fn on_stamped_line(&mut self, path: &str, line: &str, epoch: i64) -> (res: Vec<Command>)
        requires
            old(self).wf(),
            old(self).lines_seen() < u64::MAX,
            stats_total(old(self).stats_model()) < u64::MAX,
            bucket_start(epoch as int, old(self).stats_interval()) >= i64::MIN,
        ensures
            final(self).wf(),
            exists|time: Seq<char>|
                crate::report::time_or_epoch("%Y-%m-%d %H:%M:%S"@, epoch as int, time) && #[trigger] line_step(
                    *old(self),
                    *final(self),
                    commands_model(res@),
                    path@,
                    line@,
                    epoch as int,
                    time,
                ),
            final(self).style() == old(self).style(),
            final(self).roots() == old(self).roots(),
            final(self).inclusions() == old(self).inclusions(),
            final(self).exclusions() == old(self).exclusions(),
            final(self).before() == old(self).before(),
            final(self).after() == old(self).after(),
            final(self).history_capacity() == old(self).history_capacity(),
            final(self).stats_interval() == old(self).stats_interval(),
            final(self).stats_capacity() == old(self).stats_capacity(),
            final(self).is_interactive() == old(self).is_interactive(),
            final(self).is_paused() == old(self).is_paused(),
            final(self).has_ended() == old(self).has_ended(),
    {
        let time = crate::report::local_text_or_key(epoch, "%Y-%m-%d %H:%M:%S");
        self.on_line(path, line, epoch, time.as_str())
    }
}

/// A line as the stream shows it: `[time] path: line`.
pub fn render_line(time: &str, path: &str, line: &str) -> (res: String)
    ensures
        res@ == render_line_spec(time@, path@, line@),
{
    let mut s = String::new();
    crate::text::push_char(&mut s, '[');
    push_chars(&mut s, &chars_of(time));
    crate::text::push_char(&mut s, ']');
    crate::text::push_char(&mut s, ' ');
    push_chars(&mut s, &chars_of(path));
    crate::text::push_char(&mut s, ':');
    crate::text::push_char(&mut s, ' ');
    push_chars(&mut s, &chars_of(line));
    assert(s@ =~= render_line_spec(time@, path@, line@));
    s
}


// ---------------------------------------------------------------------------
// Keys, notices and the end of the stream
// ---------------------------------------------------------------------------

/// Notice shown when pausing.
pub open spec fn paused_notice() -> Seq<char> {
    "-- PAUSED - incoming lines are buffered --"@
}

/// Notice shown when resuming.
pub open spec fn resumed_notice() -> Seq<char> {
    "-- RESUMED --"@
}

/// Notice shown when the stream ends on a terminal.
pub open spec fn ended_notice() -> Seq<char> {
    "-- input stream ended, history still searchable, press 'q' to quit --"@
}

/// What a key press does in the main loop.
pub open spec fn key_commands(key: KeyPress, paused: bool) -> Seq<CommandModel> {
    let only_control = key.control && !key.other_modifiers;
    match key.code {
        KeyCode::Char(c) => if c == 'q' || (c == 'c' && only_control) {
            seq![CommandModel::Stop]
        } else if c == 'c' {
            seq![CommandModel::ClearScreen, CommandModel::Notice(BANNER@), CommandModel::Notice(RULE@)]
        } else if c == 'p' {
            if paused {
                seq![CommandModel::Notice(resumed_notice())]
            } else {
                seq![CommandModel::Notice(paused_notice())]
            }
        } else if c == '/' {
            seq![CommandModel::Prompt]
        } else if c == 's' {
            seq![CommandModel::ShowStats]
        } else {
            Seq::empty()
        },
        _ => Seq::empty(),
    }
}

impl DisplayLoop {
    /// Handles a key press: `q` or Ctrl-C stops, `c` clears the screen, `p`
    /// toggles pausing, `/` asks for a search pattern, `s` shows the stats.
    pub fn on_key(&mut self, key: KeyPress) -> (res: Vec<Command>)
        ensures
            commands_model(res@) == key_commands(key, old(self).is_paused()),
            final(self).is_paused() == if key.code == KeyCode::Char('p') {
                !old(self).is_paused()
            } else {
                old(self).is_paused()
            },
            final(self).same_content(old(self)),
            final(self).has_ended() == old(self).has_ended(),
            final(self).is_interactive() == old(self).is_interactive(),
    {
        let mut out: Vec<Command> = Vec::new();
        let only_control = key.control && !key.other_modifiers;
        match key.code {
            KeyCode::Char(c) => {
                if c == 'q' || (c == 'c' && only_control) {
                    out.push(Command::Stop);
                } else if c == 'c' {
                    out.push(Command::ClearScreen);
                    out.push(Command::Notice(BANNER.to_owned()));
                    out.push(Command::Notice(RULE.to_owned()));
                } else if c == 'p' {
                    self.paused = !self.paused;
                    if self.paused {
                        out.push(Command::Notice("-- PAUSED - incoming lines are buffered --".to_owned()));
                    } else {
                        out.push(Command::Notice("-- RESUMED --".to_owned()));
                    }
                } else if c == '/' {
                    out.push(Command::Prompt);
                } else if c == 's' {
                    out.push(Command::ShowStats);
                }
            },
            _ => {},
        }
        assert(commands_model(out@) =~= key_commands(key, old(self).is_paused()));
        out
    }

    /// An informational message of the producer: shown as a notice.
    pub fn on_info(&self, info: &str) -> (res: Vec<Command>)
        ensures
            commands_model(res@) == seq![CommandModel::Notice("[INFO] "@ + info@)],
    {
        let mut s = "[INFO] ".to_owned();
        s.append(info);
        let mut out: Vec<Command> = Vec::new();
        out.push(Command::Notice(s));
        assert(commands_model(out@) =~= seq![CommandModel::Notice("[INFO] "@ + info@)]);
        out
    }

    /// The stream went quiet: flush so followers of the export file see
    /// data promptly.
    pub fn on_timeout(&self) -> (res: Vec<Command>)
        ensures
            commands_model(res@) == seq![CommandModel::Flush],
    {
        let mut out: Vec<Command> = Vec::new();
        out.push(Command::Flush);
        assert(commands_model(out@) =~= seq![CommandModel::Flush]);
        out
    }

    /// The producer is gone. Without a terminal there is nobody to search
    /// the history, so the loop stops; on a terminal it keeps serving keys.
    pub fn on_disconnected(&mut self) -> (res: Vec<Command>)
        ensures
            commands_model(res@) == if old(self).is_interactive() {
                seq![CommandModel::Flush, CommandModel::Notice(ended_notice())]
            } else {
                seq![CommandModel::Flush, CommandModel::Stop]
            },
            final(self).has_ended() == (old(self).has_ended() || old(self).is_interactive()),
            final(self).same_content(old(self)),
            final(self).is_paused() == old(self).is_paused(),
            final(self).is_interactive() == old(self).is_interactive(),
    {
        let mut out: Vec<Command> = Vec::new();
        out.push(Command::Flush);
        if !self.interactive {
            out.push(Command::Stop);
        } else {
            out.push(Command::Notice("-- input stream ended, history still searchable, press 'q' to quit --".to_owned()));
            self.stream_ended = true;
        }
        assert(commands_model(out@) =~= if old(self).is_interactive() {
            seq![CommandModel::Flush, CommandModel::Notice(ended_notice())]
        } else {
            seq![CommandModel::Flush, CommandModel::Stop]
        });
        out
    }

    /// Ctrl-C or SIGTERM arrived: leave the loop so stats and output flush
    /// on the way out.
    pub fn on_shutdown(&self) -> (res: Vec<Command>)
        ensures
            commands_model(res@) == if self.is_interactive() {
                seq![CommandModel::Notice("-- shutting down --"@), CommandModel::Stop]
            } else {
                seq![CommandModel::Stop]
            },
    {
        let mut out: Vec<Command> = Vec::new();
        if self.interactive {
            out.push(Command::Notice("-- shutting down --".to_owned()));
        }
        out.push(Command::Stop);
        assert(commands_model(out@) =~= if self.is_interactive() {
            seq![CommandModel::Notice("-- shutting down --"@), CommandModel::Stop]
        } else {
            seq![CommandModel::Stop]
        });
        out
    }
}

/// What the screen shows before the stream starts.
pub open spec fn startup_spec(interactive: bool, output: Option<Seq<char>>, append: bool) -> Seq<CommandModel> {
    let head = if interactive {
        seq![CommandModel::ClearScreen, CommandModel::Notice(BANNER@)]
    } else {
        seq![CommandModel::Notice("LogWatch - non-interactive mode (no terminal attached)"@)]
    };
    let with_rule = head.push(CommandModel::Notice(RULE@));
    match output {
        Some(p) => with_rule.push(CommandModel::Notice(
            "[INFO] "@ + (if append { "appending"@ } else { "writing"@ }) + " output to: "@ + p,
        )),
        None => with_rule,
    }
}

/// The commands that open the display: the banner (after clearing the
/// screen) on a terminal, a plain header otherwise, the rule, and where the
/// export file goes, if anywhere.
pub fn startup_commands(interactive: bool, output: Option<&str>, append: bool) -> (res: Vec<Command>)
    ensures
        commands_model(res@) == startup_spec(interactive, match output { Some(p) => Some(p@), None => None }, append),
{
    let mut out: Vec<Command> = Vec::new();
    if interactive {
        out.push(Command::ClearScreen);
        out.push(Command::Notice(BANNER.to_owned()));
    } else {
        out.push(Command::Notice("LogWatch - non-interactive mode (no terminal attached)".to_owned()));
    }
    out.push(Command::Notice(RULE.to_owned()));
    match output {
        Some(p) => {
            let mut s = "[INFO] ".to_owned();
            if append {
                s.append("appending");
            } else {
                s.append("writing");
            }
            s.append(" output to: ");
            s.append(p);
            out.push(Command::Notice(s));
        },
        None => {},
    }
    assert(commands_model(out@) =~= startup_spec(interactive, match output { Some(p) => Some(p@), None => None }, append));
    out
}


// ---------------------------------------------------------------------------
// Search
// ---------------------------------------------------------------------------

/// `s` with every line feed replaced by a space, so a multi-line message
/// keeps the layout in raw mode.
pub open spec fn one_line(s: Seq<char>) -> Seq<char> {
    s.map_values(|c: char| if c == '\n' { ' ' } else { c })
}

/// The echo commands that replay entries.
pub open spec fn echoes(s: Seq<EntryModel>) -> Seq<CommandModel> {
    s.map_values(|e: EntryModel| CommandModel::Echo(e.0, e.1))
}

/// Header of a search with matches: how many are shown, of how many, for
/// which pattern, out of how many retained lines.
pub open spec fn search_header(found: nat, pattern: Seq<char>, retained: nat) -> Seq<char> {
    let shown = if found < SEARCH_RESULT_LIMIT { found } else { SEARCH_RESULT_LIMIT as nat };
    if shown < found {
        "-- most recent "@ + dec(shown) + " of "@ + dec(found) + " matches for /"@ + pattern + " ("@
            + dec(retained) + " lines retained) --"@
    } else {
        "-- "@ + dec(found) + (if found == 1 { " match"@ } else { " matches"@ }) + " for /"@ + pattern
            + " ("@ + dec(retained) + " lines retained) --"@
    }
}

/// What a search over `retained` lines whose matches are `found` shows:
/// a notice when nothing matched, else a header, the most recent matches
/// (at most `SEARCH_RESULT_LIMIT`, oldest first) and a closing notice.
pub open spec fn found_commands(found: Seq<EntryModel>, pattern: Seq<char>, retained: nat) -> Seq<CommandModel> {
    if found.len() == 0 {
        seq![CommandModel::Notice("-- no matches for /"@ + pattern + " in "@ + dec(retained) + " retained lines --"@)]
    } else {
        let shown = if found.len() < SEARCH_RESULT_LIMIT { found.len() } else { SEARCH_RESULT_LIMIT as nat };
        seq![CommandModel::Notice(search_header(found.len(), pattern, retained))]
            + echoes(found.skip(found.len() - shown))
            + seq![CommandModel::Notice("-- end of matches, streaming resumed --"@)]
    }
}

fn replace_line_feeds(s: &str) -> (res: String)
    ensures
        res@ == one_line(s@),
{
    let cs = chars_of(s);
    let mut out = String::new();
    let mut i: usize = 0;
    while i < cs.len()
        invariant
            i <= cs.len(),
            cs@ == s@,
            out@ == one_line(cs@.take(i as int)),
        decreases cs.len() - i,
    {
        let c = cs[i];
        crate::text::push_char(&mut out, if c == '\n' { ' ' } else { c });
        i += 1;
        assert(out@ =~= one_line(cs@.take(i as int)));
    }
    assert(cs@.take(cs.len() as int) =~= cs@);
    out
}

impl DisplayLoop {
    /// Runs `pattern` against the retained history and replays the matches.
    pub fn search_commands(&self, pattern: &str) -> (res: Vec<Command>)
        requires
            self.wf(),
        ensures
            self.history_capacity() == 0 ==> commands_model(res@) == seq![CommandModel::Notice(
                "-- search unavailable: history is disabled (--history 0) --"@,
            )],
            self.history_capacity() > 0 && !regex_compiles(pattern@) ==> commands_model(res@) == seq![CommandModel::Notice(
                "-- invalid search pattern: "@ + one_line(regex_error_text(pattern@)) + " --"@,
            )],
            self.history_capacity() > 0 && regex_compiles(pattern@) ==> commands_model(res@)
                == found_commands(matching(self.history_model(), pattern@), pattern@, self.history_model().len()),
    {
        let mut out: Vec<Command> = Vec::new();
        if !self.history.is_enabled() {
            out.push(Command::Notice("-- search unavailable: history is disabled (--history 0) --".to_owned()));
            assert(commands_model(out@) =~= seq![CommandModel::Notice(
                "-- search unavailable: history is disabled (--history 0) --"@,
            )]);
            return out;
        }
        let re = match LinePattern::new(pattern) {
            Ok(re) => re,
            Err(reason) => {
                let mut s = "-- invalid search pattern: ".to_owned();
                let flat = replace_line_feeds(reason.as_str());
                s.append(flat.as_str());
                s.append(" --");
                out.push(Command::Notice(s));
                assert(commands_model(out@) =~= seq![CommandModel::Notice(
                    "-- invalid search pattern: "@ + one_line(reason@) + " --"@,
                )]);
                return out;
            },
        };
        let retained = self.history.len();
        let found = self.history.search(&re);
        let ghost fm = found@.map_values(|e: &HistoryEntry| (e.rendered@, e.level));
        assert(fm == matching(self.history_model(), pattern@));
        if found.len() == 0 {
            let mut s = "-- no matches for /".to_owned();
            s.append(pattern);
            s.append(" in ");
            push_dec(&mut s, retained as u64);
            s.append(" retained lines --");
            out.push(Command::Notice(s));
            assert(commands_model(out@) =~= found_commands(fm, pattern@, retained as nat));
            return out;
        }
        let total = found.len();
        let shown = if total < SEARCH_RESULT_LIMIT { total } else { SEARCH_RESULT_LIMIT };
        let mut header = String::new();
        if shown < total {
            header.append("-- most recent ");
            push_dec(&mut header, shown as u64);
            header.append(" of ");
            push_dec(&mut header, total as u64);
            header.append(" matches for /");
            header.append(pattern);
            header.append(" (");
            push_dec(&mut header, retained as u64);
            header.append(" lines retained) --");
        } else {
            header.append("-- ");
            push_dec(&mut header, total as u64);
            if total == 1 {
                header.append(" match");
            } else {
                header.append(" matches");
            }
            header.append(" for /");
            header.append(pattern);
            header.append(" (");
            push_dec(&mut header, retained as u64);
            header.append(" lines retained) --");
        }
        assert(header@ =~= search_header(total as nat, pattern@, retained as nat));
        out.push(Command::Notice(header));
        let mut i: usize = total - shown;
        let ghost tail = fm.skip(total - shown);
        while i < total
            invariant
                total == found.len(),
                shown <= total,
                fm.len() == total,
                total - shown <= i <= total,
                fm == found@.map_values(|e: &HistoryEntry| (e.rendered@, e.level)),
                tail == fm.skip(total - shown),
                commands_model(out@) == seq![CommandModel::Notice(search_header(total as nat, pattern@, retained as nat))]
                    + echoes(tail.take(i - (total - shown))),
            decreases total - i,
        {
            let e = found[i];
            let text = e.rendered.clone();
            let ghost before = commands_model(out@);
            out.push(Command::Echo { text, level: e.level });
            i += 1;
            assert(tail[i - 1 - (total - shown)] == fm[i - 1]);
            assert(tail.take(i - (total - shown)) =~= tail.take(i - 1 - (total - shown)).push(fm[i - 1]));
            assert(commands_model(out@) =~= before.push(CommandModel::Echo(fm[i - 1].0, fm[i - 1].1)));
            assert(commands_model(out@) =~= seq![CommandModel::Notice(search_header(total as nat, pattern@, retained as nat))]
                + echoes(tail.take(i - (total - shown))));
        }
        out.push(Command::Notice("-- end of matches, streaming resumed --".to_owned()));
        assert(tail.take(shown as int) =~= tail);
        assert(commands_model(out@) =~= found_commands(fm, pattern@, retained as nat));
        out
    }
}

/// Notice shown once the report file has been written.
pub open spec fn report_notice(path: Seq<char>) -> Seq<char> {
    "[INFO] wrote activity stats to: "@ + path
}

/// One-line session summary shown on a terminal at exit.
pub open spec fn session_notice(lines: int, buckets: int, files: int) -> Seq<char> {
    "-- session: "@ + dec(lines as nat) + " lines in "@ + dec(buckets as nat) + " buckets across "@
        + dec(files as nat) + " file(s) --"@
}

impl DisplayLoop {
    /// The closing notices: where the stats report went (when one was
    /// written), and on a terminal with activity recorded, a one-line
    /// session summary.
    pub fn finish_commands(&self, report_path: Option<&str>) -> (res: Vec<Command>)
        requires
            self.wf(),
        ensures
            exists|files: Seq<(Seq<char>, int)>| {
                &&& crate::stats::is_file_summary(self.stats_model(), files)
                &&& commands_model(res@) == (match report_path {
                    Some(p) => seq![CommandModel::Notice(report_notice(p@))],
                    None => Seq::<CommandModel>::empty(),
                }) + (if self.is_interactive() && self.stats_model().len() > 0 {
                    seq![CommandModel::Notice(session_notice(
                        stats_total(self.stats_model()),
                        self.stats_model().len() as int,
                        files.len() as int,
                    ))]
                } else {
                    Seq::<CommandModel>::empty()
                })
            },
    {
        let mut out: Vec<Command> = Vec::new();
        match report_path {
            Some(p) => {
                let mut s = "[INFO] wrote activity stats to: ".to_owned();
                s.append(p);
                out.push(Command::Notice(s));
            },
            None => {},
        }
        let files = self.stats.file_totals();
        let ghost fm = crate::stats::pairs_model(files@);
        if self.interactive && !self.stats.is_empty() {
            let mut s = "-- session: ".to_owned();
            push_dec(&mut s, self.stats.total_lines());
            s.append(" lines in ");
            push_dec(&mut s, self.stats.bucket_count() as u64);
            s.append(" buckets across ");
            push_dec(&mut s, files.len() as u64);
            s.append(" file(s) --");
            out.push(Command::Notice(s));
        }
        assert(fm.len() == files.len());
        assert(commands_model(out@) =~= (match report_path {
            Some(p) => seq![CommandModel::Notice(report_notice(p@))],
            None => Seq::<CommandModel>::empty(),
        }) + (if self.is_interactive() && self.stats_model().len() > 0 {
            seq![CommandModel::Notice(session_notice(
                stats_total(self.stats_model()),
                self.stats_model().len() as int,
                fm.len() as int,
            ))]
        } else {
            Seq::<CommandModel>::empty()
        }));
        out
    }
}

// ---------------------------------------------------------------------------
// The search prompt
// ---------------------------------------------------------------------------

/// What a key does at the search prompt.
pub enum PromptStep {
    /// The query changed or stayed; redraw the prompt.
    Redraw,
    /// The prompt is done: the pattern to search, or none when the user
    /// cancelled or submitted an empty pattern.
    Done(Option<String>),
}

/// The pattern typed so far at the `/` prompt.
pub struct SearchPrompt {
    query: Vec<char>,
}

impl SearchPrompt {
    pub closed spec fn query(&self) -> Seq<char> {
        self.query@
    }

    /// An empty prompt.
    pub fn new() -> (res: SearchPrompt)
        ensures
            res.query() == Seq::<char>::empty(),
    {
        SearchPrompt { query: Vec::new() }
    }

    /// The prompt line: `search: /` and the query.
    pub fn text(&self) -> (res: String)
        ensures
            res@ == "search: /"@ + self.query(),
    {
        let mut s = "search: /".to_owned();
        push_chars(&mut s, &self.query);
        s
    }

    /// Handles a key: Enter submits (nothing when the query is empty), Esc
    /// or Ctrl-C cancels, Backspace deletes the last character, a character
    /// typed without Control is appended, anything else is ignored.
    pub fn on_key(&mut self, key: KeyPress) -> (res: PromptStep)
        ensures
            match key.code {
                KeyCode::Enter => res matches PromptStep::Done(q) && (match q {
                    Some(s) => s@ == old(self).query() && old(self).query().len() > 0,
                    None => old(self).query().len() == 0,
                }),
                KeyCode::Esc => res matches PromptStep::Done(None),
                KeyCode::Char(c) => if c == 'c' && key.control && !key.other_modifiers {
                    res matches PromptStep::Done(None)
                } else if !key.control {
                    res is Redraw && final(self).query() == old(self).query().push(c)
                } else {
                    res is Redraw && final(self).query() == old(self).query()
                },
                KeyCode::Backspace => res is Redraw && final(self).query() == if old(self).query().len() > 0 {
                    old(self).query().drop_last()
                } else {
                    old(self).query()
                },
                KeyCode::Other => res is Redraw && final(self).query() == old(self).query(),
            },
    {
        match key.code {
            KeyCode::Enter => {
                if self.query.len() == 0 {
                    PromptStep::Done(None)
                } else {
                    PromptStep::Done(Some(string_of(&self.query)))
                }
            },
            KeyCode::Esc => PromptStep::Done(None),
            KeyCode::Char(c) => {
                if c == 'c' && key.control && !key.other_modifiers {
                    PromptStep::Done(None)
                } else {
                    if !key.control {
                        self.query.push(c);
                    }
                    PromptStep::Redraw
                }
            },
            KeyCode::Backspace => {
                if self.query.len() > 0 {
                    self.query.pop();
                }
                PromptStep::Redraw
            },
            KeyCode::Other => PromptStep::Redraw,
        }
    }
}

// ---------------------------------------------------------------------------
// Laws
// ---------------------------------------------------------------------------

/// No line is shown twice and lines are shown in order: the lines a match
/// shows (the unshown remembered lines, then the match itself) are numbered
/// strictly increasingly, all after the last line shown before.
pub proof fn law_context_shown_once(prev: Seq<ContextModel>, last: int, n: int, text: Seq<char>, level: LogLevel)
    requires
        numbers_increase(prev),
        forall|j: int| 0 <= j < prev.len() ==> #[trigger] prev[j].0 < n,
    ensures
        ({
            let shown = unprinted(prev, last).push((n, text, level));
            &&& forall|i: int, j: int| 0 <= i < j < shown.len() ==> shown[i].0 < shown[j].0
            &&& forall|i: int| 0 <= i < shown.len() - 1 ==> #[trigger] shown[i].0 > last
        }),
{
    lemma_unprinted_sub(prev, last);
    lemma_unprinted_bounds(prev, last);
    let u = unprinted(prev, last);
    let shown = u.push((n, text, level));
    assert forall|i: int, j: int| 0 <= i < j < shown.len() implies shown[i].0 < shown[j].0 by {
        if j < u.len() {
            let (a, b) = (choose|a: int, b: int| 0 <= a < b < prev.len() && u[i] == prev[a] && u[j] == prev[b]);
        } else {
            let a = choose|a: int| 0 <= a < prev.len() && u[i] == prev[a];
        }
    }
}

/// A search cannot flood the terminal: it replays at most
/// `SEARCH_RESULT_LIMIT` matches, the most recent ones, oldest first,
/// between a header and a closing notice.
pub proof fn law_search_replays_newest(found: Seq<EntryModel>, pattern: Seq<char>, retained: nat)
    requires
        found.len() > 0,
    ensures
        ({
            let c = found_commands(found, pattern, retained);
            let shown = if found.len() < SEARCH_RESULT_LIMIT { found.len() as int } else { SEARCH_RESULT_LIMIT as int };
            &&& c.len() == shown + 2
            &&& shown <= SEARCH_RESULT_LIMIT
            &&& forall|i: int|
                0 <= i < shown ==> #[trigger] c[i + 1] == CommandModel::Echo(
                    found[found.len() - shown + i].0,
                    found[found.len() - shown + i].1,
                )
        }),
{
    let c = found_commands(found, pattern, retained);
    let shown = if found.len() < SEARCH_RESULT_LIMIT { found.len() as int } else { SEARCH_RESULT_LIMIT as int };
    let e = echoes(found.skip(found.len() - shown));
    assert(e.len() == shown);
    assert forall|i: int| 0 <= i < shown implies #[trigger] c[i + 1] == CommandModel::Echo(
        found[found.len() - shown + i].0,
        found[found.len() - shown + i].1,
    ) by {
        assert(c[i + 1] == e[i]);
    }
}

/// Leading context is complete and in order: the remembered lines shown
/// before a match are exactly those numbered after the last line shown,
/// each of them, nothing else, in increasing order; so as many lines of
/// context are shown as were remembered and not yet shown.
pub proof fn law_context_shows_every_unshown_line(prev: Seq<ContextModel>, last: int)
    requires
        numbers_increase(prev),
    ensures
        forall|i: int| 0 <= i < prev.len() && prev[i].0 > last ==> unprinted(prev, last).contains(#[trigger] prev[i]),
        forall|x: ContextModel| #[trigger] unprinted(prev, last).contains(x) ==> prev.contains(x) && x.0 > last,
        forall|i: int, j: int|
            0 <= i < j < unprinted(prev, last).len() ==> unprinted(prev, last)[i].0 < unprinted(prev, last)[j].0,
    decreases prev.len(),
{
    if prev.len() > 0 {
        let t = prev.drop_last();
        let e = prev.last();
        assert(numbers_increase(t));
        law_context_shows_every_unshown_line(t, last);
        let u = unprinted(t, last);
        let r = unprinted(prev, last);
        assert forall|i: int| 0 <= i < prev.len() && prev[i].0 > last implies r.contains(#[trigger] prev[i]) by {
            if i < prev.len() - 1 {
                assert(prev[i] == t[i]);
                assert(u.contains(t[i]));
                let k = choose|k: int| 0 <= k < u.len() && u[k] == t[i];
                if e.0 > last {
                    assert(r[k] == u[k]);
                } else {
                    assert(r == u);
                }
            } else {
                assert(r == u.push(e));
                assert(r[r.len() - 1] == e);
            }
        }
        assert forall|x: ContextModel| #[trigger] r.contains(x) implies prev.contains(x) && x.0 > last by {
            let k = choose|k: int| 0 <= k < r.len() && r[k] == x;
            if e.0 > last && k == r.len() - 1 {
                assert(r == u.push(e));
                assert(prev[prev.len() - 1] == x);
            } else {
                if e.0 > last {
                    assert(r == u.push(e));
                }
                assert(r[k] == u[k]);
                assert(u.contains(x));
                let a = choose|a: int| 0 <= a < t.len() && t[a] == x;
                assert(prev[a] == x);
            }
        }
        assert forall|i: int, j: int| 0 <= i < j < r.len() implies r[i].0 < r[j].0 by {
            if e.0 > last {
                assert(r == u.push(e));
                if j == r.len() - 1 {
                    assert(u.contains(u[i]));
                    let a = choose|a: int| 0 <= a < t.len() && t[a] == u[i];
                    assert(prev[a] == u[i]);
                    assert(prev[a].0 < prev[prev.len() - 1].0);
                } else {
                    assert(r[i] == u[i] && r[j] == u[j]);
                }
            }
        }
    }
}

/// The keys of the main loop: `q` quits whatever modifiers are held, and
/// so does Ctrl-C; `c` alone clears the screen and shows the banner again;
/// `p` pauses a running display and resumes a paused one, each with one
/// notice; `/` opens the search prompt; `s` shows the stats; any other
/// key does nothing.
pub proof fn law_keys(key: KeyPress, paused: bool)
    ensures
        key.code == KeyCode::Char('q') ==> key_commands(key, paused) == seq![CommandModel::Stop],
        key.code == KeyCode::Char('c') && key.control && !key.other_modifiers ==> key_commands(key, paused) == seq![
            CommandModel::Stop,
        ],
        key.code == KeyCode::Char('c') && !(key.control && !key.other_modifiers) ==> key_commands(key, paused)
            == seq![CommandModel::ClearScreen, CommandModel::Notice(BANNER@), CommandModel::Notice(RULE@)],
        key.code == KeyCode::Char('p') && !paused ==> key_commands(key, paused) == seq![
            CommandModel::Notice("-- PAUSED - incoming lines are buffered --"@),
        ],
        key.code == KeyCode::Char('p') && paused ==> key_commands(key, paused) == seq![
            CommandModel::Notice("-- RESUMED --"@),
        ],
        key.code == KeyCode::Char('/') ==> key_commands(key, paused) == seq![CommandModel::Prompt],
        key.code == KeyCode::Char('s') ==> key_commands(key, paused) == seq![CommandModel::ShowStats],
        (key.code is Enter || key.code is Esc || key.code is Backspace || key.code is Other) ==> key_commands(
            key,
            paused,
        ).len() == 0,
        (key.code matches KeyCode::Char(ch) && ch != 'q' && ch != 'c' && ch != 'p' && ch != '/' && ch != 's')
            ==> key_commands(key, paused).len() == 0,
{
}

/// The unprinted lines are a subsequence of the remembered ones.
proof fn lemma_unprinted_sub(prev: Seq<ContextModel>, last: int)
    ensures
        forall|i: int| 0 <= i < unprinted(prev, last).len() ==> exists|a: int| 0 <= a < prev.len() && #[trigger] unprinted(prev, last)[i] == prev[a],
        forall|i: int, j: int| 0 <= i < j < unprinted(prev, last).len() ==> exists|a: int, b: int| 0 <= a < b < prev.len() && #[trigger] unprinted(prev, last)[i] == prev[a] && #[trigger] unprinted(prev, last)[j] == prev[b],
    decreases prev.len(),
{
    if prev.len() > 0 {
        let t = prev.drop_last();
        lemma_unprinted_sub(t, last);
        let u = unprinted(t, last);
        let r = unprinted(prev, last);
        assert forall|i: int| 0 <= i < r.len() implies exists|a: int| 0 <= a < prev.len() && #[trigger] r[i] == prev[a] by {
            if i < u.len() {
                let a = choose|a: int| 0 <= a < t.len() && #[trigger] u[i] == t[a];
                assert(r[i] == prev[a]);
            } else {
                assert(r[i] == prev[prev.len() - 1]);
            }
        }
        assert forall|i: int, j: int| 0 <= i < j < r.len() implies exists|a: int, b: int| 0 <= a < b < prev.len() && #[trigger] r[i] == prev[a] && #[trigger] r[j] == prev[b] by {
            if j < u.len() {
                let (a, b) = choose|a: int, b: int| 0 <= a < b < t.len() && #[trigger] u[i] == t[a] && #[trigger] u[j] == t[b];
                assert(r[i] == prev[a] && r[j] == prev[b]);
            } else {
                let a = choose|a: int| 0 <= a < t.len() && #[trigger] u[i] == t[a];
                assert(r[i] == prev[a] && r[j] == prev[prev.len() - 1]);
            }
        }
    }
}

} // verus!

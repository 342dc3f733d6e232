//! What reaches the terminal and the export file for each kind of line.
//! Terminal chrome and color never reach the file; the caller writes the
//! texts this module gives.

use vstd::prelude::*;
use crate::level::{LogLevel, LevelColor, level_color};

verus! {

/// The escape sequence that selects graphic rendition `code`: ESC, `[`,
/// the code and `m`.
pub open spec fn sgr(code: Seq<char>) -> Seq<char> {
    seq!['\u{1b}', '['] + code + seq!['m']
}

/// The rendition code crossterm writes to select a color as foreground.
pub open spec fn color_code(c: LevelColor) -> Seq<char> {
    match c {
        LevelColor::Red => "38;5;9"@,
        LevelColor::DarkRed => "38;5;1"@,
        LevelColor::Yellow => "38;5;11"@,
        LevelColor::Blue => "38;5;12"@,
        LevelColor::DarkGrey => "38;5;8"@,
    }
}

/// `p` is what crossterm writes for `text` styled in `c`: the color's
/// sequence, the text and the foreground reset; or, with `NO_COLOR` set,
/// the same sequences without their codes; or nothing, on a Windows console
/// without escape-sequence support.
pub open spec fn painted_as(c: LevelColor, text: Seq<char>, p: Seq<char>) -> bool {
    ||| p == sgr(color_code(c)) + text + sgr("39"@)
    ||| p == sgr(Seq::empty()) + text + sgr(Seq::empty())
    ||| p.len() == 0
}

/// `text` wrapped in the escape sequences that show it in `color`.
///
/// Trusted: crossterm's `Stylize::with` and the `Display` of the
/// `StyledContent` it gives, rendered to a `String`. Through
/// `PrintStyledContent::write_ansi` crossterm writes `SetForegroundColor`
/// of the color (`ESC [ 38;5;n m`), the text, then `SetForegroundColor` of
/// `Color::Reset` (`ESC [ 39 m`). When `NO_COLOR` is set, `Colored` writes
/// no code, so the sequences are `ESC [ m`. On a Windows console without
/// escape-sequence support the command goes through `execute_winapi`, which
/// writes nothing into the string. The contract states these three
/// outcomes; which one comes depends on the environment and the console.
#[verifier::external_body]
fn paint(text: &str, color: LevelColor) -> (res: String)
    ensures
        painted_as(color, text@, res@),
{
    let c = match color {
        LevelColor::Red => crossterm::style::Color::Red,
        LevelColor::DarkRed => crossterm::style::Color::DarkRed,
        LevelColor::Yellow => crossterm::style::Color::Yellow,
        LevelColor::Blue => crossterm::style::Color::Blue,
        LevelColor::DarkGrey => crossterm::style::Color::DarkGrey,
    };
    crossterm::style::Stylize::with(text, c).to_string()
}

/// The line ending of a terminal line: raw mode leaves the cursor where it
/// is on a bare newline, so it needs an explicit carriage return.
pub open spec fn line_end(raw_mode: bool) -> Seq<char> {
    if raw_mode {
        "\r\n"@
    } else {
        "\n"@
    }
}

/// A call on an `Output`, as a model: a notice, an echoed line or a
/// logged line, with its text.
pub ghost enum OutputCall {
    Notice(Seq<char>),
    Echo(Seq<char>, LogLevel),
    Log(Seq<char>, LogLevel),
}

/// What a call adds to the export file: a logged line and a line break when
/// there is a file, nothing otherwise.
pub open spec fn export_part(exports: bool, call: OutputCall) -> Seq<char> {
    match call {
        OutputCall::Log(text, _) => if exports {
            text + seq!['\n']
        } else {
            Seq::empty()
        },
        _ => Seq::empty(),
    }
}

/// The text an optional export line stands for.
pub open spec fn exported(line: Option<String>) -> Seq<char> {
    match line {
        Some(f) => f@,
        None => Seq::empty(),
    }
}

/// What a sequence of calls adds to the export file, in order.
pub open spec fn export_text(exports: bool, calls: Seq<OutputCall>) -> Seq<char>
    decreases calls.len(),
{
    if calls.len() == 0 {
        Seq::empty()
    } else {
        export_text(exports, calls.drop_last()) + export_part(exports, calls.last())
    }
}

/// The logged lines of a sequence of calls, each followed by a line break.
pub open spec fn logged_lines(calls: Seq<OutputCall>) -> Seq<char>
    decreases calls.len(),
{
    if calls.len() == 0 {
        Seq::empty()
    } else {
        logged_lines(calls.drop_last()) + match calls.last() {
            OutputCall::Log(text, _) => text + seq!['\n'],
            _ => Seq::empty(),
        }
    }
}

/// The call logs a line whose character at `k` is an escape character.
pub open spec fn escape_at(call: OutputCall, k: int) -> bool {
    match call {
        OutputCall::Log(text, _) => 0 <= k < text.len() && text[k] == '\u{1b}',
        _ => false,
    }
}

/// The export file holds exactly the logged lines, each with a line
/// break, in order: notices and echoes add nothing to it, color and raw
/// mode change nothing in it, and it holds no escape character that a
/// logged line did not hold.
pub proof fn law_export_holds_logged_lines(exports: bool, calls: Seq<OutputCall>)
    ensures
        export_text(exports, calls) == if exports { logged_lines(calls) } else { Seq::<char>::empty() },
        forall|i: int|
            0 <= i < export_text(exports, calls).len() && export_text(exports, calls)[i] == '\u{1b}' ==> exists|
                j: int,
                k: int,
            |
                0 <= j < calls.len() && #[trigger] escape_at(calls[j], k),
    decreases calls.len(),
{
    if calls.len() > 0 {
        let init = calls.drop_last();
        law_export_holds_logged_lines(exports, init);
        let e = export_text(exports, calls);
        let head = export_text(exports, init);
        let part = export_part(exports, calls.last());
        if !exports {
            assert(part =~= Seq::<char>::empty());
            assert(e =~= Seq::<char>::empty());
        }
        assert forall|i: int| 0 <= i < e.len() && e[i] == '\u{1b}' implies exists|j: int, k: int|
            0 <= j < calls.len() && #[trigger] escape_at(calls[j], k) by {
            if i < head.len() {
                assert(e[i] == head[i]);
                let (j, k) = choose|j: int, k: int|
                    0 <= j < init.len() && #[trigger] escape_at(init[j], k);
                assert(calls[j] == init[j]);
            } else {
                assert(e[i] == part[i - head.len()]);
                let j = calls.len() - 1;
                if let OutputCall::Log(text, _) = calls.last() {
                    if i - head.len() < text.len() {
                        assert(part[i - head.len()] == text[i - head.len()]);
                        assert(calls[j] == calls.last());
                        assert(escape_at(calls[j], i - head.len()));
                    } else {
                        assert(part[i - head.len()] == '\n');
                    }
                }
            }
        }
    }
}

/// How lines are written: to the terminal, in raw mode or not and with
/// color or not, and to the export file when there is one.
pub struct Output {
    raw_mode: bool,
    use_color: bool,
    has_file: bool,
    file_dirty: bool,
}

impl Output {
    /// The terminal is in raw mode.
    pub closed spec fn raw(&self) -> bool {
        self.raw_mode
    }

    /// Log lines are colored by severity.
    pub closed spec fn colors(&self) -> bool {
        self.use_color
    }

    /// Log lines are also written to an export file.
    pub closed spec fn exports(&self) -> bool {
        self.has_file
    }

    /// Lines went to the export file since its last flush.
    pub closed spec fn dirty(&self) -> bool {
        self.file_dirty
    }

    /// Writing starts in cooked mode with nothing pending.
    pub fn new(has_file: bool, use_color: bool) -> (res: Output)
        ensures
            !res.raw(),
            res.colors() == use_color,
            res.exports() == has_file,
            !res.dirty(),
    {
        Output { raw_mode: false, use_color, has_file, file_dirty: false }
    }

    /// Switches raw mode on or off.
    pub fn set_raw_mode(&mut self, raw: bool)
        ensures
            final(self).raw() == raw,
            final(self).colors() == old(self).colors(),
            final(self).exports() == old(self).exports(),
            final(self).dirty() == old(self).dirty(),
    {
        self.raw_mode = raw;
    }

    /// A line as the terminal gets it.
    pub fn terminal_line(&self, text: &str) -> (res: String)
        ensures
            res@ == text@ + line_end(self.raw()),
    {
        let mut s = text.to_owned();
        if self.raw_mode {
            s.append("\r\n");
        } else {
            s.append("\n");
        }
        s
    }

    /// Terminal-only chrome: banners, `[INFO]` notices, search headers.
    pub fn notice(&self, text: &str) -> (res: String)
        ensures
            res@ == text@ + line_end(self.raw()),
    {
        self.terminal_line(text)
    }

    /// A log line as the terminal shows it, given `painted`, the line
    /// styled in its severity's color: the painted text when color is on
    /// and the severity has a color, else the line as it is.
    pub fn colored_line(&self, rendered: &str, level: LogLevel, painted: &str) -> (res: String)
        ensures
            self.colors() && level_color(level) is Some ==> res@ == painted@ + line_end(self.raw()),
            !(self.colors() && level_color(level) is Some) ==> res@ == rendered@ + line_end(self.raw()),
    {
        if self.use_color && level.color().is_some() {
            self.terminal_line(painted)
        } else {
            self.terminal_line(rendered)
        }
    }

    /// A log line shown on the terminal but not exported: styled in its
    /// severity's color when color is on and the severity has one, else as
    /// it is.
    pub fn echo(&self, rendered: &str, level: LogLevel) -> (res: String)
        ensures
            !(self.colors() && level_color(level) is Some) ==> res@ == rendered@ + line_end(self.raw()),
            self.colors() && level_color(level) is Some ==> exists|p: Seq<char>|
                #[trigger] painted_as(level_color(level).unwrap(), rendered@, p) && res@ == p + line_end(self.raw()),
    {
        match level.color() {
            Some(color) => {
                if self.use_color {
                    let painted = paint(rendered, color);
                    self.colored_line(rendered, level, painted.as_str())
                } else {
                    self.colored_line(rendered, level, rendered)
                }
            },
            None => self.colored_line(rendered, level, rendered),
        }
    }

    /// A log line from the live stream: the terminal text, as `echo` gives
    /// it, and the plain line for the export file when there is one.
    pub fn log(&mut self, rendered: &str, level: LogLevel) -> (res: (String, Option<String>))
        ensures
            !(old(self).colors() && level_color(level) is Some) ==> res.0@ == rendered@ + line_end(old(self).raw()),
            old(self).colors() && level_color(level) is Some ==> exists|p: Seq<char>|
                #[trigger] painted_as(level_color(level).unwrap(), rendered@, p) && res.0@ == p + line_end(old(self).raw()),
            match res.1 {
                Some(f) => old(self).exports() && f@ == rendered@ + "\n"@,
                None => !old(self).exports(),
            },
            exported(res.1) == export_part(old(self).exports(), OutputCall::Log(rendered@, level)),
            final(self).raw() == old(self).raw(),
            final(self).colors() == old(self).colors(),
            final(self).exports() == old(self).exports(),
            final(self).dirty() == (old(self).dirty() || old(self).exports()),
    {
        proof {
            reveal_strlit("\n");
        }
        let term = self.echo(rendered, level);
        if self.has_file {
            let mut line = rendered.to_owned();
            line.append("\n");
            self.file_dirty = true;
            (term, Some(line))
        } else {
            (term, None)
        }
    }

    /// Called whenever the stream goes quiet: whether the export file has
    /// lines to flush. Afterwards nothing is pending.
    pub fn flush(&mut self) -> (res: bool)
        ensures
            res == (old(self).dirty() && old(self).exports()),
            !final(self).dirty(),
            final(self).raw() == old(self).raw(),
            final(self).colors() == old(self).colors(),
            final(self).exports() == old(self).exports(),
    {
        let res = self.file_dirty && self.has_file;
        self.file_dirty = false;
        res
    }
}

} // verus!

//! Where lines come from: the decisions of following files as they grow,
//! and of reading a stream of lines from standard input.

use vstd::prelude::*;
use crate::pattern::{FileGlob, glob_matches};
use crate::paths::{path_file_name, file_name_of};
use crate::text::{
    chars_of, string_of, slice_chars, trim, trim_chars, trim_end, trim_end_chars, trim_start,
    trim_start_chars,
};

verus! {

// ---------------------------------------------------------------------------
// Standard input
// ---------------------------------------------------------------------------

/// The path announced by a `tail` multi-file header `==> path <==`, once
/// the line is trimmed.
pub open spec fn tail_header(line: Seq<char>) -> Option<Seq<char>> {
    let t = trim(line);
    if t.len() >= 8 && t.take(4) == "==> "@ && t.skip(t.len() - 4) == " <=="@ {
        Some(t.subrange(4, t.len() - 4))
    } else {
        None
    }
}

/// Position of the first `:` in `s`, if any.
pub open spec fn first_colon(s: Seq<char>) -> Option<int> {
    if exists|i: int| 0 <= i < s.len() && s[i] == ':' {
        Some(choose|i: int| 0 <= i < s.len() && s[i] == ':' && forall|j: int| 0 <= j < i ==> s[j] != ':')
    } else {
        None
    }
}

/// Whether the text before a colon reads as a path: it holds a slash or a
/// backslash, or ends in `.log`.
pub open spec fn looks_like_path(p: Seq<char>) -> bool {
    p.contains('/') || p.contains('\\') || (p.len() >= 4 && p.skip(p.len() - 4) == ".log"@)
}

/// The `(path, content)` a stream line stands for, given the path of the
/// last `tail` header: `path: content` when the text before the first colon
/// reads as a path, else the whole line under the header's path, or under
/// `stdin` when there was none.
pub open spec fn stream_line(line: Seq<char>, tail: Option<Seq<char>>) -> (Seq<char>, Seq<char>) {
    let fallback = match tail {
        Some(p) => p,
        None => "stdin"@,
    };
    match first_colon(line) {
        Some(i) => if looks_like_path(line.take(i)) {
            (line.take(i), trim_start(line.skip(i + 1)))
        } else {
            (fallback, line)
        },
        None => (fallback, line),
    }
}

/// Splits lines read from standard input into a file path and the log
/// content. Understands `tail -f` multi-file headers and `path: content`
/// prefixes.
pub struct StreamParser {
    current_tail_path: Option<String>,
}

/// Whether `s` holds `c`.
fn has_char(s: &Vec<char>, c: char) -> (res: bool)
    ensures
        res == s@.contains(c),
{
    let mut i: usize = 0;
    while i < s.len()
        invariant
            i <= s.len(),
            forall|j: int| 0 <= j < i ==> s@[j] != c,
        decreases s.len() - i,
    {
        if s[i] == c {
            assert(s@[i as int] == c);
            return true;
        }
        i += 1;
    }
    false
}

/// Whether `s` begins with `p`.
fn starts_with_chars(s: &Vec<char>, p: &str) -> (res: bool)
    ensures
        res == (s@.len() >= p@.len() && s@.take(p@.len() as int) == p@),
{
    let pc = chars_of(p);
    if s.len() < pc.len() {
        return false;
    }
    let head = slice_chars(s, 0, pc.len());
    let r = crate::text::seq_eq(&head, &pc);
    assert(head@ =~= s@.take(p@.len() as int));
    r
}

/// Whether `s` ends with `p`.
fn ends_with_chars(s: &Vec<char>, p: &str) -> (res: bool)
    ensures
        res == (s@.len() >= p@.len() && s@.skip(s@.len() - p@.len()) == p@),
{
    let pc = chars_of(p);
    if s.len() < pc.len() {
        return false;
    }
    let tail = slice_chars(s, s.len() - pc.len(), s.len());
    let r = crate::text::seq_eq(&tail, &pc);
    assert(tail@ =~= s@.skip(s@.len() - p@.len()));
    r
}

impl StreamParser {
    /// The path of the last `tail` header seen.
    pub closed spec fn tail(&self) -> Option<Seq<char>> {
        match self.current_tail_path {
            Some(p) => Some(p@),
            None => None,
        }
    }

    /// A parser that has seen no header yet.
    pub fn new() -> (res: StreamParser)
        ensures
            res.tail() is None,
    {
        StreamParser { current_tail_path: None }
    }

    /// Reads one line. A `tail` header sets the current path and gives
    /// nothing; any other line gives its path and content, unless the
    /// content is empty.
    pub fn parse_line(&mut self, line: &str) -> (res: Option<(String, String)>)
        ensures
            match tail_header(line@) {
                Some(p) => final(self).tail() == Some(p) && res is None,
                None => {
                    let (path, content) = stream_line(line@, old(self).tail());
                    &&& final(self).tail() == old(self).tail()
                    &&& match res {
                        Some(r) => r.0@ == path && r.1@ == content && content.len() > 0,
                        None => content.len() == 0,
                    }
                },
            },
    {
        proof {
            reveal_strlit("==> ");
            reveal_strlit(" <==");
            reveal_strlit(".log");
        }
        let chars = chars_of(line);
        let t = trim_chars(&chars);
        if t.len() >= 8 && starts_with_chars(&t, "==> ") && ends_with_chars(&t, " <==") {
            let p = slice_chars(&t, 4, t.len() - 4);
            self.current_tail_path = Some(string_of(&p));
            return None;
        }
        let mut i: usize = 0;
        while i < chars.len() && chars[i] != ':'
            invariant
                i <= chars.len(),
                chars@ == line@,
                forall|j: int| 0 <= j < i ==> chars@[j] != ':',
            decreases chars.len() - i,
        {
            i += 1;
        }
        let ghost fallback = match self.tail() {
            Some(p) => p,
            None => "stdin"@,
        };
        let (path, content) = if i < chars.len() {
            proof {
                assert(chars@[i as int] == ':');
                let k = first_colon(line@).unwrap();
                assert(first_colon(line@) == Some(k));
                assert(k == i) by {
                    if k < i {
                        assert(chars@[k] != ':');
                    } else if k > i {
                    }
                }
            }
            let before = slice_chars(&chars, 0, i);
            assert(before@ =~= line@.take(i as int));
            let is_path = has_char(&before, '/') || has_char(&before, '\\') || ends_with_chars(&before, ".log");
            if is_path {
                let rest = slice_chars(&chars, i + 1, chars.len());
                assert(rest@ =~= line@.skip(i + 1));
                (string_of(&before), string_of(&trim_start_chars(&rest)))
            } else {
                (self.fallback_path(), line.to_owned())
            }
        } else {
            assert(first_colon(line@) is None);
            (self.fallback_path(), line.to_owned())
        };
        if content.as_str().is_empty() {
            None
        } else {
            Some((path, content))
        }
    }

    /// The path of lines that name none: that of the last header, else
    /// `stdin`.
    fn fallback_path(&self) -> (res: String)
        ensures
            res@ == (match self.tail() {
                Some(p) => p,
                None => "stdin"@,
            }),
    {
        match &self.current_tail_path {
            Some(p) => p.clone(),
            None => "stdin".to_owned(),
        }
    }
}

// ---------------------------------------------------------------------------
// Followed files
// ---------------------------------------------------------------------------

/// Whether a file at `path` is one to follow: its file name matches the
/// glob.
pub open spec fn follows(glob: Seq<char>, path: Seq<char>) -> bool {
    match path_file_name(path) {
        Some(n) => glob_matches(glob, n),
        None => false,
    }
}

/// Whether the file at `path` is one to follow.
pub fn should_follow(glob: &FileGlob, path: &str) -> (res: bool)
    ensures
        res == follows(glob.source(), path@),
{
    match file_name_of(path) {
        Some(name) => glob.matches_path(name.as_str()),
        None => false,
    }
}

/// The line to send for a line read from a followed file: blank lines are
/// skipped, and trailing white space (the line break among it) is dropped.
pub open spec fn followed_line(raw: Seq<char>) -> Option<Seq<char>> {
    if trim(raw).len() == 0 {
        None
    } else {
        Some(trim_end(raw))
    }
}

/// The line to send for a line read from a followed file, if any.
pub fn line_to_send(raw: &str) -> (res: Option<String>)
    ensures
        crate::paths::opt_view(res) == followed_line(raw@),
{
    let chars = chars_of(raw);
    let t = trim_chars(&chars);
    if t.len() == 0 {
        None
    } else {
        Some(string_of(&trim_end_chars(&chars)))
    }
}

/// What to do when a followed file changes.
pub enum ChangeAction {
    /// A file not followed yet: start at its current end, so only what is
    /// appended from now on is shown.
    Start,
    /// Read what was appended from `pos` on; `reopen` when the file shrank
    /// below the last position (it was rotated), in which case `pos` is 0.
    ReadFrom { pos: u64, reopen: bool },
}

/// The files being followed and how far each has been read.
pub struct FileTracker {
    positions: Vec<(String, u64)>,
}

/// The position recorded for `path` among `v`, if any.
pub open spec fn position_in(v: Seq<(Seq<char>, u64)>, path: Seq<char>) -> Option<u64>
    decreases v.len(),
{
    if v.len() == 0 {
        None
    } else if v.last().0 == path {
        Some(v.last().1)
    } else {
        position_in(v.drop_last(), path)
    }
}

/// The action a change of `path`, now `size` bytes long, calls for.
pub open spec fn change_spec(known: Option<u64>, size: u64) -> ChangeAction {
    match known {
        None => ChangeAction::Start,
        Some(pos) => if size < pos {
            ChangeAction::ReadFrom { pos: 0, reopen: true }
        } else {
            ChangeAction::ReadFrom { pos, reopen: false }
        },
    }
}

impl FileTracker {
    /// Paths and positions, as a model.
    pub closed spec fn entries(&self) -> Seq<(Seq<char>, u64)> {
        self.positions@.map_values(|e: (String, u64)| (e.0@, e.1))
    }

    /// How far `path` has been read, if it is followed.
    pub open spec fn position(&self, path: Seq<char>) -> Option<u64> {
        position_in(self.entries(), path)
    }

    /// A tracker that follows nothing yet.
    pub fn new() -> (res: FileTracker)
        ensures
            forall|p: Seq<char>| res.position(p) is None,
    {
        let res = FileTracker { positions: Vec::new() };
        assert(res.entries() =~= Seq::<(Seq<char>, u64)>::empty());
        res
    }

    /// Where `path` stands, if it is followed.
    fn find(&self, path: &str) -> (res: Option<usize>)
        ensures
            match res {
                Some(i) => i < self.entries().len() && self.entries()[i as int].0 == path@
                    && self.position(path@) == Some(self.entries()[i as int].1)
                    && forall|j: int| i < j < self.entries().len() ==> self.entries()[j].0 != path@,
                None => self.position(path@) is None,
            },
    {
        let ghost e = self.entries();
        let p = chars_of(path);
        let mut i = self.positions.len();
        assert(e.take(i as int) =~= e);
        while i > 0
            invariant
                i <= self.positions.len(),
                e == self.entries(),
                p@ == path@,
                position_in(e, path@) == position_in(e.take(i as int), path@),
                forall|j: int| i <= j < e.len() ==> e[j].0 != path@,
            decreases i,
        {
            let q = chars_of(self.positions[i - 1].0.as_str());
            assert(e.take(i as int).drop_last() =~= e.take(i - 1));
            if crate::text::seq_eq(&q, &p) {
                return Some(i - 1);
            }
            i -= 1;
        }
        None
    }

    /// What a change of `path`, now `size` bytes long, calls for.
    pub fn on_change(&self, path: &str, size: u64) -> (res: ChangeAction)
        ensures
            res == change_spec(self.position(path@), size),
    {
        match self.find(path) {
            None => ChangeAction::Start,
            Some(i) => {
                let pos = self.positions[i].1;
                if size < pos {
                    ChangeAction::ReadFrom { pos: 0, reopen: true }
                } else {
                    ChangeAction::ReadFrom { pos, reopen: false }
                }
            },
        }
    }

    /// Records that `path` has been read up to `pos`; a path not followed
    /// yet is followed from now on. Returns the notice shown when a file
    /// starts being followed.
    pub fn set_position(&mut self, path: &str, pos: u64) -> (res: Option<String>)
        ensures
            final(self).position(path@) == Some(pos),
            forall|p: Seq<char>| p != path@ ==> final(self).position(p) == old(self).position(p),
            match res {
                Some(n) => old(self).position(path@) is None && n@ == "Now watching: "@ + path@,
                None => old(self).position(path@) is Some,
            },
    {
        let ghost before = self.entries();
        match self.find(path) {
            Some(i) => {
                let name = self.positions[i].0.clone();
                self.positions.set(i, (name, pos));
                proof {
                    assert(self.entries() =~= before.update(i as int, (path@, pos)));
                    lemma_position_update(before, i as int, path@, pos);
                }
                None
            },
            None => {
                self.positions.push((path.to_owned(), pos));
                assert(self.entries() =~= before.push((path@, pos)));
                assert(before.push((path@, pos)).drop_last() =~= before);
                let mut note = "Now watching: ".to_owned();
                note.append(path);
                Some(note)
            },
        }
    }
}

/// Replacing the position of the entry that names `path` changes only the
/// position of `path`.
proof fn lemma_position_update(v: Seq<(Seq<char>, u64)>, i: int, path: Seq<char>, pos: u64)
    requires
        0 <= i < v.len(),
        v[i].0 == path,
        forall|j: int| i < j < v.len() ==> v[j].0 != path,
    ensures
        position_in(v.update(i, (path, pos)), path) == Some(pos),
        forall|p: Seq<char>| p != path ==> position_in(v.update(i, (path, pos)), p) == position_in(v, p),
    decreases v.len(),
{
    let w = v.update(i, (path, pos));
    if i == v.len() - 1 {
        assert(w.drop_last() =~= v.drop_last());
        assert(w.last() == (path, pos));
        assert(v.last().0 == path);
    } else {
        assert(w.drop_last() =~= v.drop_last().update(i, (path, pos)));
        assert(v.last().0 != path);
        assert(w.last() == v.last());
        lemma_position_update(v.drop_last(), i, path, pos);
    }
    assert forall|p: Seq<char>| p != path implies position_in(w, p) == position_in(v, p) by {
        assert(w.len() > 0 && v.len() > 0);
        if w.last().0 != p {
            assert(position_in(w, p) == position_in(w.drop_last(), p));
            assert(position_in(v, p) == position_in(v.drop_last(), p));
            if i < v.len() - 1 {
                assert(position_in(v.drop_last().update(i, (path, pos)), p) == position_in(v.drop_last(), p));
            }
        }
    }
}

/// Following a file reads each byte once: a file seen for the first time
/// is followed from its end, so nothing written before is shown; a file
/// that grew is read from where the last read stopped; a file that shrank
/// below that point was rotated and is read again from its start.
pub proof fn law_follow_reads_only_new_content(known: Option<u64>, size: u64)
    ensures
        known is None ==> change_spec(known, size) is Start,
        known matches Some(pos) ==> (size >= pos ==> change_spec(known, size) == (ChangeAction::ReadFrom {
            pos,
            reopen: false,
        })),
        known matches Some(pos) ==> (size < pos ==> change_spec(known, size) == (ChangeAction::ReadFrom {
            pos: 0,
            reopen: true,
        })),
{
}

/// How a piped line is split: a line with no colon is content under the
/// current `tail` path (or `stdin`); when the text before the first colon
/// holds a slash or a backslash, that text is the path and the rest, with
/// leading white space dropped, is the content; when it holds neither and
/// does not end in `.log`, the whole line is content under the current
/// path.
pub proof fn law_stream_line_split(line: Seq<char>, tail: Option<Seq<char>>, i: int)
    ensures
        ({
            let fallback = match tail {
                Some(p) => p,
                None => "stdin"@,
            };
            &&& (forall|j: int| 0 <= j < line.len() ==> line[j] != ':') ==> stream_line(line, tail) == (
                fallback,
                line,
            )
            &&& (0 <= i < line.len() && line[i] == ':' && (forall|j: int| 0 <= j < i ==> line[j] != ':')) ==> {
                &&& (line.take(i).contains('/') || line.take(i).contains('\\')) ==> stream_line(line, tail) == (
                    line.take(i),
                    trim_start(line.skip(i + 1)),
                )
                &&& (!line.take(i).contains('/') && !line.take(i).contains('\\') && !(i >= 4 && line.subrange(
                    i - 4,
                    i,
                ) == ".log"@)) ==> stream_line(line, tail) == (fallback, line)
            }
        }),
{
    if 0 <= i < line.len() && line[i] == ':' && (forall|j: int| 0 <= j < i ==> line[j] != ':') {
        assert(exists|k: int| 0 <= k < line.len() && line[k] == ':');
        let k = first_colon(line).unwrap();
        assert(k == i) by {
            if k < i {
                assert(line[k] != ':');
            }
            if k > i {
                assert(line[i] != ':');
            }
        }
        let p = line.take(i);
        if i >= 4 {
            assert(p.skip(p.len() - 4) =~= line.subrange(i - 4, i));
        }
    }
}

} // verus!

//! Bounded ring buffer of every line seen, including lines the filters hid,
//! so a search can surface something the active filter would have dropped.

use vstd::prelude::*;
use std::collections::VecDeque;
use crate::level::LogLevel;
use crate::pattern::{LinePattern, regex_is_match};
use crate::stats::keep_last;
use crate::text::{chars_of, string_of};

verus! {

/// A retained line. Stores the fully rendered text so a search can match on
/// the timestamp and file path as well as the message body.
pub struct HistoryEntry {
    pub rendered: String,
    pub level: LogLevel,
}

/// An entry as a model: its text and severity.
pub type EntryModel = (Seq<char>, LogLevel);

/// The entries of `s` whose text the regex compiled from `pattern`
/// matches, in order.
pub open spec fn matching(s: Seq<EntryModel>, pattern: Seq<char>) -> Seq<EntryModel>
    decreases s.len(),
{
    if s.len() == 0 {
        s
    } else {
        let r = matching(s.drop_last(), pattern);
        if regex_is_match(pattern, s.last().0) {
            r.push(s.last())
        } else {
            r
        }
    }
}

/// The entries retained after offering `lines` in order to an empty
/// history of `limit` entries.
pub open spec fn retained(lines: Seq<EntryModel>, limit: nat) -> Seq<EntryModel> {
    if limit == 0 {
        Seq::empty()
    } else {
        keep_last(lines, limit)
    }
}

/// Bounded history of rendered lines.
pub struct History {
    entries: VecDeque<HistoryEntry>,
    limit: usize,
}

impl History {
    /// The retained entries as a model, oldest first.
    pub closed spec fn model(&self) -> Seq<EntryModel> {
        self.entries@.map_values(|e: HistoryEntry| (e.rendered@, e.level))
    }

    /// Most entries retained.
    pub closed spec fn capacity(&self) -> nat {
        self.limit as nat
    }

    /// Never more entries than the limit.
    pub open spec fn wf(&self) -> bool {
        self.model().len() <= self.capacity()
    }

    /// An empty history retaining at most `limit` lines (none when 0).
    pub fn new(limit: usize) -> (res: History)
        ensures
            res.wf(),
            res.model() == Seq::<EntryModel>::empty(),
            res.capacity() == limit,
    {
        let res = History { entries: VecDeque::new(), limit };
        assert(res.model() =~= Seq::<EntryModel>::empty());
        res
    }

    /// Whether lines are retained at all.
    pub fn is_enabled(&self) -> (res: bool)
        ensures
            res == (self.capacity() > 0),
    {
        self.limit > 0
    }

    /// Most lines retained.
    pub fn limit(&self) -> (res: usize)
        ensures
            res == self.capacity(),
    {
        self.limit
    }

    /// Number of retained lines.
    pub fn len(&self) -> (res: usize)
        ensures
            res == self.model().len(),
    {
        self.entries.len()
    }

    /// The retained entries, oldest first.
    pub fn entries(&self) -> (res: &VecDeque<HistoryEntry>)
        ensures
            res@.map_values(|e: HistoryEntry| (e.rendered@, e.level)) == self.model(),
    {
        &self.entries
    }

    /// Retains a line, dropping the oldest ones once the limit is reached.
    /// Does nothing when history is disabled.
    pub fn push(&mut self, rendered: &str, level: LogLevel)
        requires
            old(self).wf(),
        ensures
            final(self).wf(),
            final(self).capacity() == old(self).capacity(),
            final(self).model() == if old(self).capacity() == 0 {
                old(self).model()
            } else {
                keep_last(old(self).model().push((rendered@, level)), old(self).capacity())
            },
    {
        if !self.is_enabled() {
            return;
        }
        let ghost m = self.model();
        while self.entries.len() >= self.limit
            invariant
                self.limit > 0,
                self.limit == old(self).limit,
                m == old(self).model(),
                m.len() <= self.limit,
                self.model() == m.skip(m.len() - self.entries.len()),
                self.entries.len() <= m.len(),
                m.len() - self.entries.len() <= 1,
                self.entries.len() < m.len() ==> m.len() == self.limit,
            decreases self.entries.len(),
        {
            let ghost before = self.model();
            let ghost blen = self.entries.len();
            assert(before == m.skip(m.len() - blen));
            self.entries.pop_front();
            assert(self.model() =~= before.subrange(1, before.len() as int));
            assert(self.model() =~= m.skip(m.len() - self.entries.len()));
        }
        let ghost mid = self.model();
        let ghost k = m.len() - self.entries.len();
        assert(mid == m.skip(k));
        let text = string_of(&chars_of(rendered));
        self.entries.push_back(HistoryEntry { rendered: text, level });
        proof {
            let p = m.push((rendered@, level));
            assert(self.model() =~= mid.push((rendered@, level)));
            if m.len() < self.limit {
                assert(k == 0);
                assert(self.model() =~= p);
            } else {
                assert(k == 1);
                assert(self.model() =~= p.skip(1));
            }
            assert(self.model() =~= keep_last(p, self.limit as nat));
        }
    }

    /// The retained entries whose rendered text the pattern matches, oldest
    /// first.
    pub fn search(&self, pattern: &LinePattern) -> (res: Vec<&HistoryEntry>)
        ensures
            res@.map_values(|e: &HistoryEntry| (e.rendered@, e.level)) == matching(self.model(), pattern.source()),
    {
        let ghost m = self.model();
        let mut out: Vec<&HistoryEntry> = Vec::new();
        let mut i: usize = 0;
        while i < self.entries.len()
            invariant
                m == self.model(),
                i <= self.entries.len(),
                out@.map_values(|e: &HistoryEntry| (e.rendered@, e.level)) == matching(m.take(i as int), pattern.source()),
            decreases self.entries.len() - i,
        {
            let e = &self.entries[i];
            assert(m.take(i + 1).drop_last() =~= m.take(i as int));
            assert(m[i as int] == (e.rendered@, e.level));
            if pattern.is_match(e.rendered.as_str()) {
                out.push(e);
            }
            i += 1;
            assert(out@.map_values(|e: &HistoryEntry| (e.rendered@, e.level)) =~= matching(m.take(i as int), pattern.source()));
        }
        assert(m.take(self.entries.len() as int) =~= m);
        out
    }
}

/// Pushing lines one at a time keeps exactly the last `limit` of them: the
/// history after any sequence of pushes into an empty history is
/// `retained(lines, limit)`, and one more push extends it the same way.
pub proof fn law_history_keeps_last(lines: Seq<EntryModel>, x: EntryModel, limit: nat)
    ensures
        (if limit == 0 {
            retained(lines, limit)
        } else {
            keep_last(retained(lines, limit).push(x), limit)
        }) == retained(lines.push(x), limit),
        retained(lines, limit).len() <= limit,
{
    if limit > 0 {
        let r = retained(lines, limit);
        let p = lines.push(x);
        if lines.len() + 1 <= limit {
            assert(r.push(x) =~= p);
        } else if lines.len() <= limit {
            assert(keep_last(r.push(x), limit) =~= keep_last(p, limit));
        } else {
            assert(keep_last(r.push(x), limit) =~= keep_last(p, limit));
        }
    }
}

/// The history holds the newest lines, in arrival order: as many as were
/// offered up to the limit (none with a limit of 0), and they are the last
/// ones offered.
pub proof fn law_history_holds_the_newest(lines: Seq<EntryModel>, limit: nat)
    ensures
        retained(lines, limit).len() == if limit == 0 {
            0
        } else if lines.len() <= limit {
            lines.len() as int
        } else {
            limit as int
        },
        forall|i: int|
            0 <= i < retained(lines, limit).len() ==> #[trigger] retained(lines, limit)[i] == lines[lines.len()
                - retained(lines, limit).len() + i],
{
}

/// A search finds every retained line the pattern matches, and only such
/// lines, oldest first: exactly the lines the pattern matches, kept in
/// order.
pub proof fn law_search_finds_every_match(s: Seq<EntryModel>, pattern: Seq<char>)
    ensures
        matching(s, pattern) == s.filter(|e: EntryModel| regex_is_match(pattern, e.0)),
        forall|i: int|
            0 <= i < s.len() && regex_is_match(pattern, s[i].0) ==> matching(s, pattern).contains(#[trigger] s[i]),
        forall|x: EntryModel| #[trigger] matching(s, pattern).contains(x) ==> s.contains(x) && regex_is_match(pattern, x.0),
    decreases s.len(),
{
    reveal(Seq::filter);
    if s.len() > 0 {
        let t = s.drop_last();
        let e = s.last();
        law_search_finds_every_match(t, pattern);
        let u = matching(t, pattern);
        let r = matching(s, pattern);
        assert forall|i: int| 0 <= i < s.len() && regex_is_match(pattern, s[i].0) implies r.contains(#[trigger] s[i]) by {
            if i < s.len() - 1 {
                assert(s[i] == t[i]);
                assert(u.contains(t[i]));
                let k = choose|k: int| 0 <= k < u.len() && u[k] == t[i];
                if regex_is_match(pattern, e.0) {
                    assert(r[k] == u[k]);
                }
            } else {
                assert(r[r.len() - 1] == e);
            }
        }
        assert forall|x: EntryModel| #[trigger] r.contains(x) implies s.contains(x) && regex_is_match(pattern, x.0) by {
            let k = choose|k: int| 0 <= k < r.len() && r[k] == x;
            if regex_is_match(pattern, e.0) && k == r.len() - 1 {
                assert(s[s.len() - 1] == x);
            } else {
                assert(r[k] == u[k]);
                assert(u.contains(x));
                let a = choose|a: int| 0 <= a < t.len() && t[a] == x;
                assert(s[a] == x);
            }
        }
    }
}

} // verus!

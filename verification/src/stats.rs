//! Activity counters bucketed by arrival time. Feeds the `s` histogram and
//! the exit-time report. Bounded to `max_buckets` buckets, oldest dropped
//! first. Stores counts only, never the lines.

use vstd::prelude::*;
use crate::level::{LogLevel, level_index, LEVEL_COUNT};
use crate::order::{seq_lt, chars_lt, lemma_lt_total, lemma_lt_irreflexive, lemma_lt_transitive};
use crate::sums::{
    sum, all_nonneg, lemma_sum_concat, lemma_sum_singleton, lemma_sum_update,
    lemma_sum_take_next, lemma_sum_bounds,
};
use crate::text::{chars_of, seq_eq, string_of};

verus! {

/// One file's counts in a bucket, as a model: the display path and one
/// count per severity, in the fixed severity order.
pub type Row = (Seq<char>, Seq<u64>);

/// A bucket, as a model: one row per file, sorted by file name.
pub type BucketModel = Seq<Row>;

/// The retained buckets, as a model: `(bucket start, bucket)` pairs sorted
/// oldest first.
pub type StatsModel = Seq<(int, BucketModel)>;

// ---------------------------------------------------------------------------
// Model
// ---------------------------------------------------------------------------

/// Lines counted in one row.
pub open spec fn row_total(c: Seq<u64>) -> int {
    c[0] + c[1] + c[2] + c[3] + c[4] + c[5]
}

/// Per-row line counts of a bucket.
pub open spec fn row_totals(b: BucketModel) -> Seq<int> {
    b.map_values(|r: Row| row_total(r.1))
}

/// Lines counted in a bucket.
pub open spec fn bucket_total(b: BucketModel) -> int {
    sum(row_totals(b))
}

/// Per-row counts of one severity in a bucket.
pub open spec fn level_column(b: BucketModel, l: int) -> Seq<int> {
    b.map_values(|r: Row| r.1[l] as int)
}

/// Lines of severity `l` counted in a bucket.
pub open spec fn bucket_level(b: BucketModel, l: int) -> int {
    sum(level_column(b, l))
}

/// Every row has one count per severity, and file names are strictly
/// increasing (so each file has one row).
pub open spec fn files_sorted(b: BucketModel) -> bool {
    &&& forall|i: int| 0 <= i < b.len() ==> (#[trigger] b[i]).1.len() == LEVEL_COUNT
    &&& forall|i: int, j: int| 0 <= i < j < b.len() ==> seq_lt(b[i].0, b[j].0)
}

/// The counts of a file's first line, of severity `level`.
pub open spec fn unit_row(level: int) -> Seq<u64> {
    Seq::new(LEVEL_COUNT as nat, |i: int| if i == level { 1u64 } else { 0u64 })
}

/// A bucket after counting one more line of severity `level` from `file`:
/// the file's row gains one at `level`, or a new row is inserted in name
/// order.
pub open spec fn bucket_add(b: BucketModel, level: int, file: Seq<char>) -> BucketModel
    decreases b.len(),
{
    if b.len() == 0 {
        seq![(file, unit_row(level))]
    } else if b[0].0 == file {
        b.update(0, (file, b[0].1.update(level, (b[0].1[level] + 1) as u64)))
    } else if seq_lt(file, b[0].0) {
        seq![(file, unit_row(level))] + b
    } else {
        seq![b[0]] + bucket_add(b.drop_first(), level, file)
    }
}

/// Per-bucket line counts.
pub open spec fn bucket_totals(s: StatsModel) -> Seq<int> {
    s.map_values(|e: (int, BucketModel)| bucket_total(e.1))
}

/// Per-bucket counts of severity `l`.
pub open spec fn bucket_levels(s: StatsModel, l: int) -> Seq<int> {
    s.map_values(|e: (int, BucketModel)| bucket_level(e.1, l))
}

/// Lines counted across all retained buckets.
pub open spec fn stats_total(s: StatsModel) -> int {
    sum(bucket_totals(s))
}

/// Lines of severity `l` counted across all retained buckets.
pub open spec fn stats_level(s: StatsModel, l: int) -> int {
    sum(bucket_levels(s, l))
}

/// Bucket starts strictly increase and every bucket is well formed.
pub open spec fn stats_sorted(s: StatsModel) -> bool {
    &&& forall|i: int, j: int| 0 <= i < j < s.len() ==> s[i].0 < s[j].0
    &&& forall|i: int| 0 <= i < s.len() ==> files_sorted(#[trigger] s[i].1)
}

/// Start of the bucket holding a line seen at `epoch` seconds: the epoch
/// floored to a multiple of the interval.
pub open spec fn bucket_start(epoch: int, interval: int) -> int {
    (epoch / interval) * interval
}

/// The buckets after counting one line in the bucket starting at `key`:
/// that bucket gains the line, or a new bucket is inserted in start order.
pub open spec fn stats_add(s: StatsModel, key: int, level: int, file: Seq<char>) -> StatsModel
    decreases s.len(),
{
    if s.len() == 0 {
        seq![(key, bucket_add(Seq::empty(), level, file))]
    } else if s[0].0 == key {
        s.update(0, (key, bucket_add(s[0].1, level, file)))
    } else if key < s[0].0 {
        seq![(key, bucket_add(Seq::empty(), level, file))] + s
    } else {
        seq![s[0]] + stats_add(s.drop_first(), key, level, file)
    }
}

/// The last `n` elements of `s` (all of it when it is no longer).
pub open spec fn keep_last<T>(s: Seq<T>, n: nat) -> Seq<T> {
    if s.len() <= n {
        s
    } else {
        s.skip(s.len() - n)
    }
}

// ---------------------------------------------------------------------------
// Lemmas on the model
// ---------------------------------------------------------------------------

proof fn lemma_row_totals_nonneg(b: BucketModel)
    ensures
        all_nonneg(row_totals(b)),
{
}

proof fn lemma_sum_front(x: int, r: Seq<int>)
    ensures
        sum(seq![x] + r) == x + sum(r),
{
    lemma_sum_concat(seq![x], r);
    lemma_sum_singleton(x);
}

/// Counting a line adds one to the bucket total and to the line's severity.
pub proof fn lemma_bucket_add_counts(b: BucketModel, level: int, file: Seq<char>)
    requires
        0 <= level < LEVEL_COUNT,
        files_sorted(b),
        bucket_total(b) < u64::MAX,
    ensures
        bucket_total(bucket_add(b, level, file)) == bucket_total(b) + 1,
        forall|l: int|
            0 <= l < LEVEL_COUNT ==> #[trigger] bucket_level(bucket_add(b, level, file), l)
                == bucket_level(b, l) + if l == level {
                1int
            } else {
                0int
            },
    decreases b.len(),
{
    let r = bucket_add(b, level, file);
    let u = unit_row(level);
    assert(row_total(u) == 1);
    if b.len() == 0 {
        assert(row_totals(r) =~= seq![1int]);
        lemma_sum_singleton(1);
        assert(row_totals(b) =~= Seq::<int>::empty());
        assert forall|l: int| 0 <= l < LEVEL_COUNT implies #[trigger] bucket_level(r, l)
            == bucket_level(b, l) + if l == level {
            1int
        } else {
            0int
        } by {
            assert(level_column(r, l) =~= seq![u[l] as int]);
            lemma_sum_singleton(u[l] as int);
            assert(level_column(b, l) =~= Seq::<int>::empty());
        }
    } else if b[0].0 == file {
        let c = b[0].1;
        lemma_row_totals_nonneg(b);
        lemma_sum_bounds(row_totals(b), 0);
        assert(c[level] <= row_total(c));
        let c2 = c.update(level, (c[level] + 1) as u64);
        assert(row_total(c2) == row_total(c) + 1);
        assert(row_totals(r) =~= row_totals(b).update(0, row_total(c2)));
        lemma_sum_update(row_totals(b), 0, row_total(c2));
        assert forall|l: int| 0 <= l < LEVEL_COUNT implies #[trigger] bucket_level(r, l)
            == bucket_level(b, l) + if l == level {
            1int
        } else {
            0int
        } by {
            assert(level_column(r, l) =~= level_column(b, l).update(0, c2[l] as int));
            lemma_sum_update(level_column(b, l), 0, c2[l] as int);
        }
    } else if seq_lt(file, b[0].0) {
        assert(row_totals(r) =~= seq![1int] + row_totals(b));
        lemma_sum_front(1, row_totals(b));
        assert forall|l: int| 0 <= l < LEVEL_COUNT implies #[trigger] bucket_level(r, l)
            == bucket_level(b, l) + if l == level {
            1int
        } else {
            0int
        } by {
            assert(level_column(r, l) =~= seq![u[l] as int] + level_column(b, l));
            lemma_sum_front(u[l] as int, level_column(b, l));
        }
    } else {
        let t = b.drop_first();
        assert(files_sorted(t)) by {
            assert forall|i: int, j: int| 0 <= i < j < t.len() implies seq_lt(t[i].0, t[j].0) by {
                assert(t[i] == b[i + 1] && t[j] == b[j + 1]);
            }
            assert forall|i: int| 0 <= i < t.len() implies (#[trigger] t[i]).1.len()
                == LEVEL_COUNT by {
                assert(t[i] == b[i + 1]);
            }
        }
        assert(row_totals(b) =~= seq![row_total(b[0].1)] + row_totals(t));
        lemma_sum_front(row_total(b[0].1), row_totals(t));
        lemma_row_totals_nonneg(t);
        lemma_sum_bounds(row_totals(t), 0);
        assert(bucket_total(t) < u64::MAX) by {
            assert(row_total(b[0].1) >= 0);
        }
        lemma_bucket_add_counts(t, level, file);
        let rt = bucket_add(t, level, file);
        assert(row_totals(r) =~= seq![row_total(b[0].1)] + row_totals(rt));
        lemma_sum_front(row_total(b[0].1), row_totals(rt));
        assert forall|l: int| 0 <= l < LEVEL_COUNT implies #[trigger] bucket_level(r, l)
            == bucket_level(b, l) + if l == level {
            1int
        } else {
            0int
        } by {
            assert(level_column(r, l) =~= seq![b[0].1[l] as int] + level_column(rt, l));
            lemma_sum_front(b[0].1[l] as int, level_column(rt, l));
            assert(level_column(b, l) =~= seq![b[0].1[l] as int] + level_column(t, l));
            lemma_sum_front(b[0].1[l] as int, level_column(t, l));
            assert(bucket_level(rt, l) == bucket_level(t, l) + if l == level {
                1int
            } else {
                0int
            });
        }
    }
}

/// Every file named in a bucket after counting a line was named before, or
/// is the line's file.
proof fn lemma_bucket_add_files(b: BucketModel, level: int, file: Seq<char>, i: int)
    requires
        0 <= i < bucket_add(b, level, file).len(),
    ensures
        bucket_add(b, level, file)[i].0 == file || exists|j: int|
            0 <= j < b.len() && b[j].0 == #[trigger] bucket_add(b, level, file)[i].0,
    decreases b.len(),
{
    let r = bucket_add(b, level, file);
    if b.len() == 0 {
    } else if b[0].0 == file {
        if i != 0 {
            assert(r[i] == b[i]);
        }
    } else if seq_lt(file, b[0].0) {
        if i > 0 {
            assert(r[i] == b[i - 1]);
        }
    } else {
        if i == 0 {
            assert(r[0] == b[0]);
        } else {
            let t = b.drop_first();
            assert(r[i] == bucket_add(t, level, file)[i - 1]);
            lemma_bucket_add_files(t, level, file, i - 1);
            if bucket_add(t, level, file)[i - 1].0 != file {
                let j = choose|j: int|
                    0 <= j < t.len() && t[j].0 == #[trigger] bucket_add(t, level, file)[i
                        - 1].0;
                assert(b[j + 1] == t[j]);
            }
        }
    }
}

/// Counting a line keeps a bucket well formed.
pub proof fn lemma_bucket_add_sorted(b: BucketModel, level: int, file: Seq<char>)
    requires
        0 <= level < LEVEL_COUNT,
        files_sorted(b),
    ensures
        files_sorted(bucket_add(b, level, file)),
        bucket_add(b, level, file).len() <= b.len() + 1,
    decreases b.len(),
{
    let r = bucket_add(b, level, file);
    if b.len() == 0 {
    } else if b[0].0 == file {
        assert forall|i: int, j: int| 0 <= i < j < r.len() implies seq_lt(r[i].0, r[j].0) by {
            assert(r[i].0 == b[i].0 && r[j].0 == b[j].0);
        }
    } else if seq_lt(file, b[0].0) {
        assert forall|i: int, j: int| 0 <= i < j < r.len() implies seq_lt(r[i].0, r[j].0) by {
            if i == 0 {
                if j > 1 {
                    lemma_lt_transitive(file, b[0].0, b[j - 1].0);
                }
            } else {
                assert(r[i] == b[i - 1] && r[j] == b[j - 1]);
            }
        }
        assert forall|i: int| 0 <= i < r.len() implies (#[trigger] r[i]).1.len() == LEVEL_COUNT by {
            if i > 0 {
                assert(r[i] == b[i - 1]);
            }
        }
    } else {
        let t = b.drop_first();
        assert(files_sorted(t)) by {
            assert forall|i: int, j: int| 0 <= i < j < t.len() implies seq_lt(t[i].0, t[j].0) by {
                assert(t[i] == b[i + 1] && t[j] == b[j + 1]);
            }
            assert forall|i: int| 0 <= i < t.len() implies (#[trigger] t[i]).1.len()
                == LEVEL_COUNT by {
                assert(t[i] == b[i + 1]);
            }
        }
        lemma_bucket_add_sorted(t, level, file);
        lemma_lt_total(file, b[0].0);
        let rt = bucket_add(t, level, file);
        assert forall|i: int, j: int| 0 <= i < j < r.len() implies seq_lt(r[i].0, r[j].0) by {
            if i == 0 {
                assert(r[j] == rt[j - 1]);
                lemma_bucket_add_files(t, level, file, j - 1);
                if rt[j - 1].0 != file {
                    let k = choose|k: int| 0 <= k < t.len() && t[k].0 == #[trigger] rt[j - 1].0;
                    assert(b[k + 1] == t[k]);
                }
            } else {
                assert(r[i] == rt[i - 1] && r[j] == rt[j - 1]);
            }
        }
        assert forall|i: int| 0 <= i < r.len() implies (#[trigger] r[i]).1.len() == LEVEL_COUNT by {
            if i > 0 {
                assert(r[i] == rt[i - 1]);
            }
        }
    }
}

/// When every file before position `i` sorts before `file`, counting a line
/// leaves that prefix alone.
proof fn lemma_bucket_add_prefix(b: BucketModel, level: int, file: Seq<char>, i: int)
    requires
        0 <= i <= b.len(),
        forall|j: int| 0 <= j < i ==> seq_lt(#[trigger] b[j].0, file),
    ensures
        bucket_add(b, level, file) == b.take(i) + bucket_add(b.skip(i), level, file),
    decreases i,
{
    if i == 0 {
        assert(b.take(0) + bucket_add(b.skip(0), level, file) =~= bucket_add(b, level, file)) by {
            assert(b.skip(0) =~= b);
        }
    } else {
        let t = b.drop_first();
        assert(seq_lt(b[0].0, file));
        lemma_lt_irreflexive(file);
        lemma_lt_total(file, b[0].0);
        assert forall|j: int| 0 <= j < i - 1 implies seq_lt(#[trigger] t[j].0, file) by {
            assert(t[j] == b[j + 1]);
        }
        lemma_bucket_add_prefix(t, level, file, i - 1);
        assert(t.skip(i - 1) =~= b.skip(i));
        assert(bucket_add(b, level, file) =~= b.take(i) + bucket_add(b.skip(i), level, file));
    }
}

// ---------------------------------------------------------------------------
// One bucket
// ---------------------------------------------------------------------------

/// One file's counts in a bucket.
pub struct FileCounts {
    file: String,
    counts: [u64; 6],
}

impl FileCounts {
    /// The row this entry stands for.
    pub closed spec fn row(&self) -> Row {
        (self.file@, self.counts@)
    }

    /// The file's display path.
    pub fn file(&self) -> (res: &str)
        ensures
            res@ == self.row().0,
    {
        self.file.as_str()
    }

    /// The file's count of one severity.
    pub fn count(&self, level: LogLevel) -> (res: u64)
        requires
            self.row().1.len() == LEVEL_COUNT,
        ensures
            res == self.row().1[level_index(level)],
    {
        self.counts[level.index()]
    }
}

/// Counts for one time bucket, keyed by display path then by level.
pub struct StatsBucket {
    by_file: Vec<FileCounts>,
}

impl StatsBucket {
    /// The bucket as a model.
    pub closed spec fn model(&self) -> BucketModel {
        self.by_file@.map_values(|f: FileCounts| f.row())
    }

    /// Rows are sorted by file name and the total fits in a `u64`.
    pub open spec fn wf(&self) -> bool {
        files_sorted(self.model()) && bucket_total(self.model()) <= u64::MAX
    }

    /// An empty bucket.
    pub fn new() -> (res: StatsBucket)
        ensures
            res.wf(),
            res.model() == Seq::<Row>::empty(),
    {
        let res = StatsBucket { by_file: Vec::new() };
        assert(res.model() =~= Seq::<Row>::empty());
        assert(row_totals(res.model()) =~= Seq::<int>::empty());
        res
    }

    /// Number of files with lines in this bucket.
    pub fn file_count(&self) -> (res: usize)
        ensures
            res == self.model().len(),
    {
        self.by_file.len()
    }

    /// The entry of the `i`-th file, in name order.
    pub fn file_at(&self, i: usize) -> (res: &FileCounts)
        requires
            i < self.model().len(),
        ensures
            res.row() == self.model()[i as int],
    {
        &self.by_file[i]
    }

    /// Counts one line of severity `level` from `file`.
    pub fn record(&mut self, level: LogLevel, file: &str)
        requires
            old(self).wf(),
            bucket_total(old(self).model()) < u64::MAX,
        ensures
            final(self).wf(),
            final(self).model() == bucket_add(old(self).model(), level_index(level), file@),
            bucket_total(final(self).model()) == bucket_total(old(self).model()) + 1,
    {
        let ghost b = self.model();
        let li = level.index();
        let fchars = chars_of(file);
        proof {
            lemma_bucket_add_counts(b, li as int, file@);
            lemma_bucket_add_sorted(b, li as int, file@);
        }
        let n = self.by_file.len();
        let mut i: usize = 0;
        while i < n
            invariant
                n == self.by_file.len(),
                i <= n,
                b == self.model(),
                b == old(self).model(),
                li == level_index(level),
                li < LEVEL_COUNT,
                files_sorted(b),
                bucket_total(b) < u64::MAX,
                fchars@ == file@,
                forall|j: int| 0 <= j < i ==> seq_lt(#[trigger] b[j].0, file@),
            ensures
                i <= n,
                i < n ==> seq_lt(file@, b[i as int].0),
                forall|j: int| 0 <= j < i ==> seq_lt(#[trigger] b[j].0, file@),
            decreases n - i,
        {
            let cur = chars_of(self.by_file[i].file.as_str());
            assert(cur@ == b[i as int].0);
            if seq_eq(&cur, &fchars) {
                proof {
                    lemma_bucket_add_counts(b, li as int, file@);
                    lemma_bucket_add_sorted(b, li as int, file@);
                    lemma_bucket_add_prefix(b, li as int, file@, i as int);
                    lemma_row_totals_nonneg(b);
                    lemma_sum_bounds(row_totals(b), i as int);
                }
                let mut counts = self.by_file[i].counts;
                assert(b[i as int].1 == counts@);
                assert(row_totals(b)[i as int] == row_total(counts@));
                assert(counts@[li as int] <= row_total(counts@)) by {
                    if li == 0 {} else if li == 1 {} else if li == 2 {} else if li == 3 {} else if li == 4 {} else {}
                }
                counts[li] = counts[li] + 1;
                let name = self.by_file[i].file.clone();
                self.by_file.set(i, FileCounts { file: name, counts });
                proof {
                    let s = b.skip(i as int);
                    assert(s[0] == b[i as int]);
                    assert(self.model() =~= b.take(i as int) + bucket_add(s, li as int, file@));
                }
                return;
            }
            if chars_lt(&fchars, &cur) {
                break;
            }
            proof {
                lemma_lt_total(file@, b[i as int].0);
            }
            i += 1;
        }
        proof {
            lemma_bucket_add_prefix(b, li as int, file@, i as int);
        }
        let mut counts: [u64; 6] = [0, 0, 0, 0, 0, 0];
        counts[li] = 1;
        let name = string_of(&fchars);
        self.by_file.insert(i, FileCounts { file: name, counts });
        proof {
            let s = b.skip(i as int);
            assert(counts@ =~= unit_row(li as int));
            if i < n {
                lemma_lt_irreflexive(file@);
                assert(s[0] == b[i as int]);
            }
            assert(self.model() =~= b.take(i as int) + bucket_add(s, li as int, file@));
        }
    }

    /// Lines counted in this bucket.
    pub fn total(&self) -> (res: u64)
        requires
            self.wf(),
        ensures
            res == bucket_total(self.model()),
    {
        let ghost t = row_totals(self.model());
        proof {
            lemma_row_totals_nonneg(self.model());
        }
        let mut acc: u64 = 0;
        let mut i: usize = 0;
        while i < self.by_file.len()
            invariant
                self.wf(),
                i <= self.by_file.len(),
                t == row_totals(self.model()),
                all_nonneg(t),
                acc == sum(t.take(i as int)),
            decreases self.by_file.len() - i,
        {
            let c = self.by_file[i].counts;
            proof {
                lemma_sum_take_next(t, i as int);
                lemma_sum_bounds(t, (i + 1) as int);
                assert(t[i as int] == row_total(c@));
            }
            acc = acc + c[0] + c[1] + c[2] + c[3] + c[4] + c[5];
            i += 1;
        }
        assert(t.take(self.by_file.len() as int) =~= t);
        acc
    }

    /// Per-level totals across every file in this bucket.
    pub fn by_level(&self) -> (res: [u64; 6])
        requires
            self.wf(),
        ensures
            forall|l: int| 0 <= l < LEVEL_COUNT ==> #[trigger] res@[l] == bucket_level(self.model(), l),
    {
        let ghost b = self.model();
        let ghost t = row_totals(b);
        proof {
            lemma_row_totals_nonneg(b);
        }
        let mut out: [u64; 6] = [0, 0, 0, 0, 0, 0];
        let mut i: usize = 0;
        while i < self.by_file.len()
            invariant
                self.wf(),
                b == self.model(),
                i <= self.by_file.len(),
                t == row_totals(b),
                all_nonneg(t),
                out@[0] + out@[1] + out@[2] + out@[3] + out@[4] + out@[5] == sum(t.take(i as int)),
                forall|l: int| 0 <= l < LEVEL_COUNT ==> #[trigger] out@[l] == sum(level_column(b, l).take(i as int)),
            decreases self.by_file.len() - i,
        {
            let c = self.by_file[i].counts;
            proof {
                lemma_sum_take_next(t, i as int);
                lemma_sum_bounds(t, (i + 1) as int);
                assert(t[i as int] == row_total(c@));
                assert forall|l: int| 0 <= l < LEVEL_COUNT implies sum(level_column(b, l).take(i + 1)) == sum(level_column(b, l).take(i as int)) + c@[l] by {
                    lemma_sum_take_next(level_column(b, l), i as int);
                }
            }
            out[0] = out[0] + c[0];
            out[1] = out[1] + c[1];
            out[2] = out[2] + c[2];
            out[3] = out[3] + c[3];
            out[4] = out[4] + c[4];
            out[5] = out[5] + c[5];
            i += 1;
        }
        proof {
            assert forall|l: int| 0 <= l < LEVEL_COUNT implies #[trigger] out@[l] == bucket_level(b, l) by {
                assert(level_column(b, l).take(b.len() as int) =~= level_column(b, l));
            }
        }
        out
    }
}

impl Default for StatsBucket {
    /// An empty bucket.
    fn default() -> (res: StatsBucket)
        ensures
            res.wf(),
            res.model() == Seq::<Row>::empty(),
    {
        StatsBucket::new()
    }
}


// ---------------------------------------------------------------------------
// Lemmas on the bucket sequence
// ---------------------------------------------------------------------------

proof fn lemma_bucket_totals_nonneg(s: StatsModel)
    ensures
        all_nonneg(bucket_totals(s)),
{
    assert forall|i: int| 0 <= i < s.len() implies 0 <= #[trigger] bucket_totals(s)[i] by {
        lemma_row_totals_nonneg(s[i].1);
        lemma_sum_bounds(row_totals(s[i].1), 0);
    }
}

/// Each bucket holds at most the lines of all buckets.
pub proof fn lemma_bucket_le_total(s: StatsModel, i: int)
    requires
        0 <= i < s.len(),
    ensures
        0 <= bucket_total(s[i].1) <= stats_total(s),
        0 <= stats_total(s),
{
    lemma_bucket_totals_nonneg(s);
    lemma_sum_bounds(bucket_totals(s), i);
    lemma_row_totals_nonneg(s[i].1);
    lemma_sum_bounds(row_totals(s[i].1), 0);
}

/// Each severity's count in a bucket is at most the bucket's total.
pub proof fn lemma_level_le_bucket(b: BucketModel, l: int)
    requires
        files_sorted(b),
        0 <= l < LEVEL_COUNT,
    ensures
        0 <= bucket_level(b, l) <= bucket_total(b),
    decreases b.len(),
{
    if b.len() == 0 {
        assert(level_column(b, l) =~= Seq::<int>::empty());
        assert(row_totals(b) =~= Seq::<int>::empty());
    } else {
        let t = b.drop_first();
        assert(files_sorted(t)) by {
            assert forall|i: int, j: int| 0 <= i < j < t.len() implies seq_lt(t[i].0, t[j].0) by {
                assert(t[i] == b[i + 1] && t[j] == b[j + 1]);
            }
            assert forall|i: int| 0 <= i < t.len() implies (#[trigger] t[i]).1.len()
                == LEVEL_COUNT by {
                assert(t[i] == b[i + 1]);
            }
        }
        lemma_level_le_bucket(t, l);
        assert(level_column(b, l) =~= seq![b[0].1[l] as int] + level_column(t, l));
        lemma_sum_front(b[0].1[l] as int, level_column(t, l));
        assert(row_totals(b) =~= seq![row_total(b[0].1)] + row_totals(t));
        lemma_sum_front(row_total(b[0].1), row_totals(t));
        let c = b[0].1;
        assert(c[l] <= row_total(c)) by {
            if l == 0 {} else if l == 1 {} else if l == 2 {} else if l == 3 {} else if l == 4 {} else {}
        }
    }
}

proof fn lemma_stats_front(e: (int, BucketModel), s: StatsModel)
    ensures
        stats_total(seq![e] + s) == bucket_total(e.1) + stats_total(s),
        forall|l: int| #[trigger] stats_level(seq![e] + s, l) == bucket_level(e.1, l) + stats_level(s, l),
{
    assert(bucket_totals(seq![e] + s) =~= seq![bucket_total(e.1)] + bucket_totals(s));
    lemma_sum_front(bucket_total(e.1), bucket_totals(s));
    assert forall|l: int| #[trigger] stats_level(seq![e] + s, l) == bucket_level(e.1, l) + stats_level(s, l) by {
        assert(bucket_levels(seq![e] + s, l) =~= seq![bucket_level(e.1, l)] + bucket_levels(s, l));
        lemma_sum_front(bucket_level(e.1, l), bucket_levels(s, l));
    }
}

proof fn lemma_stats_sorted_tail(s: StatsModel)
    requires
        stats_sorted(s),
        s.len() > 0,
    ensures
        stats_sorted(s.drop_first()),
        s == seq![s[0]] + s.drop_first(),
{
    let t = s.drop_first();
    assert forall|i: int, j: int| 0 <= i < j < t.len() implies t[i].0 < t[j].0 by {
        assert(t[i] == s[i + 1] && t[j] == s[j + 1]);
    }
    assert forall|i: int| 0 <= i < t.len() implies files_sorted(#[trigger] t[i].1) by {
        assert(t[i] == s[i + 1]);
    }
    assert(s =~= seq![s[0]] + t);
}

/// Counting a line adds one to the total and to the line's severity, and
/// keeps the buckets sorted.
pub proof fn lemma_stats_add_counts(s: StatsModel, key: int, level: int, file: Seq<char>)
    requires
        0 <= level < LEVEL_COUNT,
        stats_sorted(s),
        stats_total(s) < u64::MAX,
    ensures
        stats_total(stats_add(s, key, level, file)) == stats_total(s) + 1,
        forall|l: int|
            0 <= l < LEVEL_COUNT ==> #[trigger] stats_level(stats_add(s, key, level, file), l)
                == stats_level(s, l) + if l == level {
                1int
            } else {
                0int
            },
        stats_sorted(stats_add(s, key, level, file)),
        stats_add(s, key, level, file).len() <= s.len() + 1,
        forall|i: int| 0 <= i < stats_add(s, key, level, file).len() ==>
            #[trigger] stats_add(s, key, level, file)[i].0 == key
            || exists|j: int| 0 <= j < s.len() && s[j].0 == stats_add(s, key, level, file)[i].0,
    decreases s.len(),
{
    let r = stats_add(s, key, level, file);
    let e: BucketModel = Seq::empty();
    assert(row_totals(e) =~= Seq::<int>::empty());
    assert(files_sorted(e));
    assert forall|l: int| 0 <= l < LEVEL_COUNT implies #[trigger] bucket_level(e, l) == 0 by {
        assert(level_column(e, l) =~= Seq::<int>::empty());
    }
    lemma_bucket_add_counts(e, level, file);
    lemma_bucket_add_sorted(e, level, file);
    let emp: StatsModel = Seq::empty();
    assert(bucket_totals(emp) =~= Seq::<int>::empty());
    assert forall|l: int| #[trigger] stats_level(emp, l) == 0 by {
        assert(bucket_levels(emp, l) =~= Seq::<int>::empty());
    }
    if s.len() == 0 {
        assert(r == seq![(key, bucket_add(e, level, file))] + emp);
        lemma_stats_front((key, bucket_add(e, level, file)), emp);
    } else {
        lemma_stats_sorted_tail(s);
        let t = s.drop_first();
        lemma_stats_front(s[0], t);
        lemma_bucket_le_total(s, 0);
        if s[0].0 == key {
            lemma_bucket_add_counts(s[0].1, level, file);
            lemma_bucket_add_sorted(s[0].1, level, file);
            let nb = (key, bucket_add(s[0].1, level, file));
            assert(r =~= seq![nb] + t);
            lemma_stats_front(nb, t);
            assert forall|i: int| 0 <= i < r.len() implies #[trigger] r[i].0 == key || exists|j: int| 0 <= j < s.len() && s[j].0 == r[i].0 by {
                assert(s[i].0 == r[i].0);
            }
        } else if key < s[0].0 {
            let nb = (key, bucket_add(e, level, file));
            lemma_stats_front(nb, s);
            assert forall|i: int, j: int| 0 <= i < j < r.len() implies r[i].0 < r[j].0 by {
                if i > 0 {
                    assert(r[i] == s[i - 1]);
                }
                assert(r[j] == s[j - 1]);
            }
            assert forall|i: int| 0 <= i < r.len() implies files_sorted(#[trigger] r[i].1) by {
                if i > 0 {
                    assert(r[i] == s[i - 1]);
                }
            }
            assert forall|i: int| 0 <= i < r.len() implies #[trigger] r[i].0 == key || exists|j: int| 0 <= j < s.len() && s[j].0 == r[i].0 by {
                if i > 0 {
                    assert(s[i - 1].0 == r[i].0);
                }
            }
        } else {
            assert(stats_total(t) < u64::MAX);
            lemma_stats_add_counts(t, key, level, file);
            let rt = stats_add(t, key, level, file);
            assert(r == seq![s[0]] + rt);
            lemma_stats_front(s[0], rt);
            assert forall|i: int| 0 <= i < r.len() implies #[trigger] r[i].0 == key || exists|j: int| 0 <= j < s.len() && s[j].0 == r[i].0 by {
                if i > 0 {
                    assert(r[i] == rt[i - 1]);
                    if rt[i - 1].0 != key {
                        let j = choose|j: int| 0 <= j < t.len() && t[j].0 == rt[i - 1].0;
                        assert(s[j + 1] == t[j]);
                    }
                }
            }
            assert forall|i: int, j: int| 0 <= i < j < r.len() implies r[i].0 < r[j].0 by {
                if i == 0 {
                    assert(r[j] == rt[j - 1]);
                    if rt[j - 1].0 != key {
                        let k = choose|k: int| 0 <= k < t.len() && t[k].0 == rt[j - 1].0;
                        assert(s[k + 1] == t[k]);
                    }
                } else {
                    assert(r[i] == rt[i - 1] && r[j] == rt[j - 1]);
                }
            }
            assert forall|i: int| 0 <= i < r.len() implies files_sorted(#[trigger] r[i].1) by {
                if i > 0 {
                    assert(r[i] == rt[i - 1]);
                }
            }
        }
    }
}

/// When every bucket before position `i` starts before `key`, counting a
/// line leaves that prefix alone.
proof fn lemma_stats_add_prefix(s: StatsModel, key: int, level: int, file: Seq<char>, i: int)
    requires
        0 <= i <= s.len(),
        forall|j: int| 0 <= j < i ==> #[trigger] s[j].0 < key,
    ensures
        stats_add(s, key, level, file) == s.take(i) + stats_add(s.skip(i), key, level, file),
    decreases i,
{
    if i == 0 {
        assert(s.skip(0) =~= s);
        assert(s.take(0) + stats_add(s.skip(0), key, level, file) =~= stats_add(s, key, level, file));
    } else {
        let t = s.drop_first();
        assert(s[0].0 < key);
        assert forall|j: int| 0 <= j < i - 1 implies #[trigger] t[j].0 < key by {
            assert(t[j] == s[j + 1]);
        }
        lemma_stats_add_prefix(t, key, level, file, i - 1);
        assert(t.skip(i - 1) =~= s.skip(i));
        assert(stats_add(s, key, level, file) =~= s.take(i) + stats_add(s.skip(i), key, level, file));
    }
}

/// Dropping the oldest buckets keeps the rest sorted and never adds lines.
pub proof fn lemma_keep_last(s: StatsModel, n: nat)
    requires
        stats_sorted(s),
    ensures
        stats_sorted(keep_last(s, n)),
        stats_total(keep_last(s, n)) <= stats_total(s),
        keep_last(s, n).len() <= n,
        keep_last(s, n).len() <= s.len(),
        forall|i: int, j: int| 0 <= i < s.len() - keep_last(s, n).len() && 0 <= j < keep_last(s, n).len()
            ==> #[trigger] s[i].0 < #[trigger] keep_last(s, n)[j].0,
{
    if s.len() > n {
        let k = s.len() - n;
        let r = s.skip(k);
        assert forall|i: int, j: int| 0 <= i < j < r.len() implies r[i].0 < r[j].0 by {
            assert(r[i] == s[i + k] && r[j] == s[j + k]);
        }
        assert forall|i: int| 0 <= i < r.len() implies files_sorted(#[trigger] r[i].1) by {
            assert(r[i] == s[i + k]);
        }
        assert forall|i: int, j: int| 0 <= i < k && 0 <= j < r.len() implies #[trigger] s[i].0 < #[trigger] r[j].0 by {
            assert(r[j] == s[j + k]);
        }
        let m = bucket_totals(s);
        assert(m =~= m.take(k) + bucket_totals(r));
        lemma_sum_concat(m.take(k), bucket_totals(r));
        lemma_bucket_totals_nonneg(s);
        lemma_sum_bounds(m, k);
    }
}

// ---------------------------------------------------------------------------
// All buckets
// ---------------------------------------------------------------------------

/// A bucket and the epoch second it starts at.
pub struct BucketEntry {
    start: i64,
    bucket: StatsBucket,
}

impl BucketEntry {
    /// The entry as a model.
    pub closed spec fn model(&self) -> (int, BucketModel) {
        (self.start as int, self.bucket.model())
    }

    /// Epoch second the bucket starts at.
    pub fn start(&self) -> (res: i64)
        ensures
            res == self.model().0,
    {
        self.start
    }

    /// The bucket's counts.
    pub fn bucket(&self) -> (res: &StatsBucket)
        ensures
            res.model() == self.model().1,
    {
        &self.bucket
    }
}

/// Activity counters bucketed by arrival time.
pub struct Stats {
    interval_secs: i64,
    max_buckets: usize,
    buckets: Vec<BucketEntry>,
}

impl Stats {
    /// The retained buckets as a model, oldest first.
    pub closed spec fn model(&self) -> StatsModel {
        self.buckets@.map_values(|e: BucketEntry| e.model())
    }

    /// Bucket size in seconds.
    pub closed spec fn interval(&self) -> int {
        self.interval_secs as int
    }

    /// Most buckets retained.
    pub closed spec fn capacity(&self) -> nat {
        self.max_buckets as nat
    }

    /// Well formed: a positive interval and capacity, at most `capacity`
    /// buckets with strictly increasing starts, each sorted by file, and a
    /// total that fits in a `u64`.
    pub open spec fn wf(&self) -> bool {
        &&& self.interval() >= 1
        &&& self.capacity() >= 1
        &&& self.model().len() <= self.capacity()
        &&& stats_sorted(self.model())
        &&& stats_total(self.model()) <= u64::MAX
    }

    /// Empty statistics with `interval_secs`-second buckets, retaining at
    /// most `max_buckets` of them; both are raised to at least 1.
    pub fn new(interval_secs: i64, max_buckets: usize) -> (res: Stats)
        ensures
            res.wf(),
            res.model() == Seq::<(int, BucketModel)>::empty(),
            res.interval() == if interval_secs >= 1 { interval_secs as int } else { 1 },
            res.capacity() == if max_buckets >= 1 { max_buckets as nat } else { 1 },
    {
        let interval_secs = if interval_secs >= 1 { interval_secs } else { 1 };
        let max_buckets = if max_buckets >= 1 { max_buckets } else { 1 };
        let res = Stats { interval_secs, max_buckets, buckets: Vec::new() };
        assert(res.model() =~= Seq::<(int, BucketModel)>::empty());
        assert(bucket_totals(res.model()) =~= Seq::<int>::empty());
        res
    }

    /// Bucket size in seconds.
    pub fn interval_secs(&self) -> (res: i64)
        ensures
            res == self.interval(),
    {
        self.interval_secs
    }

    /// Most buckets retained.
    pub fn max_buckets(&self) -> (res: usize)
        ensures
            res == self.capacity(),
    {
        self.max_buckets
    }

    /// `epoch` modulo the interval, as a Euclidean remainder.
    fn euclid_rem(&self, epoch: i64) -> (res: i64)
        requires
            self.interval() >= 1,
        ensures
            res == (epoch as int) % self.interval(),
            0 <= res < self.interval(),
            (epoch as int) - res == bucket_start(epoch as int, self.interval()),
    {
        let i = self.interval_secs;
        let r: i64 = if epoch >= 0 {
            ((epoch as u64) % (i as u64)) as i64
        } else {
            let a: u128 = (0i128 - (epoch as i128)) as u128;
            let r0: u128 = a % (i as u128);
            if r0 == 0 {
                proof {
                    vstd::arithmetic::div_mod::lemma_fundamental_div_mod(a as int, i as int);
                    let q = (a as int) / (i as int);
                    assert((epoch as int) == (-q) * (i as int) + 0) by (nonlinear_arith)
                        requires
                            a as int == i * q + 0,
                            epoch as int == -(a as int),
                    ;
                    vstd::arithmetic::div_mod::lemma_fundamental_div_mod_converse(
                        epoch as int,
                        i as int,
                        -((a as int) / (i as int)),
                        0,
                    );
                }
                0
            } else {
                proof {
                    vstd::arithmetic::div_mod::lemma_fundamental_div_mod(a as int, i as int);
                    let q = (a as int) / (i as int);
                    assert((epoch as int) == (-q - 1) * (i as int) + ((i as int) - (r0 as int))) by (nonlinear_arith)
                        requires
                            a as int == i * q + r0,
                            epoch as int == -(a as int),
                    ;
                    vstd::arithmetic::div_mod::lemma_fundamental_div_mod_converse(
                        epoch as int,
                        i as int,
                        -q - 1,
                        (i as int) - (r0 as int),
                    );
                }
                ((i as u128) - r0) as i64
            }
        };
        proof {
            vstd::arithmetic::div_mod::lemma_fundamental_div_mod(epoch as int, i as int);
            assert(r as int == (epoch as int) % (i as int));
            assert((epoch as int) - (r as int) == ((epoch as int) / (i as int)) * (i as int)) by (nonlinear_arith)
                requires
                    epoch as int == (i as int) * ((epoch as int) / (i as int)) + (epoch as int) % (i as int),
                    r as int == (epoch as int) % (i as int),
            ;
        }
        r
    }

    /// Whether the start of the bucket of a line seen at `epoch` seconds
    /// fits in an `i64`.
    pub fn key_fits(&self, epoch: i64) -> (res: bool)
        requires
            self.interval() >= 1,
        ensures
            res == (bucket_start(epoch as int, self.interval()) >= i64::MIN),
    {
        let r = self.euclid_rem(epoch);
        (epoch as i128) - (r as i128) >= (i64::MIN as i128)
    }

    /// Floor a timestamp (epoch seconds) to the start of its bucket.
    pub fn bucket_key(&self, epoch: i64) -> (res: i64)
        requires
            self.interval() >= 1,
            bucket_start(epoch as int, self.interval()) >= i64::MIN,
        ensures
            res == bucket_start(epoch as int, self.interval()),
    {
        let r = self.euclid_rem(epoch);
        epoch - r
    }

    /// Counts one line of severity `level` from `file`, seen at `epoch`
    /// seconds, in its time bucket; drops the oldest bucket once more than
    /// `max_buckets` are held.
    #[verifier::spinoff_prover]
    #[verifier::rlimit(50)]
    pub fn record(&mut self, epoch: i64, level: LogLevel, file: &str)
        requires
            old(self).wf(),
            stats_total(old(self).model()) < u64::MAX,
            bucket_start(epoch as int, old(self).interval()) >= i64::MIN,
        ensures
            final(self).wf(),
            final(self).interval() == old(self).interval(),
            final(self).capacity() == old(self).capacity(),
            final(self).model() == keep_last(
                stats_add(
                    old(self).model(),
                    bucket_start(epoch as int, old(self).interval()),
                    level_index(level),
                    file@,
                ),
                old(self).capacity(),
            ),
    {
        let key = self.bucket_key(epoch);
        let ghost s = self.model();
        let li = level.index();
        proof {
            lemma_stats_add_counts(s, key as int, li as int, file@);
        }
        let ghost added = stats_add(s, key as int, li as int, file@);
        let n = self.buckets.len();
        let mut i: usize = 0;
        while i < n && self.buckets[i].start < key
            invariant
                n == self.buckets.len(),
                i <= n,
                s == self.model(),
                forall|j: int| 0 <= j < i ==> #[trigger] s[j].0 < key,
            decreases n - i,
        {
            i += 1;
        }
        proof {
            lemma_stats_add_prefix(s, key as int, li as int, file@, i as int);
        }
        if i < n && self.buckets[i].start == key {
            let mut entry = self.buckets.remove(i);
            proof {
                lemma_bucket_le_total(s, i as int);
                assert(entry.model() == s[i as int]);
            }
            entry.bucket.record(level, file);
            self.buckets.insert(i, entry);
            proof {
                let t = s.skip(i as int);
                assert(t[0] == s[i as int]);
                assert(self.model() =~= s.take(i as int) + stats_add(t, key as int, li as int, file@));
            }
        } else {
            let mut bucket = StatsBucket::new();
            proof {
                assert(row_totals(bucket.model()) =~= Seq::<int>::empty());
            }
            bucket.record(level, file);
            self.buckets.insert(i, BucketEntry { start: key, bucket });
            proof {
                let t = s.skip(i as int);
                if i < n {
                    assert(t[0] == s[i as int]);
                }
                assert(self.model() =~= s.take(i as int) + stats_add(t, key as int, li as int, file@));
            }
        }
        assert(self.model() == added);
        if self.buckets.len() > self.max_buckets {
            self.buckets.remove(0);
            proof {
                assert(self.model() =~= keep_last(added, self.max_buckets as nat));
            }
        }
        proof {
            lemma_keep_last(added, self.max_buckets as nat);
        }
    }
}


// ---------------------------------------------------------------------------
// Per-file totals
// ---------------------------------------------------------------------------

/// Per-row lines from `f` in one bucket (zero for other files' rows).
pub open spec fn file_rows(b: BucketModel, f: Seq<char>) -> Seq<int> {
    b.map_values(|r: Row| if r.0 == f { row_total(r.1) } else { 0 })
}

/// Lines from `f` in one bucket.
pub open spec fn file_in_bucket(b: BucketModel, f: Seq<char>) -> int {
    sum(file_rows(b, f))
}

/// Lines from `f` in each bucket.
pub open spec fn file_in_buckets(s: StatsModel, f: Seq<char>) -> Seq<int> {
    s.map_values(|e: (int, BucketModel)| file_in_bucket(e.1, f))
}

/// Lines from `f` across all retained buckets.
pub open spec fn file_total(s: StatsModel, f: Seq<char>) -> int {
    sum(file_in_buckets(s, f))
}

/// Some retained bucket has lines from `f`.
pub open spec fn file_seen(s: StatsModel, f: Seq<char>) -> bool {
    exists|i: int, j: int| 0 <= i < s.len() && 0 <= j < s[i].1.len() && #[trigger] s[i].1[j].0 == f
}

/// `a` is listed before `b` in the per-file summary: more lines first,
/// then by name.
pub open spec fn ranks_before(a: (Seq<char>, int), b: (Seq<char>, int)) -> bool {
    a.1 > b.1 || (a.1 == b.1 && seq_lt(a.0, b.0))
}

/// The views of a list of strings.
pub open spec fn names_of(v: Seq<String>) -> Seq<Seq<char>> {
    v.map_values(|x: String| x@)
}

/// Every file of the buckets before `i`, and of the rows before `k` in
/// bucket `i`, is in `n`.
pub open spec fn covered(n: Seq<Seq<char>>, s: StatsModel, i: int, k: int) -> bool {
    forall|x: int, y: int|
        #![trigger s[x].1[y]]
        0 <= x < s.len() && 0 <= y < s[x].1.len() && (x < i || (x == i && y < k)) ==> n.contains(
            s[x].1[y].0,
        )
}

proof fn lemma_covered_step(n0: Seq<Seq<char>>, n1: Seq<Seq<char>>, s: StatsModel, i: int, k: int)
    requires
        covered(n0, s, i, k),
        0 <= i < s.len(),
        0 <= k < s[i].1.len(),
        forall|e: Seq<char>| n0.contains(e) ==> n1.contains(e),
        n1.contains(s[i].1[k].0),
    ensures
        covered(n1, s, i, k + 1),
{
}

proof fn lemma_covered_next_bucket(n: Seq<Seq<char>>, s: StatsModel, i: int, k: int)
    requires
        covered(n, s, i, k),
        0 <= i < s.len(),
        k == s[i].1.len(),
    ensures
        covered(n, s, i + 1, 0),
{
}

/// A `(name, count)` list as a model.
pub open spec fn pairs_model(v: Seq<(String, u64)>) -> Seq<(Seq<char>, int)> {
    v.map_values(|p: (String, u64)| (p.0@, p.1 as int))
}

/// The per-file summary: one entry per file seen, with its line count,
/// ordered by count descending then name ascending.
pub open spec fn is_file_summary(s: StatsModel, r: Seq<(Seq<char>, int)>) -> bool {
    &&& forall|i: int| 0 <= i < r.len() ==> #[trigger] r[i].1 == file_total(s, r[i].0)
    &&& forall|i: int| 0 <= i < r.len() ==> file_seen(s, #[trigger] r[i].0)
    &&& forall|f: Seq<char>| file_seen(s, f) ==> exists|i: int| 0 <= i < r.len() && #[trigger] r[i].0 == f
    &&& forall|i: int, j: int| 0 <= i < j < r.len() ==> ranks_before(r[i], r[j])
}

proof fn lemma_sum_mono(a: Seq<int>, b: Seq<int>)
    requires
        a.len() == b.len(),
        forall|i: int| 0 <= i < a.len() ==> a[i] <= b[i],
    ensures
        sum(a) <= sum(b),
    decreases a.len(),
{
    if a.len() > 0 {
        assert forall|i: int| 0 <= i < a.len() - 1 implies a.drop_first()[i] <= b.drop_first()[i] by {
            assert(a[i + 1] <= b[i + 1]);
        }
        lemma_sum_mono(a.drop_first(), b.drop_first());
    }
}

/// A file's lines never exceed the total.
proof fn lemma_file_total_bounds(s: StatsModel, f: Seq<char>)
    ensures
        0 <= file_total(s, f) <= stats_total(s),
        forall|i: int| 0 <= i < s.len() ==> 0 <= #[trigger] file_in_buckets(s, f)[i],
{
    assert forall|i: int| 0 <= i < s.len() implies 0 <= #[trigger] file_in_buckets(s, f)[i]
        && file_in_buckets(s, f)[i] <= bucket_totals(s)[i] by {
        let b = s[i].1;
        let m = file_rows(b, f);
        assert(file_in_buckets(s, f)[i] == sum(m));
        assert(bucket_totals(s)[i] == sum(row_totals(b)));
        assert forall|k: int| 0 <= k < m.len() implies 0 <= #[trigger] m[k] && m[k] <= row_totals(b)[k] by {
            assert(row_totals(b)[k] == row_total(b[k].1));
        }
        lemma_sum_bounds(m, 0);
        lemma_sum_mono(m, row_totals(b));
    }
    lemma_sum_mono(file_in_buckets(s, f), bucket_totals(s));
    lemma_sum_bounds(file_in_buckets(s, f), 0);
}

/// Ranking is a strict order on entries with distinct names.
proof fn lemma_ranks_order(a: (Seq<char>, int), b: (Seq<char>, int), c: (Seq<char>, int))
    ensures
        a.0 != b.0 ==> ranks_before(a, b) || ranks_before(b, a),
        !(ranks_before(a, b) && ranks_before(b, a)),
        ranks_before(a, b) && ranks_before(b, c) ==> ranks_before(a, c),
        !ranks_before(a, a),
{
    lemma_lt_total(a.0, b.0);
    lemma_lt_irreflexive(a.0);
    if seq_lt(a.0, b.0) && seq_lt(b.0, c.0) {
        lemma_lt_transitive(a.0, b.0, c.0);
    }
}

/// Whether `a` is listed before `b`.
fn ranks_before_exec(a: &(String, u64), b: &(String, u64)) -> (res: bool)
    ensures
        res == ranks_before((a.0@, a.1 as int), (b.0@, b.1 as int)),
{
    if a.1 != b.1 {
        a.1 > b.1
    } else {
        let ca = chars_of(a.0.as_str());
        let cb = chars_of(b.0.as_str());
        chars_lt(&ca, &cb)
    }
}

/// Inserting `x` at the first position it ranks before keeps a ranked list
/// ranked.
proof fn lemma_insert_ranked(om: Seq<(Seq<char>, int)>, x: (Seq<char>, int), p: int)
    requires
        0 <= p <= om.len(),
        forall|i: int, j: int| 0 <= i < j < om.len() ==> ranks_before(om[i], om[j]),
        forall|j: int| 0 <= j < p ==> !ranks_before(x, #[trigger] om[j]),
        p < om.len() ==> ranks_before(x, om[p]),
        forall|j: int| 0 <= j < om.len() ==> (#[trigger] om[j]).0 != x.0,
    ensures
        forall|i: int, j: int| 0 <= i < j < om.insert(p, x).len() ==> ranks_before(om.insert(p, x)[i], om.insert(p, x)[j]),
{
    let nm = om.insert(p, x);
    assert forall|i: int, j: int| 0 <= i < j < nm.len() implies ranks_before(nm[i], nm[j]) by {
        if i < p && j == p {
            lemma_ranks_order(x, om[i], om[i]);
        } else if i == p && j > p {
            if j - 1 > p {
                lemma_ranks_order(x, om[p], om[j - 1]);
            }
        } else if i < p && j > p {
            assert(ranks_before(om[i], om[j - 1]));
        } else if j < p {
        } else {
            assert(ranks_before(om[i - 1], om[j - 1]));
        }
    }
}

/// Sorts `(name, count)` entries with distinct names by rank.
fn sort_by_rank(items: Vec<(String, u64)>) -> (res: Vec<(String, u64)>)
    requires
        forall|i: int, j: int| 0 <= i < j < items.len() ==> items@[i].0@ != items@[j].0@,
    ensures
        pairs_model(res@).to_set() == pairs_model(items@).to_set(),
        forall|i: int, j: int| 0 <= i < j < res.len() ==> ranks_before(pairs_model(res@)[i], pairs_model(res@)[j]),
{
    let ghost orig = items@;
    let ghost im = pairs_model(orig);
    let mut out: Vec<(String, u64)> = Vec::new();
    let mut rest = items;
    assert(pairs_model(out@).to_set() =~= im.skip(rest.len() as int).to_set());
    // Entries are taken from the back of `rest`.
    while rest.len() > 0
        invariant
            im == pairs_model(orig),
            orig.len() == out.len() + rest.len(),
            rest@ == orig.take(rest.len() as int),
            forall|i: int, j: int| 0 <= i < j < orig.len() ==> orig[i].0@ != orig[j].0@,
            pairs_model(out@).to_set() == im.skip(rest.len() as int).to_set(),
            forall|i: int, j: int| 0 <= i < j < out.len() ==> ranks_before(pairs_model(out@)[i], pairs_model(out@)[j]),
        decreases rest.len(),
    {
        let x = rest.pop().unwrap();
        let ghost k = rest.len() as int;
        let ghost om = pairs_model(out@);
        let ghost xm = (x.0@, x.1 as int);
        assert(im[k] == xm);
        let mut p: usize = 0;
        while p < out.len() && !ranks_before_exec(&x, &out[p])
            invariant
                p <= out.len(),
                om == pairs_model(out@),
                xm == (x.0@, x.1 as int),
                forall|j: int| 0 <= j < p ==> !ranks_before(xm, #[trigger] om[j]),
            decreases out.len() - p,
        {
            p += 1;
        }
        proof {
            assert forall|j: int| 0 <= j < om.len() implies (#[trigger] om[j]).0 != xm.0 by {
                assert(om.to_set().contains(om[j]));
                assert(im.skip(k + 1).to_set().contains(om[j]));
                let jj = choose|jj: int| 0 <= jj < im.skip(k + 1).len() && #[trigger] im.skip(k + 1)[jj] == om[j];
                assert(im.skip(k + 1)[jj] == im[k + 1 + jj]);
                assert(orig[k].0@ != orig[k + 1 + jj].0@);
            }
            lemma_insert_ranked(om, xm, p as int);
        }
        out.insert(p, x);
        proof {
            let nm = pairs_model(out@);
            assert(nm =~= om.insert(p as int, xm));
            assert(im.skip(k) =~= seq![xm] + im.skip(k + 1));
            assert(nm.to_set() =~= om.to_set().insert(xm)) by {
                assert forall|e| nm.to_set().contains(e) <==> om.to_set().insert(xm).contains(e) by {
                    if nm.to_set().contains(e) {
                        let i = choose|i: int| 0 <= i < nm.len() && #[trigger] nm[i] == e;
                        if i < p { assert(om[i] == e); } else if i > p { assert(om[i - 1] == e); }
                    }
                    if om.to_set().contains(e) {
                        let i = choose|i: int| 0 <= i < om.len() && #[trigger] om[i] == e;
                        if i < p { assert(nm[i] == e); } else { assert(nm[i + 1] == e); }
                    }
                    if e == xm {
                        assert(nm[p as int] == e);
                    }
                }
            }
            assert((seq![xm] + im.skip(k + 1)).to_set() =~= im.skip(k + 1).to_set().insert(xm)) by {
                let t = seq![xm] + im.skip(k + 1);
                assert forall|e| t.to_set().contains(e) <==> im.skip(k + 1).to_set().insert(xm).contains(e) by {
                    if t.to_set().contains(e) {
                        let i = choose|i: int| 0 <= i < t.len() && #[trigger] t[i] == e;
                        if i > 0 { assert(im.skip(k + 1)[i - 1] == e); }
                    }
                    if im.skip(k + 1).to_set().contains(e) {
                        let i = choose|i: int| 0 <= i < im.skip(k + 1).len() && #[trigger] im.skip(k + 1)[i] == e;
                        assert(t[i + 1] == e);
                    }
                    if e == xm {
                        assert(t[0] == e);
                    }
                }
            }
            assert(rest@ =~= orig.take(rest.len() as int));
        }
    }
    assert(im.skip(0) =~= im);
    out
}


impl Stats {
    /// Whether no line has been counted in the retained buckets.
    pub fn is_empty(&self) -> (res: bool)
        ensures
            res == (self.model().len() == 0),
    {
        self.buckets.len() == 0
    }

    /// Number of retained buckets.
    pub fn bucket_count(&self) -> (res: usize)
        ensures
            res == self.model().len(),
    {
        self.buckets.len()
    }

    /// The `i`-th retained bucket, oldest first.
    pub fn bucket_at(&self, i: usize) -> (res: &BucketEntry)
        requires
            i < self.model().len(),
        ensures
            res.model() == self.model()[i as int],
    {
        &self.buckets[i]
    }

    /// Start of every retained bucket, oldest first.
    pub fn bucket_starts(&self) -> (res: Vec<i64>)
        ensures
            res.len() == self.model().len(),
            forall|i: int| 0 <= i < res.len() ==> #[trigger] res@[i] == self.model()[i].0,
    {
        let mut out: Vec<i64> = Vec::new();
        let mut i: usize = 0;
        while i < self.buckets.len()
            invariant
                i <= self.buckets.len(),
                out.len() == i,
                forall|j: int| 0 <= j < i ==> #[trigger] out@[j] == self.model()[j].0,
            decreases self.buckets.len() - i,
        {
            out.push(self.buckets[i].start);
            i += 1;
        }
        out
    }

    /// Lines counted across all retained buckets.
    pub fn total_lines(&self) -> (res: u64)
        requires
            self.wf(),
        ensures
            res == stats_total(self.model()),
    {
        let ghost s = self.model();
        let ghost t = bucket_totals(s);
        proof {
            lemma_bucket_totals_nonneg(s);
        }
        let mut acc: u64 = 0;
        let mut i: usize = 0;
        while i < self.buckets.len()
            invariant
                self.wf(),
                s == self.model(),
                t == bucket_totals(s),
                all_nonneg(t),
                i <= self.buckets.len(),
                acc == sum(t.take(i as int)),
            decreases self.buckets.len() - i,
        {
            proof {
                lemma_sum_take_next(t, i as int);
                lemma_sum_bounds(t, (i + 1) as int);
                lemma_bucket_le_total(s, i as int);
                assert(self.buckets@[i as int].model() == s[i as int]);
            }
            let bt = self.buckets[i].bucket.total();
            acc = acc + bt;
            i += 1;
        }
        assert(t.take(self.buckets.len() as int) =~= t);
        acc
    }

    /// Per-level totals across all retained buckets.
    pub fn level_totals(&self) -> (res: [u64; 6])
        requires
            self.wf(),
        ensures
            forall|l: int| 0 <= l < LEVEL_COUNT ==> #[trigger] res@[l] == stats_level(self.model(), l),
    {
        let ghost s = self.model();
        let ghost t = bucket_totals(s);
        proof {
            lemma_bucket_totals_nonneg(s);
        }
        let mut out: [u64; 6] = [0, 0, 0, 0, 0, 0];
        let mut i: usize = 0;
        while i < self.buckets.len()
            invariant
                self.wf(),
                s == self.model(),
                t == bucket_totals(s),
                all_nonneg(t),
                i <= self.buckets.len(),
                forall|l: int| 0 <= l < LEVEL_COUNT ==> #[trigger] out@[l] == sum(bucket_levels(s, l).take(i as int)),
                forall|l: int| 0 <= l < LEVEL_COUNT ==> 0 <= #[trigger] out@[l] <= sum(t.take(i as int)),
            decreases self.buckets.len() - i,
        {
            proof {
                lemma_sum_take_next(t, i as int);
                lemma_sum_bounds(t, (i + 1) as int);
                lemma_bucket_le_total(s, i as int);
                assert(self.buckets@[i as int].model() == s[i as int]);
                assert forall|l: int| 0 <= l < LEVEL_COUNT implies sum(bucket_levels(s, l).take(i + 1)) == sum(bucket_levels(s, l).take(i as int)) + bucket_level(s[i as int].1, l) && 0 <= bucket_level(s[i as int].1, l) <= t[i as int] by {
                    lemma_sum_take_next(bucket_levels(s, l), i as int);
                    lemma_level_le_bucket(s[i as int].1, l);
                }
            }
            let lv = self.buckets[i].bucket.by_level();
            out[0] = out[0] + lv[0];
            out[1] = out[1] + lv[1];
            out[2] = out[2] + lv[2];
            out[3] = out[3] + lv[3];
            out[4] = out[4] + lv[4];
            out[5] = out[5] + lv[5];
            i += 1;
        }
        proof {
            assert forall|l: int| 0 <= l < LEVEL_COUNT implies #[trigger] out@[l] == stats_level(s, l) by {
                assert(bucket_levels(s, l).take(s.len() as int) =~= bucket_levels(s, l));
            }
        }
        out
    }

    /// Lines from the file named `name` across all retained buckets.
    fn file_total_of(&self, name: &Vec<char>) -> (res: u64)
        requires
            self.wf(),
        ensures
            res == file_total(self.model(), name@),
    {
        let ghost s = self.model();
        let ghost f = name@;
        let ghost t = file_in_buckets(s, f);
        proof {
            lemma_file_total_bounds(s, f);
            lemma_sum_bounds(t, 0);
        }
        let mut acc: u64 = 0;
        let mut i: usize = 0;
        while i < self.buckets.len()
            invariant
                self.wf(),
                s == self.model(),
                f == name@,
                t == file_in_buckets(s, f),
                all_nonneg(t),
                sum(t) <= u64::MAX,
                i <= self.buckets.len(),
                acc == sum(t.take(i as int)),
            decreases self.buckets.len() - i,
        {
            proof {
                lemma_sum_take_next(t, i as int);
                lemma_sum_bounds(t, (i + 1) as int);
                assert(self.buckets@[i as int].model() == s[i as int]);
            }
            let ghost b = s[i as int].1;
            let ghost m = file_rows(b, f);
            proof {
                assert(t[i as int] == sum(m));
                assert forall|k: int| 0 <= k < m.len() implies 0 <= #[trigger] m[k] by {}
            }
            let bucket = &self.buckets[i].bucket;
            let mut k: usize = 0;
            let mut part: u64 = 0;
            while k < bucket.by_file.len()
                invariant
                    b == bucket.model(),
                    m == file_rows(b, f),
                    f == name@,
                    all_nonneg(m),
                    k <= bucket.by_file.len(),
                    part == sum(m.take(k as int)),
                    acc + sum(m) <= u64::MAX,
                decreases bucket.by_file.len() - k,
            {
                proof {
                    lemma_sum_take_next(m, k as int);
                    lemma_sum_bounds(m, (k + 1) as int);
                }
                let row = &bucket.by_file[k];
                let cur = chars_of(row.file.as_str());
                if seq_eq(&cur, name) {
                    let c = row.counts;
                    assert(m[k as int] == row_total(c@));
                    part = part + c[0] + c[1] + c[2] + c[3] + c[4] + c[5];
                } else {
                    assert(m[k as int] == 0);
                }
                k += 1;
            }
            assert(m.take(b.len() as int) =~= m);
            acc = acc + part;
            i += 1;
        }
        assert(t.take(self.buckets.len() as int) =~= t);
        acc
    }

    /// Per-file totals across all retained buckets, highest first, ties by
    /// name.
    pub fn file_totals(&self) -> (res: Vec<(String, u64)>)
        requires
            self.wf(),
        ensures
            is_file_summary(self.model(), pairs_model(res@)),
    {
        let ghost s = self.model();
        let mut names: Vec<String> = Vec::new();
        let mut i: usize = 0;
        assert(names_of(names@) =~= Seq::<Seq<char>>::empty());
        while i < self.buckets.len()
            invariant
                s == self.model(),
                i <= self.buckets.len(),
                names_of(names@).no_duplicates(),
                forall|a: int| 0 <= a < names.len() ==> file_seen(s, #[trigger] names_of(names@)[a]),
                covered(names_of(names@), s, i as int, 0),
            decreases self.buckets.len() - i,
        {
            let bucket = &self.buckets[i].bucket;
            assert(self.buckets@[i as int].model() == s[i as int]);
            let mut k: usize = 0;
            while k < bucket.by_file.len()
                invariant
                    s == self.model(),
                    i < self.buckets.len(),
                    bucket.model() == s[i as int].1,
                    k <= bucket.by_file.len(),
                    names_of(names@).no_duplicates(),
                    forall|a: int| 0 <= a < names.len() ==> file_seen(s, #[trigger] names_of(names@)[a]),
                    covered(names_of(names@), s, i as int, k as int),
                decreases bucket.by_file.len() - k,
            {
                let file = &bucket.by_file[k].file;
                assert(file@ == s[i as int].1[k as int].0);
                let cur = chars_of(file.as_str());
                let mut j: usize = 0;
                let mut found = false;
                while j < names.len()
                    invariant
                        j <= names.len(),
                        cur@ == file@,
                        found ==> names_of(names@).contains(file@),
                        !found ==> forall|a: int| 0 <= a < j ==> names_of(names@)[a] != file@,
                    decreases names.len() - j,
                {
                    let other = chars_of(names[j].as_str());
                    if seq_eq(&other, &cur) {
                        found = true;
                        assert(names_of(names@)[j as int] == file@);
                    }
                    j += 1;
                }
                let ghost old_names = names_of(names@);
                if !found {
                    names.push(file.clone());
                    proof {
                        assert(names_of(names@) =~= old_names.push(file@));
                        assert(file_seen(s, file@)) by {
                            assert(s[i as int].1[k as int].0 == file@);
                        }
                        assert forall|a: int, b: int| 0 <= a < b < names_of(names@).len() implies names_of(names@)[a] != names_of(names@)[b] by {
                            if b == old_names.len() {
                                assert(names_of(names@)[a] == old_names[a]);
                            }
                        }
                        assert forall|a: int| 0 <= a < names.len() implies file_seen(s, #[trigger] names_of(names@)[a]) by {
                            if a < old_names.len() {
                                assert(names_of(names@)[a] == old_names[a]);
                            }
                        }
                        assert forall|e: Seq<char>| old_names.contains(e) implies names_of(names@).contains(e) by {
                            let q = choose|q: int| 0 <= q < old_names.len() && old_names[q] == e;
                            assert(names_of(names@)[q] == e);
                        }
                        assert(names_of(names@)[old_names.len() as int] == file@);
                        lemma_covered_step(old_names, names_of(names@), s, i as int, k as int);
                    }
                } else {
                    proof {
                        lemma_covered_step(old_names, old_names, s, i as int, k as int);
                    }
                }
                k += 1;
            }
            proof {
                lemma_covered_next_bucket(names_of(names@), s, i as int, k as int);
            }
            i += 1;
        }
        let mut items: Vec<(String, u64)> = Vec::new();
        let mut a: usize = 0;
        while a < names.len()
            invariant
                self.wf(),
                s == self.model(),
                a <= names.len(),
                items.len() == a,
                names_of(names@).no_duplicates(),
                forall|x: int| 0 <= x < names.len() ==> file_seen(s, #[trigger] names_of(names@)[x]),
                covered(names_of(names@), s, s.len() as int, 0),
                forall|x: int| 0 <= x < a ==> #[trigger] items@[x].0@ == names@[x]@,
                forall|x: int| 0 <= x < a ==> #[trigger] items@[x].1 == file_total(s, names@[x]@),
            decreases names.len() - a,
        {
            let nc = chars_of(names[a].as_str());
            let total = self.file_total_of(&nc);
            items.push((names[a].clone(), total));
            a += 1;
        }
        let ghost im = pairs_model(items@);
        proof {
            assert forall|y: int| 0 <= y < im.len() implies #[trigger] im[y].1 == file_total(s, im[y].0) && file_seen(s, im[y].0) && im[y].0 == names_of(names@)[y] by {
                assert(im[y] == (items@[y].0@, items@[y].1 as int));
                assert(names_of(names@)[y] == names@[y]@);
            }
            assert forall|x: int, y: int| 0 <= x < y < items.len() implies items@[x].0@ != items@[y].0@ by {
                assert(names_of(names@)[x] == names@[x]@ && names_of(names@)[y] == names@[y]@);
            }
        }
        let res = sort_by_rank(items);
        proof {
            let r = pairs_model(res@);
            assert forall|x: int| #![trigger r[x]] 0 <= x < r.len() implies r[x].1 == file_total(s, r[x].0) && file_seen(s, r[x].0) by {
                assert(r.to_set().contains(r[x]));
                assert(im.to_set().contains(r[x]));
                let y = choose|y: int| 0 <= y < im.len() && #[trigger] im[y] == r[x];
                assert(im[y].1 == file_total(s, im[y].0));
            }
            assert forall|f: Seq<char>| file_seen(s, f) implies exists|x: int| 0 <= x < r.len() && #[trigger] r[x].0 == f by {
                let (bx, by) = choose|bx: int, by: int| 0 <= bx < s.len() && 0 <= by < s[bx].1.len() && #[trigger] s[bx].1[by].0 == f;
                assert(names_of(names@).contains(s[bx].1[by].0));
                let na = choose|na: int| 0 <= na < names.len() && #[trigger] names_of(names@)[na] == f;
                assert(im[na].0 == f);
                assert(im.to_set().contains(im[na]));
                assert(r.to_set().contains(im[na]));
                let x = choose|x: int| 0 <= x < r.len() && #[trigger] r[x] == im[na];
            }
            assert(forall|i: int| 0 <= i < r.len() ==> #[trigger] r[i].1 == file_total(s, r[i].0));
            assert(forall|i: int| 0 <= i < r.len() ==> file_seen(s, #[trigger] r[i].0));
            assert(forall|i: int, j: int| 0 <= i < j < r.len() ==> ranks_before(r[i], r[j]));
        }
        res
    }
}


// ---------------------------------------------------------------------------
// Laws
// ---------------------------------------------------------------------------

proof fn lemma_bucket_levels_sum(b: BucketModel)
    requires
        files_sorted(b),
    ensures
        bucket_total(b) == bucket_level(b, 0) + bucket_level(b, 1) + bucket_level(b, 2)
            + bucket_level(b, 3) + bucket_level(b, 4) + bucket_level(b, 5),
    decreases b.len(),
{
    if b.len() == 0 {
        assert(row_totals(b) =~= Seq::<int>::empty());
        assert forall|l: int| #[trigger] bucket_level(b, l) == 0 by {
            assert(level_column(b, l) =~= Seq::<int>::empty());
        }
    } else {
        let t = b.drop_first();
        assert(files_sorted(t)) by {
            assert forall|i: int, j: int| 0 <= i < j < t.len() implies seq_lt(t[i].0, t[j].0) by {
                assert(t[i] == b[i + 1] && t[j] == b[j + 1]);
            }
            assert forall|i: int| 0 <= i < t.len() implies (#[trigger] t[i]).1.len()
                == LEVEL_COUNT by {
                assert(t[i] == b[i + 1]);
            }
        }
        lemma_bucket_levels_sum(t);
        assert(row_totals(b) =~= seq![row_total(b[0].1)] + row_totals(t));
        lemma_sum_front(row_total(b[0].1), row_totals(t));
        assert forall|l: int| #[trigger] bucket_level(b, l) == b[0].1[l] + bucket_level(t, l) by {
            assert(level_column(b, l) =~= seq![b[0].1[l] as int] + level_column(t, l));
            lemma_sum_front(b[0].1[l] as int, level_column(t, l));
        }
    }
}

/// The per-severity totals add up to the line total: every counted line
/// has exactly one severity.
pub proof fn law_levels_partition_total(s: StatsModel)
    requires
        stats_sorted(s),
    ensures
        stats_total(s) == stats_level(s, 0) + stats_level(s, 1) + stats_level(s, 2)
            + stats_level(s, 3) + stats_level(s, 4) + stats_level(s, 5),
    decreases s.len(),
{
    if s.len() == 0 {
        assert(bucket_totals(s) =~= Seq::<int>::empty());
        assert forall|l: int| #[trigger] stats_level(s, l) == 0 by {
            assert(bucket_levels(s, l) =~= Seq::<int>::empty());
        }
    } else {
        lemma_stats_sorted_tail(s);
        let t = s.drop_first();
        law_levels_partition_total(t);
        lemma_stats_front(s[0], t);
        lemma_bucket_levels_sum(s[0].1);
    }
}

/// Lines from each of the files `names` in one bucket.
pub open spec fn bucket_by_names(b: BucketModel, names: Seq<Seq<char>>) -> Seq<int> {
    names.map_values(|f: Seq<char>| file_in_bucket(b, f))
}

/// Lines from each of the files `names` across the retained buckets.
pub open spec fn totals_by_names(s: StatsModel, names: Seq<Seq<char>>) -> Seq<int> {
    names.map_values(|f: Seq<char>| file_total(s, f))
}

/// `t` at the position of `x` among `names`, zero elsewhere.
spec fn indicator(names: Seq<Seq<char>>, x: Seq<char>, t: int) -> Seq<int> {
    names.map_values(|f: Seq<char>| if f == x { t } else { 0 })
}

/// Sums add pointwise.
proof fn lemma_sum_pointwise(a: Seq<int>, b: Seq<int>)
    requires
        a.len() == b.len(),
    ensures
        sum(Seq::new(a.len(), |i: int| a[i] + b[i])) == sum(a) + sum(b),
    decreases a.len(),
{
    if a.len() > 0 {
        let c = Seq::new(a.len(), |i: int| a[i] + b[i]);
        lemma_sum_pointwise(a.drop_first(), b.drop_first());
        assert(c.drop_first() =~= Seq::new(
            a.drop_first().len(),
            |i: int| a.drop_first()[i] + b.drop_first()[i],
        ));
    }
}

/// A sequence of zeros sums to zero.
proof fn lemma_sum_zeros(a: Seq<int>)
    requires
        forall|i: int| 0 <= i < a.len() ==> a[i] == 0,
    ensures
        sum(a) == 0,
    decreases a.len(),
{
    if a.len() > 0 {
        lemma_sum_zeros(a.drop_first());
    }
}

/// Over distinct names, a value placed at one name sums to that value,
/// or to zero when the name is absent.
proof fn lemma_sum_indicator(names: Seq<Seq<char>>, x: Seq<char>, t: int)
    requires
        names.no_duplicates(),
    ensures
        sum(indicator(names, x, t)) == if names.contains(x) { t } else { 0 },
    decreases names.len(),
{
    if names.len() > 0 {
        let rest = names.drop_first();
        assert(rest.no_duplicates()) by {
            assert forall|i: int, j: int| 0 <= i < rest.len() && 0 <= j < rest.len() && i != j implies rest[i]
                != rest[j] by {
                assert(rest[i] == names[i + 1] && rest[j] == names[j + 1]);
            }
        }
        lemma_sum_indicator(rest, x, t);
        assert(indicator(names, x, t).drop_first() =~= indicator(rest, x, t));
        if names[0] == x {
            assert(!rest.contains(x)) by {
                if rest.contains(x) {
                    let j = choose|j: int| 0 <= j < rest.len() && rest[j] == x;
                    assert(names[j + 1] == names[0]);
                }
            }
        } else {
            assert(names.contains(x) == rest.contains(x)) by {
                if names.contains(x) {
                    let j = choose|j: int| 0 <= j < names.len() && names[j] == x;
                    assert(rest[j - 1] == x);
                }
                if rest.contains(x) {
                    let j = choose|j: int| 0 <= j < rest.len() && rest[j] == x;
                    assert(names[j + 1] == x);
                }
            }
        }
    }
}

/// Summing a bucket file by file, over distinct names that cover its
/// files, gives the bucket total.
proof fn lemma_bucket_by_names(b: BucketModel, names: Seq<Seq<char>>)
    requires
        names.no_duplicates(),
        forall|j: int| 0 <= j < b.len() ==> names.contains(#[trigger] b[j].0),
    ensures
        sum(bucket_by_names(b, names)) == bucket_total(b),
    decreases b.len(),
{
    if b.len() == 0 {
        assert forall|i: int| 0 <= i < names.len() implies bucket_by_names(b, names)[i] == 0 by {
            assert(file_rows(b, names[i]) =~= Seq::<int>::empty());
        }
        lemma_sum_zeros(bucket_by_names(b, names));
        assert(row_totals(b) =~= Seq::<int>::empty());
    } else {
        let t = b.drop_first();
        let r = b[0];
        assert forall|j: int| 0 <= j < t.len() implies names.contains(#[trigger] t[j].0) by {
            assert(t[j] == b[j + 1]);
        }
        lemma_bucket_by_names(t, names);
        let ind = indicator(names, r.0, row_total(r.1));
        let rest = bucket_by_names(t, names);
        assert(bucket_by_names(b, names) =~= Seq::new(names.len(), |i: int| ind[i] + rest[i])) by {
            assert forall|i: int| 0 <= i < names.len() implies bucket_by_names(b, names)[i] == ind[i] + rest[i] by {
                let f = names[i];
                assert(file_rows(b, f) =~= seq![if r.0 == f { row_total(r.1) } else { 0 }] + file_rows(t, f));
                lemma_sum_front(if r.0 == f { row_total(r.1) } else { 0 }, file_rows(t, f));
            }
        }
        lemma_sum_pointwise(ind, rest);
        lemma_sum_indicator(names, r.0, row_total(r.1));
        assert(names.contains(b[0].0));
        assert(row_totals(b) =~= seq![row_total(r.1)] + row_totals(t));
        lemma_sum_front(row_total(r.1), row_totals(t));
    }
}

/// Summing the retained buckets file by file, over distinct names that
/// cover every file seen, gives the line total.
proof fn lemma_totals_by_names(s: StatsModel, names: Seq<Seq<char>>)
    requires
        names.no_duplicates(),
        forall|i: int, j: int| 0 <= i < s.len() && 0 <= j < s[i].1.len() ==> names.contains(#[trigger] s[i].1[j].0),
    ensures
        sum(totals_by_names(s, names)) == stats_total(s),
    decreases s.len(),
{
    if s.len() == 0 {
        assert forall|i: int| 0 <= i < names.len() implies totals_by_names(s, names)[i] == 0 by {
            assert(file_in_buckets(s, names[i]) =~= Seq::<int>::empty());
        }
        lemma_sum_zeros(totals_by_names(s, names));
        assert(bucket_totals(s) =~= Seq::<int>::empty());
    } else {
        let t = s.drop_first();
        let e = s[0];
        assert(s =~= seq![e] + t);
        assert forall|i: int, j: int| 0 <= i < t.len() && 0 <= j < t[i].1.len() implies names.contains(
            #[trigger] t[i].1[j].0,
        ) by {
            assert(t[i] == s[i + 1]);
        }
        lemma_totals_by_names(t, names);
        assert forall|j: int| 0 <= j < e.1.len() implies names.contains(#[trigger] e.1[j].0) by {
            assert(s[0].1[j].0 == e.1[j].0);
        }
        lemma_bucket_by_names(e.1, names);
        let first = bucket_by_names(e.1, names);
        let rest = totals_by_names(t, names);
        assert(totals_by_names(s, names) =~= Seq::new(names.len(), |i: int| first[i] + rest[i])) by {
            assert forall|i: int| 0 <= i < names.len() implies totals_by_names(s, names)[i] == first[i] + rest[i] by {
                let f = names[i];
                assert(file_in_buckets(s, f) =~= seq![file_in_bucket(e.1, f)] + file_in_buckets(t, f));
                lemma_sum_front(file_in_bucket(e.1, f), file_in_buckets(t, f));
            }
        }
        lemma_sum_pointwise(first, rest);
        lemma_stats_front(e, t);
    }
}

/// Every way of counting the retained lines agrees: the line total is the
/// sum of the bucket totals, of the per-severity totals, and of the counts
/// in the per-file summary; with no bucket retained it is zero.
pub proof fn law_totals_agree(s: StatsModel, files: Seq<(Seq<char>, int)>)
    requires
        stats_sorted(s),
        is_file_summary(s, files),
    ensures
        stats_total(s) == sum(bucket_totals(s)),
        stats_total(s) == stats_level(s, 0) + stats_level(s, 1) + stats_level(s, 2) + stats_level(s, 3)
            + stats_level(s, 4) + stats_level(s, 5),
        stats_total(s) == sum(files.map_values(|p: (Seq<char>, int)| p.1)),
        s.len() == 0 ==> stats_total(s) == 0,
{
    law_levels_partition_total(s);
    let names = files.map_values(|p: (Seq<char>, int)| p.0);
    assert(names.no_duplicates()) by {
        assert forall|i: int, j: int| 0 <= i < names.len() && 0 <= j < names.len() && i != j implies names[i]
            != names[j] by {
            if names[i] == names[j] {
                lemma_lt_irreflexive(names[i]);
                if i < j {
                    assert(ranks_before(files[i], files[j]));
                } else {
                    assert(ranks_before(files[j], files[i]));
                }
                assert(files[i].1 == file_total(s, files[i].0));
                assert(files[j].1 == file_total(s, files[j].0));
            }
        }
    }
    assert forall|i: int, j: int| 0 <= i < s.len() && 0 <= j < s[i].1.len() implies names.contains(
        #[trigger] s[i].1[j].0,
    ) by {
        let f = s[i].1[j].0;
        assert(file_seen(s, f));
        let k = choose|k: int| 0 <= k < files.len() && #[trigger] files[k].0 == f;
        assert(names[k] == f);
    }
    lemma_totals_by_names(s, names);
    assert(files.map_values(|p: (Seq<char>, int)| p.1) =~= totals_by_names(s, names)) by {
        assert forall|i: int| 0 <= i < files.len() implies files.map_values(|p: (Seq<char>, int)| p.1)[i]
            == totals_by_names(s, names)[i] by {
            assert(files[i].1 == file_total(s, files[i].0));
        }
    }
    if s.len() == 0 {
        assert(bucket_totals(s) =~= Seq::<int>::empty());
    }
}

/// Recording a line counts it: while no bucket has to be dropped, the total
/// grows by exactly one and so does the count of the line's severity; a
/// record never grows the total by more than one.
pub proof fn law_record_counts_the_line(s: StatsModel, key: int, level: int, file: Seq<char>, cap: nat)
    requires
        0 <= level < LEVEL_COUNT,
        stats_sorted(s),
        stats_total(s) < u64::MAX,
    ensures
        stats_total(keep_last(stats_add(s, key, level, file), cap)) <= stats_total(s) + 1,
        stats_add(s, key, level, file).len() <= cap ==> {
            &&& stats_total(keep_last(stats_add(s, key, level, file), cap)) == stats_total(s) + 1
            &&& stats_level(keep_last(stats_add(s, key, level, file), cap), level) == stats_level(s, level) + 1
        },
{
    lemma_stats_add_counts(s, key, level, file);
    lemma_keep_last(stats_add(s, key, level, file), cap);
}

/// Per-row lines from `f` of severity `l` in one bucket (zero for other
/// files' rows).
pub open spec fn row_cells(b: BucketModel, f: Seq<char>, l: int) -> Seq<int> {
    b.map_values(|r: Row| if r.0 == f { r.1[l] as int } else { 0 })
}

/// Lines from `f` of severity `l` in one bucket.
pub open spec fn row_count(b: BucketModel, f: Seq<char>, l: int) -> int {
    sum(row_cells(b, f, l))
}

/// Per-bucket lines from `f` of severity `l`, counted only in the bucket
/// starting at `x`.
pub open spec fn bucket_cells(s: StatsModel, x: int, f: Seq<char>, l: int) -> Seq<int> {
    s.map_values(|e: (int, BucketModel)| if e.0 == x { row_count(e.1, f, l) } else { 0 })
}

/// Lines from `f` of severity `l` in the retained bucket starting at `x`
/// (zero when no such bucket is retained).
pub open spec fn count_in(s: StatsModel, x: int, f: Seq<char>, l: int) -> int {
    sum(bucket_cells(s, x, f, l))
}

/// The starts of the retained buckets, oldest first.
pub open spec fn keys_of(s: StatsModel) -> Seq<int> {
    s.map_values(|e: (int, BucketModel)| e.0)
}

proof fn lemma_row_count_front(r: Row, t: BucketModel, f: Seq<char>, l: int)
    ensures
        row_count(seq![r] + t, f, l) == (if r.0 == f { r.1[l] as int } else { 0 }) + row_count(t, f, l),
{
    let x0: int = if r.0 == f { r.1[l] as int } else { 0 };
    assert(row_cells(seq![r] + t, f, l) =~= seq![x0] + row_cells(t, f, l));
    lemma_sum_front(x0, row_cells(t, f, l));
}

proof fn lemma_count_in_front(e: (int, BucketModel), t: StatsModel, x: int, f: Seq<char>, l: int)
    ensures
        count_in(seq![e] + t, x, f, l) == (if e.0 == x { row_count(e.1, f, l) } else { 0 }) + count_in(t, x, f, l),
{
    let x0: int = if e.0 == x { row_count(e.1, f, l) } else { 0 };
    assert(bucket_cells(seq![e] + t, x, f, l) =~= seq![x0] + bucket_cells(t, x, f, l));
    lemma_sum_front(x0, bucket_cells(t, x, f, l));
}

proof fn lemma_contains_front(x: int, t: Seq<int>, y: int)
    ensures
        (seq![x] + t).contains(y) <==> (y == x || t.contains(y)),
{
    let u = seq![x] + t;
    if u.contains(y) {
        let i = choose|i: int| 0 <= i < u.len() && u[i] == y;
        if i > 0 {
            assert(t[i - 1] == y);
        }
    }
    if t.contains(y) {
        let i = choose|i: int| 0 <= i < t.len() && t[i] == y;
        assert(u[i + 1] == y);
    }
    if y == x {
        assert(u[0] == y);
    }
}

/// A single count is at most the line total.
proof fn lemma_cell_le_total(s: StatsModel, i: int, j: int, l: int)
    requires
        stats_sorted(s),
        0 <= i < s.len(),
        0 <= j < s[i].1.len(),
        0 <= l < LEVEL_COUNT,
    ensures
        s[i].1[j].1[l] <= stats_total(s),
{
    let b = s[i].1;
    lemma_bucket_le_total(s, i);
    lemma_row_totals_nonneg(b);
    lemma_sum_bounds(row_totals(b), j);
    assert(row_totals(b)[j] == row_total(b[j].1));
    assert(files_sorted(b));
    assert(b[j].1.len() == LEVEL_COUNT);
    let c = b[j].1;
    assert(c[l] <= c[0] + c[1] + c[2] + c[3] + c[4] + c[5]) by {
        if l == 0 {
        } else if l == 1 {
        } else if l == 2 {
        } else if l == 3 {
        } else if l == 4 {
        } else {
        }
    }
}

/// Counting a line in a bucket adds one to the count of its file and
/// severity and changes no other count.
proof fn lemma_bucket_add_row_count(b: BucketModel, level: int, file: Seq<char>, f: Seq<char>, l: int)
    requires
        0 <= level < LEVEL_COUNT,
        0 <= l < LEVEL_COUNT,
        files_sorted(b),
        forall|j: int| 0 <= j < b.len() ==> (#[trigger] b[j]).1[level] < u64::MAX,
    ensures
        row_count(bucket_add(b, level, file), f, l) == row_count(b, f, l) + if f == file && l == level {
            1int
        } else {
            0int
        },
    decreases b.len(),
{
    let u = unit_row(level);
    if b.len() == 0 {
        assert(bucket_add(b, level, file) =~= seq![(file, u)] + b);
        lemma_row_count_front((file, u), b, f, l);
        assert(row_cells(b, f, l) =~= Seq::<int>::empty());
    } else {
        let t = b.drop_first();
        assert(b =~= seq![b[0]] + t);
        assert(files_sorted(t)) by {
            assert forall|i: int| 0 <= i < t.len() implies (#[trigger] t[i]).1.len() == LEVEL_COUNT by {
                assert(t[i] == b[i + 1]);
            }
            assert forall|i: int, j: int| 0 <= i < j < t.len() implies seq_lt(t[i].0, t[j].0) by {
                assert(t[i] == b[i + 1] && t[j] == b[j + 1]);
            }
        }
        assert(b[0].1.len() == LEVEL_COUNT);
        if b[0].0 == file {
            let nr = (file, b[0].1.update(level, (b[0].1[level] + 1) as u64));
            assert(b[0].1[level] < u64::MAX);
            assert(bucket_add(b, level, file) =~= seq![nr] + t);
            lemma_row_count_front(b[0], t, f, l);
            lemma_row_count_front(nr, t, f, l);
        } else if seq_lt(file, b[0].0) {
            assert(bucket_add(b, level, file) == seq![(file, u)] + b);
            lemma_row_count_front((file, u), b, f, l);
        } else {
            assert forall|j: int| 0 <= j < t.len() implies (#[trigger] t[j]).1[level] < u64::MAX by {
                assert(t[j] == b[j + 1]);
            }
            lemma_bucket_add_row_count(t, level, file, f, l);
            assert(bucket_add(b, level, file) == seq![b[0]] + bucket_add(t, level, file));
            lemma_row_count_front(b[0], bucket_add(t, level, file), f, l);
            lemma_row_count_front(b[0], t, f, l);
        }
    }
}

/// Counting a line adds its bucket's start to the starts when it is new,
/// adds one to the count of the line's bucket, file and severity, and
/// changes no other count.
proof fn lemma_stats_add_cells(s: StatsModel, key: int, level: int, file: Seq<char>)
    requires
        0 <= level < LEVEL_COUNT,
        stats_sorted(s),
        forall|i: int, j: int| 0 <= i < s.len() && 0 <= j < s[i].1.len() ==> (#[trigger] s[i].1[j]).1[level] < u64::MAX,
    ensures
        forall|x: int| #[trigger] keys_of(stats_add(s, key, level, file)).contains(x) <==> (x == key || keys_of(s).contains(x)),
        stats_add(s, key, level, file).len() == s.len() + if keys_of(s).contains(key) { 0int } else { 1int },
        forall|x: int, f: Seq<char>, l: int|
            0 <= l < LEVEL_COUNT ==> #[trigger] count_in(stats_add(s, key, level, file), x, f, l) == count_in(s, x, f, l)
                + if x == key && f == file && l == level {
                1int
            } else {
                0int
            },
    decreases s.len(),
{
    let a = stats_add(s, key, level, file);
    let e: BucketModel = Seq::empty();
    assert(files_sorted(e));
    let emp: StatsModel = Seq::empty();
    if s.len() == 0 {
        let nb = (key, bucket_add(e, level, file));
        assert(a =~= seq![nb] + emp);
        assert(keys_of(a) =~= seq![key] + keys_of(emp));
        assert(keys_of(emp) =~= Seq::<int>::empty());
        assert forall|x: int| #[trigger] keys_of(a).contains(x) <==> (x == key || keys_of(s).contains(x)) by {
            lemma_contains_front(key, keys_of(emp), x);
        }
        assert forall|x: int, f: Seq<char>, l: int| 0 <= l < LEVEL_COUNT implies #[trigger] count_in(a, x, f, l)
            == count_in(s, x, f, l) + if x == key && f == file && l == level { 1int } else { 0int } by {
            lemma_count_in_front(nb, emp, x, f, l);
            lemma_bucket_add_row_count(e, level, file, f, l);
            assert(bucket_cells(emp, x, f, l) =~= Seq::<int>::empty());
            assert(row_cells(e, f, l) =~= Seq::<int>::empty());
        }
    } else {
        lemma_stats_sorted_tail(s);
        let t = s.drop_first();
        assert(keys_of(s) =~= seq![s[0].0] + keys_of(t));
        assert forall|i: int, j: int| 0 <= i < t.len() && 0 <= j < t[i].1.len() implies (#[trigger] t[i].1[j]).1[level]
            < u64::MAX by {
            assert(t[i] == s[i + 1]);
        }
        assert forall|j: int| 0 <= j < s[0].1.len() implies (#[trigger] s[0].1[j]).1[level] < u64::MAX by {
        }
        if s[0].0 == key {
            let nb = (key, bucket_add(s[0].1, level, file));
            assert(a =~= seq![nb] + t);
            assert(keys_of(a) =~= keys_of(s));
            lemma_contains_front(s[0].0, keys_of(t), key);
            assert forall|x: int, f: Seq<char>, l: int| 0 <= l < LEVEL_COUNT implies #[trigger] count_in(a, x, f, l)
                == count_in(s, x, f, l) + if x == key && f == file && l == level { 1int } else { 0int } by {
                lemma_count_in_front(nb, t, x, f, l);
                lemma_count_in_front(s[0], t, x, f, l);
                lemma_bucket_add_row_count(s[0].1, level, file, f, l);
            }
        } else if key < s[0].0 {
            let nb = (key, bucket_add(e, level, file));
            assert(a == seq![nb] + s);
            assert(keys_of(a) =~= seq![key] + keys_of(s));
            assert(!keys_of(s).contains(key)) by {
                if keys_of(s).contains(key) {
                    let i = choose|i: int| 0 <= i < keys_of(s).len() && keys_of(s)[i] == key;
                    if i > 0 {
                        assert(s[0].0 < s[i].0);
                    }
                }
            }
            assert forall|x: int| #[trigger] keys_of(a).contains(x) <==> (x == key || keys_of(s).contains(x)) by {
                lemma_contains_front(key, keys_of(s), x);
            }
            assert forall|x: int, f: Seq<char>, l: int| 0 <= l < LEVEL_COUNT implies #[trigger] count_in(a, x, f, l)
                == count_in(s, x, f, l) + if x == key && f == file && l == level { 1int } else { 0int } by {
                lemma_count_in_front(nb, s, x, f, l);
                lemma_bucket_add_row_count(e, level, file, f, l);
                assert(row_cells(e, f, l) =~= Seq::<int>::empty());
            }
        } else {
            lemma_stats_add_cells(t, key, level, file);
            let at = stats_add(t, key, level, file);
            assert(a == seq![s[0]] + at);
            assert(keys_of(a) =~= seq![s[0].0] + keys_of(at));
            lemma_contains_front(s[0].0, keys_of(t), key);
            assert forall|x: int| #[trigger] keys_of(a).contains(x) <==> (x == key || keys_of(s).contains(x)) by {
                lemma_contains_front(s[0].0, keys_of(at), x);
                lemma_contains_front(s[0].0, keys_of(t), x);
            }
            assert forall|x: int, f: Seq<char>, l: int| 0 <= l < LEVEL_COUNT implies #[trigger] count_in(a, x, f, l)
                == count_in(s, x, f, l) + if x == key && f == file && l == level { 1int } else { 0int } by {
                lemma_count_in_front(s[0], at, x, f, l);
                lemma_count_in_front(s[0], t, x, f, l);
            }
        }
    }
}

/// Recording a line, in full: the retained buckets stay sorted; they are
/// the `cap` newest of the old buckets and the line's bucket (all of them
/// when there are no more than `cap`); every start that is not kept is
/// older than every kept one; and in each kept bucket the count of the
/// line's file and severity rises by one in the line's bucket while every
/// other count stays as it was.
#[verifier::spinoff_prover]
#[verifier::rlimit(40)]
pub proof fn law_record_keeps_newest(s: StatsModel, key: int, level: int, file: Seq<char>, cap: nat)
    requires
        0 <= level < LEVEL_COUNT,
        stats_sorted(s),
        stats_total(s) < u64::MAX,
    ensures
        ({
            let r = keep_last(stats_add(s, key, level, file), cap);
            let n = s.len() + if keys_of(s).contains(key) { 0int } else { 1int };
            &&& stats_sorted(r)
            &&& r.len() == if n <= cap { n } else { cap as int }
            &&& forall|x: int| #[trigger] keys_of(r).contains(x) ==> x == key || keys_of(s).contains(x)
            &&& forall|x: int, j: int|
                (x == key || keys_of(s).contains(x)) && !#[trigger] keys_of(r).contains(x) && 0 <= j < r.len() ==> x
                    < #[trigger] r[j].0
            &&& forall|x: int, f: Seq<char>, l: int|
                0 <= l < LEVEL_COUNT && keys_of(r).contains(x) ==> #[trigger] count_in(r, x, f, l) == count_in(
                    s,
                    x,
                    f,
                    l,
                ) + if x == key && f == file && l == level {
                    1int
                } else {
                    0int
                }
        }),
{
    let a = stats_add(s, key, level, file);
    let r = keep_last(a, cap);
    assert forall|i: int, j: int| 0 <= i < s.len() && 0 <= j < s[i].1.len() implies (#[trigger] s[i].1[j]).1[level]
        < u64::MAX by {
        lemma_cell_le_total(s, i, j, level);
    }
    lemma_stats_add_cells(s, key, level, file);
    lemma_stats_add_counts(s, key, level, file);
    lemma_keep_last(a, cap);
    let d = a.len() - r.len();
    assert(r =~= a.skip(d));
    assert(a =~= a.take(d) + r);
    assert forall|x: int| #[trigger] keys_of(r).contains(x) implies keys_of(a).contains(x) by {
        let j = choose|j: int| 0 <= j < keys_of(r).len() && keys_of(r)[j] == x;
        assert(keys_of(a)[d + j] == x);
    }
    assert forall|x: int, j: int|
        (x == key || keys_of(s).contains(x)) && !#[trigger] keys_of(r).contains(x) && 0 <= j < r.len() implies x
            < #[trigger] r[j].0 by {
        assert(keys_of(a).contains(x));
        let i = choose|i: int| 0 <= i < keys_of(a).len() && keys_of(a)[i] == x;
        if i >= d {
            assert(keys_of(r)[i - d] == x);
        }
    }
    assert forall|x: int, f: Seq<char>, l: int| 0 <= l < LEVEL_COUNT && keys_of(r).contains(x) implies #[trigger] count_in(
        r,
        x,
        f,
        l,
    ) == count_in(s, x, f, l) + if x == key && f == file && l == level { 1int } else { 0int } by {
        let j0 = choose|j: int| 0 <= j < keys_of(r).len() && keys_of(r)[j] == x;
        let old_part = a.take(d);
        assert(bucket_cells(a, x, f, l) =~= bucket_cells(old_part, x, f, l) + bucket_cells(r, x, f, l));
        lemma_sum_concat(bucket_cells(old_part, x, f, l), bucket_cells(r, x, f, l));
        assert forall|i: int| 0 <= i < old_part.len() implies bucket_cells(old_part, x, f, l)[i] == 0 by {
            assert(old_part[i] == a[i]);
            assert(a[i].0 < r[j0].0);
        }
        lemma_sum_zeros(bucket_cells(old_part, x, f, l));
        assert(count_in(a, x, f, l) == count_in(s, x, f, l) + if x == key && f == file && l == level { 1int } else { 0int });
    }
}

/// Memory stays bounded and the newest activity survives: at most `cap`
/// buckets are retained, and every dropped bucket started before every
/// retained one.
pub proof fn law_evicts_oldest_first(s: StatsModel, key: int, level: int, file: Seq<char>, cap: nat)
    requires
        0 <= level < LEVEL_COUNT,
        stats_sorted(s),
        stats_total(s) < u64::MAX,
    ensures
        ({
            let a = stats_add(s, key, level, file);
            let r = keep_last(a, cap);
            &&& r.len() <= cap
            &&& r == a.skip(a.len() - r.len())
            &&& forall|i: int, j: int| 0 <= i < a.len() - r.len() && 0 <= j < r.len() ==> #[trigger] a[i].0 < #[trigger] r[j].0
        }),
{
    let a = stats_add(s, key, level, file);
    lemma_stats_add_counts(s, key, level, file);
    lemma_keep_last(a, cap);
    if a.len() <= cap {
        assert(a.skip(0) =~= a);
    }
}

/// Lines seen within the same interval share a bucket, and lines from
/// different intervals never do.
pub proof fn law_same_interval_same_bucket(e1: int, e2: int, interval: int)
    requires
        interval >= 1,
    ensures
        (bucket_start(e1, interval) == bucket_start(e2, interval)) <==> (e1 / interval == e2 / interval),
        bucket_start(e1, interval) <= e1 < bucket_start(e1, interval) + interval,
{
    vstd::arithmetic::div_mod::lemma_fundamental_div_mod(e1, interval);
    assert(bucket_start(e1, interval) == interval * (e1 / interval)) by {
        vstd::arithmetic::mul::lemma_mul_is_commutative(e1 / interval, interval);
    }
    if bucket_start(e1, interval) == bucket_start(e2, interval) {
        vstd::arithmetic::mul::lemma_mul_is_commutative(e2 / interval, interval);
        vstd::arithmetic::mul::lemma_mul_equality_converse(interval, e1 / interval, e2 / interval);
    }
}

// ---------------------------------------------------------------------------
// Activity bars
// ---------------------------------------------------------------------------

/// `n / d` rounded to the nearest integer, halves up (`f64::round` on
/// non-negative values).
pub open spec fn round_div(n: int, d: int) -> int {
    (2 * n + d) / (2 * d)
}

/// Width of a bucket's bar: its total scaled so `max_total` fills
/// `STATS_BAR_WIDTH` characters.
pub open spec fn bar_width(b: BucketModel, max_total: int) -> int {
    round_div(bucket_total(b) * STATS_BAR_WIDTH, max_total)
}

/// Character width of a full activity bar in the histogram.
pub const STATS_BAR_WIDTH: usize = 32;

/// A severity-stacked bar for one bucket: error and fatal lines as `▓`,
/// warnings as `▒`, everything else as `░`, each share rounded.
pub open spec fn bar_spec(b: BucketModel, max_total: int) -> Seq<char> {
    let total = bucket_total(b);
    if total == 0 || max_total == 0 {
        Seq::empty()
    } else {
        let width = bar_width(b, max_total);
        if width == 0 {
            Seq::empty()
        } else {
            let err = bucket_level(b, 0) + bucket_level(b, 1);
            let warn = bucket_level(b, 2);
            let e0 = round_div(err * width, total);
            let e = if e0 <= width { e0 } else { width };
            let w0 = round_div(warn * width, total);
            let w = if w0 <= width - e { w0 } else { width - e };
            crate::text::repeat('\u{2593}', e as nat) + crate::text::repeat('\u{2592}', w as nat)
                + crate::text::repeat('\u{2591}', (width - e - w) as nat)
        }
    }
}

impl Stats {
    /// A severity-stacked bar for one bucket, scaled so `max_total` fills
    /// `STATS_BAR_WIDTH`. Error/fatal render as `▓`, warn as `▒`, the rest
    /// `░`. The bar's text takes three bytes per character and must fit in
    /// a `String`, which holds at most `isize::MAX` bytes.
    pub fn bar(&self, bucket: &StatsBucket, max_total: u64) -> (res: String)
        requires
            bucket.wf(),
            max_total > 0 ==> bar_width(bucket.model(), max_total as int) * 3 <= isize::MAX,
        ensures
            res@ == bar_spec(bucket.model(), max_total as int),
    {
        let ghost b = bucket.model();
        let total = bucket.total();
        if total == 0 || max_total == 0 {
            return String::new();
        }
        let t: u128 = total as u128;
        let m: u128 = max_total as u128;
        let width: u128 = (2 * (t * 32) + m) / (2 * m);
        if width == 0 {
            return String::new();
        }
        let levels = bucket.by_level();
        proof {
            lemma_bucket_levels_sum(b);
            lemma_level_le_bucket(b, 0);
            lemma_level_le_bucket(b, 1);
            lemma_level_le_bucket(b, 2);
            lemma_level_le_bucket(b, 3);
            lemma_level_le_bucket(b, 4);
            lemma_level_le_bucket(b, 5);
        }
        let err: u128 = levels[0] as u128 + levels[1] as u128;
        let warn: u128 = levels[2] as u128;
        assert(err <= t && warn <= t);
        assert(err * width <= t * width) by (nonlinear_arith)
            requires
                err <= t,
        ;
        assert(width <= 0x4000_0000_0000_0000);
        assert(t * width <= 0x1_0000_0000_0000_0000 * 0x4000_0000_0000_0000) by (nonlinear_arith)
            requires
                t < 0x1_0000_0000_0000_0000,
                width <= 0x4000_0000_0000_0000,
        ;
        assert(warn * width <= t * width) by (nonlinear_arith)
            requires
                warn <= t,
        ;
        let e0: u128 = (2 * (err * width) + t) / (2 * t);
        let e: u128 = if e0 <= width { e0 } else { width };
        let w0: u128 = (2 * (warn * width) + t) / (2 * t);
        let w: u128 = if w0 <= width - e { w0 } else { width - e };
        let mut out = String::new();
        crate::text::push_repeat(&mut out, '\u{2593}', e as usize);
        crate::text::push_repeat(&mut out, '\u{2592}', w as usize);
        crate::text::push_repeat(&mut out, '\u{2591}', (width - e - w) as usize);
        assert(out@ =~= bar_spec(b, max_total as int));
        out
    }
}

/// A bar shows severities by shade, proportionally: a bucket of error and
/// fatal lines only is drawn all in `▓`, one of warnings only all in `▒`,
/// one with neither all in `░`; no bar is wider than `STATS_BAR_WIDTH`,
/// and the bucket holding the maximum fills it.
pub proof fn law_bar_shades_by_severity(b: BucketModel, m: int)
    requires
        files_sorted(b),
        0 < bucket_total(b) <= m,
    ensures
        bar_spec(b, m).len() <= STATS_BAR_WIDTH,
        bucket_total(b) == m ==> bar_spec(b, m).len() == STATS_BAR_WIDTH,
        bucket_level(b, 0) + bucket_level(b, 1) == bucket_total(b) ==> forall|i: int|
            0 <= i < bar_spec(b, m).len() ==> #[trigger] bar_spec(b, m)[i] == '\u{2593}',
        bucket_level(b, 2) == bucket_total(b) ==> forall|i: int|
            0 <= i < bar_spec(b, m).len() ==> #[trigger] bar_spec(b, m)[i] == '\u{2592}',
        bucket_level(b, 0) + bucket_level(b, 1) + bucket_level(b, 2) == 0 ==> forall|i: int|
            0 <= i < bar_spec(b, m).len() ==> #[trigger] bar_spec(b, m)[i] == '\u{2591}',
{
    let t = bucket_total(b);
    lemma_bucket_levels_sum(b);
    lemma_level_le_bucket(b, 0);
    lemma_level_le_bucket(b, 1);
    lemma_level_le_bucket(b, 2);
    lemma_level_le_bucket(b, 3);
    lemma_level_le_bucket(b, 4);
    lemma_level_le_bucket(b, 5);
    let width = bar_width(b, m);
    assert(0 <= (2 * (t * 32) + m) / (2 * m) <= 32) by (nonlinear_arith)
        requires
            0 < t <= m,
    ;
    if t == m {
        assert((2 * (m * 32) + m) / (2 * m) == 32) by (nonlinear_arith)
            requires
                m > 0,
        ;
    }
    let err = bucket_level(b, 0) + bucket_level(b, 1);
    let warn = bucket_level(b, 2);
    if width > 0 {
        assert(0 <= (2 * (err * width) + t) / (2 * t)) by (nonlinear_arith)
            requires
                err >= 0,
                width >= 0,
                t > 0,
        ;
        assert(0 <= (2 * (warn * width) + t) / (2 * t)) by (nonlinear_arith)
            requires
                warn >= 0,
                width >= 0,
                t > 0,
        ;
        assert((2 * (0 * width) + t) / (2 * t) == 0) by (nonlinear_arith)
            requires
                t > 0,
        ;
        assert((2 * (t * width) + t) / (2 * t) == width) by (nonlinear_arith)
            requires
                t > 0,
                width >= 0,
        ;
    }
}

} // verus!

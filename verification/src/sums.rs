//! Sums of integer sequences and the facts about them that the statistics
//! proofs use.

use vstd::prelude::*;

verus! {

/// Sum of a sequence of integers.
pub open spec fn sum(s: Seq<int>) -> int
    decreases s.len(),
{
    if s.len() == 0 {
        0
    } else {
        s[0] + sum(s.drop_first())
    }
}

/// All elements are non-negative.
pub open spec fn all_nonneg(s: Seq<int>) -> bool {
    forall|i: int| 0 <= i < s.len() ==> 0 <= #[trigger] s[i]
}

pub proof fn lemma_sum_push(s: Seq<int>, x: int)
    ensures
        sum(s.push(x)) == sum(s) + x,
    decreases s.len(),
{
    if s.len() == 0 {
        assert(s.push(x).drop_first() =~= Seq::<int>::empty());
        assert(sum(Seq::<int>::empty()) == 0);
    } else {
        assert(s.push(x).drop_first() =~= s.drop_first().push(x));
        lemma_sum_push(s.drop_first(), x);
    }
}

pub proof fn lemma_sum_concat(a: Seq<int>, b: Seq<int>)
    ensures
        sum(a + b) == sum(a) + sum(b),
    decreases a.len(),
{
    if a.len() == 0 {
        assert(a + b =~= b);
    } else {
        assert((a + b).drop_first() =~= a.drop_first() + b);
        lemma_sum_concat(a.drop_first(), b);
    }
}

pub proof fn lemma_sum_singleton(x: int)
    ensures
        sum(seq![x]) == x,
{
    assert(seq![x].drop_first() =~= Seq::<int>::empty());
    assert(sum(Seq::<int>::empty()) == 0);
}

pub proof fn lemma_sum_update(s: Seq<int>, i: int, x: int)
    requires
        0 <= i < s.len(),
    ensures
        sum(s.update(i, x)) == sum(s) - s[i] + x,
    decreases s.len(),
{
    if i == 0 {
        assert(s.update(i, x).drop_first() =~= s.drop_first());
    } else {
        assert(s.update(i, x).drop_first() =~= s.drop_first().update(i - 1, x));
        lemma_sum_update(s.drop_first(), i - 1, x);
    }
}

/// Extending a prefix by one element adds that element to its sum.
pub proof fn lemma_sum_take_next(s: Seq<int>, i: int)
    requires
        0 <= i < s.len(),
    ensures
        sum(s.take(i + 1)) == sum(s.take(i)) + s[i],
{
    assert(s.take(i + 1) =~= s.take(i).push(s[i]));
    lemma_sum_push(s.take(i), s[i]);
}

/// The sum of non-negative numbers bounds each of them and each prefix sum.
pub proof fn lemma_sum_bounds(s: Seq<int>, i: int)
    requires
        all_nonneg(s),
        0 <= i <= s.len(),
    ensures
        0 <= sum(s.take(i)) <= sum(s),
        i < s.len() ==> s[i] <= sum(s),
        0 <= sum(s),
    decreases s.len(),
{
    if s.len() == 0 {
        assert(s.take(i) =~= s);
    } else {
        let t = s.drop_first();
        assert(all_nonneg(t)) by {
            assert forall|k: int| 0 <= k < t.len() implies 0 <= #[trigger] t[k] by {
                assert(t[k] == s[k + 1]);
            }
        }
        if i == 0 {
            assert(s.take(0) =~= Seq::<int>::empty());
            lemma_sum_bounds(t, 0);
        } else {
            assert(s.take(i).drop_first() =~= t.take(i - 1));
            lemma_sum_bounds(t, i - 1);
            if i < s.len() {
                assert(s[i] == t[i - 1]);
            }
        }
        assert(0 <= s[0]);
    }
}

} // verus!

//! Aggregate statistics over a window of duration samples.
//!
//! A sample is an elapsed time in nanoseconds, held as a `u64`. The
//! aggregates of a window are its sum, its truncating integer average,
//! and its extremes.

use vstd::prelude::*;

verus! {

/// Sum of all samples in a window, as an unbounded integer.
pub open spec fn sum_of(s: Seq<u64>) -> int
    decreases s.len(),
{
    if s.len() == 0 {
        0
    } else {
        sum_of(s.drop_last()) + s.last()
    }
}

/// Largest sample of a window; 0 for an empty window (a report never
/// asks for the maximum of an empty window).
pub open spec fn max_of(s: Seq<u64>) -> u64
    decreases s.len(),
{
    if s.len() == 0 {
        0
    } else if s.len() == 1 {
        s[0]
    } else if s.last() >= max_of(s.drop_last()) {
        s.last()
    } else {
        max_of(s.drop_last())
    }
}

/// Smallest sample of a window; 0 for an empty window (a report never
/// asks for the minimum of an empty window).
pub open spec fn min_of(s: Seq<u64>) -> u64
    decreases s.len(),
{
    if s.len() == 0 {
        0
    } else if s.len() == 1 {
        s[0]
    } else if s.last() <= min_of(s.drop_last()) {
        s.last()
    } else {
        min_of(s.drop_last())
    }
}

/// Truncating integer average of a non-empty window: `sum / count`,
/// rounded toward zero.
pub open spec fn avg_of(s: Seq<u64>) -> int {
    sum_of(s) / (s.len() as int)
}

/// Every aggregate of a one-sample window is that sample.
pub proof fn lemma_singleton(s: Seq<u64>)
    requires
        s.len() == 1,
    ensures
        sum_of(s) == s[0],
        max_of(s) == s[0],
        min_of(s) == s[0],
{
    assert(sum_of(s.drop_last()) == 0);
}

/// Extending a window by one sample adds that sample to the sum.
pub proof fn lemma_sum_take_step(s: Seq<u64>, i: int)
    requires
        0 <= i < s.len(),
    ensures
        sum_of(s.take(i + 1)) == sum_of(s.take(i)) + s[i],
{
    assert(s.take(i + 1).drop_last() =~= s.take(i));
    assert(s.take(i + 1).last() == s[i]);
}

/// Extending a window by one sample keeps the old maximum unless the new
/// sample exceeds it.
pub proof fn lemma_max_take_step(s: Seq<u64>, i: int)
    requires
        1 <= i < s.len(),
    ensures
        max_of(s.take(i + 1)) == if s[i] >= max_of(s.take(i)) {
            s[i]
        } else {
            max_of(s.take(i))
        },
{
    assert(s.take(i + 1).drop_last() =~= s.take(i));
    assert(s.take(i + 1).last() == s[i]);
}

/// Extending a window by one sample keeps the old minimum unless the new
/// sample undercuts it.
pub proof fn lemma_min_take_step(s: Seq<u64>, i: int)
    requires
        1 <= i < s.len(),
    ensures
        min_of(s.take(i + 1)) == if s[i] <= min_of(s.take(i)) {
            s[i]
        } else {
            min_of(s.take(i))
        },
{
    assert(s.take(i + 1).drop_last() =~= s.take(i));
    assert(s.take(i + 1).last() == s[i]);
}

/// The maximum of a non-empty window is one of its samples, and no sample
/// exceeds it.
pub proof fn lemma_max_is_extreme(s: Seq<u64>)
    requires
        s.len() > 0,
    ensures
        s.contains(max_of(s)),
        forall|i: int| 0 <= i < s.len() ==> s[i] <= max_of(s),
    decreases s.len(),
{
    if s.len() > 1 {
        lemma_max_is_extreme(s.drop_last());
        assert forall|i: int| 0 <= i < s.len() implies s[i] <= max_of(s) by {
            if i < s.len() - 1 {
                assert(s.drop_last()[i] == s[i]);
            }
        }
        if s.last() >= max_of(s.drop_last()) {
            assert(s[s.len() - 1] == max_of(s));
        } else {
            let j = choose|j: int| 0 <= j < s.drop_last().len() && s.drop_last()[j] == max_of(
                s.drop_last(),
            );
            assert(s[j] == max_of(s));
        }
    } else {
        assert(s[0] == max_of(s));
    }
}

/// The minimum of a non-empty window is one of its samples, and no sample
/// undercuts it.
pub proof fn lemma_min_is_extreme(s: Seq<u64>)
    requires
        s.len() > 0,
    ensures
        s.contains(min_of(s)),
        forall|i: int| 0 <= i < s.len() ==> s[i] >= min_of(s),
    decreases s.len(),
{
    if s.len() > 1 {
        lemma_min_is_extreme(s.drop_last());
        assert forall|i: int| 0 <= i < s.len() implies s[i] >= min_of(s) by {
            if i < s.len() - 1 {
                assert(s.drop_last()[i] == s[i]);
            }
        }
        if s.last() <= min_of(s.drop_last()) {
            assert(s[s.len() - 1] == min_of(s));
        } else {
            let j = choose|j: int| 0 <= j < s.drop_last().len() && s.drop_last()[j] == min_of(
                s.drop_last(),
            );
            assert(s[j] == min_of(s));
        }
    } else {
        assert(s[0] == min_of(s));
    }
}

/// The truncating average of a non-empty window lies between its extremes.
pub proof fn lemma_avg_between_extremes(s: Seq<u64>)
    requires
        s.len() > 0,
    ensures
        min_of(s) <= avg_of(s) <= max_of(s),
{
    lemma_sum_within_extremes(s);
    let n = s.len() as int;
    assert(min_of(s) <= sum_of(s) / n <= max_of(s)) by (nonlinear_arith)
        requires
            n >= 1,
            n * min_of(s) <= sum_of(s) <= n * max_of(s),
    ;
}

/// The sum of a non-empty window lies between `count * min` and
/// `count * max`.
pub proof fn lemma_sum_within_extremes(s: Seq<u64>)
    requires
        s.len() > 0,
    ensures
        s.len() * min_of(s) <= sum_of(s) <= s.len() * max_of(s),
    decreases s.len(),
{
    if s.len() == 1 {
        assert(sum_of(s.drop_last()) == 0);
    } else {
        lemma_sum_within_extremes(s.drop_last());
        let t = s.drop_last();
        let n = t.len() as int;
        assert(n * min_of(t) <= sum_of(t) <= n * max_of(t));
        assert(n * min_of(s) <= n * min_of(t) && n * max_of(t) <= n * max_of(s))
            by (nonlinear_arith)
            requires
                n >= 1,
                min_of(s) <= min_of(t),
                max_of(t) <= max_of(s),
        ;
        assert((n + 1) * min_of(s) == n * min_of(s) + min_of(s)) by (nonlinear_arith);
        assert((n + 1) * max_of(s) == n * max_of(s) + max_of(s)) by (nonlinear_arith);
        assert(min_of(s) <= s.last() <= max_of(s));
    }
}

} // verus!

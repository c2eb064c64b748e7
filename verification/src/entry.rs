//! The pending samples of one key.

use vstd::prelude::*;
use crate::stats::{
    sum_of, max_of, min_of, lemma_singleton, lemma_sum_take_step, lemma_max_take_step,
    lemma_min_take_step,
};

verus! {

/// The duration samples (in nanoseconds) recorded under one key since the
/// window was last reset, in insertion order.
pub struct MetricEntry {
    times: Vec<u64>,
}

impl View for MetricEntry {
    type V = Seq<u64>;

    closed spec fn view(&self) -> Seq<u64> {
        self.times@
    }
}

impl MetricEntry {
    /// An entry with no pending samples.
    pub fn new() -> (r: MetricEntry)
        ensures
            r@ == Seq::<u64>::empty(),
    {
        MetricEntry { times: Vec::new() }
    }

    /// Number of pending samples.
    pub fn count(&self) -> (n: usize)
        ensures
            n == self@.len(),
    {
        self.times.len()
    }

    /// Record one sample at the end of the window.
    pub fn add(&mut self, time: u64)
        ensures
            final(self)@ == old(self)@.push(time),
    {
        self.times.push(time);
    }

    /// Reset the window: drop every pending sample. The entry itself stays,
    /// so a key once seen is cheap to record under again.
    pub fn reset_prev(&mut self)
        ensures
            final(self)@ == Seq::<u64>::empty(),
    {
        self.times.clear();
    }

    /// Sum, maximum and minimum of the pending samples, in one pass.
    /// The sum is exact: a 128-bit total cannot overflow, since the window
    /// holds at most `usize::MAX` samples of at most `u64::MAX` each.
    pub fn aggregate(&self) -> (r: (u128, u64, u64))
        requires
            self@.len() >= 1,
        ensures
            r.0 == sum_of(self@),
            r.1 == max_of(self@),
            r.2 == min_of(self@),
    {
        let n = self.times.len();
        let first = self.times[0];
        let mut total: u128 = first as u128;
        let mut high: u64 = first;
        let mut low: u64 = first;
        let mut i: usize = 1;
        proof {
            assert(self@.take(1) =~= seq![self@[0]]);
            lemma_singleton(self@.take(1));
        }
        while i < n
            invariant
                1 <= i <= n,
                n == self@.len(),
                total == sum_of(self@.take(i as int)),
                high == max_of(self@.take(i as int)),
                low == min_of(self@.take(i as int)),
                total <= (i as int) * (u64::MAX as int),
            decreases n - i,
        {
            let x = self.times[i];
            proof {
                lemma_sum_take_step(self@, i as int);
                lemma_max_take_step(self@, i as int);
                lemma_min_take_step(self@, i as int);
                assert(total + x <= ((i + 1) as int) * (u64::MAX as int));
                assert(((i + 1) as int) * (u64::MAX as int) <= (usize::MAX as int) * (
                u64::MAX as int));
            }
            total = total + (x as u128);
            if x > high {
                high = x;
            }
            if x < low {
                low = x;
            }
            i = i + 1;
        }
        proof {
            assert(self@.take(n as int) =~= self@);
        }
        (total, high, low)
    }
}

impl Default for MetricEntry {
    /// A fresh entry holds no samples.
    fn default() -> (r: MetricEntry)
        ensures
            r@ == Seq::<u64>::empty(),
    {
        MetricEntry::new()
    }
}

} // verus!

//! The keyed accumulator table and the report computation.
//!
//! The table maps each key, a string label, to the samples recorded under it
//! since the last reset. Keys are created lazily on first `add` and never
//! removed; rows keep their insertion order, which makes report output
//! deterministic. A report aggregates every non-empty row in table order and
//! then clears exactly those rows.

use vstd::prelude::*;
use crate::entry::MetricEntry;
use crate::stats::{avg_of, max_of, min_of, sum_of, lemma_avg_between_extremes};

verus! {

/// One row of the table: a key and its pending samples.
pub struct MetricSlot {
    key: String,
    entry: MetricEntry,
}

impl View for MetricSlot {
    type V = (Seq<char>, Seq<u64>);

    closed spec fn view(&self) -> (Seq<char>, Seq<u64>) {
        (self.key@, self.entry@)
    }
}

/// The keyed accumulator. Its view is the table as a sequence of
/// (key, samples) rows in insertion order, with keys unique.
pub struct MetricInner {
    table: Vec<MetricSlot>,
}

impl View for MetricInner {
    type V = Seq<(Seq<char>, Seq<u64>)>;

    closed spec fn view(&self) -> Seq<(Seq<char>, Seq<u64>)> {
        Seq::new(self.table@.len(), |i: int| self.table@[i]@)
    }
}

/// Every key appears in at most one row.
pub open spec fn keys_unique(t: Seq<(Seq<char>, Seq<u64>)>) -> bool {
    forall|i: int, j: int| 0 <= i < j < t.len() ==> (#[trigger] t[i]).0 != (#[trigger] t[j]).0
}

/// Some row carries key `k`.
pub open spec fn has_key(t: Seq<(Seq<char>, Seq<u64>)>, k: Seq<char>) -> bool {
    exists|i: int| 0 <= i < t.len() && (#[trigger] t[i]).0 == k
}

/// The row index of key `k` (meaningful only when `has_key` holds).
pub open spec fn index_of(t: Seq<(Seq<char>, Seq<u64>)>, k: Seq<char>) -> int {
    choose|i: int| 0 <= i < t.len() && (#[trigger] t[i]).0 == k
}

/// The samples pending under key `k`: empty if the key was never recorded.
pub open spec fn samples(t: Seq<(Seq<char>, Seq<u64>)>, k: Seq<char>) -> Seq<u64> {
    if has_key(t, k) {
        t[index_of(t, k)].1
    } else {
        Seq::<u64>::empty()
    }
}

/// The table's keys, in row order.
pub open spec fn keys_of(t: Seq<(Seq<char>, Seq<u64>)>) -> Seq<Seq<char>> {
    Seq::new(t.len(), |i: int| t[i].0)
}

/// Total number of samples pending over all keys.
pub open spec fn total_pending(t: Seq<(Seq<char>, Seq<u64>)>) -> int
    decreases t.len(),
{
    if t.len() == 0 {
        0
    } else {
        total_pending(t.drop_last()) + t.last().1.len()
    }
}

/// The non-empty rows of the table, in table order: exactly the rows a
/// report prints.
pub open spec fn nonempty_rows(t: Seq<(Seq<char>, Seq<u64>)>) -> Seq<(Seq<char>, Seq<u64>)>
    decreases t.len(),
{
    if t.len() == 0 {
        Seq::<(Seq<char>, Seq<u64>)>::empty()
    } else if t.last().1.len() > 0 {
        nonempty_rows(t.drop_last()).push(t.last())
    } else {
        nonempty_rows(t.drop_last())
    }
}

/// One line of a report: the five aggregates of one key's window, in
/// nanoseconds. `total` is 128-bit so that no sum of 64-bit samples can
/// overflow it; `average` truncates toward zero.
pub struct ReportLine {
    pub key: String,
    pub total: u128,
    pub average: u64,
    pub max: u64,
    pub min: u64,
    pub count: usize,
}

/// The line carries exactly the aggregates of the row: the sum of its
/// samples, their truncating average, their extremes, and their number.
pub open spec fn line_matches(l: ReportLine, row: (Seq<char>, Seq<u64>)) -> bool {
    &&& l.key@ == row.0
    &&& l.total == sum_of(row.1)
    &&& l.average == avg_of(row.1)
    &&& l.max == max_of(row.1)
    &&& l.min == min_of(row.1)
    &&& l.count == row.1.len()
}

/// The lines are the report of the table `t`: one line per non-empty row,
/// in table order, each carrying that row's aggregates exactly.
pub open spec fn is_report_of(r: Seq<ReportLine>, t: Seq<(Seq<char>, Seq<u64>)>) -> bool {
    &&& keys_unique(t)
    &&& r.len() == nonempty_rows(t).len()
    &&& forall|j: int| 0 <= j < r.len() ==> line_matches(#[trigger] r[j], nonempty_rows(t)[j])
}

/// The lines are the report of some well-formed table: what a reporter
/// hands out whatever table state its lock granted.
pub open spec fn is_report(r: Seq<ReportLine>) -> bool {
    exists|t: Seq<(Seq<char>, Seq<u64>)>| is_report_of(r, t)
}

/// Sum of the `count` fields over a sequence of report lines.
pub open spec fn lines_count(ls: Seq<ReportLine>) -> int
    decreases ls.len(),
{
    if ls.len() == 0 {
        0
    } else {
        lines_count(ls.drop_last()) + ls.last().count
    }
}

/// With unique keys, the row that carries key `t[j].0` is row `j`.
pub proof fn lemma_index_of_unique(t: Seq<(Seq<char>, Seq<u64>)>, j: int)
    requires
        keys_unique(t),
        0 <= j < t.len(),
    ensures
        has_key(t, t[j].0),
        index_of(t, t[j].0) == j,
        samples(t, t[j].0) == t[j].1,
{
    assert(has_key(t, t[j].0));
    let i = index_of(t, t[j].0);
    assert(0 <= i < t.len() && t[i].0 == t[j].0);
    if i < j {
        assert(false);
    } else if j < i {
        assert(false);
    }
}

/// Appending one sample to row `i` extends that key's window by the sample
/// and leaves every other key, the key order, and the rest of the table
/// untouched; one sample more is pending in total.
pub proof fn lemma_update_row(t: Seq<(Seq<char>, Seq<u64>)>, i: int, d: u64)
    requires
        keys_unique(t),
        0 <= i < t.len(),
    ensures
        ({
            let t2 = t.update(i, (t[i].0, t[i].1.push(d)));
            &&& keys_unique(t2)
            &&& has_key(t2, t[i].0)
            &&& samples(t2, t[i].0) == samples(t, t[i].0).push(d)
            &&& forall|k: Seq<char>| k != t[i].0 ==> samples(t2, k) == samples(t, k)
            &&& keys_of(t2) == keys_of(t)
            &&& total_pending(t2) == total_pending(t) + 1
        }),
{
    let t2 = t.update(i, (t[i].0, t[i].1.push(d)));
    assert(forall|j: int| 0 <= j < t.len() ==> (#[trigger] t2[j]).0 == t[j].0);
    assert(keys_unique(t2));
    lemma_index_of_unique(t, i);
    lemma_index_of_unique(t2, i);
    assert(samples(t2, t[i].0) == samples(t, t[i].0).push(d));
    assert forall|k: Seq<char>| k != t[i].0 implies samples(t2, k) == samples(t, k) by {
        if has_key(t, k) {
            let j = index_of(t, k);
            assert(0 <= j < t.len() && t[j].0 == k);
            assert(j != i);
            lemma_index_of_unique(t, j);
            lemma_index_of_unique(t2, j);
            assert(t2[j] == t[j]);
        } else {
            assert(!has_key(t2, k)) by {
                if has_key(t2, k) {
                    let j = index_of(t2, k);
                    assert(0 <= j < t2.len() && t2[j].0 == k);
                    assert(t[j].0 == k);
                }
            }
        }
    }
    assert(keys_of(t2) =~= keys_of(t));
    lemma_total_pending_update(t, i, (t[i].0, t[i].1.push(d)));
}

/// Replacing row `i` shifts the pending total by the difference of the two
/// rows' sample counts.
pub proof fn lemma_total_pending_update(
    t: Seq<(Seq<char>, Seq<u64>)>,
    i: int,
    row: (Seq<char>, Seq<u64>),
)
    requires
        0 <= i < t.len(),
    ensures
        total_pending(t.update(i, row)) == total_pending(t) - t[i].1.len() + row.1.len(),
    decreases t.len(),
{
    let t2 = t.update(i, row);
    if i == t.len() - 1 {
        assert(t2.drop_last() =~= t.drop_last());
        assert(t2.last() == row);
    } else {
        assert(t2.drop_last() =~= t.drop_last().update(i, row));
        lemma_total_pending_update(t.drop_last(), i, row);
        assert(t2.last() == t.last());
    }
}

/// Appending a row adds its sample count to the pending total.
pub proof fn lemma_total_pending_push(t: Seq<(Seq<char>, Seq<u64>)>, row: (Seq<char>, Seq<u64>))
    ensures
        total_pending(t.push(row)) == total_pending(t) + row.1.len(),
{
    assert(t.push(row).drop_last() =~= t);
    assert(t.push(row).last() == row);
}

/// Appending a row with a fresh key opens that key's window with exactly
/// the one sample and leaves every other key untouched; the key joins the
/// end of the key order.
pub proof fn lemma_push_row(t: Seq<(Seq<char>, Seq<u64>)>, k: Seq<char>, d: u64)
    requires
        keys_unique(t),
        !has_key(t, k),
    ensures
        ({
            let t2 = t.push((k, seq![d]));
            &&& keys_unique(t2)
            &&& has_key(t2, k)
            &&& samples(t2, k) == samples(t, k).push(d)
            &&& forall|k2: Seq<char>| k2 != k ==> samples(t2, k2) == samples(t, k2)
            &&& keys_of(t2) == keys_of(t).push(k)
            &&& total_pending(t2) == total_pending(t) + 1
        }),
{
    let t2 = t.push((k, seq![d]));
    assert(forall|j: int| 0 <= j < t.len() ==> (#[trigger] t2[j]) == t[j]);
    assert(t2[t.len() as int].0 == k);
    assert forall|i: int, j: int| 0 <= i < j < t2.len() implies (#[trigger] t2[i]).0 != (
    #[trigger] t2[j]).0 by {
        if j == t.len() {
            assert(t[i].0 != k);
        }
    }
    lemma_index_of_unique(t2, t.len() as int);
    assert(samples(t, k) == Seq::<u64>::empty());
    assert(Seq::<u64>::empty().push(d) =~= seq![d]);
    assert forall|k2: Seq<char>| k2 != k implies samples(t2, k2) == samples(t, k2) by {
        if has_key(t, k2) {
            let j = index_of(t, k2);
            assert(0 <= j < t.len() && t[j].0 == k2);
            lemma_index_of_unique(t, j);
            lemma_index_of_unique(t2, j);
        } else {
            assert(!has_key(t2, k2)) by {
                if has_key(t2, k2) {
                    let j = index_of(t2, k2);
                    assert(0 <= j < t2.len() && t2[j].0 == k2);
                    assert(j != t.len());
                    assert(t[j].0 == k2);
                }
            }
        }
    }
    assert(keys_of(t2) =~= keys_of(t).push(k));
    lemma_total_pending_push(t, (k, seq![d]));
}

/// One step of the report filter: row `i` joins the printed rows exactly
/// when it is non-empty.
pub proof fn lemma_nonempty_take_step(t: Seq<(Seq<char>, Seq<u64>)>, i: int)
    requires
        0 <= i < t.len(),
    ensures
        nonempty_rows(t.take(i + 1)) == if t[i].1.len() > 0 {
            nonempty_rows(t.take(i)).push(t[i])
        } else {
            nonempty_rows(t.take(i))
        },
{
    assert(t.take(i + 1).drop_last() =~= t.take(i));
    assert(t.take(i + 1).last() == t[i]);
}

impl MetricInner {
    /// Validity of the table: no key is held in two rows.
    pub open spec fn wf(&self) -> bool {
        keys_unique(self@)
    }

    /// Record one sample (an elapsed time in nanoseconds) under `key`,
    /// creating the key's row on first use. Always succeeds; every other
    /// key's window is untouched.
    pub fn add(&mut self, key: &str, time: u64)
        requires
            old(self).wf(),
        ensures
            final(self).wf(),
            has_key(final(self)@, key@),
            samples(final(self)@, key@) == samples(old(self)@, key@).push(time),
            forall|k: Seq<char>| k != key@ ==> samples(final(self)@, k) == samples(old(self)@, k),
            keys_of(final(self)@) == if has_key(old(self)@, key@) {
                keys_of(old(self)@)
            } else {
                keys_of(old(self)@).push(key@)
            },
            total_pending(final(self)@) == total_pending(old(self)@) + 1,
    {
        let owned: String = key.to_owned();
        let n = self.table.len();
        let mut i: usize = 0;
        while i < n
            invariant
                0 <= i <= n,
                n == self.table@.len(),
                *self == *old(self),
                old(self).wf(),
                owned@ == key@,
                forall|j: int| 0 <= j < i ==> (#[trigger] self@[j]).0 != key@,
            decreases n - i,
        {
            if self.table[i].key == owned {
                proof {
                    lemma_update_row(self@, i as int, time);
                }
                self.table[i].entry.add(time);
                proof {
                    assert(self@ =~= old(self)@.update(
                        i as int,
                        (old(self)@[i as int].0, old(self)@[i as int].1.push(time)),
                    ));
                }
                return;
            }
            i = i + 1;
        }
        proof {
            assert(!has_key(self@, key@));
            lemma_push_row(self@, key@, time);
        }
        let mut e = MetricEntry::new();
        e.add(time);
        self.table.push(MetricSlot { key: owned, entry: e });
        proof {
            assert(Seq::<u64>::empty().push(time) =~= seq![time]);
            assert(self@ =~= old(self)@.push((key@, seq![time])));
        }
    }

    /// Compute the report for the current window and reset it: one line per
    /// non-empty row, in table order, carrying that row's five aggregates;
    /// afterwards every row is empty while the keys and their order remain.
    /// Rows that were already empty are skipped (no line) and untouched.
    pub fn print(&mut self) -> (r: Vec<ReportLine>)
        requires
            old(self).wf(),
        ensures
            final(self).wf(),
            final(self)@.len() == old(self)@.len(),
            forall|j: int| 0 <= j < old(self)@.len() ==> (#[trigger] final(self)@[j]).0 == old(
                self,
            )@[j].0,
            forall|j: int|
                0 <= j < old(self)@.len() ==> (#[trigger] final(self)@[j]).1
                    == Seq::<u64>::empty(),
            r@.len() == nonempty_rows(old(self)@).len(),
            forall|j: int|
                0 <= j < r@.len() ==> line_matches(#[trigger] r@[j], nonempty_rows(old(self)@)[j]),
    {
        let n = self.table.len();
        let mut lines: Vec<ReportLine> = Vec::new();
        let mut i: usize = 0;
        while i < n
            invariant
                0 <= i <= n,
                n == old(self)@.len(),
                self@.len() == old(self)@.len(),
                forall|j: int| 0 <= j < n ==> (#[trigger] self@[j]).0 == old(self)@[j].0,
                forall|j: int| 0 <= j < i ==> (#[trigger] self@[j]).1 == Seq::<u64>::empty(),
                forall|j: int| i <= j < n ==> (#[trigger] self@[j]) == old(self)@[j],
                lines@.len() == nonempty_rows(old(self)@.take(i as int)).len(),
                forall|j: int|
                    0 <= j < lines@.len() ==> line_matches(
                        #[trigger] lines@[j],
                        nonempty_rows(old(self)@.take(i as int))[j],
                    ),
            decreases n - i,
        {
            proof {
                lemma_nonempty_take_step(old(self)@, i as int);
            }
            let cnt = self.table[i].entry.count();
            let ghost row = old(self)@[i as int];
            proof {
                assert(self@[i as int] == old(self)@[i as int]);
                assert(row == (self.table@[i as int].key@, self.table@[i as int].entry@));
                assert(cnt == row.1.len());
            }
            if cnt > 0 {
                let (total, high, low) = self.table[i].entry.aggregate();
                proof {
                    lemma_avg_between_extremes(row.1);
                    assert(total as int == sum_of(row.1));
                    assert(cnt as int == row.1.len());
                    assert((total / (cnt as u128)) as int == avg_of(row.1));
                    assert(total / (cnt as u128) <= u64::MAX as u128);
                }
                let average: u64 = (total / (cnt as u128)) as u64;
                let line = ReportLine {
                    key: self.table[i].key.clone(),
                    total,
                    average,
                    max: high,
                    min: low,
                    count: cnt,
                };
                proof {
                    assert(line_matches(line, row));
                }
                lines.push(line);
                let ghost prev = self@;
                self.table[i].entry.reset_prev();
                proof {
                    assert forall|j: int| 0 <= j < n implies (#[trigger] self@[j]) == (if j
                        == i as int {
                        (row.0, Seq::<u64>::empty())
                    } else {
                        prev[j]
                    }) by {
                        assert(self@[j] == self.table@[j]@);
                        assert(prev[j] == (prev[j].0, prev[j].1));
                    }
                }
            }
            i = i + 1;
        }
        proof {
            assert(old(self)@.take(n as int) =~= old(self)@);
        }
        lines
    }
}

/// A report on a fresh accumulator prints no key lines: the table holds no
/// rows, so no row passes the non-empty filter.
pub proof fn lemma_fresh_report_empty(t: Seq<(Seq<char>, Seq<u64>)>)
    requires
        t.len() == 0,
    ensures
        nonempty_rows(t).len() == 0,
{
}

/// Window reset: on a table none of whose rows has a pending sample — in
/// particular, any table right after a report — a report prints no key line.
pub proof fn lemma_window_reset(t: Seq<(Seq<char>, Seq<u64>)>)
    requires
        forall|j: int| 0 <= j < t.len() ==> (#[trigger] t[j]).1.len() == 0,
    ensures
        nonempty_rows(t).len() == 0,
    decreases t.len(),
{
    if t.len() > 0 {
        assert(forall|j: int|
            0 <= j < t.drop_last().len() ==> (#[trigger] t.drop_last()[j]).1.len() == 0);
        lemma_window_reset(t.drop_last());
    }
}

/// Independent keys: an operation that leaves the samples of every key other
/// than `key` unchanged — which is what `add` under `key` ensures — leaves
/// every other key's aggregates unchanged as well.
pub proof fn lemma_independent_keys(
    pre: Seq<(Seq<char>, Seq<u64>)>,
    post: Seq<(Seq<char>, Seq<u64>)>,
    key: Seq<char>,
    other: Seq<char>,
)
    requires
        forall|k: Seq<char>| k != key ==> samples(post, k) == samples(pre, k),
        other != key,
    ensures
        samples(post, other) == samples(pre, other),
        sum_of(samples(post, other)) == sum_of(samples(pre, other)),
        avg_of(samples(post, other)) == avg_of(samples(pre, other)),
        max_of(samples(post, other)) == max_of(samples(pre, other)),
        min_of(samples(post, other)) == min_of(samples(pre, other)),
        samples(post, other).len() == samples(pre, other).len(),
{
}

/// The rows a report prints hold exactly the table's pending samples: rows
/// the filter drops are empty and contribute nothing to the total.
pub proof fn lemma_report_counts_all(t: Seq<(Seq<char>, Seq<u64>)>)
    ensures
        total_pending(nonempty_rows(t)) == total_pending(t),
    decreases t.len(),
{
    if t.len() > 0 {
        lemma_report_counts_all(t.drop_last());
        if t.last().1.len() > 0 {
            lemma_total_pending_push(nonempty_rows(t.drop_last()), t.last());
        }
    }
}

/// Lines that match the printed rows pointwise count exactly those rows'
/// samples.
proof fn lemma_matching_counts(r: Seq<ReportLine>, rows: Seq<(Seq<char>, Seq<u64>)>)
    requires
        r.len() == rows.len(),
        forall|j: int| 0 <= j < r.len() ==> line_matches(#[trigger] r[j], rows[j]),
    ensures
        lines_count(r) == total_pending(rows),
    decreases r.len(),
{
    if r.len() > 0 {
        assert(forall|j: int|
            0 <= j < r.drop_last().len() ==> line_matches(
                #[trigger] r.drop_last()[j],
                rows.drop_last()[j],
            ));
        lemma_matching_counts(r.drop_last(), rows.drop_last());
        assert(line_matches(r[r.len() - 1], rows[rows.len() - 1]));
    }
}

/// No sample is lost or duplicated by a report: the counts of the printed
/// lines — which is what `print` returns for any table — sum to the number
/// of samples that were pending, and `print` leaves nothing pending. With
/// `add` raising the pending total by exactly one, the counts reported over
/// any sequence of `add` and `print` calls, plus the samples still pending,
/// equal the number of `add` calls.
pub proof fn lemma_no_sample_lost(r: Seq<ReportLine>, t: Seq<(Seq<char>, Seq<u64>)>)
    requires
        r.len() == nonempty_rows(t).len(),
        forall|j: int| 0 <= j < r.len() ==> line_matches(#[trigger] r[j], nonempty_rows(t)[j]),
    ensures
        lines_count(r) == total_pending(t),
{
    lemma_report_counts_all(t);
    lemma_matching_counts(r, nonempty_rows(t));
}

impl Default for MetricInner {
    /// A fresh accumulator holds no keys at all.
    fn default() -> (r: MetricInner)
        ensures
            r@ == Seq::<(Seq<char>, Seq<u64>)>::empty(),
            r.wf(),
    {
        let r = MetricInner { table: Vec::new() };
        proof {
            assert(r@ =~= Seq::<(Seq<char>, Seq<u64>)>::empty());
        }
        r
    }
}

} // verus!

//! The reporter: a shared, lock-guarded accumulator.
//!
//! `Metric` owns one `MetricInner` behind a `parking_lot::Mutex`; `add` and
//! `print` each take the lock and run the verified accumulator operations on
//! the guarded value, so producers and reporters serialize on the table and
//! its contract holds across any interleaving of callers. The periodic loop
//! that sleeps and prints belongs to the I/O shell around this library,
//! which calls `print` once a second and emits the returned report.

use vstd::prelude::*;
use std::sync::Arc;
use crate::inner::{is_report, is_report_of, MetricInner, ReportLine};

verus! {

#[verifier::external_type_specification]
#[verifier::external_body]
#[verifier::reject_recursive_types(R)]
#[verifier::reject_recursive_types(T)]
pub struct ExMutex<R, T: ?Sized>(parking_lot::lock_api::Mutex<R, T>);

#[verifier::external_type_specification]
#[verifier::external_body]
pub struct ExRawMutex(parking_lot::RawMutex);

/// Exclusive access to one reporter's accumulator, held until dropped.
/// Opaque: declaring parking_lot's guard type itself would need its
/// `RawMutex` trait bound, which cannot be declared here, so the guard sits
/// in a hidden field and `guard_inner` is the one way to the value.
#[verifier::external_body]
struct InnerGuard<'a> {
    guard: parking_lot::MutexGuard<'a, MetricInner>,
}

#[verifier::external_type_specification]
#[verifier::external_body]
pub struct ExTm(time::Tm);

/// Relies on parking_lot::Mutex::new: wraps the accumulator in a fresh,
/// unlocked mutex holding exactly the given value. The well-formedness
/// precondition is the base case of the lock invariant that `lock_inner`'s
/// contract states: every accumulator put behind a lock is well-formed.
#[verifier::external_body]
fn mutex_new(inner: MetricInner) -> parking_lot::Mutex<MetricInner>
    requires
        inner.wf(),
{
    parking_lot::Mutex::new(inner)
}

/// Relies on parking_lot::Mutex::lock (lock_api's `Mutex::lock`): blocks
/// until the calling thread has exclusive access, and returns the guard
/// that holds that access until it drops.
#[verifier::external_body]
fn lock_inner<'a>(m: &'a parking_lot::Mutex<MetricInner>) -> (g: InnerGuard<'a>) {
    InnerGuard { guard: m.lock() }
}

/// Relies on the guard's `DerefMut`: the accumulator the guard protects,
/// exclusive while the borrow lives.
///
/// The well-formedness claim is the lock invariant of this library, not a
/// fact of parking_lot's source: the value behind the lock was well-formed
/// when `mutex_new` put it there (its precondition), and the only writers,
/// `MetricInner::add` and `MetricInner::print` called through this guard,
/// each ensure they preserve well-formedness.
#[verifier::external_body]
fn guard_inner<'a, 'b>(g: &'b mut InnerGuard<'a>) -> (r: &'b mut MetricInner)
    ensures
        r.wf(),
{
    &mut *g.guard
}

/// Relies on time::now: the current local broken-down time. Nothing is
/// assumed of the value, which depends on the clock.
#[verifier::external_body]
fn now_tm() -> time::Tm {
    time::now()
}

/// Relies on time::strftime: formats a broken-down time, `None` when the
/// format is not one strftime accepts. Nothing is assumed of the text.
/// The name specifiers (weekday, month) panic inside the crate on a `Tm`
/// whose fields are out of range; the one `Tm` source here is `now_tm`,
/// whose values are in range.
#[verifier::external_body]
fn strftime_tm(format: &str, tm: &time::Tm) -> Option<String> {
    time::strftime(format, tm).ok()
}

/// A reporter handle: one accumulator behind one exclusive lock. Clones
/// share the same accumulator, so a clone can be handed to a background
/// reporting loop while producers keep recording through the original.
#[derive(Clone)]
pub struct Metric {
    inner: Arc<parking_lot::Mutex<MetricInner>>,
}

/// One report cycle: a wall-clock header (`None` only if formatting the
/// time failed, a best-effort concern) and one aggregate line per key that
/// had samples pending when the report ran.
pub struct Report {
    pub timestamp: Option<String>,
    pub lines: Vec<ReportLine>,
}

impl Metric {
    /// Record one sample (an elapsed time in nanoseconds) under `key`.
    /// Takes the lock, so the update is `MetricInner::add` applied to the
    /// shared table, serialized with every other `add` and `print`. What
    /// the table held when the lock was granted is not observable here, so
    /// nothing more than `MetricInner::add`'s contract can be promised.
    pub fn add(&self, key: &str, time: u64) {
        let mut guard = lock_inner(&self.inner);
        let inner = guard_inner(&mut guard);
        inner.add(key, time);
    }

    /// Report now: compute the aggregates of every key with pending samples,
    /// reset their windows, and stamp the report with the current local
    /// time. Safe to race with `add` and with a periodic caller. Whatever
    /// table state the lock granted, the lines are `MetricInner::print`'s
    /// report of that well-formed table.
    pub fn print(&self) -> (r: Report)
        ensures
            is_report(r.lines@),
    {
        let lines = {
            let mut guard = lock_inner(&self.inner);
            let inner = guard_inner(&mut guard);
            let ghost t0 = inner@;
            let l = inner.print();
            proof {
                assert(is_report_of(l@, t0));
            }
            l
        };
        let tm = now_tm();
        let timestamp = strftime_tm("%Y-%m-%d %H:%M:%S %Z", &tm);
        Report { timestamp, lines }
    }
}

impl Default for Metric {
    /// A reporter over a fresh accumulator with no keys and no samples.
    fn default() -> Metric {
        Metric { inner: Arc::new(mutex_new(MetricInner::default())) }
    }
}

} // verus!

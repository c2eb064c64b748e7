use metric_logger::inner::MetricInner;
use metric_logger::metric::Metric;

const MS: u64 = 1_000_000;

#[test]
fn fresh_report_has_no_key_lines() {
    let metric = Metric::default();
    let report = metric.print();
    assert!(report.timestamp.is_some());
    assert!(report.lines.is_empty());
}

#[test]
fn scenario_three_samples_one_key() {
    let metric = Metric::default();
    metric.add("x", 10 * MS);
    metric.add("x", 20 * MS);
    metric.add("x", 30 * MS);
    let report = metric.print();
    assert_eq!(report.lines.len(), 1);
    let line = &report.lines[0];
    assert_eq!(line.key, "x");
    assert_eq!(line.total, (60 * MS) as u128);
    assert_eq!(line.average, 20 * MS);
    assert_eq!(line.max, 30 * MS);
    assert_eq!(line.min, 10 * MS);
    assert_eq!(line.count, 3);
    let second = metric.print();
    assert!(second.lines.is_empty());
}

#[test]
fn scenario_two_keys_single_report() {
    let metric = Metric::default();
    metric.add("a", 5 * MS);
    metric.add("b", 7 * MS);
    let report = metric.print();
    assert_eq!(report.lines.len(), 2);
    let a = report.lines.iter().find(|l| l.key == "a").expect("line for a");
    let b = report.lines.iter().find(|l| l.key == "b").expect("line for b");
    assert_eq!(a.total, (5 * MS) as u128);
    assert_eq!(a.average, 5 * MS);
    assert_eq!(a.max, 5 * MS);
    assert_eq!(a.min, 5 * MS);
    assert_eq!(a.count, 1);
    assert_eq!(b.total, (7 * MS) as u128);
    assert_eq!(b.average, 7 * MS);
    assert_eq!(b.max, 7 * MS);
    assert_eq!(b.min, 7 * MS);
    assert_eq!(b.count, 1);
}

#[test]
fn aggregates_match_formulas() {
    let mut inner = MetricInner::default();
    inner.add("k", 4);
    inner.add("k", 9);
    inner.add("k", 2);
    inner.add("k", 9);
    let lines = inner.print();
    assert_eq!(lines.len(), 1);
    let line = &lines[0];
    assert_eq!(line.total, 24);
    assert_eq!(line.count, 4);
    assert_eq!(line.average, 6);
    assert_eq!(line.max, 9);
    assert_eq!(line.min, 2);
}

#[test]
fn average_truncates_toward_zero() {
    let mut inner = MetricInner::default();
    inner.add("k", 1);
    inner.add("k", 2);
    let lines = inner.print();
    assert_eq!(lines[0].total, 3);
    assert_eq!(lines[0].average, 1);
}

#[test]
fn single_sample_is_its_own_extremes() {
    let mut inner = MetricInner::default();
    inner.add("k", 0);
    let lines = inner.print();
    assert_eq!(lines.len(), 1);
    assert_eq!(lines[0].total, 0);
    assert_eq!(lines[0].average, 0);
    assert_eq!(lines[0].max, 0);
    assert_eq!(lines[0].min, 0);
    assert_eq!(lines[0].count, 1);
}

#[test]
fn largest_samples_do_not_overflow() {
    let mut inner = MetricInner::default();
    inner.add("k", u64::MAX);
    inner.add("k", u64::MAX);
    inner.add("k", u64::MAX);
    let lines = inner.print();
    assert_eq!(lines[0].total, 3 * (u64::MAX as u128));
    assert_eq!(lines[0].average, u64::MAX);
    assert_eq!(lines[0].max, u64::MAX);
    assert_eq!(lines[0].min, u64::MAX);
}

#[test]
fn report_resets_window() {
    let mut inner = MetricInner::default();
    inner.add("k", 10);
    let first = inner.print();
    assert_eq!(first.len(), 1);
    let second = inner.print();
    assert!(second.is_empty());
    inner.add("k", 20);
    let third = inner.print();
    assert_eq!(third.len(), 1);
    assert_eq!(third[0].total, 20);
    assert_eq!(third[0].count, 1);
}

#[test]
fn empty_keys_are_skipped_not_dropped() {
    let mut inner = MetricInner::default();
    inner.add("quiet", 1);
    inner.add("busy", 2);
    let first = inner.print();
    assert_eq!(first.len(), 2);
    inner.add("busy", 3);
    let second = inner.print();
    assert_eq!(second.len(), 1);
    assert_eq!(second[0].key, "busy");
    assert_eq!(second[0].total, 3);
}

#[test]
fn keys_are_independent() {
    let mut inner = MetricInner::default();
    inner.add("a", 100);
    inner.add("b", 7);
    inner.add("a", 300);
    inner.add("a", 200);
    let lines = inner.print();
    let b = lines.iter().find(|l| l.key == "b").expect("line for b");
    assert_eq!(b.total, 7);
    assert_eq!(b.average, 7);
    assert_eq!(b.max, 7);
    assert_eq!(b.min, 7);
    assert_eq!(b.count, 1);
    let a = lines.iter().find(|l| l.key == "a").expect("line for a");
    assert_eq!(a.total, 600);
    assert_eq!(a.count, 3);
    assert_eq!(a.max, 300);
    assert_eq!(a.min, 100);
}

#[test]
fn lines_come_in_insertion_order() {
    let mut inner = MetricInner::default();
    inner.add("c", 1);
    inner.add("a", 2);
    inner.add("b", 3);
    inner.add("a", 4);
    let lines = inner.print();
    let keys: Vec<&str> = lines.iter().map(|l| l.key.as_str()).collect();
    assert_eq!(keys, vec!["c", "a", "b"]);
}

#[test]
fn no_sample_lost_across_reports() {
    let producers = 4usize;
    let adds_each = 25usize;
    let metric = Metric::default();
    let mut reported = 0usize;
    let mut issued = 0usize;
    for p in 0..producers {
        let key = format!("producer{}", p);
        for m in 0..adds_each {
            metric.add(&key, (m as u64) + 1);
            issued += 1;
            if issued % 7 == 0 {
                let report = metric.print();
                reported += report.lines.iter().map(|l| l.count).sum::<usize>();
            }
        }
    }
    let last = metric.print();
    reported += last.lines.iter().map(|l| l.count).sum::<usize>();
    assert_eq!(reported, producers * adds_each);
    assert!(metric.print().lines.is_empty());
}

#[test]
fn entry_reset_clears_pending_samples() {
    let mut entry = metric_logger::entry::MetricEntry::default();
    entry.add(8);
    entry.add(3);
    assert_eq!(entry.count(), 2);
    let (total, max, min) = entry.aggregate();
    assert_eq!(total, 11);
    assert_eq!(max, 8);
    assert_eq!(min, 3);
    entry.reset_prev();
    assert_eq!(entry.count(), 0);
}

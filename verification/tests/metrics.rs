use rust_udcn::clock::{expired_after, nonce_from_millis};
use rust_udcn::metrics::{micros_of, Counter, Gauge, Histogram, Timer, UdcnMetrics};
use rust_udcn::text::format_duration;

#[test]
fn counter_counts_and_never_decreases() {
    let mut c = Counter::new();
    assert_eq!(c.value(), 0);
    c.increment();
    c.add(41);
    assert_eq!(c.value(), 42);
    c.add(u64::MAX);
    assert_eq!(c.value(), u64::MAX);
    c.increment();
    assert_eq!(c.value(), u64::MAX);
    c.reset();
    assert_eq!(c.value(), 0);
    assert_eq!(Counter::default().value(), 0);
}

#[test]
fn gauge_goes_up_and_down() {
    let mut g = Gauge::new();
    g.set(7);
    g.increment();
    assert_eq!(g.value(), 8);
    g.decrement();
    g.decrement();
    assert_eq!(g.value(), 6);
    assert_eq!(Gauge::default().value(), 0);
}

#[test]
fn gauge_wraps_at_both_ends() {
    let mut g = Gauge::new();
    g.decrement();
    assert_eq!(g.value(), u64::MAX);
    g.increment();
    assert_eq!(g.value(), 0);
    g.set(u64::MAX);
    g.increment();
    assert_eq!(g.value(), 0);
    g.decrement();
    assert_eq!(g.value(), u64::MAX);
}

#[test]
fn histogram_sorts_into_buckets() {
    let mut h = Histogram::new(vec![10, 100, 1000]);
    for value in [5, 10, 11, 100, 101, 1000, 1001, 9999] {
        h.observe(value);
    }
    assert_eq!(h.counts(), vec![(10, 1), (100, 2), (1000, 2)]);
    assert_eq!(h.count(), 8);
    assert_eq!(h.sum(), 5 + 10 + 11 + 100 + 101 + 1000 + 1001 + 9999);
}

#[test]
fn histogram_without_bounds_counts_everything_above() {
    let mut h = Histogram::new(Vec::new());
    h.observe(3);
    assert_eq!(h.counts(), Vec::<(u64, u64)>::new());
    assert_eq!(h.count(), 1);
    assert_eq!(h.sum(), 3);
}

#[test]
fn timer_records_only_when_started() {
    let mut t = Timer::new();
    assert_eq!(
        t.histogram().counts(),
        vec![
            (10, 0),
            (100, 0),
            (1_000, 0),
            (10_000, 0),
            (100_000, 0),
            (1_000_000, 0),
            (10_000_000, 0)
        ]
    );
    assert_eq!(t.stop(), 0);
    assert_eq!(t.histogram().count(), 0);
    t.start();
    let micros = t.stop();
    assert_eq!(t.histogram().count(), 1);
    assert_eq!(t.histogram().sum(), micros);
    assert_eq!(t.stop(), 0);
    assert_eq!(t.histogram().count(), 1);
    let mut custom = Timer::with_buckets(vec![1, 2]);
    assert_eq!(custom.histogram().counts(), vec![(1, 0), (2, 0)]);
    custom.record(2);
    custom.record(9);
    assert_eq!(custom.histogram().counts(), vec![(1, 0), (2, 1)]);
    assert_eq!(custom.histogram().count(), 2);
    assert_eq!(custom.histogram().sum(), 11);
}

#[test]
fn fresh_metrics_are_zero() {
    let m = UdcnMetrics::new();
    assert_eq!(m.packets_total.value(), 0);
    assert_eq!(m.interests_received.value(), 0);
    assert_eq!(m.cs_hits.value(), 0);
    assert_eq!(m.pit_size.value(), 0);
    assert_eq!(m.bytes_sent.value(), 0);
    assert_eq!(m.interest_processing_time.histogram().count(), 0);
}

#[test]
fn clock_arithmetic() {
    assert_eq!(micros_of(0), 0);
    assert_eq!(micros_of(1999), 1);
    assert_eq!(micros_of(u128::MAX), u64::MAX);
    assert!(!expired_after(10_000_000_000, 10_000));
    assert!(expired_after(10_000_000_001, 10_000));
    assert!(expired_after(1, 0));
    assert_eq!(nonce_from_millis(5), 5);
    assert_eq!(nonce_from_millis(0xFFFF_FFFF), 0);
    assert_eq!(nonce_from_millis(0x1_0000_0000), 1);
}

#[test]
fn durations_as_text() {
    assert_eq!(format_duration(0, 0), "0.000s");
    assert_eq!(format_duration(5, 7), "5.007s");
    assert_eq!(format_duration(12, 34), "12.034s");
    assert_eq!(format_duration(59, 999), "59.999s");
    assert_eq!(format_duration(60, 500), "1m 0s");
    assert_eq!(format_duration(3599, 5), "59m 59s");
    assert_eq!(format_duration(3600, 0), "1h 0m 0s");
    assert_eq!(format_duration(90061, 1), "25h 1m 1s");
    assert_eq!(format_duration(u64::MAX, 0), "5124095576030431h 0m 15s");
}

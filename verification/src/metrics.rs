//! Counters, gauges and one histogram for observing the forwarder.
//!
//! A counter never decreases: at the top of its range it stays there. A
//! gauge goes up and down and wraps at either end of its range.

use crate::clock::{elapsed_nanos, instant_now};
use std::time::Instant;
use vstd::prelude::*;

verus! {

/// The sum of two counts, held at the top of the range.
pub open spec fn sat_add(a: u64, b: u64) -> u64 {
    if a + b > u64::MAX {
        u64::MAX
    } else {
        (a + b) as u64
    }
}

/// A count of events.
#[derive(Debug, Clone, Copy, PartialEq, Eq)]
pub struct Counter {
    value: u64,
}

impl Counter {
    /// The count.
    pub closed spec fn spec_value(&self) -> u64 {
        self.value
    }

    /// A counter at zero.
    pub fn new() -> (c: Self)
        ensures
            c.value() == 0,
    {
        Counter { value: 0 }
    }

    /// Counts one event.
    pub fn increment(&mut self)
        ensures
            final(self).value() == sat_add(old(self).value(), 1),
    {
        self.value = self.value.saturating_add(1);
    }

    /// Counts `value` events.
    pub fn add(&mut self, value: u64)
        ensures
            final(self).value() == sat_add(old(self).value(), value),
    {
        self.value = self.value.saturating_add(value);
    }

    /// The count.
    #[verifier::when_used_as_spec(spec_value)]
    pub fn value(&self) -> (v: u64)
        ensures
            v == self.value(),
    {
        self.value
    }

    /// Starts the count again at zero.
    pub fn reset(&mut self)
        ensures
            final(self).value() == 0,
    {
        self.value = 0;
    }
}

impl Default for Counter {
    fn default() -> (c: Self)
        ensures
            c.value() == 0,
    {
        Counter::new()
    }
}

/// A level that goes up and down.
#[derive(Debug, Clone, Copy, PartialEq, Eq)]
pub struct Gauge {
    value: u64,
}

impl Gauge {
    /// The level.
    pub closed spec fn spec_value(&self) -> u64 {
        self.value
    }

    /// A gauge at zero.
    pub fn new() -> (g: Self)
        ensures
            g.value() == 0,
    {
        Gauge { value: 0 }
    }

    /// Sets the level.
    pub fn set(&mut self, value: u64)
        ensures
            final(self).value() == value,
    {
        self.value = value;
    }

    /// Raises the level by one; from the top of the range it wraps to zero.
    pub fn increment(&mut self)
        ensures
            final(self).value() == old(self).value().wrapping_add(1),
    {
        self.value = self.value.wrapping_add(1);
    }

    /// Lowers the level by one; from zero it wraps to the top of the range.
    pub fn decrement(&mut self)
        ensures
            final(self).value() == old(self).value().wrapping_sub(1),
    {
        self.value = self.value.wrapping_sub(1);
    }

    /// The level.
    #[verifier::when_used_as_spec(spec_value)]
    pub fn value(&self) -> (v: u64)
        ensures
            v == self.value(),
    {
        self.value
    }
}

/// Raising a level by one and lowering it by one gives the level back, at
/// either end of the range too.
pub proof fn lemma_gauge_restores(v: u64)
    ensures
        v.wrapping_add(1).wrapping_sub(1) == v,
        v.wrapping_sub(1).wrapping_add(1) == v,
{
}

impl Default for Gauge {
    fn default() -> (g: Self)
        ensures
            g.value() == 0,
    {
        Gauge::new()
    }
}

/// The bucket that an observation falls in: the first whose upper bound is
/// not below the value. `None` where the value lies below the first bound, or
/// above all of them.
pub open spec fn bucket_of(boundaries: Seq<u64>, value: u64) -> Option<int> {
    if boundaries.len() > 0 && value < boundaries[0] {
        None
    } else {
        first_at_least(boundaries, value, 0)
    }
}

/// The first index from `from` on whose bound is not below the value.
pub open spec fn first_at_least(boundaries: Seq<u64>, value: u64, from: int) -> Option<int>
    decreases boundaries.len() - from,
{
    if from < 0 || from >= boundaries.len() {
        None
    } else if value <= boundaries[from] {
        Some(from)
    } else {
        first_at_least(boundaries, value, from + 1)
    }
}

/// The observations in all the buckets together.
pub open spec fn bucket_total(buckets: Seq<u64>) -> nat
    decreases buckets.len(),
{
    if buckets.len() == 0 {
        0
    } else {
        bucket_total(buckets.drop_last()) + buckets.last() as nat
    }
}

/// Changing one bucket changes the total by as much, and no bucket holds
/// more than the total.
proof fn lemma_total_update(buckets: Seq<u64>, i: int, v: u64)
    requires
        0 <= i < buckets.len(),
    ensures
        bucket_total(buckets.update(i, v)) == bucket_total(buckets) - buckets[i] + v,
        buckets[i] <= bucket_total(buckets),
    decreases buckets.len(),
{
    let changed = buckets.update(i, v);
    if i == buckets.len() - 1 {
        assert(changed.drop_last() =~= buckets.drop_last());
    } else {
        lemma_total_update(buckets.drop_last(), i, v);
        assert(changed.drop_last() =~= buckets.drop_last().update(i, v));
    }
}

/// Empty buckets hold nothing.
proof fn lemma_total_zeros(n: nat)
    ensures
        bucket_total(Seq::new(n, |i: int| 0u64)) == 0,
    decreases n,
{
    if n > 0 {
        lemma_total_zeros((n - 1) as nat);
        assert(Seq::new(n, |i: int| 0u64).drop_last() =~= Seq::new(
            (n - 1) as nat,
            |i: int| 0u64,
        ));
    }
}

/// Observations sorted into buckets by upper bound.
#[derive(Debug, Clone)]
pub struct Histogram {
    buckets: Vec<u64>,
    boundaries: Vec<u64>,
    underflow: u64,
    overflow: u64,
    sum: u64,
    count: u64,
}

impl Histogram {
    /// There is one bucket for each bound, and until the count reaches the
    /// top of its range every observation stands in one place: in a bucket,
    /// below the buckets or above them.
    pub closed spec fn wf(&self) -> bool {
        &&& self.buckets@.len() == self.boundaries@.len()
        &&& self.count < u64::MAX ==> self.underflow + self.overflow + bucket_total(
            self.buckets@,
        ) == self.count
    }

    /// Every observation is counted in one place: the buckets and the two
    /// counts beside them add up to the count of observations, as long as
    /// that count has not reached the top of its range.
    pub proof fn lemma_observations_accounted(&self)
        requires
            self.wf(),
            self.count() < u64::MAX,
        ensures
            self.underflow() + self.overflow() + bucket_total(self.buckets()) == self.count(),
            bucket_total(self.buckets()) <= self.count(),
    {
    }

    /// The upper bounds of the buckets.
    pub closed spec fn boundaries(&self) -> Seq<u64> {
        self.boundaries@
    }

    /// The number of observations in each bucket.
    pub closed spec fn buckets(&self) -> Seq<u64> {
        self.buckets@
    }

    /// The number of observations below the first bound.
    pub closed spec fn underflow(&self) -> u64 {
        self.underflow
    }

    /// The number of observations above the last bound.
    pub closed spec fn overflow(&self) -> u64 {
        self.overflow
    }

    /// The sum of all observations.
    pub closed spec fn spec_sum(&self) -> u64 {
        self.sum
    }

    /// The number of observations.
    pub closed spec fn spec_count(&self) -> u64 {
        self.count
    }

    /// An empty histogram with the given upper bounds.
    pub fn new(boundaries: Vec<u64>) -> (h: Self)
        ensures
            h.wf(),
            h.boundaries() == boundaries@,
            h.buckets() == Seq::new(boundaries@.len(), |i: int| 0u64),
            h.underflow() == 0,
            h.overflow() == 0,
            h.sum() == 0,
            h.count() == 0,
    {
        let mut buckets: Vec<u64> = Vec::new();
        let mut i: usize = 0;
        while i < boundaries.len()
            invariant
                i <= boundaries.len(),
                buckets@.len() == i,
                forall|j: int| 0 <= j < i ==> buckets@[j] == 0,
            decreases boundaries.len() - i,
        {
            buckets.push(0);
            i += 1;
        }
        assert(buckets@ =~= Seq::new(boundaries@.len(), |i: int| 0u64));
        proof {
            lemma_total_zeros(boundaries@.len());
        }
        Histogram { buckets, boundaries, underflow: 0, overflow: 0, sum: 0, count: 0 }
    }

    /// Records one observation: in the sum and the count, and in its bucket,
    /// or below or above the buckets where it falls in none.
    pub fn observe(&mut self, value: u64)
        requires
            old(self).wf(),
        ensures
            final(self).wf(),
            final(self).boundaries() == old(self).boundaries(),
            final(self).sum() == sat_add(old(self).sum(), value),
            final(self).count() == sat_add(old(self).count(), 1),
            match bucket_of(old(self).boundaries(), value) {
                Some(i) => {
                    &&& 0 <= i < old(self).buckets().len()
                    &&& final(self).buckets() == old(self).buckets().update(
                        i,
                        sat_add(old(self).buckets()[i], 1),
                    )
                    &&& final(self).underflow() == old(self).underflow()
                    &&& final(self).overflow() == old(self).overflow()
                },
                None => {
                    &&& final(self).buckets() == old(self).buckets()
                    &&& if old(self).boundaries().len() > 0 && value < old(self).boundaries()[0] {
                        &&& final(self).underflow() == sat_add(old(self).underflow(), 1)
                        &&& final(self).overflow() == old(self).overflow()
                    } else {
                        &&& final(self).underflow() == old(self).underflow()
                        &&& final(self).overflow() == sat_add(old(self).overflow(), 1)
                    }
                },
            },
    {
        self.sum = self.sum.saturating_add(value);
        self.count = self.count.saturating_add(1);
        if self.boundaries.len() > 0 && value < self.boundaries[0] {
            self.underflow = self.underflow.saturating_add(1);
            return ;
        }
        let mut i: usize = 0;
        while i < self.boundaries.len()
            invariant
                i <= self.boundaries@.len(),
                self.buckets@.len() == self.boundaries@.len(),
                self.boundaries@ == old(self).boundaries@,
                self.buckets@ == old(self).buckets@,
                self.underflow == old(self).underflow,
                self.overflow == old(self).overflow,
                self.sum == sat_add(old(self).sum, value),
                self.count == sat_add(old(self).count, 1),
                old(self).count < u64::MAX ==> old(self).underflow + old(self).overflow
                    + bucket_total(old(self).buckets@) == old(self).count,
                !(self.boundaries@.len() > 0 && value < self.boundaries@[0]),
                first_at_least(self.boundaries@, value, 0) == first_at_least(
                    self.boundaries@,
                    value,
                    i as int,
                ),
            decreases self.boundaries.len() - i,
        {
            if value <= self.boundaries[i] {
                let n = self.buckets[i].saturating_add(1);
                proof {
                    lemma_total_update(self.buckets@, i as int, n);
                }
                self.buckets[i] = n;
                return ;
            }
            i += 1;
        }
        self.overflow = self.overflow.saturating_add(1);
    }

    /// Each upper bound with the number of observations in its bucket.
    pub fn counts(&self) -> (cs: Vec<(u64, u64)>)
        requires
            self.wf(),
        ensures
            cs@.len() == self.boundaries().len(),
            forall|i: int|
                0 <= i < cs@.len() ==> #[trigger] cs@[i] == (
                    self.boundaries()[i],
                    self.buckets()[i],
                ),
    {
        let mut cs: Vec<(u64, u64)> = Vec::new();
        let mut i: usize = 0;
        while i < self.boundaries.len()
            invariant
                i <= self.boundaries@.len(),
                self.buckets@.len() == self.boundaries@.len(),
                cs@.len() == i,
                forall|j: int|
                    0 <= j < i ==> #[trigger] cs@[j] == (self.boundaries@[j], self.buckets@[j]),
            decreases self.boundaries.len() - i,
        {
            cs.push((self.boundaries[i], self.buckets[i]));
            i += 1;
        }
        cs
    }

    /// The number of observations.
    #[verifier::when_used_as_spec(spec_count)]
    pub fn count(&self) -> (n: u64)
        ensures
            n == self.count(),
    {
        self.count
    }

    /// The sum of all observations.
    #[verifier::when_used_as_spec(spec_sum)]
    pub fn sum(&self) -> (n: u64)
        ensures
            n == self.sum(),
    {
        self.sum
    }
}

/// A stopwatch that records what it measures, in microseconds, in a histogram.
#[derive(Debug, Clone)]
pub struct Timer {
    start: Option<Instant>,
    histogram: Histogram,
}

impl Timer {
    /// The histogram is well formed.
    pub closed spec fn wf(&self) -> bool {
        self.histogram.wf()
    }

    /// The histogram of what has been measured.
    pub closed spec fn spec_histogram(&self) -> &Histogram {
        &self.histogram
    }

    /// Whether the stopwatch is running.
    pub closed spec fn running(&self) -> bool {
        self.start is Some
    }

    /// A stopped timer with buckets from ten microseconds to ten seconds, each
    /// ten times the one before.
    pub fn new() -> (t: Self)
        ensures
            t.wf(),
            !t.running(),
            t.histogram().boundaries() == seq![
                10u64,
                100u64,
                1_000u64,
                10_000u64,
                100_000u64,
                1_000_000u64,
                10_000_000u64,
            ],
            t.histogram().count() == 0,
    {
        let mut boundaries: Vec<u64> = Vec::new();
        boundaries.push(10);
        boundaries.push(100);
        boundaries.push(1_000);
        boundaries.push(10_000);
        boundaries.push(100_000);
        boundaries.push(1_000_000);
        boundaries.push(10_000_000);
        assert(boundaries@ =~= seq![
            10u64,
            100u64,
            1_000u64,
            10_000u64,
            100_000u64,
            1_000_000u64,
            10_000_000u64,
        ]);
        Timer { start: None, histogram: Histogram::new(boundaries) }
    }

    /// A stopped timer with the given bucket bounds.
    pub fn with_buckets(boundaries: Vec<u64>) -> (t: Self)
        ensures
            t.wf(),
            !t.running(),
            t.histogram().boundaries() == boundaries@,
            t.histogram().count() == 0,
    {
        Timer { start: None, histogram: Histogram::new(boundaries) }
    }

    /// Starts the stopwatch now.
    pub fn start(&mut self)
        ensures
            final(self).running(),
            final(self).histogram() == old(self).histogram(),
    {
        self.start = Some(instant_now());
    }

    /// Stops the stopwatch and records the microseconds that have passed
    /// since it was started. A stopwatch that was not running records nothing
    /// and reports zero.
    pub fn stop(&mut self) -> (micros: u64)
        requires
            old(self).wf(),
        ensures
            final(self).wf(),
            !final(self).running(),
            old(self).running() ==> final(self).histogram().count() == sat_add(
                old(self).histogram().count(),
                1,
            ) && final(self).histogram().sum() == sat_add(old(self).histogram().sum(), micros),
            !old(self).running() ==> micros == 0 && final(self).histogram() == old(
                self,
            ).histogram(),
    {
        match self.start.take() {
            Some(since) => {
                let micros = micros_of(elapsed_nanos(&since));
                self.histogram.observe(micros);
                micros
            },
            None => 0,
        }
    }

    /// Records a time that was measured elsewhere, in microseconds. The
    /// stopwatch itself is not touched.
    pub fn record(&mut self, micros: u64)
        requires
            old(self).wf(),
        ensures
            final(self).wf(),
            final(self).running() == old(self).running(),
            final(self).histogram().boundaries() == old(self).histogram().boundaries(),
            final(self).histogram().count() == sat_add(old(self).histogram().count(), 1),
            final(self).histogram().sum() == sat_add(old(self).histogram().sum(), micros),
    {
        self.histogram.observe(micros);
    }

    /// The histogram of what has been measured.
    #[verifier::when_used_as_spec(spec_histogram)]
    pub fn histogram(&self) -> (h: &Histogram)
        ensures
            *h == self.histogram(),
    {
        &self.histogram
    }
}

/// Whole microseconds in a span of nanoseconds, held at the top of the range.
pub fn micros_of(nanos: u128) -> (micros: u64)
    ensures
        micros as int == if nanos / 1000 > u64::MAX {
            u64::MAX as int
        } else {
            nanos as int / 1000
        },
{
    let us = nanos / 1000;
    if us > u64::MAX as u128 {
        u64::MAX
    } else {
        us as u64
    }
}

/// All the measurements of one forwarder.
#[derive(Debug, Clone)]
pub struct UdcnMetrics {
    /// Packets handled, Interests and Data together.
    pub packets_total: Counter,
    /// Interests received.
    pub interests_received: Counter,
    /// Interests expressed on a face.
    pub interests_sent: Counter,
    /// Expressed Interests that were answered with Data.
    pub interests_satisfied: Counter,
    /// Expressed Interests whose waiter elapsed.
    pub interests_timed_out: Counter,
    /// Interests dropped because the same Interest was pending already.
    pub interests_duplicate: Counter,
    /// Interests dropped for another reason than being a duplicate.
    pub interests_dropped_other: Counter,
    /// Interests sent on to a next hop.
    pub interests_forwarded: Counter,
    /// Data received.
    pub data_received: Counter,
    /// Data sent on a face.
    pub data_sent: Counter,
    /// Interests answered from the content store.
    pub cs_hits: Counter,
    /// Interests that the content store could not answer and that were
    /// forwarded.
    pub cs_misses: Counter,
    /// Data stored in the content store.
    pub cs_inserts: Counter,
    /// Records evicted from the content store to make room.
    pub cs_evictions: Counter,
    /// The number of records in the content store.
    pub cs_size: Gauge,
    /// Records inserted into the pending-interest table.
    pub pit_inserts: Counter,
    /// Pending records that a Data matched.
    pub pit_matches: Counter,
    /// Pending records removed because they had outlived their lifetime.
    pub pit_expirations: Counter,
    /// The number of records in the pending-interest table.
    pub pit_size: Gauge,
    /// Lookups in the forwarding base that found a route.
    pub fib_hits: Counter,
    /// Lookups in the forwarding base.
    pub fib_lookups: Counter,
    /// The number of routes in the forwarding base.
    pub fib_size: Gauge,
    /// Bytes read from streams.
    pub bytes_received: Counter,
    /// Bytes written to streams.
    pub bytes_sent: Counter,
    /// The time that expressed Interests took to be answered.
    pub interest_processing_time: Timer,
}

impl UdcnMetrics {
    /// Every counter and gauge stands at zero and nothing has been timed.
    pub open spec fn all_zero(&self) -> bool {
        &&& self.packets_total.value() == 0
        &&& self.interests_received.value() == 0
        &&& self.interests_sent.value() == 0
        &&& self.interests_satisfied.value() == 0
        &&& self.interests_timed_out.value() == 0
        &&& self.interests_duplicate.value() == 0
        &&& self.interests_dropped_other.value() == 0
        &&& self.interests_forwarded.value() == 0
        &&& self.data_received.value() == 0
        &&& self.data_sent.value() == 0
        &&& self.cs_hits.value() == 0
        &&& self.cs_misses.value() == 0
        &&& self.cs_inserts.value() == 0
        &&& self.cs_evictions.value() == 0
        &&& self.cs_size.value() == 0
        &&& self.pit_inserts.value() == 0
        &&& self.pit_matches.value() == 0
        &&& self.pit_expirations.value() == 0
        &&& self.pit_size.value() == 0
        &&& self.fib_hits.value() == 0
        &&& self.fib_lookups.value() == 0
        &&& self.fib_size.value() == 0
        &&& self.bytes_received.value() == 0
        &&& self.bytes_sent.value() == 0
        &&& self.interest_processing_time.wf()
        &&& self.interest_processing_time.histogram().count() == 0
    }

    /// Fresh measurements.
    pub fn new() -> (m: Self)
        ensures
            m.all_zero(),
    {
        UdcnMetrics {
            packets_total: Counter::new(),
            interests_received: Counter::new(),
            interests_sent: Counter::new(),
            interests_satisfied: Counter::new(),
            interests_timed_out: Counter::new(),
            interests_duplicate: Counter::new(),
            interests_dropped_other: Counter::new(),
            interests_forwarded: Counter::new(),
            data_received: Counter::new(),
            data_sent: Counter::new(),
            cs_hits: Counter::new(),
            cs_misses: Counter::new(),
            cs_inserts: Counter::new(),
            cs_evictions: Counter::new(),
            cs_size: Gauge::new(),
            pit_inserts: Counter::new(),
            pit_matches: Counter::new(),
            pit_expirations: Counter::new(),
            pit_size: Gauge::new(),
            fib_hits: Counter::new(),
            fib_lookups: Counter::new(),
            fib_size: Gauge::new(),
            bytes_received: Counter::new(),
            bytes_sent: Counter::new(),
            interest_processing_time: Timer::new(),
        }
    }
}

} // verus!

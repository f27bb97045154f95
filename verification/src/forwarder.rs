//! The forwarding state machine.
//!
//! An Interest is answered from the content store where a live record
//! matches; else it is dropped as a duplicate where the pending-interest
//! table holds its key; else it is recorded there and forwarded along the
//! longest matching route, or dropped, and its record removed, where no route
//! matches. A Data is handed to every Interest that is pending for its name,
//! whose records are removed, and is then stored; a Data that nobody awaits
//! is dropped.

use crate::classifier::{extract_face_id, frame_payload, Packet};
use crate::cs::{cs_key, cs_record, live, ContentStore, CsRecord};
use crate::error::Error;
use crate::fib::{fib_key, lookup_route, Fib};
use crate::metrics::UdcnMetrics;
use crate::name::{key_len, name_hash, Name};
use crate::ndn::{Data, DataView, Interest, InterestView};
use crate::packet::{parse_packet, NdnPacket, NdnPacketView};
use crate::pit::{for_name, keys_for_name, PendingInterestTable, PitOutcome};
use crate::table::{listed, records_of};
use crate::types::{
    has_lapsed, lapsed, CsKey, FaceId, FibKey, FibValue, PitKey, PitValue, XdpAction,
    MAX_CS_ENTRIES, MAX_FIB_ENTRIES, MAX_PIT_ENTRIES,
};
use vstd::prelude::*;

verus! {

/// Why a packet was dropped.
#[derive(Debug, Clone, Copy, PartialEq, Eq, Structural)]
pub enum DropReason {
    /// The pending-interest table holds the Interest already.
    Duplicate,
    /// The pending-interest table has no room and nothing to evict.
    PitFull,
    /// No route matches the name.
    NoRoute,
    /// No Interest is pending for the Data.
    Unsolicited,
}

impl DropReason {
    /// The name of the reason.
    pub fn as_str(&self) -> (s: &'static str)
        ensures
            s@ == match *self {
                DropReason::Duplicate => "duplicate"@,
                DropReason::PitFull => "pit_full"@,
                DropReason::NoRoute => "no_route"@,
                DropReason::Unsolicited => "unsolicited"@,
            },
    {
        match self {
            DropReason::Duplicate => "duplicate",
            DropReason::PitFull => "pit_full",
            DropReason::NoRoute => "no_route",
            DropReason::Unsolicited => "unsolicited",
        }
    }
}

/// What to do with an Interest.
#[derive(Debug)]
pub enum InterestDecision {
    /// Send the stored Data back on the face that the Interest came from.
    SatisfiedByCs { data: Data, face: FaceId },
    /// Send the Interest on to the next hop.
    Forward { next_hop: FaceId },
    /// Drop the Interest.
    Dropped(DropReason),
}

/// What a decision about an Interest says.
pub ghost enum InterestDecisionView {
    SatisfiedByCs { data: DataView, face: FaceId },
    Forward { next_hop: FaceId },
    Dropped(DropReason),
}

impl View for InterestDecision {
    type V = InterestDecisionView;

    open spec fn view(&self) -> InterestDecisionView {
        match *self {
            InterestDecision::SatisfiedByCs { data, face } => InterestDecisionView::SatisfiedByCs {
                data: data@,
                face,
            },
            InterestDecision::Forward { next_hop } => InterestDecisionView::Forward { next_hop },
            InterestDecision::Dropped(r) => InterestDecisionView::Dropped(r),
        }
    }
}

/// What to do with a Data.
#[derive(Debug)]
pub enum DataDecision {
    /// Send the Data to the face of each of these pending Interests.
    Forward { pending: Vec<(PitKey, PitValue)> },
    /// Drop the Data.
    Dropped(DropReason),
}

/// What a decision about a Data says.
pub ghost enum DataDecisionView {
    Forward { pending: Seq<(PitKey, PitValue)> },
    Dropped(DropReason),
}

impl View for DataDecision {
    type V = DataDecisionView;

    open spec fn view(&self) -> DataDecisionView {
        match *self {
            DataDecision::Forward { pending } => DataDecisionView::Forward { pending: pending@ },
            DataDecision::Dropped(r) => DataDecisionView::Dropped(r),
        }
    }
}

/// The counts that the forwarder keeps, as numbers.
pub ghost struct Tally {
    pub packets_total: int,
    pub interests_received: int,
    pub interests_duplicate: int,
    pub interests_dropped_other: int,
    pub interests_forwarded: int,
    pub data_received: int,
    pub cs_hits: int,
    pub cs_misses: int,
    pub cs_inserts: int,
    pub cs_evictions: int,
    pub pit_inserts: int,
    pub pit_matches: int,
    pub pit_expirations: int,
    pub fib_hits: int,
    pub fib_lookups: int,
}

/// The counts that the forwarder keeps.
pub open spec fn tally(m: UdcnMetrics) -> Tally {
    Tally {
        packets_total: m.packets_total.value() as int,
        interests_received: m.interests_received.value() as int,
        interests_duplicate: m.interests_duplicate.value() as int,
        interests_dropped_other: m.interests_dropped_other.value() as int,
        interests_forwarded: m.interests_forwarded.value() as int,
        data_received: m.data_received.value() as int,
        cs_hits: m.cs_hits.value() as int,
        cs_misses: m.cs_misses.value() as int,
        cs_inserts: m.cs_inserts.value() as int,
        cs_evictions: m.cs_evictions.value() as int,
        pit_inserts: m.pit_inserts.value() as int,
        pit_matches: m.pit_matches.value() as int,
        pit_expirations: m.pit_expirations.value() as int,
        fib_hits: m.fib_hits.value() as int,
        fib_lookups: m.fib_lookups.value() as int,
    }
}

/// What the forwarder does not count stays as it was.
pub open spec fn others_kept(pre: UdcnMetrics, post: UdcnMetrics) -> bool {
    &&& post.interests_sent == pre.interests_sent
    &&& post.interests_satisfied == pre.interests_satisfied
    &&& post.interests_timed_out == pre.interests_timed_out
    &&& post.data_sent == pre.data_sent
    &&& post.bytes_received == pre.bytes_received
    &&& post.bytes_sent == pre.bytes_sent
    &&& post.interest_processing_time == pre.interest_processing_time
}

/// The key of the pending-interest record of an Interest.
pub open spec fn interest_pit_key(i: InterestView) -> PitKey {
    PitKey { name_hash: name_hash(i.name), name_len: key_len(i.name.len()), nonce: i.nonce }
}

/// The pending-interest record of an Interest that arrived on `face` at `now_ms`.
pub open spec fn interest_pit_value(i: InterestView, face: FaceId, now_ms: u64) -> PitValue {
    PitValue {
        face_id: face,
        timestamp: now_ms,
        lifetime_ms: i.lifetime_ms,
        name_component_count: key_len(i.name.len()),
    }
}

/// The store can answer the Interest at `now_ms`: it holds a live record
/// under the key of the name, and where the Interest asks for fresh Data the
/// record is no older than its time-to-live.
pub open spec fn serves(cs: Map<CsKey, CsRecord>, i: InterestView, now_ms: u64) -> bool {
    let k = cs_key(i.name);
    &&& cs.contains_key(k)
    &&& live(cs[k], now_ms)
    &&& (i.must_be_fresh ==> now_ms - cs[k].meta.timestamp <= cs[k].meta.ttl_ms)
}

/// The table holds a record under the key that has outlived its lifetime.
pub open spec fn stale(pit: Map<PitKey, PitValue>, k: PitKey, now_ms: u64) -> bool {
    pit.contains_key(k) && lapsed(pit[k].timestamp, pit[k].lifetime_ms, now_ms)
}

/// The pending records without the one under `k`, where that one has lapsed.
pub open spec fn without_stale(pit: Map<PitKey, PitValue>, k: PitKey, now_ms: u64) -> Map<
    PitKey,
    PitValue,
> {
    if stale(pit, k, now_ms) {
        pit.remove(k)
    } else {
        pit
    }
}

/// One if the condition holds, else zero.
pub open spec fn one_if(b: bool) -> int {
    if b {
        1
    } else {
        0
    }
}

/// An Interest is pending for the name with this hash and length under the
/// key `q`, and has not outlived its lifetime.
pub open spec fn awaits(
    pit: Map<PitKey, PitValue>,
    q: PitKey,
    name_hash: u32,
    name_len: u8,
    now_ms: u64,
) -> bool {
    pit.contains_key(q) && for_name(q, name_hash, name_len) && !lapsed(
        pit[q].timestamp,
        pit[q].lifetime_ms,
        now_ms,
    )
}

/// The forwarder: the three tables and the counts.
pub struct Forwarder {
    pub cs: ContentStore,
    pub pit: PendingInterestTable,
    pub fib: Fib,
    pub metrics: UdcnMetrics,
}

impl Forwarder {
    /// The counts of the forwarder.
    pub open spec fn tally(&self) -> Tally {
        tally(self.metrics)
    }

    /// The tables are well formed, the gauges show their sizes, and the
    /// counts agree with each other: every Interest received is counted once,
    /// as a hit, a miss, a duplicate or another drop; and no more pending
    /// records have been matched, have lapsed or remain than were inserted.
    pub open spec fn wf(&self) -> bool {
        let t = self.tally();
        &&& self.cs.wf()
        &&& self.pit.wf()
        &&& self.fib.wf()
        &&& self.metrics.cs_size.value() == self.cs@.dom().len()
        &&& self.metrics.pit_size.value() == self.pit@.dom().len()
        &&& self.metrics.fib_size.value() == self.fib@.dom().len()
        &&& t.cs_hits + t.cs_misses + t.interests_duplicate + t.interests_dropped_other
            == t.interests_received
        &&& t.pit_matches + t.pit_expirations + self.pit@.dom().len() <= t.pit_inserts
        &&& t.pit_inserts <= t.interests_received
        &&& t.fib_hits <= t.fib_lookups <= t.interests_received
        &&& t.interests_forwarded <= t.interests_received
        &&& t.cs_evictions <= t.cs_inserts <= t.data_received
        &&& t.interests_received + t.data_received <= t.packets_total
    }

    /// What handling an Interest does once it has missed the store and is no
    /// duplicate, in a table that has room or a record to evict: the record
    /// is inserted, the record under `victim` giving way where the table is
    /// full; then the Interest is forwarded along the longest matching route,
    /// or dropped and its record removed where there is none.
    pub open spec fn recorded(
        pre: Forwarder,
        post: Forwarder,
        i: InterestView,
        face: FaceId,
        now_ms: u64,
        d: InterestDecisionView,
        victim: PitKey,
    ) -> bool {
        let pk = interest_pit_key(i);
        let t = pre.tally();
        let lapsed_one = one_if(stale(pre.pit@, pk, now_ms));
        let pit1 = without_stale(pre.pit@, pk, now_ms);
        let full = pit1.dom().len() == pre.pit.capacity();
        let pit2 = if full {
            pit1.remove(victim).insert(pk, interest_pit_value(i, face, now_ms))
        } else {
            pit1.insert(pk, interest_pit_value(i, face, now_ms))
        };
        &&& full ==> pit1.contains_key(victim) && forall|q: PitKey| #[trigger]
            pit1.contains_key(q) ==> pre.pit.stamp(victim) <= pre.pit.stamp(q)
        &&& match lookup_route(pre.fib@, i.name) {
            Some(route) => {
                &&& d == InterestDecisionView::Forward { next_hop: route.face_id }
                &&& post.pit@ == pit2
                &&& post.tally() == Tally {
                    packets_total: t.packets_total + 1,
                    interests_received: t.interests_received + 1,
                    cs_misses: t.cs_misses + 1,
                    pit_inserts: t.pit_inserts + 1,
                    pit_expirations: t.pit_expirations + lapsed_one,
                    fib_lookups: t.fib_lookups + 1,
                    fib_hits: t.fib_hits + 1,
                    interests_forwarded: t.interests_forwarded + 1,
                    ..t
                }
            },
            None => {
                &&& d == InterestDecisionView::Dropped(DropReason::NoRoute)
                &&& post.pit@ == pit2.remove(pk)
                &&& post.tally() == Tally {
                    packets_total: t.packets_total + 1,
                    interests_received: t.interests_received + 1,
                    interests_dropped_other: t.interests_dropped_other + 1,
                    pit_inserts: t.pit_inserts + 1,
                    pit_expirations: t.pit_expirations + lapsed_one,
                    fib_lookups: t.fib_lookups + 1,
                    ..t
                }
            },
        }
    }

    /// What handling an Interest that arrived on `face` at `now_ms` does to
    /// the forwarder, and what it decides.
    pub open spec fn interest_step(
        pre: Forwarder,
        post: Forwarder,
        i: InterestView,
        face: FaceId,
        now_ms: u64,
        d: InterestDecisionView,
    ) -> bool {
        let ck = cs_key(i.name);
        let pk = interest_pit_key(i);
        let t = pre.tally();
        let lapsed_one = one_if(stale(pre.pit@, pk, now_ms));
        &&& post.fib@ == pre.fib@
        &&& others_kept(pre.metrics, post.metrics)
        &&& if serves(pre.cs@, i, now_ms) {
            &&& d == InterestDecisionView::SatisfiedByCs { data: pre.cs@[ck].data, face }
            &&& post.cs@ == pre.cs@
            &&& post.cs.stamp(ck) == pre.cs.tick()
            &&& forall|q: CsKey|
                q != ck && #[trigger] post.cs@.contains_key(q) ==> post.cs.stamp(q)
                    == pre.cs.stamp(q)
            &&& post.pit@ == pre.pit@
            &&& post.tally() == Tally {
                packets_total: t.packets_total + 1,
                interests_received: t.interests_received + 1,
                cs_hits: t.cs_hits + 1,
                ..t
            }
        } else {
            &&& post.cs@ == pre.cs@.remove(ck)
            &&& if pre.pit@.contains_key(pk) && !stale(pre.pit@, pk, now_ms) {
                &&& d == InterestDecisionView::Dropped(DropReason::Duplicate)
                &&& post.pit@ == pre.pit@
                &&& post.tally() == Tally {
                    packets_total: t.packets_total + 1,
                    interests_received: t.interests_received + 1,
                    interests_duplicate: t.interests_duplicate + 1,
                    ..t
                }
            } else if pre.pit.capacity() == 0 {
                &&& d == InterestDecisionView::Dropped(DropReason::PitFull)
                &&& post.pit@ == without_stale(pre.pit@, pk, now_ms)
                &&& post.tally() == Tally {
                    packets_total: t.packets_total + 1,
                    interests_received: t.interests_received + 1,
                    interests_dropped_other: t.interests_dropped_other + 1,
                    pit_expirations: t.pit_expirations + lapsed_one,
                    ..t
                }
            } else {
                exists|victim: PitKey|
                    Forwarder::recorded(pre, post, i, face, now_ms, d, victim)
            }
        }
    }
}

impl Forwarder {
    /// A forwarder with empty tables of the default capacities and all
    /// counts at zero.
    pub fn new() -> (f: Self)
        ensures
            f.wf(),
            f.cs@ == Map::<CsKey, CsRecord>::empty(),
            f.pit@ == Map::<PitKey, PitValue>::empty(),
            f.fib@ == Map::<FibKey, FibValue>::empty(),
            f.cs.capacity() == MAX_CS_ENTRIES,
            f.pit.capacity() == MAX_PIT_ENTRIES,
            f.fib.capacity() == MAX_FIB_ENTRIES,
            f.metrics.all_zero(),
    {
        Forwarder {
            cs: ContentStore::new(),
            pit: PendingInterestTable::new(),
            fib: Fib::new(),
            metrics: UdcnMetrics::new(),
        }
    }

    /// A forwarder with empty tables of the given capacities and all counts
    /// at zero.
    pub fn with_capacities(cs: usize, pit: usize, fib: usize) -> (f: Self)
        ensures
            f.wf(),
            f.cs@ == Map::<CsKey, CsRecord>::empty(),
            f.pit@ == Map::<PitKey, PitValue>::empty(),
            f.fib@ == Map::<FibKey, FibValue>::empty(),
            f.cs.capacity() == cs,
            f.pit.capacity() == pit,
            f.fib.capacity() == fib,
            f.metrics.all_zero(),
    {
        Forwarder {
            cs: ContentStore::with_capacity(cs),
            pit: PendingInterestTable::with_capacity(pit),
            fib: Fib::with_capacity(fib),
            metrics: UdcnMetrics::new(),
        }
    }

    /// Adds the route for a prefix, or replaces it. A full table refuses a
    /// new prefix.
    pub fn add_route(&mut self, prefix: &Name, face_id: FaceId, cost: u8) -> (r: Result<(), Error>)
        requires
            old(self).wf(),
        ensures
            final(self).wf(),
            final(self).cs == old(self).cs,
            final(self).pit == old(self).pit,
            final(self).tally() == old(self).tally(),
            final(self).fib.capacity() == old(self).fib.capacity(),
            match r {
                Ok(_) => (old(self).fib@.contains_key(fib_key(prefix@)) || old(
                    self,
                ).fib@.dom().len() < old(self).fib.capacity()) && final(self).fib@ == old(
                    self,
                ).fib@.insert(fib_key(prefix@), FibValue { face_id, cost }),
                Err(e) => !old(self).fib@.contains_key(fib_key(prefix@)) && old(
                    self,
                ).fib@.dom().len() == old(self).fib.capacity() && e == Error::CapacityExceeded
                    && final(self).fib@ == old(self).fib@,
            },
    {
        let r = self.fib.add_route(prefix, face_id, cost);
        self.metrics.fib_size.set(self.fib.count_entries() as u64);
        r
    }

    /// Removes the route for a prefix; says whether there was one.
    pub fn remove_route(&mut self, prefix: &Name) -> (removed: bool)
        requires
            old(self).wf(),
        ensures
            final(self).wf(),
            final(self).cs == old(self).cs,
            final(self).pit == old(self).pit,
            final(self).tally() == old(self).tally(),
            final(self).fib.capacity() == old(self).fib.capacity(),
            final(self).fib@ == old(self).fib@.remove(fib_key(prefix@)),
            removed == old(self).fib@.contains_key(fib_key(prefix@)),
    {
        let removed = self.fib.remove_route(prefix);
        self.metrics.fib_size.set(self.fib.count_entries() as u64);
        removed
    }

    /// Handles an Interest that arrived on `ingress` at `now_ms`.
    pub fn on_interest(&mut self, interest: &Interest, ingress: FaceId, now_ms: u64) -> (d:
        InterestDecision)
        requires
            old(self).wf(),
            old(self).metrics.packets_total.value() < u64::MAX,
        ensures
            final(self).wf(),
            final(self).cs.capacity() == old(self).cs.capacity(),
            final(self).pit.capacity() == old(self).pit.capacity(),
            final(self).fib.capacity() == old(self).fib.capacity(),
            Forwarder::interest_step(*old(self), *final(self), interest@, ingress, now_ms, d@),
    {
        let ghost pre = *self;
        proof {
            self.pit.lemma_size();
            self.cs.lemma_size();
        }
        self.metrics.packets_total.increment();
        self.metrics.interests_received.increment();
        let ck = ContentStore::key_for(&interest.name);
        match self.cs.lookup(&ck, now_ms) {
            Some(data) => {
                self.metrics.cs_hits.increment();
                return InterestDecision::SatisfiedByCs { data, face: ingress };
            },
            None => {},
        }
        self.metrics.cs_size.set(self.cs.count_entries() as u64);
        assert(!serves(pre.cs@, interest@, now_ms));

        let pk = PitKey {
            name_hash: interest.name.hash(),
            name_len: interest.name.key_len(),
            nonce: interest.nonce,
        };
        let value = PitValue {
            face_id: ingress,
            timestamp: now_ms,
            lifetime_ms: interest.lifetime_ms,
            name_component_count: interest.name.key_len(),
        };
        let was_stale = self.pit.expire(&pk, now_ms);
        if was_stale {
            self.metrics.pit_expirations.increment();
        }
        let ghost mid = *self;
        proof {
            assert(mid.pit@ == without_stale(pre.pit@, pk, now_ms));
            mid.pit.lemma_size();
            if was_stale {
                assert(mid.pit@.dom() =~= pre.pit@.dom().remove(pk));
            }
        }
        match self.pit.insert(&pk, &value) {
            PitOutcome::Duplicate => {
                self.metrics.interests_duplicate.increment();
                self.metrics.pit_size.set(self.pit.count_entries() as u64);
                return InterestDecision::Dropped(DropReason::Duplicate);
            },
            PitOutcome::Full => {
                self.metrics.interests_dropped_other.increment();
                self.metrics.pit_size.set(self.pit.count_entries() as u64);
                return InterestDecision::Dropped(DropReason::PitFull);
            },
            PitOutcome::Inserted { evicted } => {
                self.metrics.pit_inserts.increment();
                self.metrics.fib_lookups.increment();
                let ghost victim = match evicted {
                    Some(v) => v,
                    None => pk,
                };
                let ghost after_insert = self.pit@;
                proof {
                    self.pit.lemma_size();
                    match evicted {
                        Some(v) => {
                            assert(mid.pit@.remove(v).insert(pk, value).dom()
                                =~= mid.pit@.dom().remove(v).insert(pk));
                        },
                        None => {
                            assert(mid.pit@.insert(pk, value).dom() =~= mid.pit@.dom().insert(pk));
                        },
                    }
                }
                match self.fib.find_next_hop(&interest.name) {
                    Some(next_hop) => {
                        self.metrics.fib_hits.increment();
                        self.metrics.interests_forwarded.increment();
                        self.metrics.cs_misses.increment();
                        self.metrics.pit_size.set(self.pit.count_entries() as u64);
                        let d = InterestDecision::Forward { next_hop };
                        assert(Forwarder::recorded(
                            pre,
                            *self,
                            interest@,
                            ingress,
                            now_ms,
                            d@,
                            victim,
                        ));
                        d
                    },
                    None => {
                        let _ = self.pit.remove(&pk);
                        self.metrics.interests_dropped_other.increment();
                        self.metrics.pit_size.set(self.pit.count_entries() as u64);
                        let d = InterestDecision::Dropped(DropReason::NoRoute);
                        proof {
                            assert(after_insert.remove(pk).dom() =~= after_insert.dom().remove(pk));
                            assert(Forwarder::recorded(
                                pre,
                                *self,
                                interest@,
                                ingress,
                                now_ms,
                                d@,
                                victim,
                            ));
                        }
                        d
                    },
                }
            },
        }
    }
}

/// Appending a record lists its key and keeps the others listed.
proof fn lemma_listed_push(out: Seq<(PitKey, PitValue)>, rec: (PitKey, PitValue), q: PitKey)
    ensures
        listed(out.push(rec), q) <==> (listed(out, q) || rec.0 == q),
{
    let grown = out.push(rec);
    if listed(grown, q) {
        let a = choose|a: int| 0 <= a < grown.len() && (#[trigger] grown[a]).0 == q;
        if a < out.len() {
            assert(out[a].0 == q);
        }
    }
    if listed(out, q) {
        let a = choose|a: int| 0 <= a < out.len() && (#[trigger] out[a]).0 == q;
        assert(grown[a].0 == q);
    }
    if rec.0 == q {
        assert(grown[out.len() as int].0 == q);
    }
}

/// Of the records taken out of the table, those that have not outlived their
/// lifetime at `now_ms`.
fn keep_live(
    all: &Vec<(PitKey, PitValue)>,
    now_ms: u64,
    Ghost(m): Ghost<Map<PitKey, PitValue>>,
) -> (pending: Vec<(PitKey, PitValue)>)
    requires
        records_of(all@, m),
    ensures
        records_of(pending@, m),
        pending@.len() <= all@.len(),
        forall|q: PitKey| #[trigger]
            listed(pending@, q) <==> listed(all@, q) && !lapsed(
                m[q].timestamp,
                m[q].lifetime_ms,
                now_ms,
            ),
{
    let mut pending: Vec<(PitKey, PitValue)> = Vec::new();
    let mut i: usize = 0;
    assert forall|q: PitKey| !listed(all@.take(0), q) by {}
    while i < all.len()
        invariant
            i <= all@.len(),
            records_of(all@, m),
            records_of(pending@, m),
            pending@.len() <= i,
            forall|q: PitKey| #[trigger]
                listed(pending@, q) <==> listed(all@.take(i as int), q) && !lapsed(
                    m[q].timestamp,
                    m[q].lifetime_ms,
                    now_ms,
                ),
        decreases all.len() - i,
    {
        let rec = all[i];
        let ghost before = pending@;
        proof {
            assert(all@.take(i + 1) =~= all@.take(i as int).push(rec));
            assert(!listed(all@.take(i as int), rec.0)) by {
                if listed(all@.take(i as int), rec.0) {
                    let a = choose|a: int|
                        0 <= a < all@.take(i as int).len() && (#[trigger] all@.take(
                            i as int,
                        )[a]).0 == rec.0;
                    assert(all@[a].0 != all@[i as int].0);
                }
            }
        }
        if !has_lapsed(rec.1.timestamp, rec.1.lifetime_ms, now_ms) {
            pending.push(rec);
            proof {
                assert(records_of(pending@, m)) by {
                    assert forall|a: int, b: int| 0 <= a < b < pending@.len() implies pending@[a].0
                        != pending@[b].0 by {
                        if b == before.len() {
                            assert(before[a] == pending@[a]);
                            if before[a].0 == rec.0 {
                                assert(listed(before, rec.0));
                            }
                        } else {
                            assert(before[a].0 != before[b].0);
                        }
                    }
                    assert forall|a: int| 0 <= a < pending@.len() implies m.contains_key(
                        (#[trigger] pending@[a]).0,
                    ) && pending@[a].1 == m[pending@[a].0] by {
                        if a < before.len() {
                            assert(pending@[a] == before[a]);
                        }
                    }
                }
            }
        }
        proof {
            assert forall|q: PitKey| #[trigger]
                listed(pending@, q) <==> listed(all@.take(i + 1), q) && !lapsed(
                    m[q].timestamp,
                    m[q].lifetime_ms,
                    now_ms,
                ) by {
                lemma_listed_push(all@.take(i as int), rec, q);
                lemma_listed_push(before, rec, q);
            }
        }
        i += 1;
    }
    assert(all@.take(i as int) =~= all@);
    pending
}

impl Forwarder {
    /// What handling a Data that some Interest awaits does to the store and
    /// the counts: `matched` pending records are counted as matched and the
    /// rest of those removed as lapsed; the Data is stored under the key of
    /// its name, the record under `victim` giving way where the store is full
    /// and holds no record for the name. A store of capacity zero stores
    /// nothing.
    pub open spec fn stored(
        pre: Forwarder,
        post: Forwarder,
        data: DataView,
        now_ms: u64,
        matched: int,
        victim: CsKey,
    ) -> bool {
        let ck = cs_key(data.name);
        let t = pre.tally();
        let removed = pre.pit@.dom().len() - post.pit@.dom().len();
        let base = Tally {
            packets_total: t.packets_total + 1,
            data_received: t.data_received + 1,
            pit_matches: t.pit_matches + matched,
            pit_expirations: t.pit_expirations + removed - matched,
            ..t
        };
        if pre.cs.capacity() == 0 {
            &&& post.cs@ == pre.cs@
            &&& post.tally() == base
        } else {
            let full = !pre.cs@.contains_key(ck) && pre.cs@.dom().len() == pre.cs.capacity();
            &&& full ==> pre.cs.least_recent(victim)
            &&& post.cs@ == if full {
                pre.cs@.remove(victim).insert(ck, cs_record(data, now_ms))
            } else {
                pre.cs@.insert(ck, cs_record(data, now_ms))
            }
            &&& post.cs.stamp(ck) == pre.cs.tick()
            &&& forall|q: CsKey|
                q != ck && #[trigger] post.cs@.contains_key(q) ==> post.cs.stamp(q)
                    == pre.cs.stamp(q)
            &&& post.tally() == Tally {
                cs_inserts: t.cs_inserts + 1,
                cs_evictions: t.cs_evictions + one_if(full),
                ..base
            }
        }
    }

    /// What handling a Data at `now_ms` does to the forwarder, and what it
    /// decides.
    pub open spec fn data_step(
        pre: Forwarder,
        post: Forwarder,
        data: DataView,
        now_ms: u64,
        d: DataDecisionView,
    ) -> bool {
        let h = name_hash(data.name);
        let l = key_len(data.name.len());
        let t = pre.tally();
        let removed = pre.pit@.dom().len() - post.pit@.dom().len();
        &&& post.fib@ == pre.fib@
        &&& others_kept(pre.metrics, post.metrics)
        &&& post.pit@ == pre.pit@.remove_keys(keys_for_name(h, l))
        &&& match d {
            DataDecisionView::Dropped(reason) => {
                &&& reason == DropReason::Unsolicited
                &&& forall|q: PitKey| !awaits(pre.pit@, q, h, l, now_ms)
                &&& post.cs@ == pre.cs@
                &&& post.tally() == Tally {
                    packets_total: t.packets_total + 1,
                    data_received: t.data_received + 1,
                    pit_expirations: t.pit_expirations + removed,
                    ..t
                }
            },
            DataDecisionView::Forward { pending } => {
                &&& pending.len() > 0
                &&& records_of(pending, pre.pit@)
                &&& forall|q: PitKey| #[trigger]
                    listed(pending, q) <==> awaits(pre.pit@, q, h, l, now_ms)
                &&& exists|victim: CsKey|
                    Forwarder::stored(pre, post, data, now_ms, pending.len() as int, victim)
            },
        }
    }

    /// Handles a Data that arrived on `ingress` at `now_ms`.
    pub fn on_data(&mut self, data: &Data, ingress: FaceId, now_ms: u64) -> (d: DataDecision)
        requires
            old(self).wf(),
            old(self).metrics.packets_total.value() < u64::MAX,
        ensures
            final(self).wf(),
            final(self).cs.capacity() == old(self).cs.capacity(),
            final(self).pit.capacity() == old(self).pit.capacity(),
            final(self).fib.capacity() == old(self).fib.capacity(),
            Forwarder::data_step(*old(self), *final(self), data@, now_ms, d@),
    {
        let ghost pre = *self;
        proof {
            self.pit.lemma_size();
            self.cs.lemma_size();
        }
        self.metrics.packets_total.increment();
        self.metrics.data_received.increment();
        let ck = ContentStore::key_for(&data.name);
        let all = self.pit.find_matching_interests(ck.name_hash, ck.name_len);
        let pending = keep_live(&all, now_ms, Ghost(pre.pit@));
        let lapsed_count = all.len() - pending.len();
        proof {
            self.pit.lemma_size();
            assert forall|q: PitKey| #[trigger]
                listed(pending@, q) <==> awaits(
                    pre.pit@,
                    q,
                    ck.name_hash,
                    ck.name_len,
                    now_ms,
                ) by {}
        }
        self.metrics.pit_expirations.add(lapsed_count as u64);
        self.metrics.pit_size.set(self.pit.count_entries() as u64);
        if pending.len() == 0 {
            proof {
                assert forall|q: PitKey| !awaits(
                    pre.pit@,
                    q,
                    ck.name_hash,
                    ck.name_len,
                    now_ms,
                ) by {
                    if awaits(pre.pit@, q, ck.name_hash, ck.name_len, now_ms) {
                        assert(listed(pending@, q));
                    }
                }
            }
            return DataDecision::Dropped(DropReason::Unsolicited);
        }
        self.metrics.pit_matches.add(pending.len() as u64);
        let ghost mut victim = ck;
        match self.cs.store(data, now_ms) {
            Ok(Some(v)) => {
                self.metrics.cs_inserts.increment();
                self.metrics.cs_evictions.increment();
                proof {
                    victim = v;
                }
            },
            Ok(None) => {
                self.metrics.cs_inserts.increment();
            },
            Err(_) => {},
        }
        self.metrics.cs_size.set(self.cs.count_entries() as u64);
        let d = DataDecision::Forward { pending };
        proof {
            let h = name_hash(data@.name);
            let l = key_len(data@.name.len());
            assert(Forwarder::stored(pre, *self, data@, now_ms, d@->pending.len() as int, victim));
            assert(self.pit@ == pre.pit@.remove_keys(keys_for_name(h, l)));
            assert(records_of(d@->pending, pre.pit@));
            assert(forall|q: PitKey| #[trigger]
                listed(d@->pending, q) <==> awaits(pre.pit@, q, h, l, now_ms));
        }
        d
    }

    /// Every Interest received is counted once: as a hit or a miss of the
    /// store, as a duplicate, or as dropped for another reason.
    pub proof fn lemma_interests_accounted(&self)
        requires
            self.wf(),
        ensures
            self.metrics.cs_hits.value() + self.metrics.cs_misses.value()
                == self.metrics.interests_received.value()
                - self.metrics.interests_duplicate.value()
                - self.metrics.interests_dropped_other.value(),
    {
    }

    /// Handling an Interest counts it once: the count of Interests received
    /// grows by one, and so does exactly one of the counts of hits, misses,
    /// duplicates and other drops, so the four keep adding up to the first.
    pub proof fn lemma_interest_counted_once(
        pre: Forwarder,
        post: Forwarder,
        i: InterestView,
        face: FaceId,
        now_ms: u64,
        d: InterestDecisionView,
    )
        requires
            Forwarder::interest_step(pre, post, i, face, now_ms, d),
        ensures
            post.tally().interests_received == pre.tally().interests_received + 1,
            post.tally().cs_hits - pre.tally().cs_hits == one_if(d is SatisfiedByCs),
            post.tally().cs_misses - pre.tally().cs_misses == one_if(d is Forward),
            post.tally().interests_duplicate - pre.tally().interests_duplicate == one_if(
                d == InterestDecisionView::Dropped(DropReason::Duplicate),
            ),
            post.tally().interests_dropped_other - pre.tally().interests_dropped_other == one_if(
                d is Dropped && d != InterestDecisionView::Dropped(DropReason::Duplicate),
            ),
            pre.tally().cs_hits + pre.tally().cs_misses + pre.tally().interests_duplicate
                + pre.tally().interests_dropped_other == pre.tally().interests_received
                ==> post.tally().cs_hits + post.tally().cs_misses
                + post.tally().interests_duplicate + post.tally().interests_dropped_other
                == post.tally().interests_received,
    {
        let pk = interest_pit_key(i);
        if !serves(pre.cs@, i, now_ms) && !(pre.pit@.contains_key(pk) && !stale(
            pre.pit@,
            pk,
            now_ms,
        )) && pre.pit.capacity() != 0 {
            let victim = choose|victim: PitKey|
                Forwarder::recorded(pre, post, i, face, now_ms, d, victim);
            assert(Forwarder::recorded(pre, post, i, face, now_ms, d, victim));
        }
    }

    /// A Data for which exactly two Interests are pending and live goes to
    /// both, each once, and to nobody else; both are counted as matched, and
    /// their records are gone.
    pub proof fn lemma_two_pending_both_served(
        pre: Forwarder,
        post: Forwarder,
        data: DataView,
        now_ms: u64,
        d: DataDecisionView,
        k1: PitKey,
        k2: PitKey,
    )
        requires
            Forwarder::data_step(pre, post, data, now_ms, d),
            k1 != k2,
            awaits(pre.pit@, k1, name_hash(data.name), key_len(data.name.len()), now_ms),
            awaits(pre.pit@, k2, name_hash(data.name), key_len(data.name.len()), now_ms),
            forall|q: PitKey|
                awaits(pre.pit@, q, name_hash(data.name), key_len(data.name.len()), now_ms) ==> q
                    == k1 || q == k2,
        ensures
            d is Forward,
            d->pending.len() == 2,
            d->pending == seq![(k1, pre.pit@[k1]), (k2, pre.pit@[k2])] || d->pending == seq![
                (k2, pre.pit@[k2]),
                (k1, pre.pit@[k1]),
            ],
            post.tally().pit_matches == pre.tally().pit_matches + 2,
            !post.pit@.contains_key(k1),
            !post.pit@.contains_key(k2),
    {
        let h = name_hash(data.name);
        let l = key_len(data.name.len());
        match d {
            DataDecisionView::Dropped(_) => {
                assert(!awaits(pre.pit@, k1, h, l, now_ms));
            },
            DataDecisionView::Forward { pending } => {
                assert(listed(pending, k1));
                assert(listed(pending, k2));
                let a = choose|a: int| 0 <= a < pending.len() && (#[trigger] pending[a]).0 == k1;
                let b = choose|b: int| 0 <= b < pending.len() && (#[trigger] pending[b]).0 == k2;
                assert(a != b);
                assert forall|c: int| 0 <= c < pending.len() implies (#[trigger] pending[c]).0
                    == k1 || pending[c].0 == k2 by {
                    assert(listed(pending, pending[c].0));
                }
                assert(pending.len() == 2) by {
                    if pending.len() >= 3 {
                        assert(pending[0].0 != pending[1].0);
                        assert(pending[0].0 != pending[2].0);
                        assert(pending[1].0 != pending[2].0);
                    }
                }
                assert(pending[a] == (k1, pre.pit@[k1]));
                assert(pending[b] == (k2, pre.pit@[k2]));
                if a == 0 {
                    assert(pending =~= seq![(k1, pre.pit@[k1]), (k2, pre.pit@[k2])]);
                } else {
                    assert(pending =~= seq![(k2, pre.pit@[k2]), (k1, pre.pit@[k1])]);
                }
                let victim = choose|victim: CsKey|
                    Forwarder::stored(pre, post, data, now_ms, pending.len() as int, victim);
                assert(Forwarder::stored(pre, post, data, now_ms, 2, victim));
            },
        }
    }

    /// No more pending records have been matched by Data than were inserted.
    pub proof fn lemma_matches_bounded(&self)
        requires
            self.wf(),
        ensures
            self.metrics.pit_matches.value() <= self.metrics.pit_inserts.value(),
    {
    }

    /// A Data that has been stored answers the next Interest for its name
    /// that arrives within its time-to-live, and the forwarding base is not
    /// consulted: its routes stay, and no lookup or hit is counted.
    pub proof fn lemma_stored_data_answers(
        s0: Forwarder,
        s1: Forwarder,
        s2: Forwarder,
        data: DataView,
        t1: u64,
        d1: DataDecisionView,
        interest: InterestView,
        face: FaceId,
        t2: u64,
        d2: InterestDecisionView,
    )
        requires
            s0.cs.capacity() > 0,
            Forwarder::data_step(s0, s1, data, t1, d1),
            d1 is Forward,
            Forwarder::interest_step(s1, s2, interest, face, t2, d2),
            interest.name == data.name,
            t1 <= t2,
            t2 - t1 <= data.ttl_ms,
        ensures
            d2 == (InterestDecisionView::SatisfiedByCs { data, face }),
            s2.fib@ == s1.fib@,
            s2.tally().fib_lookups == s1.tally().fib_lookups,
            s2.tally().fib_hits == s1.tally().fib_hits,
            s2.tally().interests_forwarded == s1.tally().interests_forwarded,
            s2.tally().cs_hits == s1.tally().cs_hits + 1,
            s2.pit@ == s1.pit@,
            s2.cs@ == s1.cs@,
    {
        let ck = cs_key(data.name);
        let victim = choose|victim: CsKey|
            Forwarder::stored(s0, s1, data, t1, d1->pending.len() as int, victim);
        assert(s1.cs@.contains_key(ck));
        assert(s1.cs@[ck] == cs_record(data, t1));
        assert(serves(s1.cs@, interest, t2));
    }
}

/// What the fast path does with an Interest after the decision: a
/// duplicate is dropped there; every other Interest goes on to the stack,
/// which answers or forwards it.
pub open spec fn interest_action(d: InterestDecisionView) -> XdpAction {
    match d {
        InterestDecisionView::Dropped(DropReason::Duplicate) => XdpAction::Drop,
        _ => XdpAction::Pass,
    }
}

/// What the fast path does with a Data after the decision: a Data that
/// nobody awaits is dropped there; every other Data goes on to the stack.
pub open spec fn data_action(d: DataDecisionView) -> XdpAction {
    match d {
        DataDecisionView::Dropped(_) => XdpAction::Drop,
        DataDecisionView::Forward { .. } => XdpAction::Pass,
    }
}

impl Forwarder {
    /// What handling a frame that came in on the interface `ifindex` at
    /// `now_ms` does to the forwarder, and what becomes of the frame: a frame that is not
    /// NDN over UDP over IPv6 passes untouched; a payload that is no
    /// well-formed packet is dropped; an Interest or a Data is handled as
    /// such, on the face that stands for the interface.
    pub open spec fn frame_step(
        pre: Forwarder,
        post: Forwarder,
        frame: Seq<u8>,
        ifindex: u32,
        now_ms: u64,
        action: XdpAction,
    ) -> bool {
        match frame_payload(frame) {
            None => action == XdpAction::Pass && post == pre,
            Some((offset, len)) => match parse_packet(frame.subrange(offset, offset + len)) {
                None => action == XdpAction::Drop && post == pre,
                Some(NdnPacketView::Interest(i)) => exists|d: InterestDecisionView|
                    Forwarder::interest_step(
                        pre,
                        post,
                        i,
                        FaceId((ifindex % 65536) as u16),
                        now_ms,
                        d,
                    ) && action == interest_action(d),
                Some(NdnPacketView::Data(data)) => exists|d: DataDecisionView|
                    Forwarder::data_step(pre, post, data, now_ms, d) && action == data_action(d),
            },
        }
    }

    /// Handles a frame that came in on the interface `ifindex` at `now_ms`.
    pub fn process_frame(&mut self, frame: &[u8], ifindex: u32, now_ms: u64) -> (action: XdpAction)
        requires
            old(self).wf(),
            old(self).metrics.packets_total.value() < u64::MAX,
        ensures
            final(self).wf(),
            final(self).cs.capacity() == old(self).cs.capacity(),
            final(self).pit.capacity() == old(self).pit.capacity(),
            final(self).fib.capacity() == old(self).fib.capacity(),
            Forwarder::frame_step(*old(self), *final(self), frame@, ifindex, now_ms, action),
    {
        let packet = match Packet::parse(frame) {
            Ok(p) => p,
            Err(_) => {
                return XdpAction::Pass;
            },
        };
        let payload = match packet.payload(frame) {
            Ok(p) => p,
            Err(_) => {
                return XdpAction::Pass;
            },
        };
        let face = extract_face_id(ifindex);
        match NdnPacket::from_bytes(payload) {
            Err(_) => XdpAction::Drop,
            Ok(NdnPacket::Interest(interest)) => {
                let d = self.on_interest(&interest, face, now_ms);
                let action = match d {
                    InterestDecision::Dropped(DropReason::Duplicate) => XdpAction::Drop,
                    _ => XdpAction::Pass,
                };
                assert(Forwarder::interest_step(
                    *old(self),
                    *self,
                    interest@,
                    FaceId((ifindex % 65536) as u16),
                    now_ms,
                    d@,
                ) && action == interest_action(d@));
                action
            },
            Ok(NdnPacket::Data(data)) => {
                let d = self.on_data(&data, face, now_ms);
                let action = match d {
                    DataDecision::Dropped(_) => XdpAction::Drop,
                    DataDecision::Forward { .. } => XdpAction::Pass,
                };
                assert(Forwarder::data_step(*old(self), *self, data@, now_ms, d@) && action
                    == data_action(d@));
                action
            },
        }
    }
}

} // verus!

//! The pending-interest table: the Interests that await their Data.
//!
//! At most one record exists for a name hash, name length and nonce. A second
//! insertion under the same key is a duplicate Interest and is rejected. A
//! full table makes room by evicting the least recently used record.

use crate::error::Error;
use crate::table::{
    in_prefix, lemma_in_prefix_all, lemma_in_prefix_step, lemma_push_contains, listed,
    records_of, tick_after, Table,
};
use crate::types::{has_lapsed, lapsed, FaceId, PitKey, PitValue, MAX_PIT_ENTRIES};
use vstd::prelude::*;

verus! {

/// How an insertion ended.
#[derive(Debug, Clone, Copy, PartialEq, Eq, Structural)]
pub enum PitOutcome {
    /// The record was added; a record that gave way is named.
    Inserted { evicted: Option<PitKey> },
    /// A record stands under the key already. Nothing changed.
    Duplicate,
    /// The table has no room and nothing to evict. Nothing changed.
    Full,
}

/// The key is one for the name with this hash and length, whatever its nonce.
pub open spec fn for_name(k: PitKey, name_hash: u32, name_len: u8) -> bool {
    k.name_hash == name_hash && k.name_len == name_len
}

/// The keys of the table that are for the name with this hash and length.
pub open spec fn keys_for_name(name_hash: u32, name_len: u8) -> Set<PitKey> {
    Set::new(|k: PitKey| for_name(k, name_hash, name_len))
}

/// The keys whose records have outlived their lifetime at `now_ms`.
pub open spec fn lapsed_keys(m: Map<PitKey, PitValue>, now_ms: u64) -> Set<PitKey> {
    Set::new(|k: PitKey| m.contains_key(k) && lapsed(m[k].timestamp, m[k].lifetime_ms, now_ms))
}

/// At most one record exists for a key: two places of a listing of the
/// table that show the same key are the same place.
pub proof fn lemma_one_record_per_key(
    entries: Seq<(PitKey, PitValue)>,
    m: Map<PitKey, PitValue>,
    a: int,
    b: int,
)
    requires
        records_of(entries, m),
        0 <= a < entries.len(),
        0 <= b < entries.len(),
        entries[a].0 == entries[b].0,
    ensures
        a == b,
        entries[a] == entries[b],
{
    if a < b {
        assert(entries[a].0 != entries[b].0);
    } else if b < a {
        assert(entries[b].0 != entries[a].0);
    }
}

/// The pending-interest table.
pub struct PendingInterestTable {
    table: Table<PitKey, PitValue>,
}

impl PendingInterestTable {
    /// The table is well formed.
    pub closed spec fn wf(&self) -> bool {
        self.table.wf()
    }

    /// The records, by key: at most one for each key.
    pub closed spec fn view(&self) -> Map<PitKey, PitValue> {
        self.table@
    }

    /// The most records that the table holds.
    pub closed spec fn capacity(&self) -> nat {
        self.table.capacity()
    }

    /// The tick at which the record for `k` was written.
    pub closed spec fn stamp(&self, k: PitKey) -> u64 {
        self.table.stamp(k)
    }

    /// The tick that the next record written will carry.
    pub closed spec fn tick(&self) -> u64 {
        self.table.tick()
    }

    /// No record has been used less recently than the record for `k`.
    pub open spec fn least_recent(&self, k: PitKey) -> bool {
        self@.contains_key(k) && forall|q: PitKey| #[trigger]
            self@.contains_key(q) ==> self.stamp(k) <= self.stamp(q)
    }

    /// A table holds finitely many records, no more than its capacity.
    pub proof fn lemma_size(&self)
        requires
            self.wf(),
        ensures
            self@.dom().finite(),
            self@.dom().len() <= self.capacity(),
    {
        self.table.lemma_size();
    }

    /// An empty table of the default capacity.
    pub fn new() -> (t: Self)
        ensures
            t.wf(),
            t@ == Map::<PitKey, PitValue>::empty(),
            t.capacity() == MAX_PIT_ENTRIES,
    {
        PendingInterestTable { table: Table::new(MAX_PIT_ENTRIES) }
    }

    /// An empty table of the given capacity.
    pub fn with_capacity(capacity: usize) -> (t: Self)
        ensures
            t.wf(),
            t@ == Map::<PitKey, PitValue>::empty(),
            t.capacity() == capacity,
    {
        PendingInterestTable { table: Table::new(capacity) }
    }

    /// The record under the key.
    pub fn get(&self, key: &PitKey) -> (r: Option<PitValue>)
        requires
            self.wf(),
        ensures
            r == if self@.contains_key(*key) {
                Some(self@[*key])
            } else {
                None
            },
    {
        match self.table.get(key) {
            Some(v) => Some(*v),
            None => None,
        }
    }

    /// Whether a record stands under the key: an Interest with this key
    /// would be a duplicate.
    pub fn has_duplicate(&self, key: &PitKey) -> (b: bool)
        requires
            self.wf(),
        ensures
            b == self@.contains_key(*key),
    {
        self.table.contains(key)
    }

    /// The face on which the Interest under the key arrived.
    pub fn get_pit_face_id(&self, key: &PitKey) -> (r: Result<FaceId, Error>)
        requires
            self.wf(),
        ensures
            match r {
                Ok(face) => self@.contains_key(*key) && face == self@[*key].face_id,
                Err(e) => !self@.contains_key(*key) && e == Error::NotFound,
            },
    {
        match self.table.get(key) {
            Some(v) => Ok(v.face_id),
            None => Err(Error::NotFound),
        }
    }

    /// The number of records.
    pub fn count_entries(&self) -> (n: usize)
        requires
            self.wf(),
        ensures
            n == self@.dom().len(),
            n <= self.capacity(),
    {
        self.table.len()
    }

    /// Adds a record under a key that has none. A key that has one is a
    /// duplicate: the table stays as it was. A full table evicts its least
    /// recently used record; only a table of capacity zero is full for good.
    pub fn insert(&mut self, key: &PitKey, value: &PitValue) -> (r: PitOutcome)
        requires
            old(self).wf(),
        ensures
            final(self).wf(),
            final(self).capacity() == old(self).capacity(),
            match r {
                PitOutcome::Duplicate => old(self)@.contains_key(*key) && final(self)@ == old(
                    self,
                )@,
                PitOutcome::Full => !old(self)@.contains_key(*key) && old(self).capacity() == 0
                    && final(self)@ == old(self)@,
                PitOutcome::Inserted { evicted: None } => {
                    &&& !old(self)@.contains_key(*key)
                    &&& old(self)@.dom().len() < old(self).capacity()
                    &&& final(self)@ == old(self)@.insert(*key, *value)
                },
                PitOutcome::Inserted { evicted: Some(victim) } => {
                    &&& !old(self)@.contains_key(*key)
                    &&& old(self)@.dom().len() == old(self).capacity()
                    &&& old(self).least_recent(victim)
                    &&& final(self)@ == old(self)@.remove(victim).insert(*key, *value)
                },
            },
            match r {
                PitOutcome::Inserted { .. } => {
                    &&& final(self).stamp(*key) == old(self).tick()
                    &&& final(self).tick() == tick_after(old(self).tick())
                },
                _ => final(self).tick() == old(self).tick() && final(self).stamp(*key) == old(
                    self,
                ).stamp(*key),
            },
            forall|q: PitKey|
                q != *key && #[trigger] final(self)@.contains_key(q) ==> final(self).stamp(q)
                    == old(self).stamp(q),
    {
        if self.table.contains(key) {
            return PitOutcome::Duplicate;
        }
        match self.table.insert(*key, *value) {
            Ok(evicted) => PitOutcome::Inserted { evicted },
            Err(_) => PitOutcome::Full,
        }
    }

    /// Adds a record; see `insert`.
    pub fn add_pit_entry(&mut self, key: &PitKey, value: &PitValue) -> (r: PitOutcome)
        requires
            old(self).wf(),
        ensures
            final(self).wf(),
            final(self).capacity() == old(self).capacity(),
            match r {
                PitOutcome::Duplicate => old(self)@.contains_key(*key) && final(self)@ == old(
                    self,
                )@,
                PitOutcome::Full => !old(self)@.contains_key(*key) && old(self).capacity() == 0
                    && final(self)@ == old(self)@,
                PitOutcome::Inserted { evicted: None } => {
                    &&& !old(self)@.contains_key(*key)
                    &&& old(self)@.dom().len() < old(self).capacity()
                    &&& final(self)@ == old(self)@.insert(*key, *value)
                },
                PitOutcome::Inserted { evicted: Some(victim) } => {
                    &&& !old(self)@.contains_key(*key)
                    &&& old(self)@.dom().len() == old(self).capacity()
                    &&& old(self).least_recent(victim)
                    &&& final(self)@ == old(self)@.remove(victim).insert(*key, *value)
                },
            },
            match r {
                PitOutcome::Inserted { .. } => {
                    &&& final(self).stamp(*key) == old(self).tick()
                    &&& final(self).tick() == tick_after(old(self).tick())
                },
                _ => final(self).tick() == old(self).tick() && final(self).stamp(*key) == old(
                    self,
                ).stamp(*key),
            },
            forall|q: PitKey|
                q != *key && #[trigger] final(self)@.contains_key(q) ==> final(self).stamp(q)
                    == old(self).stamp(q),
    {
        self.insert(key, value)
    }

    /// Adds a record; see `insert`.
    pub fn add_entry(&mut self, key: &PitKey, value: &PitValue) -> (r: PitOutcome)
        requires
            old(self).wf(),
        ensures
            final(self).wf(),
            final(self).capacity() == old(self).capacity(),
            match r {
                PitOutcome::Duplicate => old(self)@.contains_key(*key) && final(self)@ == old(
                    self,
                )@,
                PitOutcome::Full => !old(self)@.contains_key(*key) && old(self).capacity() == 0
                    && final(self)@ == old(self)@,
                PitOutcome::Inserted { evicted: None } => {
                    &&& !old(self)@.contains_key(*key)
                    &&& old(self)@.dom().len() < old(self).capacity()
                    &&& final(self)@ == old(self)@.insert(*key, *value)
                },
                PitOutcome::Inserted { evicted: Some(victim) } => {
                    &&& !old(self)@.contains_key(*key)
                    &&& old(self)@.dom().len() == old(self).capacity()
                    &&& old(self).least_recent(victim)
                    &&& final(self)@ == old(self)@.remove(victim).insert(*key, *value)
                },
            },
            match r {
                PitOutcome::Inserted { .. } => {
                    &&& final(self).stamp(*key) == old(self).tick()
                    &&& final(self).tick() == tick_after(old(self).tick())
                },
                _ => final(self).tick() == old(self).tick() && final(self).stamp(*key) == old(
                    self,
                ).stamp(*key),
            },
            forall|q: PitKey|
                q != *key && #[trigger] final(self)@.contains_key(q) ==> final(self).stamp(q)
                    == old(self).stamp(q),
    {
        self.add_pit_entry(key, value)
    }

    /// Removes the record under the key and hands it back. Removing what is
    /// not there changes nothing.
    pub fn remove(&mut self, key: &PitKey) -> (r: Option<PitValue>)
        requires
            old(self).wf(),
        ensures
            final(self).wf(),
            final(self).capacity() == old(self).capacity(),
            final(self)@ == old(self)@.remove(*key),
            r == if old(self)@.contains_key(*key) {
                Some(old(self)@[*key])
            } else {
                None
            },
            final(self).tick() == old(self).tick(),
            forall|q: PitKey| #[trigger]
                final(self)@.contains_key(q) ==> final(self).stamp(q) == old(self).stamp(q),
    {
        self.table.remove(key)
    }

    /// All records, each once, in no particular order.
    pub fn get_all_entries(&self) -> (out: Vec<(PitKey, PitValue)>)
        requires
            self.wf(),
        ensures
            records_of(out@, self@),
            out@.len() == self@.dom().len(),
            forall|q: PitKey| #[trigger] listed(out@, q) <==> self@.contains_key(q),
    {
        self.table.entries()
    }

    /// Whether some Interest is pending for the name with this hash and
    /// length. The table stays as it is.
    pub fn is_awaited(&self, name_hash: u32, name_len: u8) -> (b: bool)
        requires
            self.wf(),
        ensures
            b == (exists|k: PitKey| #[trigger]
                self@.contains_key(k) && for_name(k, name_hash, name_len)),
    {
        let ks = self.table.keys();
        let mut i: usize = 0;
        while i < ks.len()
            invariant
                i <= ks@.len(),
                forall|k: PitKey|
                    #![trigger self@.contains_key(k)]
                    #![trigger ks@.contains(k)]
                    self@.contains_key(k) <==> ks@.contains(k),
                forall|j: int| 0 <= j < i ==> !for_name(#[trigger] ks@[j], name_hash, name_len),
            decreases ks.len() - i,
        {
            if ks[i].name_hash == name_hash && ks[i].name_len == name_len {
                assert(ks@.contains(ks@[i as int]));
                return true;
            }
            i += 1;
        }
        proof {
            assert forall|k: PitKey| #[trigger] self@.contains_key(k) implies !for_name(
                k,
                name_hash,
                name_len,
            ) by {
                let j = choose|j: int| 0 <= j < ks@.len() && ks@[j] == k;
                assert(!for_name(ks@[j], name_hash, name_len));
            }
        }
        false
    }

    /// Takes out every record for the name with this hash and length,
    /// whatever its nonce, and hands the records back, each once.
    pub fn find_matching_interests(&mut self, name_hash: u32, name_len: u8) -> (out: Vec<
        (PitKey, PitValue),
    >)
        requires
            old(self).wf(),
        ensures
            final(self).wf(),
            final(self).capacity() == old(self).capacity(),
            final(self)@ == old(self)@.remove_keys(keys_for_name(name_hash, name_len)),
            records_of(out@, old(self)@),
            forall|q: PitKey| #[trigger]
                listed(out@, q) <==> old(self)@.contains_key(q) && for_name(
                    q,
                    name_hash,
                    name_len,
                ),
            out@.len() + final(self)@.dom().len() == old(self)@.dom().len(),
            final(self).tick() == old(self).tick(),
            forall|q: PitKey| #[trigger]
                final(self)@.contains_key(q) ==> final(self).stamp(q) == old(self).stamp(q),
    {
        let ks = self.table.keys();
        let mut doomed: Vec<PitKey> = Vec::new();
        let mut i: usize = 0;
        while i < ks.len()
            invariant
                i <= ks@.len(),
                forall|q: PitKey|
                    doomed@.contains(q) <==> in_prefix(ks@, i as int, q) && for_name(
                        q,
                        name_hash,
                        name_len,
                    ),
            decreases ks.len() - i,
        {
            let k = ks[i];
            let ghost before = doomed@;
            if k.name_hash == name_hash && k.name_len == name_len {
                doomed.push(k);
            }
            proof {
                assert forall|q: PitKey|
                    doomed@.contains(q) <==> in_prefix(ks@, i + 1, q) && for_name(
                        q,
                        name_hash,
                        name_len,
                    ) by {
                    lemma_in_prefix_step(ks@, i as int, q);
                    lemma_push_contains(before, k, q);
                }
            }
            i += 1;
        }
        proof {
            assert forall|q: PitKey|
                doomed@.contains(q) <==> self@.contains_key(q) && for_name(
                    q,
                    name_hash,
                    name_len,
                ) by {
                lemma_in_prefix_all(ks@, q);
            }
        }
        let out = self.table.remove_all(&doomed);
        proof {
            assert(self@ =~= old(self)@.remove_keys(keys_for_name(name_hash, name_len)));
        }
        out
    }

    /// Takes out every record for the name with this hash and length,
    /// whatever its nonce, and says whether there was one: a Data of that
    /// name has matched them.
    pub fn has_matching_interest(&mut self, name_hash: u32, name_len: u8) -> (b: bool)
        requires
            old(self).wf(),
        ensures
            final(self).wf(),
            final(self).capacity() == old(self).capacity(),
            final(self)@ == old(self)@.remove_keys(keys_for_name(name_hash, name_len)),
            b == (exists|k: PitKey| #[trigger]
                old(self)@.contains_key(k) && for_name(k, name_hash, name_len)),
            final(self).tick() == old(self).tick(),
            forall|q: PitKey| #[trigger]
                final(self)@.contains_key(q) ==> final(self).stamp(q) == old(self).stamp(q),
    {
        let out = self.find_matching_interests(name_hash, name_len);
        proof {
            if out@.len() > 0 {
                assert(listed(out@, out@[0].0));
            } else {
                assert forall|k: PitKey| #[trigger] old(self)@.contains_key(k) implies !for_name(
                    k,
                    name_hash,
                    name_len,
                ) by {
                    if for_name(k, name_hash, name_len) {
                        assert(listed(out@, k));
                    }
                }
            }
        }
        out.len() > 0
    }

    /// Removes the record under the key if it has outlived its lifetime at
    /// `now_ms`; says whether it did.
    pub fn expire(&mut self, key: &PitKey, now_ms: u64) -> (expired: bool)
        requires
            old(self).wf(),
        ensures
            final(self).wf(),
            final(self).capacity() == old(self).capacity(),
            expired == (old(self)@.contains_key(*key) && lapsed(
                old(self)@[*key].timestamp,
                old(self)@[*key].lifetime_ms,
                now_ms,
            )),
            final(self)@ == if expired {
                old(self)@.remove(*key)
            } else {
                old(self)@
            },
            final(self).tick() == old(self).tick(),
            forall|q: PitKey| #[trigger]
                final(self)@.contains_key(q) ==> final(self).stamp(q) == old(self).stamp(q),
    {
        let lapsed_now = match self.table.get(key) {
            Some(v) => has_lapsed(v.timestamp, v.lifetime_ms, now_ms),
            None => false,
        };
        if lapsed_now {
            let _ = self.table.remove(key);
        }
        lapsed_now
    }

    /// Removes every record that has outlived its lifetime at `now_ms`, and
    /// says how many there were.
    pub fn cleanup_expired_entries(&mut self, now_ms: u64) -> (removed: usize)
        requires
            old(self).wf(),
        ensures
            final(self).wf(),
            final(self).capacity() == old(self).capacity(),
            final(self)@ == old(self)@.remove_keys(lapsed_keys(old(self)@, now_ms)),
            removed + final(self)@.dom().len() == old(self)@.dom().len(),
            final(self).tick() == old(self).tick(),
            forall|q: PitKey| #[trigger]
                final(self)@.contains_key(q) ==> final(self).stamp(q) == old(self).stamp(q),
    {
        let ks = self.table.keys();
        let mut doomed: Vec<PitKey> = Vec::new();
        let mut i: usize = 0;
        while i < ks.len()
            invariant
                self.wf(),
                i <= ks@.len(),
                forall|k: PitKey|
                    #![trigger self@.contains_key(k)]
                    #![trigger ks@.contains(k)]
                    self@.contains_key(k) <==> ks@.contains(k),
                forall|q: PitKey|
                    doomed@.contains(q) <==> in_prefix(ks@, i as int, q) && lapsed_keys(
                        self@,
                        now_ms,
                    ).contains(q),
            decreases ks.len() - i,
        {
            let k = ks[i];
            let ghost before = doomed@;
            assert(ks@.contains(k));
            let lapsed_now = match self.table.get(&k) {
                Some(v) => has_lapsed(v.timestamp, v.lifetime_ms, now_ms),
                None => false,
            };
            if lapsed_now {
                doomed.push(k);
            }
            proof {
                assert forall|q: PitKey|
                    doomed@.contains(q) <==> in_prefix(ks@, i + 1, q) && lapsed_keys(
                        self@,
                        now_ms,
                    ).contains(q) by {
                    lemma_in_prefix_step(ks@, i as int, q);
                    lemma_push_contains(before, k, q);
                }
            }
            i += 1;
        }
        proof {
            assert forall|q: PitKey|
                doomed@.contains(q) <==> lapsed_keys(self@, now_ms).contains(q) by {
                lemma_in_prefix_all(ks@, q);
            }
        }
        let out = self.table.remove_all(&doomed);
        proof {
            assert(self@ =~= old(self)@.remove_keys(lapsed_keys(old(self)@, now_ms)));
        }
        out.len()
    }
}

} // verus!

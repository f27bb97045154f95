//! The content store: the Data that has passed, kept to answer Interests.
//!
//! A record is live until more than its time-to-live has passed since it was
//! admitted. A lookup that finds a lapsed record removes it and reports a
//! miss. A full store makes room by evicting the least recently used record.

use crate::buf::{as_slice, remaining};
use crate::error::Error;
use crate::hash::{fnv1a, fnv1a_update, FNV_OFFSET_BASIS};
use crate::name::{key_len, name_hash, Name};
use crate::ndn::{Data, DataView};
use crate::table::{
    in_prefix, lemma_in_prefix_all, lemma_in_prefix_step, lemma_push_contains, tick_after,
    Table,
};
use crate::types::{has_lapsed, lapsed, CsKey, CsValue, MAX_CS_ENTRIES};
use vstd::prelude::*;

verus! {

/// A record of the store: the shared metadata and the Data itself.
pub struct CsEntry {
    pub meta: CsValue,
    pub data: Data,
}

/// What a record of the store says.
pub ghost struct CsRecord {
    pub meta: CsValue,
    pub data: DataView,
}

impl View for CsEntry {
    type V = CsRecord;

    open spec fn view(&self) -> CsRecord {
        CsRecord { meta: self.meta, data: self.data@ }
    }
}

/// The key under which the Data of the name `n` is stored.
pub open spec fn cs_key(n: Seq<Seq<u8>>) -> CsKey {
    CsKey { name_hash: name_hash(n), name_len: key_len(n.len()) }
}

/// The size of a content as the record states it: its length, held at the
/// top of the range.
pub open spec fn content_size(len: nat) -> u32 {
    if len > u32::MAX {
        u32::MAX
    } else {
        len as u32
    }
}

/// The record that admits the Data at `now_ms`.
pub open spec fn cs_record(data: DataView, now_ms: u64) -> CsRecord {
    CsRecord {
        meta: CsValue {
            content_hash: fnv1a(data.content) as u64,
            timestamp: now_ms,
            content_size: content_size(data.content.len()),
            ttl_ms: data.ttl_ms,
        },
        data,
    }
}

/// The record is live at `now_ms`.
pub open spec fn live(r: CsRecord, now_ms: u64) -> bool {
    !lapsed(r.meta.timestamp, r.meta.ttl_ms, now_ms)
}

/// The keys whose records have outlived their time-to-live at `now_ms`.
pub open spec fn lapsed_records(m: Map<CsKey, CsRecord>, now_ms: u64) -> Set<CsKey> {
    Set::new(|k: CsKey| m.contains_key(k) && !live(m[k], now_ms))
}

/// Figures about the store.
#[derive(Debug, Clone, Copy, PartialEq, Eq, Structural)]
pub struct ContentStoreStats {
    /// The number of hits.
    pub hits: u64,
    /// The number of insertions.
    pub inserts: u64,
    /// The most records that the store holds.
    pub capacity: usize,
    /// The number of records.
    pub size: u64,
}

/// The content store.
pub struct ContentStore {
    table: Table<CsKey, CsEntry>,
}

impl ContentStore {
    /// The store is well formed.
    pub closed spec fn wf(&self) -> bool {
        self.table.wf()
    }

    /// The records, by key.
    pub closed spec fn view(&self) -> Map<CsKey, CsRecord> {
        self.table@.map_values(|e: CsEntry| e@)
    }

    /// The most records that the store holds.
    pub closed spec fn capacity(&self) -> nat {
        self.table.capacity()
    }

    /// The tick at which the record for `k` was last written or served.
    pub closed spec fn stamp(&self, k: CsKey) -> u64 {
        self.table.stamp(k)
    }

    /// The tick that the next record written or served will carry.
    pub closed spec fn tick(&self) -> u64 {
        self.table.tick()
    }

    /// No record has been used less recently than the record for `k`.
    pub open spec fn least_recent(&self, k: CsKey) -> bool {
        self@.contains_key(k) && forall|q: CsKey| #[trigger]
            self@.contains_key(q) ==> self.stamp(k) <= self.stamp(q)
    }

    /// A store holds finitely many records, no more than its capacity.
    pub proof fn lemma_size(&self)
        requires
            self.wf(),
        ensures
            self@.dom().finite(),
            self@.dom().len() <= self.capacity(),
    {
        self.table.lemma_size();
        assert(self@.dom() =~= self.table@.dom());
    }

    /// An empty store of the default capacity.
    pub fn new() -> (s: Self)
        ensures
            s.wf(),
            s@ == Map::<CsKey, CsRecord>::empty(),
            s.capacity() == MAX_CS_ENTRIES,
    {
        let s = ContentStore { table: Table::new(MAX_CS_ENTRIES) };
        assert(s@ =~= Map::<CsKey, CsRecord>::empty());
        s
    }

    /// An empty store of the given capacity.
    pub fn with_capacity(capacity: usize) -> (s: Self)
        ensures
            s.wf(),
            s@ == Map::<CsKey, CsRecord>::empty(),
            s.capacity() == capacity,
    {
        let s = ContentStore { table: Table::new(capacity) };
        assert(s@ =~= Map::<CsKey, CsRecord>::empty());
        s
    }

    /// The key under which the Data of a name is stored.
    pub fn key_for(name: &Name) -> (k: CsKey)
        ensures
            k == cs_key(name@),
    {
        CsKey { name_hash: name.hash(), name_len: name.key_len() }
    }

    /// The number of records.
    pub fn count_entries(&self) -> (n: usize)
        requires
            self.wf(),
        ensures
            n == self@.dom().len(),
            n <= self.capacity(),
    {
        assert(self@.dom() =~= self.table@.dom());
        self.table.len()
    }

    /// The metadata of the record under the key, live or lapsed.
    pub fn get(&self, key: &CsKey) -> (r: Option<CsValue>)
        requires
            self.wf(),
        ensures
            r == if self@.contains_key(*key) {
                Some(self@[*key].meta)
            } else {
                None
            },
    {
        match self.table.get(key) {
            Some(e) => Some(e.meta),
            None => None,
        }
    }

    /// The Data under the key, where the record is live at `now_ms`. A
    /// lapsed record is removed, and the lookup misses.
    pub fn lookup(&mut self, key: &CsKey, now_ms: u64) -> (r: Option<Data>)
        requires
            old(self).wf(),
        ensures
            final(self).wf(),
            final(self).capacity() == old(self).capacity(),
            match r {
                Some(d) => {
                    &&& old(self)@.contains_key(*key)
                    &&& live(old(self)@[*key], now_ms)
                    &&& d@ == old(self)@[*key].data
                    &&& final(self)@ == old(self)@
                    &&& final(self).stamp(*key) == old(self).tick()
                    &&& final(self).tick() == tick_after(old(self).tick())
                },
                None => {
                    &&& !(old(self)@.contains_key(*key) && live(old(self)@[*key], now_ms))
                    &&& final(self)@ == old(self)@.remove(*key)
                    &&& final(self).tick() == old(self).tick()
                },
            },
            forall|q: CsKey|
                q != *key && #[trigger] final(self)@.contains_key(q) ==> final(self).stamp(q)
                    == old(self).stamp(q),
    {
        let found = match self.table.get(key) {
            Some(e) => {
                if has_lapsed(e.meta.timestamp, e.meta.ttl_ms, now_ms) {
                    None
                } else {
                    Some(e.data.duplicate())
                }
            },
            None => None,
        };
        match found {
            Some(d) => {
                let _ = self.table.touch(key);
                assert(self@ =~= old(self)@);
                assert(self@.dom() =~= self.table@.dom());
                Some(d)
            },
            None => {
                let _ = self.table.remove(key);
                assert(self@ =~= old(self)@.remove(*key));
                assert(self@.dom() =~= self.table@.dom());
                None
            },
        }
    }

    /// Writes the record under the key, replacing one that is there. A full
    /// store evicts its least recently used record and names its key; only a
    /// store of capacity zero refuses.
    pub fn insert(&mut self, key: &CsKey, entry: CsEntry) -> (r: Result<Option<CsKey>, Error>)
        requires
            old(self).wf(),
        ensures
            final(self).wf(),
            final(self).capacity() == old(self).capacity(),
            match r {
                Ok(Some(victim)) => {
                    &&& !old(self)@.contains_key(*key)
                    &&& old(self)@.dom().len() == old(self).capacity()
                    &&& old(self).least_recent(victim)
                    &&& old(self)@.contains_key(victim)
                    &&& final(self)@ == old(self)@.remove(victim).insert(*key, entry@)
                },
                Ok(None) => {
                    &&& (old(self)@.contains_key(*key) || old(self)@.dom().len() < old(
                        self,
                    ).capacity())
                    &&& final(self)@ == old(self)@.insert(*key, entry@)
                },
                Err(e) => {
                    &&& old(self).capacity() == 0
                    &&& e == Error::CapacityExceeded
                    &&& final(self)@ == old(self)@
                },
            },
            match r {
                Ok(_) => final(self).stamp(*key) == old(self).tick() && final(self).tick()
                    == tick_after(old(self).tick()),
                Err(_) => final(self).tick() == old(self).tick(),
            },
            forall|q: CsKey|
                q != *key && #[trigger] final(self)@.contains_key(q) ==> final(self).stamp(q)
                    == old(self).stamp(q),
    {
        assert(self@.dom() =~= self.table@.dom());
        let ghost record = entry@;
        let r = self.table.insert(*key, entry);
        proof {
            match r {
                Ok(Some(victim)) => {
                    assert(self@ =~= old(self)@.remove(victim).insert(*key, record));
                },
                Ok(None) => {
                    assert(self@ =~= old(self)@.insert(*key, record));
                },
                Err(_) => {
                    assert(self@ =~= old(self)@);
                },
            }
        }
        r
    }

    /// Stores a Data at `now_ms` under the key of its name.
    pub fn store(&mut self, data: &Data, now_ms: u64) -> (r: Result<Option<CsKey>, Error>)
        requires
            old(self).wf(),
        ensures
            final(self).wf(),
            final(self).capacity() == old(self).capacity(),
            match r {
                Ok(Some(victim)) => {
                    &&& !old(self)@.contains_key(cs_key(data@.name))
                    &&& old(self)@.dom().len() == old(self).capacity()
                    &&& old(self).least_recent(victim)
                    &&& old(self)@.contains_key(victim)
                    &&& final(self)@ == old(self)@.remove(victim).insert(
                        cs_key(data@.name),
                        cs_record(data@, now_ms),
                    )
                },
                Ok(None) => {
                    &&& (old(self)@.contains_key(cs_key(data@.name)) || old(self)@.dom().len()
                        < old(self).capacity())
                    &&& final(self)@ == old(self)@.insert(
                        cs_key(data@.name),
                        cs_record(data@, now_ms),
                    )
                },
                Err(e) => {
                    &&& old(self).capacity() == 0
                    &&& e == Error::CapacityExceeded
                    &&& final(self)@ == old(self)@
                },
            },
            match r {
                Ok(_) => final(self).stamp(cs_key(data@.name)) == old(self).tick() && final(self).tick()
                    == tick_after(old(self).tick()),
                Err(_) => final(self).tick() == old(self).tick(),
            },
            forall|q: CsKey|
                q != cs_key(data@.name) && #[trigger] final(self)@.contains_key(q) ==> final(self).stamp(q)
                    == old(self).stamp(q),
    {
        let key = ContentStore::key_for(&data.name);
        let len = remaining(&data.content);
        let meta = CsValue {
            content_hash: fnv1a_update(FNV_OFFSET_BASIS, as_slice(&data.content)) as u64,
            timestamp: now_ms,
            content_size: if len > 0xFFFF_FFFF {
                0xFFFF_FFFF
            } else {
                len as u32
            },
            ttl_ms: data.ttl_ms,
        };
        self.insert(&key, CsEntry { meta, data: data.duplicate() })
    }

    /// Removes the record under the key; says whether there was one.
    pub fn remove(&mut self, key: &CsKey) -> (removed: bool)
        requires
            old(self).wf(),
        ensures
            final(self).wf(),
            final(self).capacity() == old(self).capacity(),
            final(self)@ == old(self)@.remove(*key),
            removed == old(self)@.contains_key(*key),
            final(self).tick() == old(self).tick(),
            forall|q: CsKey| #[trigger]
                final(self)@.contains_key(q) ==> final(self).stamp(q) == old(self).stamp(q),
    {
        let r = self.table.remove(key);
        assert(self@ =~= old(self)@.remove(*key));
        assert(self@.dom() =~= self.table@.dom());
        r.is_some()
    }

    /// Empties the store.
    pub fn clear(&mut self)
        ensures
            final(self).wf(),
            final(self).capacity() == old(self).capacity(),
            final(self)@ == Map::<CsKey, CsRecord>::empty(),
    {
        let capacity = self.table.limit();
        self.table = Table::new(capacity);
        assert(self@ =~= Map::<CsKey, CsRecord>::empty());
    }

    /// Removes every record that has outlived its time-to-live at `now_ms`,
    /// and says how many there were.
    pub fn cleanup_expired_entries(&mut self, now_ms: u64) -> (removed: usize)
        requires
            old(self).wf(),
        ensures
            final(self).wf(),
            final(self).capacity() == old(self).capacity(),
            final(self)@ == old(self)@.remove_keys(lapsed_records(old(self)@, now_ms)),
            removed + final(self)@.dom().len() == old(self)@.dom().len(),
            final(self).tick() == old(self).tick(),
            forall|q: CsKey| #[trigger]
                final(self)@.contains_key(q) ==> final(self).stamp(q) == old(self).stamp(q),
    {
        let ks = self.table.keys();
        let mut doomed: Vec<CsKey> = Vec::new();
        let mut i: usize = 0;
        while i < ks.len()
            invariant
                self.wf(),
                i <= ks@.len(),
                forall|k: CsKey|
                    #![trigger self.table@.contains_key(k)]
                    #![trigger ks@.contains(k)]
                    self.table@.contains_key(k) <==> ks@.contains(k),
                forall|q: CsKey|
                    doomed@.contains(q) <==> in_prefix(ks@, i as int, q) && lapsed_records(
                        self@,
                        now_ms,
                    ).contains(q),
            decreases ks.len() - i,
        {
            let k = ks[i];
            let ghost before = doomed@;
            assert(ks@.contains(k));
            let lapsed_now = match self.table.get(&k) {
                Some(e) => has_lapsed(e.meta.timestamp, e.meta.ttl_ms, now_ms),
                None => false,
            };
            if lapsed_now {
                doomed.push(k);
            }
            proof {
                assert forall|q: CsKey|
                    doomed@.contains(q) <==> in_prefix(ks@, i + 1, q) && lapsed_records(
                        self@,
                        now_ms,
                    ).contains(q) by {
                    lemma_in_prefix_step(ks@, i as int, q);
                    lemma_push_contains(before, k, q);
                }
            }
            i += 1;
        }
        proof {
            assert forall|q: CsKey|
                doomed@.contains(q) <==> lapsed_records(self@, now_ms).contains(q) by {
                lemma_in_prefix_all(ks@, q);
            }
            assert(self@.dom() =~= self.table@.dom());
        }
        let out = self.table.remove_all(&doomed);
        proof {
            assert(self@ =~= old(self)@.remove_keys(lapsed_records(old(self)@, now_ms)));
            assert(self@.dom() =~= self.table@.dom());
        }
        out.len()
    }

    /// Figures about the store, with the counts of hits and insertions that
    /// the caller has kept.
    pub fn get_stats(&self, hits: u64, inserts: u64) -> (s: ContentStoreStats)
        requires
            self.wf(),
        ensures
            s.hits == hits,
            s.inserts == inserts,
            s.capacity == self.capacity(),
            s.size == self@.dom().len(),
    {
        assert(self@.dom() =~= self.table@.dom());
        ContentStoreStats {
            hits,
            inserts,
            capacity: self.table.limit(),
            size: self.table.len() as u64,
        }
    }
}

} // verus!

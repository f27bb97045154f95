//! A bounded associative table with least-recently-used eviction.
//!
//! The table holds at most one record per key and at most `capacity` records.
//! Every record carries the tick at which it was last written or touched; when
//! a new key arrives at a full table, a record with the smallest tick gives way.

use crate::error::Error;
use crate::types::TableKey;
use vstd::prelude::*;

verus! {

/// One record of a table.
struct Slot<K, V> {
    key: K,
    value: V,
    stamp: u64,
}

/// No key stands in two slots.
spec fn no_dup<K, V>(s: Seq<Slot<K, V>>) -> bool {
    forall|i: int, j: int| 0 <= i < j < s.len() ==> s[i].key != s[j].key
}

/// Some slot holds the key.
spec fn has_key<K, V>(s: Seq<Slot<K, V>>, k: K) -> bool {
    exists|i: int| 0 <= i < s.len() && (#[trigger] s[i]).key == k
}

/// A slot that holds the key.
spec fn index_of<K, V>(s: Seq<Slot<K, V>>, k: K) -> int {
    choose|i: int| 0 <= i < s.len() && (#[trigger] s[i]).key == k
}

/// The slots as a map from key to value.
spec fn slots_map<K, V>(s: Seq<Slot<K, V>>) -> Map<K, V> {
    Map::new(|k: K| has_key(s, k), |k: K| s[index_of(s, k)].value)
}

/// The tick of the record for the key.
spec fn stamp_of<K, V>(s: Seq<Slot<K, V>>, k: K) -> u64 {
    s[index_of(s, k)].stamp
}

proof fn lemma_at<K, V>(s: Seq<Slot<K, V>>, i: int)
    requires
        no_dup(s),
        0 <= i < s.len(),
    ensures
        has_key(s, s[i].key),
        index_of(s, s[i].key) == i,
        slots_map(s).contains_key(s[i].key),
        slots_map(s)[s[i].key] == s[i].value,
        stamp_of(s, s[i].key) == s[i].stamp,
{
    let k = s[i].key;
    assert(has_key(s, k));
    let j = index_of(s, k);
    assert(0 <= j < s.len() && s[j].key == k);
    if j < i {
        assert(s[j].key != s[i].key);
    } else if i < j {
        assert(s[i].key != s[j].key);
    }
}

proof fn lemma_update<K, V>(s: Seq<Slot<K, V>>, i: int, slot: Slot<K, V>)
    requires
        no_dup(s),
        0 <= i < s.len(),
        forall|j: int| 0 <= j < s.len() && j != i ==> (#[trigger] s[j]).key != slot.key,
    ensures
        no_dup(s.update(i, slot)),
        slots_map(s.update(i, slot)) == slots_map(s).remove(s[i].key).insert(
            slot.key,
            slot.value,
        ),
        stamp_of(s.update(i, slot), slot.key) == slot.stamp,
        forall|q: K|
            q != slot.key && #[trigger] has_key(s.update(i, slot), q) ==> stamp_of(
                s.update(i, slot),
                q,
            ) == stamp_of(s, q),
{
    let t = s.update(i, slot);
    assert(no_dup(t));
    lemma_at(t, i);
    assert forall|q: K| #[trigger]
        has_key(t, q) <==> (q == slot.key || (has_key(s, q) && q != s[i].key)) by {
        if has_key(t, q) {
            let j = index_of(t, q);
            if j != i {
                assert(s[j].key == q);
                assert(q != s[i].key) by {
                    if j < i {
                        assert(s[j].key != s[i].key);
                    } else {
                        assert(s[i].key != s[j].key);
                    }
                }
            }
        }
        if has_key(s, q) && q != s[i].key {
            let j = index_of(s, q);
            assert(t[j].key == q);
        }
        if q == slot.key {
            assert(t[i].key == q);
        }
    }
    assert forall|q: K| q != slot.key && #[trigger] has_key(t, q) implies index_of(t, q)
        == index_of(s, q) by {
        let j = index_of(t, q);
        assert(j != i);
        assert(s[j].key == q);
        lemma_at(s, j);
    }
    assert(slots_map(t) =~= slots_map(s).remove(s[i].key).insert(slot.key, slot.value));
}

proof fn lemma_push<K, V>(s: Seq<Slot<K, V>>, slot: Slot<K, V>)
    requires
        no_dup(s),
        !has_key(s, slot.key),
    ensures
        no_dup(s.push(slot)),
        slots_map(s.push(slot)) == slots_map(s).insert(slot.key, slot.value),
        stamp_of(s.push(slot), slot.key) == slot.stamp,
        forall|q: K|
            q != slot.key && #[trigger] has_key(s.push(slot), q) ==> stamp_of(s.push(slot), q)
                == stamp_of(s, q),
{
    let t = s.push(slot);
    assert(no_dup(t)) by {
        assert forall|i: int, j: int| 0 <= i < j < t.len() implies t[i].key != t[j].key by {
            if j == s.len() {
                assert(s[i].key != slot.key);
            }
        }
    }
    lemma_at(t, s.len() as int);
    assert forall|q: K| #[trigger] has_key(t, q) <==> (q == slot.key || has_key(s, q)) by {
        if has_key(t, q) {
            let j = index_of(t, q);
            if j < s.len() {
                assert(s[j].key == q);
            }
        }
        if has_key(s, q) {
            let j = index_of(s, q);
            assert(t[j].key == q);
        }
        if q == slot.key {
            assert(t[s.len() as int].key == q);
        }
    }
    assert forall|q: K| q != slot.key && #[trigger] has_key(t, q) implies index_of(t, q)
        == index_of(s, q) by {
        let j = index_of(t, q);
        assert(j < s.len());
        assert(s[j].key == q);
        lemma_at(s, j);
    }
    assert(slots_map(t) =~= slots_map(s).insert(slot.key, slot.value));
}

proof fn lemma_swap_remove<K, V>(s: Seq<Slot<K, V>>, i: int)
    requires
        no_dup(s),
        0 <= i < s.len(),
    ensures
        no_dup(s.update(i, s.last()).drop_last()),
        slots_map(s.update(i, s.last()).drop_last()) == slots_map(s).remove(s[i].key),
        forall|q: K| #[trigger]
            has_key(s.update(i, s.last()).drop_last(), q) ==> stamp_of(
                s.update(i, s.last()).drop_last(),
                q,
            ) == stamp_of(s, q),
{
    let t = s.update(i, s.last()).drop_last();
    let last = s.len() - 1;
    assert(no_dup(t)) by {
        assert forall|a: int, b: int| 0 <= a < b < t.len() implies t[a].key != t[b].key by {
            if a == i {
                assert(s[b].key != s[last].key);
            } else if b == i {
                assert(s[a].key != s[last].key);
            } else {
                assert(s[a].key != s[b].key);
            }
        }
    }
    assert forall|q: K| #[trigger] has_key(t, q) <==> (has_key(s, q) && q != s[i].key) by {
        if has_key(t, q) {
            let j = index_of(t, q);
            if j == i {
                assert(s[last].key == q);
                if i != last {
                    assert(s[i].key != s[last].key);
                }
            } else {
                assert(s[j].key == q);
                if j < i {
                    assert(s[j].key != s[i].key);
                } else {
                    assert(s[i].key != s[j].key);
                }
            }
        }
        if has_key(s, q) && q != s[i].key {
            let j = index_of(s, q);
            if j == last {
                assert(i != last);
                assert(t[i].key == q);
            } else {
                assert(t[j].key == q);
            }
        }
    }
    assert forall|q: K| #[trigger] has_key(t, q) implies slots_map(t)[q] == slots_map(s)[q]
        && stamp_of(t, q) == stamp_of(s, q) by {
        let j = index_of(t, q);
        lemma_at(t, j);
        if j == i {
            lemma_at(s, last);
        } else {
            lemma_at(s, j);
        }
    }
    assert(slots_map(t) =~= slots_map(s).remove(s[i].key));
}

proof fn lemma_dom_len<K, V>(s: Seq<Slot<K, V>>)
    requires
        no_dup(s),
    ensures
        slots_map(s).dom().finite(),
        slots_map(s).dom().len() == s.len(),
    decreases s.len(),
{
    if s.len() == 0 {
        assert(slots_map(s).dom() =~= Set::<K>::empty());
    } else {
        let t = s.drop_last();
        let slot = s.last();
        assert(no_dup(t));
        lemma_dom_len(t);
        assert(!has_key(t, slot.key)) by {
            if has_key(t, slot.key) {
                let j = index_of(t, slot.key);
                assert(s[j].key != s[s.len() - 1].key);
            }
        }
        lemma_push(t, slot);
        assert(t.push(slot) =~= s);
        assert(slots_map(s).dom() =~= slots_map(t).dom().insert(slot.key));
    }
}

/// The tick after `t`: one more, held at the top of the range.
pub open spec fn tick_after(t: u64) -> u64 {
    if t < u64::MAX {
        (t + 1) as u64
    } else {
        t
    }
}

/// One of the first `i` keys of `doomed` is `q`.
pub open spec fn in_prefix<K>(doomed: Seq<K>, i: int, q: K) -> bool {
    exists|j: int| 0 <= j < i && j < doomed.len() && #[trigger] doomed[j] == q
}

/// A record for the key `q` stands in the list.
pub open spec fn listed<K, V>(out: Seq<(K, V)>, q: K) -> bool {
    exists|a: int| 0 <= a < out.len() && (#[trigger] out[a]).0 == q
}

/// The list holds records of the table `m`, each under its own key, and no
/// key twice.
pub open spec fn records_of<K, V>(out: Seq<(K, V)>, m: Map<K, V>) -> bool {
    &&& forall|a: int|
        0 <= a < out.len() ==> m.contains_key((#[trigger] out[a]).0) && out[a].1 == m[out[a].0]
    &&& forall|a: int, b: int| 0 <= a < b < out.len() ==> out[a].0 != out[b].0
}

/// Appending a key makes it a member and keeps the others.
pub proof fn lemma_push_contains<K>(s: Seq<K>, k: K, q: K)
    ensures
        s.push(k).contains(q) <==> (s.contains(q) || q == k),
{
    if s.push(k).contains(q) {
        let j = choose|j: int| 0 <= j < s.push(k).len() && s.push(k)[j] == q;
        if j < s.len() {
            assert(s[j] == q);
        }
    }
    if s.contains(q) {
        let j = choose|j: int| 0 <= j < s.len() && s[j] == q;
        assert(s.push(k)[j] == q);
    }
    if q == k {
        assert(s.push(k)[s.len() as int] == q);
    }
}

/// One more key is in the prefix, or the key was in it already.
pub proof fn lemma_in_prefix_step<K>(s: Seq<K>, i: int, q: K)
    requires
        0 <= i < s.len(),
    ensures
        in_prefix(s, i + 1, q) <==> (in_prefix(s, i, q) || s[i] == q),
{
    if in_prefix(s, i + 1, q) {
        let j = choose|j: int| 0 <= j < i + 1 && j < s.len() && #[trigger] s[j] == q;
        if j < i {
            assert(in_prefix(s, i, q));
        }
    }
    if in_prefix(s, i, q) {
        let j = choose|j: int| 0 <= j < i && j < s.len() && #[trigger] s[j] == q;
        assert(0 <= j < i + 1 && s[j] == q);
    }
    if s[i] == q {
        assert(0 <= i < i + 1 && s[i] == q);
    }
}

/// The whole sequence as a prefix of itself.
pub proof fn lemma_in_prefix_all<K>(s: Seq<K>, q: K)
    ensures
        in_prefix(s, s.len() as int, q) <==> s.contains(q),
{
    if in_prefix(s, s.len() as int, q) {
        let j = choose|j: int| 0 <= j < s.len() && j < s.len() && #[trigger] s[j] == q;
        assert(s[j] == q);
    }
    if s.contains(q) {
        let j = choose|j: int| 0 <= j < s.len() && s[j] == q;
        assert(0 <= j < s.len() && s[j] == q);
    }
}

/// A bounded table from `K` to `V`.
pub struct Table<K, V> {
    slots: Vec<Slot<K, V>>,
    capacity: usize,
    clock: u64,
}

impl<K: TableKey, V> Table<K, V> {
    /// The table holds each key once, and no more records than its capacity.
    pub closed spec fn wf(&self) -> bool {
        &&& no_dup(self.slots@)
        &&& self.slots@.len() <= self.capacity
    }

    /// The records, by key.
    pub closed spec fn view(&self) -> Map<K, V> {
        slots_map(self.slots@)
    }

    /// The most records that the table holds.
    pub closed spec fn capacity(&self) -> nat {
        self.capacity as nat
    }

    /// The tick at which the record for `k` was last written or touched.
    pub closed spec fn stamp(&self, k: K) -> u64 {
        stamp_of(self.slots@, k)
    }

    /// The tick that the next write or touch will carry.
    pub closed spec fn tick(&self) -> u64 {
        self.clock
    }

    /// No record has been used less recently than the record for `k`.
    pub open spec fn least_recent(&self, k: K) -> bool {
        self@.contains_key(k) && forall|q: K| #[trigger]
            self@.contains_key(q) ==> self.stamp(k) <= self.stamp(q)
    }

    /// A table holds finitely many records, no more than its capacity.
    pub proof fn lemma_size(&self)
        requires
            self.wf(),
        ensures
            self@.dom().finite(),
            self@.dom().len() <= self.capacity(),
    {
        lemma_dom_len(self.slots@);
    }

    /// An empty table of the given capacity.
    pub fn new(capacity: usize) -> (t: Self)
        ensures
            t.wf(),
            t@ == Map::<K, V>::empty(),
            t.capacity() == capacity,
    {
        let t = Table { slots: Vec::new(), capacity, clock: 0 };
        assert(t@ =~= Map::<K, V>::empty());
        t
    }

    /// The most records that the table holds.
    pub fn limit(&self) -> (n: usize)
        ensures
            n == self.capacity(),
    {
        self.capacity
    }

    /// The number of records.
    pub fn len(&self) -> (n: usize)
        requires
            self.wf(),
        ensures
            n == self@.dom().len(),
            n <= self.capacity(),
    {
        proof {
            lemma_dom_len(self.slots@);
        }
        self.slots.len()
    }

    fn find(&self, key: &K) -> (r: Option<usize>)
        requires
            self.wf(),
        ensures
            match r {
                Some(i) => i < self.slots@.len() && self.slots@[i as int].key == *key,
                None => !has_key(self.slots@, *key),
            },
    {
        let mut i: usize = 0;
        while i < self.slots.len()
            invariant
                i <= self.slots@.len(),
                forall|j: int| 0 <= j < i ==> (#[trigger] self.slots@[j]).key != *key,
            decreases self.slots.len() - i,
        {
            if self.slots[i].key.same(key) {
                return Some(i);
            }
            i += 1;
        }
        None
    }

    /// Whether the table holds a record for the key.
    pub fn contains(&self, key: &K) -> (b: bool)
        requires
            self.wf(),
        ensures
            b == self@.contains_key(*key),
    {
        match self.find(key) {
            Some(i) => {
                proof {
                    lemma_at(self.slots@, i as int);
                }
                true
            },
            None => false,
        }
    }

    /// The record for the key, if the table holds one.
    pub fn get(&self, key: &K) -> (r: Option<&V>)
        requires
            self.wf(),
        ensures
            match r {
                Some(v) => self@.contains_key(*key) && *v == self@[*key],
                None => !self@.contains_key(*key),
            },
    {
        match self.find(key) {
            Some(i) => {
                proof {
                    lemma_at(self.slots@, i as int);
                }
                Some(&self.slots[i].value)
            },
            None => None,
        }
    }

    fn next_tick(&mut self) -> (t: u64)
        ensures
            t == old(self).clock,
            final(self).clock == tick_after(old(self).clock),
            final(self).slots == old(self).slots,
            final(self).capacity == old(self).capacity,
    {
        let t = self.clock;
        self.clock = self.clock.saturating_add(1);
        t
    }

    /// Marks the record for the key as just used. The records themselves stay.
    pub fn touch(&mut self, key: &K) -> (found: bool)
        requires
            old(self).wf(),
        ensures
            final(self).wf(),
            final(self)@ == old(self)@,
            final(self).capacity() == old(self).capacity(),
            final(self).tick() == tick_after(old(self).tick()),
            found == old(self)@.contains_key(*key),
            found ==> final(self).stamp(*key) == old(self).tick(),
            forall|q: K|
                q != *key && #[trigger] final(self)@.contains_key(q) ==> final(self).stamp(q)
                    == old(self).stamp(q),
    {
        match self.find(key) {
            Some(i) => {
                let t = self.next_tick();
                let ghost before = self.slots@;
                self.slots[i].stamp = t;
                proof {
                    let slot = self.slots@[i as int];
                    assert(self.slots@ =~= before.update(i as int, slot));
                    assert forall|j: int| 0 <= j < before.len() && j != i implies (
                    #[trigger] before[j]).key != slot.key by {
                        if j < i {
                            assert(before[j].key != before[i as int].key);
                        } else {
                            assert(before[i as int].key != before[j].key);
                        }
                    }
                    lemma_update(before, i as int, slot);
                    lemma_at(before, i as int);
                    assert(self@ =~= old(self)@);
                }
                true
            },
            None => {
                let _ = self.next_tick();
                false
            },
        }
    }

    fn oldest(&self) -> (i: usize)
        requires
            self.slots@.len() > 0,
        ensures
            i < self.slots@.len(),
            forall|j: int| 0 <= j < self.slots@.len() ==> self.slots@[i as int].stamp <= (
            #[trigger] self.slots@[j]).stamp,
    {
        let mut best: usize = 0;
        let mut i: usize = 1;
        while i < self.slots.len()
            invariant
                1 <= i <= self.slots@.len(),
                best < i,
                forall|j: int| 0 <= j < i ==> self.slots@[best as int].stamp <= (
                #[trigger] self.slots@[j]).stamp,
            decreases self.slots.len() - i,
        {
            if self.slots[i].stamp < self.slots[best].stamp {
                best = i;
            }
            i += 1;
        }
        best
    }

    /// Writes the record for the key. A record for the same key is replaced.
    /// Where the key is new and the table is full, a least recently used
    /// record gives way, and its key is returned. Only a table without any
    /// room, of capacity zero, has nothing to evict: it refuses the record.
    pub fn insert(&mut self, key: K, value: V) -> (r: Result<Option<K>, Error>)
        requires
            old(self).wf(),
        ensures
            final(self).wf(),
            final(self).capacity() == old(self).capacity(),
            final(self).tick() == if r is Ok {
                tick_after(old(self).tick())
            } else {
                old(self).tick()
            },
            match r {
                Ok(Some(victim)) => {
                    &&& !old(self)@.contains_key(key)
                    &&& old(self)@.dom().len() == old(self).capacity()
                    &&& old(self).least_recent(victim)
                    &&& final(self)@ == old(self)@.remove(victim).insert(key, value)
                    &&& final(self).stamp(key) == old(self).tick()
                },
                Ok(None) => {
                    &&& (old(self)@.contains_key(key) || old(self)@.dom().len() < old(
                        self,
                    ).capacity())
                    &&& final(self)@ == old(self)@.insert(key, value)
                    &&& final(self).stamp(key) == old(self).tick()
                },
                Err(e) => {
                    &&& old(self).capacity() == 0
                    &&& e == Error::CapacityExceeded
                    &&& *final(self) == *old(self)
                },
            },
            forall|q: K|
                q != key && #[trigger] final(self)@.contains_key(q) ==> final(self).stamp(q)
                    == old(self).stamp(q),
    {
        proof {
            lemma_dom_len(self.slots@);
        }
        let found = self.find(&key);
        if found.is_none() && self.capacity == 0 {
            return Err(Error::CapacityExceeded);
        }
        let t = self.next_tick();
        let ghost before = self.slots@;
        let slot = Slot { key, value, stamp: t };
        match found {
            Some(i) => {
                proof {
                    assert forall|j: int| 0 <= j < before.len() && j != i implies (
                    #[trigger] before[j]).key != key by {
                        if j < i {
                            assert(before[j].key != before[i as int].key);
                        } else {
                            assert(before[i as int].key != before[j].key);
                        }
                    }
                    lemma_update(before, i as int, slot);
                    lemma_at(before, i as int);
                    assert(slots_map(before).remove(key).insert(key, value) =~= slots_map(
                        before,
                    ).insert(key, value));
                }
                self.slots[i] = slot;
                assert(self.slots@ =~= before.update(i as int, slot));
                Ok(None)
            },
            None => {
                if self.slots.len() < self.capacity {
                    proof {
                        lemma_push(before, slot);
                    }
                    self.slots.push(slot);
                    Ok(None)
                } else {
                    let i = self.oldest();
                    let victim = self.slots[i].key;
                    proof {
                        lemma_update(before, i as int, slot);
                        lemma_at(before, i as int);
                        assert forall|q: K| #[trigger]
                            slots_map(before).contains_key(q) implies stamp_of(before, victim)
                            <= stamp_of(before, q) by {
                            let j = index_of(before, q);
                            lemma_at(before, j);
                        }
                    }
                    self.slots[i] = slot;
                    assert(self.slots@ =~= before.update(i as int, slot));
                    Ok(Some(victim))
                }
            },
        }
    }

    /// Writes the record for the key unless the key is new and the table is
    /// full: nothing gives way, and the table stays as it was.
    pub fn try_insert(&mut self, key: K, value: V) -> (r: Result<(), Error>)
        requires
            old(self).wf(),
        ensures
            final(self).wf(),
            final(self).capacity() == old(self).capacity(),
            match r {
                Ok(_) => (old(self)@.contains_key(key) || old(self)@.dom().len() < old(
                    self,
                ).capacity()) && final(self)@ == old(self)@.insert(key, value),
                Err(e) => !old(self)@.contains_key(key) && old(self)@.dom().len() == old(
                    self,
                ).capacity() && e == Error::CapacityExceeded && final(self)@ == old(self)@,
            },
            final(self).tick() == if r is Ok {
                tick_after(old(self).tick())
            } else {
                old(self).tick()
            },
            r is Ok ==> final(self).stamp(key) == old(self).tick(),
            forall|q: K|
                q != key && #[trigger] final(self)@.contains_key(q) ==> final(self).stamp(q)
                    == old(self).stamp(q),
    {
        proof {
            lemma_dom_len(self.slots@);
        }
        if self.slots.len() >= self.capacity && !self.contains(&key) {
            return Err(Error::CapacityExceeded);
        }
        let _ = self.insert(key, value);
        Ok(())
    }

    /// Takes the record for the key out of the table.
    pub fn remove(&mut self, key: &K) -> (r: Option<V>)
        requires
            old(self).wf(),
        ensures
            final(self).wf(),
            final(self).capacity() == old(self).capacity(),
            final(self).tick() == old(self).tick(),
            final(self)@ == old(self)@.remove(*key),
            match r {
                Some(v) => old(self)@.contains_key(*key) && v == old(self)@[*key],
                None => !old(self)@.contains_key(*key),
            },
            forall|q: K| #[trigger]
                final(self)@.contains_key(q) ==> final(self).stamp(q) == old(self).stamp(q),
    {
        match self.find(key) {
            Some(i) => {
                proof {
                    lemma_swap_remove(self.slots@, i as int);
                    lemma_at(self.slots@, i as int);
                }
                let slot = self.slots.swap_remove(i);
                Some(slot.value)
            },
            None => {
                assert(self@.remove(*key) =~= self@);
                None
            },
        }
    }

    /// Takes the records for all the given keys out of the table and hands
    /// them back, each once; a key without a record is passed over.
    pub fn remove_all(&mut self, doomed: &Vec<K>) -> (out: Vec<(K, V)>)
        requires
            old(self).wf(),
        ensures
            final(self).wf(),
            final(self).capacity() == old(self).capacity(),
            final(self).tick() == old(self).tick(),
            forall|q: K| #[trigger]
                final(self)@.contains_key(q) <==> old(self)@.contains_key(q) && !doomed@.contains(
                    q,
                ),
            forall|q: K| #[trigger]
                final(self)@.contains_key(q) ==> final(self)@[q] == old(self)@[q]
                    && final(self).stamp(q) == old(self).stamp(q),
            records_of(out@, old(self)@),
            forall|q: K| #[trigger]
                listed(out@, q) <==> old(self)@.contains_key(q) && doomed@.contains(q),
            out@.len() + final(self)@.dom().len() == old(self)@.dom().len(),
    {
        let mut out: Vec<(K, V)> = Vec::new();
        let mut i: usize = 0;
        proof {
            self.lemma_size();
        }
        while i < doomed.len()
            invariant
                i <= doomed@.len(),
                self.wf(),
                old(self).wf(),
                self.capacity() == old(self).capacity(),
                self.tick() == old(self).tick(),
                self@.dom().finite(),
                old(self)@.dom().finite(),
                forall|q: K| #[trigger]
                    self@.contains_key(q) <==> old(self)@.contains_key(q) && !in_prefix(
                        doomed@,
                        i as int,
                        q,
                    ),
                forall|q: K| #[trigger]
                    self@.contains_key(q) ==> self@[q] == old(self)@[q] && self.stamp(q) == old(
                        self,
                    ).stamp(q),
                records_of(out@, old(self)@),
                forall|q: K| #[trigger]
                    listed(out@, q) <==> old(self)@.contains_key(q) && in_prefix(
                        doomed@,
                        i as int,
                        q,
                    ),
                out@.len() + self@.dom().len() == old(self)@.dom().len(),
            decreases doomed.len() - i,
        {
            let k = doomed[i];
            let ghost before = *self;
            let ghost out_before = out@;
            let removed = self.remove(&k);
            proof {
                assert forall|q: K| in_prefix(doomed@, i + 1, q) <==> (in_prefix(
                    doomed@,
                    i as int,
                    q,
                ) || q == k) by {
                    if in_prefix(doomed@, i + 1, q) {
                        let j = choose|j: int|
                            0 <= j < i + 1 && j < doomed@.len() && #[trigger] doomed@[j] == q;
                        if j < i {
                            assert(in_prefix(doomed@, i as int, q));
                        }
                    }
                    if in_prefix(doomed@, i as int, q) {
                        let j = choose|j: int|
                            0 <= j < i && j < doomed@.len() && #[trigger] doomed@[j] == q;
                        assert(0 <= j < i + 1 && doomed@[j] == q);
                    }
                    if q == k {
                        assert(doomed@[i as int] == q);
                    }
                }
            }
            match removed {
                Some(v) => {
                    out.push((k, v));
                    proof {
                        assert(!listed(out_before, k));
                        assert(out@[out_before.len() as int].0 == k);
                        assert forall|q: K| #[trigger]
                            listed(out@, q) <==> (listed(out_before, q) || q == k) by {
                            if listed(out@, q) {
                                let a = choose|a: int|
                                    0 <= a < out@.len() && (#[trigger] out@[a]).0 == q;
                                if a < out_before.len() {
                                    assert(out_before[a].0 == q);
                                }
                            }
                            if listed(out_before, q) {
                                let a = choose|a: int|
                                    0 <= a < out_before.len() && (#[trigger] out_before[a]).0 == q;
                                assert(out@[a].0 == q);
                            }
                        }
                        assert(records_of(out@, old(self)@)) by {
                            assert forall|a: int, b: int| 0 <= a < b < out@.len() implies out@[a].0
                                != out@[b].0 by {
                                if b == out_before.len() {
                                    assert(out_before[a].0 == out@[a].0);
                                    if out@[a].0 == k {
                                        assert(listed(out_before, k));
                                    }
                                } else {
                                    assert(out_before[a].0 != out_before[b].0);
                                }
                            }
                            assert forall|a: int| 0 <= a < out@.len() implies old(
                                self,
                            )@.contains_key((#[trigger] out@[a]).0) && out@[a].1 == old(
                                self,
                            )@[out@[a].0] by {
                                if a < out_before.len() {
                                    assert(out@[a] == out_before[a]);
                                }
                            }
                        }
                        assert(self@.dom() =~= before@.dom().remove(k));
                    }
                },
                None => {
                    proof {
                        assert(self@ =~= before@);
                    }
                },
            }
            i += 1;
        }
        proof {
            assert forall|q: K| in_prefix(doomed@, i as int, q) <==> doomed@.contains(q) by {
                if in_prefix(doomed@, i as int, q) {
                    let j = choose|j: int|
                        0 <= j < i && j < doomed@.len() && #[trigger] doomed@[j] == q;
                    assert(doomed@[j] == q);
                }
                if doomed@.contains(q) {
                    let j = choose|j: int| 0 <= j < doomed@.len() && doomed@[j] == q;
                    assert(0 <= j < i && doomed@[j] == q);
                }
            }
        }
        out
    }

    /// The keys of all records, each once, in storage order.
    pub fn keys(&self) -> (ks: Vec<K>)
        requires
            self.wf(),
        ensures
            ks@.len() == self@.dom().len(),
            ks@.no_duplicates(),
            forall|k: K|
                #![trigger self@.contains_key(k)]
                #![trigger ks@.contains(k)]
                self@.contains_key(k) <==> ks@.contains(k),
    {
        let mut ks: Vec<K> = Vec::new();
        let mut i: usize = 0;
        proof {
            lemma_dom_len(self.slots@);
        }
        while i < self.slots.len()
            invariant
                i <= self.slots@.len(),
                ks@.len() == i,
                forall|j: int| 0 <= j < i ==> #[trigger] ks@[j] == self.slots@[j].key,
            decreases self.slots.len() - i,
        {
            ks.push(self.slots[i].key);
            i += 1;
        }
        proof {
            assert forall|a: int, b: int| 0 <= a < ks@.len() && 0 <= b < ks@.len() && a
                != b implies ks@[a] != ks@[b] by {
                if a < b {
                    assert(self.slots@[a].key != self.slots@[b].key);
                } else {
                    assert(self.slots@[b].key != self.slots@[a].key);
                }
            }
            assert forall|k: K|
                #![trigger self@.contains_key(k)]
                #![trigger ks@.contains(k)]
                self@.contains_key(k) <==> ks@.contains(k) by {
                if self@.contains_key(k) {
                    let j = index_of(self.slots@, k);
                    assert(ks@[j] == k);
                }
                if ks@.contains(k) {
                    let j = choose|j: int| 0 <= j < ks@.len() && ks@[j] == k;
                    lemma_at(self.slots@, j);
                }
            }
        }
        ks
    }
}

impl<K: TableKey, V: Copy> Table<K, V> {
    /// All records, each once, in storage order.
    pub fn entries(&self) -> (out: Vec<(K, V)>)
        requires
            self.wf(),
        ensures
            records_of(out@, self@),
            out@.len() == self@.dom().len(),
            forall|q: K| #[trigger] listed(out@, q) <==> self@.contains_key(q),
    {
        let mut out: Vec<(K, V)> = Vec::new();
        let mut i: usize = 0;
        proof {
            lemma_dom_len(self.slots@);
        }
        while i < self.slots.len()
            invariant
                i <= self.slots@.len(),
                out@.len() == i,
                forall|j: int|
                    0 <= j < i ==> (#[trigger] out@[j]) == (
                        self.slots@[j].key,
                        self.slots@[j].value,
                    ),
            decreases self.slots.len() - i,
        {
            out.push((self.slots[i].key, self.slots[i].value));
            i += 1;
        }
        proof {
            assert forall|a: int| 0 <= a < out@.len() implies self@.contains_key(
                (#[trigger] out@[a]).0,
            ) && out@[a].1 == self@[out@[a].0] by {
                lemma_at(self.slots@, a);
            }
            assert forall|a: int, b: int| 0 <= a < b < out@.len() implies out@[a].0
                != out@[b].0 by {
                assert(self.slots@[a].key != self.slots@[b].key);
            }
            assert forall|q: K| #[trigger] listed(out@, q) <==> self@.contains_key(q) by {
                if listed(out@, q) {
                    let a = choose|a: int| 0 <= a < out@.len() && (#[trigger] out@[a]).0 == q;
                    lemma_at(self.slots@, a);
                }
                if self@.contains_key(q) {
                    let j = index_of(self.slots@, q);
                    assert(out@[j].0 == q);
                }
            }
        }
        out
    }
}

} // verus!

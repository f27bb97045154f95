//! The forwarding information base: routes from name prefixes to next hops.
//!
//! The table stores exact matches on the hash and length of a prefix. A lookup
//! probes every prefix of the name from the longest to the empty one and takes
//! the first hit. Nothing is evicted: a full table refuses a new route.

use crate::error::Error;
use crate::name::{key_len, name_hash, Name};
use crate::table::{listed, records_of, Table};
use crate::types::{FaceId, FibKey, FibValue, MAX_FIB_ENTRIES};
use vstd::prelude::*;

verus! {

/// The key under which the route for the prefix `n` is stored.
pub open spec fn fib_key(n: Seq<Seq<u8>>) -> FibKey {
    FibKey { prefix_hash: name_hash(n), prefix_len: key_len(n.len()) }
}

/// The longest-prefix match for the name `n` among its prefixes of at most
/// `j` components: the length of the matching prefix and its route.
pub open spec fn lpm(routes: Map<FibKey, FibValue>, n: Seq<Seq<u8>>, j: int) -> Option<
    (int, FibValue),
>
    decreases j + 1,
{
    if j < 0 {
        None
    } else if routes.contains_key(fib_key(n.take(j))) {
        Some((j, routes[fib_key(n.take(j))]))
    } else {
        lpm(routes, n, j - 1)
    }
}

/// The route that a lookup of the name `n` finds.
pub open spec fn lookup_route(routes: Map<FibKey, FibValue>, n: Seq<Seq<u8>>) -> Option<FibValue> {
    match lpm(routes, n, n.len() as int) {
        Some((_, v)) => Some(v),
        None => None,
    }
}

/// The length of the prefix that a lookup of the name `n` matches.
pub open spec fn matched_len(routes: Map<FibKey, FibValue>, n: Seq<Seq<u8>>) -> Option<int> {
    match lpm(routes, n, n.len() as int) {
        Some((len, _)) => Some(len),
        None => None,
    }
}

/// A match is found at a prefix length between zero and the bound, where the
/// table holds the key of that prefix.
pub proof fn lemma_lpm_bounds(routes: Map<FibKey, FibValue>, n: Seq<Seq<u8>>, j: int)
    ensures
        match lpm(routes, n, j) {
            Some((len, v)) => 0 <= len <= j && routes.contains_key(fib_key(n.take(len))) && v
                == routes[fib_key(n.take(len))],
            None => true,
        },
    decreases j + 1,
{
    if j >= 0 && !routes.contains_key(fib_key(n.take(j))) {
        lemma_lpm_bounds(routes, n, j - 1);
    }
}

/// Adding a route never shortens a match: a name that matched a prefix of
/// some length still matches one at least as long.
pub proof fn lemma_lpm_monotone(
    routes: Map<FibKey, FibValue>,
    key: FibKey,
    value: FibValue,
    n: Seq<Seq<u8>>,
    j: int,
)
    ensures
        match lpm(routes, n, j) {
            Some((len, _)) => match lpm(routes.insert(key, value), n, j) {
                Some((len2, _)) => len2 >= len,
                None => false,
            },
            None => true,
        },
    decreases j + 1,
{
    let grown = routes.insert(key, value);
    if j >= 0 {
        let k = fib_key(n.take(j));
        if routes.contains_key(k) {
            assert(grown.contains_key(k));
        } else {
            lemma_lpm_monotone(routes, key, value, n, j - 1);
            lemma_lpm_bounds(routes, n, j - 1);
            if grown.contains_key(k) {
                assert(lpm(grown, n, j) == Some((j, grown[k])));
            } else {
                assert(lpm(grown, n, j) == lpm(grown, n, j - 1));
            }
        }
    }
}

/// The law of longest-prefix match under growth: after a route has been
/// added, a lookup that found a route before still finds one, and the prefix
/// that it matches is no shorter than before.
pub proof fn lemma_add_route_keeps_longer_match(
    routes: Map<FibKey, FibValue>,
    prefix: Seq<Seq<u8>>,
    value: FibValue,
    n: Seq<Seq<u8>>,
)
    requires
        matched_len(routes, n) is Some,
    ensures
        matched_len(routes.insert(fib_key(prefix), value), n) is Some,
        matched_len(routes.insert(fib_key(prefix), value), n)->0 >= matched_len(routes, n)->0,
{
    lemma_lpm_monotone(routes, fib_key(prefix), value, n, n.len() as int);
}

/// The forwarding information base.
pub struct Fib {
    table: Table<FibKey, FibValue>,
}

impl Fib {
    /// The table is well formed.
    pub closed spec fn wf(&self) -> bool {
        self.table.wf()
    }

    /// The routes, by key.
    pub closed spec fn view(&self) -> Map<FibKey, FibValue> {
        self.table@
    }

    /// The most routes that the table holds.
    pub closed spec fn capacity(&self) -> nat {
        self.table.capacity()
    }

    /// A table holds finitely many routes, no more than its capacity.
    pub proof fn lemma_size(&self)
        requires
            self.wf(),
        ensures
            self@.dom().finite(),
            self@.dom().len() <= self.capacity(),
    {
        self.table.lemma_size();
    }

    /// An empty table of the default capacity.
    pub fn new() -> (f: Self)
        ensures
            f.wf(),
            f@ == Map::<FibKey, FibValue>::empty(),
            f.capacity() == MAX_FIB_ENTRIES,
    {
        Fib { table: Table::new(MAX_FIB_ENTRIES) }
    }

    /// An empty table of the given capacity.
    pub fn with_capacity(capacity: usize) -> (f: Self)
        ensures
            f.wf(),
            f@ == Map::<FibKey, FibValue>::empty(),
            f.capacity() == capacity,
    {
        Fib { table: Table::new(capacity) }
    }

    /// The key under which the route for a prefix is stored.
    pub fn key_for(prefix: &Name) -> (k: FibKey)
        ensures
            k == fib_key(prefix@),
    {
        FibKey { prefix_hash: prefix.hash(), prefix_len: prefix.key_len() }
    }

    /// Adds the route for a prefix, or replaces it. A full table refuses a
    /// new prefix and stays as it was.
    pub fn add_route(&mut self, name_prefix: &Name, face_id: FaceId, cost: u8) -> (r: Result<
        (),
        Error,
    >)
        requires
            old(self).wf(),
        ensures
            final(self).wf(),
            final(self).capacity() == old(self).capacity(),
            match r {
                Ok(_) => (old(self)@.contains_key(fib_key(name_prefix@)) || old(self)@.dom().len()
                    < old(self).capacity()) && final(self)@ == old(self)@.insert(
                    fib_key(name_prefix@),
                    FibValue { face_id, cost },
                ),
                Err(e) => !old(self)@.contains_key(fib_key(name_prefix@)) && old(
                    self,
                )@.dom().len() == old(self).capacity() && e == Error::CapacityExceeded
                    && final(self)@ == old(self)@,
            },
    {
        let key = Fib::key_for(name_prefix);
        self.table.try_insert(key, FibValue { face_id, cost })
    }

    /// Removes the route for a prefix. Removing a route that is not there
    /// changes nothing; the result says whether there was one.
    pub fn remove_route(&mut self, name_prefix: &Name) -> (removed: bool)
        requires
            old(self).wf(),
        ensures
            final(self).wf(),
            final(self).capacity() == old(self).capacity(),
            final(self)@ == old(self)@.remove(fib_key(name_prefix@)),
            removed == old(self)@.contains_key(fib_key(name_prefix@)),
    {
        let key = Fib::key_for(name_prefix);
        self.table.remove(&key).is_some()
    }

    /// The route for a name: that of its longest prefix that has one.
    pub fn get_route(&self, name_prefix: &Name) -> (r: Option<FibValue>)
        requires
            self.wf(),
        ensures
            r == lookup_route(self@, name_prefix@),
    {
        self.lookup(name_prefix)
    }

    /// Whether a route is stored under exactly this key.
    pub fn has_entry(&self, key: &FibKey) -> (b: bool)
        requires
            self.wf(),
        ensures
            b == self@.contains_key(*key),
    {
        self.table.contains(key)
    }

    /// The number of routes.
    pub fn count_entries(&self) -> (n: usize)
        requires
            self.wf(),
        ensures
            n == self@.dom().len(),
    {
        self.table.len()
    }

    /// All routes, each once, in no particular order, under their keys: the
    /// table keeps the hash of a prefix, not the prefix.
    pub fn get_all_entries(&self) -> (out: Vec<(FibKey, FibValue)>)
        requires
            self.wf(),
        ensures
            records_of(out@, self@),
            out@.len() == self@.dom().len(),
            forall|q: FibKey| #[trigger] listed(out@, q) <==> self@.contains_key(q),
    {
        self.table.entries()
    }

    /// The route of the longest prefix of the name that has one.
    pub fn lookup(&self, name: &Name) -> (r: Option<FibValue>)
        requires
            self.wf(),
        ensures
            r == lookup_route(self@, name@),
    {
        let hashes = name.prefix_hashes();
        let k = name.len();
        let mut j: usize = k;
        loop
            invariant
                self.wf(),
                j <= k,
                k == name@.len(),
                hashes@.len() == k + 1,
                forall|i: int| 0 <= i <= k ==> #[trigger] hashes@[i] == name_hash(name@.take(i)),
                lpm(self@, name@, k as int) == lpm(self@, name@, j as int),
            decreases j,
        {
            let key = FibKey {
                prefix_hash: hashes[j],
                prefix_len: if j > 255 {
                    255
                } else {
                    j as u8
                },
            };
            assert(key == fib_key(name@.take(j as int)));
            match self.table.get(&key) {
                Some(v) => {
                    return Some(*v);
                },
                None => {},
            }
            if j == 0 {
                assert(lpm(self@, name@, -1) is None);
                return None;
            }
            j -= 1;
        }
    }

    /// The route of the longest prefix of the name that has one.
    pub fn longest_prefix_match(&self, name: &Name) -> (r: Result<FaceId, Error>)
        requires
            self.wf(),
        ensures
            match r {
                Ok(face) => lookup_route(self@, name@) is Some && face == lookup_route(
                    self@,
                    name@,
                )->0.face_id,
                Err(e) => lookup_route(self@, name@) is None && e == Error::NotFound,
            },
    {
        match self.lookup(name) {
            Some(v) => Ok(v.face_id),
            None => Err(Error::NotFound),
        }
    }

    /// The face to which an Interest for the name is forwarded, if a route
    /// matches.
    pub fn find_next_hop(&self, name: &Name) -> (r: Option<FaceId>)
        requires
            self.wf(),
        ensures
            r == match lookup_route(self@, name@) {
                Some(v) => Some(v.face_id),
                None => None,
            },
    {
        match self.lookup(name) {
            Some(v) => Some(v.face_id),
            None => None,
        }
    }
}

} // verus!

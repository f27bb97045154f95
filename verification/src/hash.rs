//! The 32-bit FNV-1a hash by which names are keyed in the tables.

use vstd::prelude::*;

verus! {

pub const FNV_OFFSET_BASIS: u32 = 2166136261;
pub const FNV_PRIME: u32 = 16777619;

/// One round of FNV-1a: fold the byte in, then multiply by the prime.
pub open spec fn fnv1a_step(h: u32, b: u8) -> u32 {
    (h ^ (b as u32)).wrapping_mul(FNV_PRIME)
}

/// The hash state after the bytes of `s` have been folded into the state `h`.
pub open spec fn fnv1a_from(h: u32, s: Seq<u8>) -> u32
    decreases s.len(),
{
    if s.len() == 0 {
        h
    } else {
        fnv1a_step(fnv1a_from(h, s.drop_last()), s.last())
    }
}

/// The FNV-1a hash of `s`.
pub open spec fn fnv1a(s: Seq<u8>) -> u32 {
    fnv1a_from(FNV_OFFSET_BASIS, s)
}

/// Hashing is streaming: to hash `a + b` is to hash `b` from the state that `a` left.
pub proof fn lemma_fnv1a_concat(h: u32, a: Seq<u8>, b: Seq<u8>)
    ensures
        fnv1a_from(h, a + b) == fnv1a_from(fnv1a_from(h, a), b),
    decreases b.len(),
{
    if b.len() == 0 {
        assert(a + b =~= a);
    } else {
        lemma_fnv1a_concat(h, a, b.drop_last());
        assert((a + b).drop_last() =~= a + b.drop_last());
        assert((a + b).last() == b.last());
    }
}

/// Folds the bytes of `data` into the state `h`.
pub fn fnv1a_update(h: u32, data: &[u8]) -> (r: u32)
    ensures
        r == fnv1a_from(h, data@),
{
    let mut hash: u32 = h;
    let mut i: usize = 0;
    while i < data.len()
        invariant
            i <= data.len(),
            hash == fnv1a_from(h, data@.take(i as int)),
        decreases data.len() - i,
    {
        proof {
            assert(data@.take(i + 1).drop_last() =~= data@.take(i as int));
            assert(data@.take(i + 1).last() == data@[i as int]);
        }
        hash = (hash ^ (data[i] as u32)).wrapping_mul(FNV_PRIME);
        i += 1;
    }
    assert(data@.take(i as int) =~= data@);
    hash
}

/// The FNV-1a hash of the first `len` bytes of `data`, or of all of `data`
/// where it is shorter.
pub fn compute_name_hash(data: &[u8], len: usize) -> (hash: u32)
    ensures
        hash == fnv1a(
            data@.take(
                if len <= data@.len() {
                    len as int
                } else {
                    data@.len() as int
                },
            ),
        ),
{
    let mut hash: u32 = FNV_OFFSET_BASIS;
    let mut i: usize = 0;
    while i < len && i < data.len()
        invariant
            i <= len,
            i <= data.len(),
            hash == fnv1a(data@.take(i as int)),
        decreases data.len() - i,
    {
        proof {
            assert(data@.take(i + 1).drop_last() =~= data@.take(i as int));
            assert(data@.take(i + 1).last() == data@[i as int]);
        }
        hash = (hash ^ (data[i] as u32)).wrapping_mul(FNV_PRIME);
        i += 1;
    }
    hash
}

} // verus!

//! The byte layout of the table records as a kernel fast path shares them.
//!
//! Every field is a fixed-width integer in little-endian order at its
//! natural alignment; the bytes between fields, and after the last one up to
//! the alignment of the record, are padding, written as zero and ignored
//! when read.

use crate::buf::pow256;
use crate::types::{CsKey, CsValue, FaceId, FibKey, FibValue, PitKey, PitValue};
use vstd::prelude::*;

verus! {

pub const PIT_KEY_SIZE: usize = 12;
pub const PIT_VALUE_SIZE: usize = 24;
pub const FIB_KEY_SIZE: usize = 8;
pub const FIB_VALUE_SIZE: usize = 4;
pub const CS_KEY_SIZE: usize = 8;
pub const CS_VALUE_SIZE: usize = 24;

/// The `n` low bytes of `v`, least significant first.
pub open spec fn le_bytes(v: nat, n: nat) -> Seq<u8>
    decreases n,
{
    if n == 0 {
        Seq::<u8>::empty()
    } else {
        seq![(v % 256) as u8] + le_bytes(v / 256, (n - 1) as nat)
    }
}

/// The number that a run of bytes spells, least significant byte first.
pub open spec fn le_value(s: Seq<u8>) -> nat
    decreases s.len(),
{
    if s.len() == 0 {
        0
    } else {
        s[0] as nat + 256 * le_value(s.skip(1))
    }
}

/// `n` bytes of padding.
pub open spec fn padding(n: nat) -> Seq<u8> {
    Seq::new(n, |i: int| 0u8)
}

/// The bytes of a number have the width asked for and spell the number
/// back where it fits that width.
pub proof fn lemma_le_round_trip(v: nat, n: nat)
    ensures
        le_bytes(v, n).len() == n,
        v < pow256(n) ==> le_value(le_bytes(v, n)) == v,
        le_value(le_bytes(v, n)) < pow256(n),
    decreases n,
{
    if n > 0 {
        lemma_le_round_trip(v / 256, (n - 1) as nat);
        let s = le_bytes(v, n);
        assert(s.skip(1) =~= le_bytes(v / 256, (n - 1) as nat));
        assert(s[0] == (v % 256) as u8);
        if v < pow256(n) {
            assert(v / 256 < pow256((n - 1) as nat)) by (nonlinear_arith)
                requires
                    v < 256 * pow256((n - 1) as nat),
            ;
        }
    }
}

/// Appends the `n` low bytes of `v`, least significant first.
fn push_le(out: &mut Vec<u8>, v: u64, n: usize)
    requires
        n <= 8,
    ensures
        final(out)@ == old(out)@ + le_bytes(v as nat, n as nat),
{
    let mut rest: u64 = v;
    let mut i: usize = 0;
    assert(old(out)@ + le_bytes(v as nat, 0) =~= old(out)@);
    while i < n
        invariant
            i <= n <= 8,
            out@ + le_bytes(rest as nat, (n - i) as nat) == old(out)@ + le_bytes(
                v as nat,
                n as nat,
            ),
        decreases n - i,
    {
        let ghost before = out@;
        out.push((rest % 256) as u8);
        proof {
            let tail = le_bytes((rest / 256) as nat, (n - i - 1) as nat);
            assert(le_bytes(rest as nat, (n - i) as nat) == seq![(rest % 256) as u8] + tail);
            assert(out@ + tail =~= before + (seq![(rest % 256) as u8] + tail));
        }
        rest = rest / 256;
        i += 1;
    }
    assert(out@ + le_bytes(rest as nat, 0) =~= out@);
}

/// Appends `n` bytes of padding.
fn push_padding(out: &mut Vec<u8>, n: usize)
    ensures
        final(out)@ == old(out)@ + padding(n as nat),
{
    let mut i: usize = 0;
    assert(old(out)@ + padding(0) =~= old(out)@);
    while i < n
        invariant
            i <= n,
            out@ == old(out)@ + padding(i as nat),
        decreases n - i,
    {
        out.push(0);
        assert(out@ =~= old(out)@ + padding((i + 1) as nat));
        i += 1;
    }
}

/// Reads the number that the `n` bytes at `offset` spell, least significant
/// byte first.
fn read_le(data: &[u8], offset: usize, n: usize) -> (v: u64)
    requires
        n <= 8,
        offset + n <= data@.len(),
    ensures
        v == le_value(data@.subrange(offset as int, offset + n)),
        v < pow256(n as nat),
{
    let mut v: u64 = 0;
    let mut i: usize = n;
    let total = data.len();
    assert(data@.subrange(offset + n, offset + n) =~= Seq::<u8>::empty());
    proof {
        reveal_with_fuel(pow256, 9);
    }
    while i > 0
        invariant
            i <= n <= 8,
            offset + n <= data@.len(),
            total == data@.len(),
            v == le_value(data@.subrange(offset + i, offset + n)),
            v < pow256((n - i) as nat),
        decreases i,
    {
        i -= 1;
        proof {
            let s = data@.subrange(offset + i, offset + n);
            assert(s.skip(1) =~= data@.subrange(offset + i + 1, offset + n));
            assert(s[0] == data@[offset + i]);
            reveal_with_fuel(pow256, 9);
            assert(pow256((n - i) as nat) == 256 * pow256((n - i - 1) as nat));
            assert(pow256((n - i) as nat) <= pow256(8)) by {
                lemma_pow256_monotone((n - i) as nat, 8);
            }
            assert(pow256(8) == 0x1_0000_0000_0000_0000) by {
                reveal_with_fuel(pow256, 9);
            }
        }
        v = v * 256 + data[offset + i] as u64;
    }
    v
}

/// A higher power is no smaller.
proof fn lemma_pow256_monotone(a: nat, b: nat)
    requires
        a <= b,
    ensures
        pow256(a) <= pow256(b),
    decreases b,
{
    if a < b {
        lemma_pow256_monotone(a, (b - 1) as nat);
    }
}

/// The layout of a pending-interest key: the hash, the length and three
/// bytes of padding, the nonce.
pub open spec fn pit_key_bytes(k: PitKey) -> Seq<u8> {
    le_bytes(k.name_hash as nat, 4) + le_bytes(k.name_len as nat, 1) + padding(3) + le_bytes(
        k.nonce as nat,
        4,
    )
}

/// The layout of a pending-interest record: the face and six bytes of
/// padding, the timestamp, the lifetime, the component count and three bytes
/// of padding.
pub open spec fn pit_value_bytes(v: PitValue) -> Seq<u8> {
    le_bytes(v.face_id.0 as nat, 2) + padding(6) + le_bytes(v.timestamp as nat, 8) + le_bytes(
        v.lifetime_ms as nat,
        4,
    ) + le_bytes(v.name_component_count as nat, 1) + padding(3)
}

/// The layout of a route key: the hash, the length and three bytes of padding.
pub open spec fn fib_key_bytes(k: FibKey) -> Seq<u8> {
    le_bytes(k.prefix_hash as nat, 4) + le_bytes(k.prefix_len as nat, 1) + padding(3)
}

/// The layout of a route: the face, the cost and one byte of padding.
pub open spec fn fib_value_bytes(v: FibValue) -> Seq<u8> {
    le_bytes(v.face_id.0 as nat, 2) + le_bytes(v.cost as nat, 1) + padding(1)
}

/// The layout of a content-store key: the hash, the length and three bytes
/// of padding.
pub open spec fn cs_key_bytes(k: CsKey) -> Seq<u8> {
    le_bytes(k.name_hash as nat, 4) + le_bytes(k.name_len as nat, 1) + padding(3)
}

/// The layout of a content-store record: the content hash, the timestamp,
/// the size, the time-to-live.
pub open spec fn cs_value_bytes(v: CsValue) -> Seq<u8> {
    le_bytes(v.content_hash as nat, 8) + le_bytes(v.timestamp as nat, 8) + le_bytes(
        v.content_size as nat,
        4,
    ) + le_bytes(v.ttl_ms as nat, 4)
}

/// The pending-interest key that a record of twelve bytes holds.
pub open spec fn pit_key_of(s: Seq<u8>) -> PitKey {
    PitKey {
        name_hash: le_value(s.subrange(0, 4)) as u32,
        name_len: le_value(s.subrange(4, 5)) as u8,
        nonce: le_value(s.subrange(8, 12)) as u32,
    }
}

/// The pending-interest record that twenty-four bytes hold.
pub open spec fn pit_value_of(s: Seq<u8>) -> PitValue {
    PitValue {
        face_id: FaceId(le_value(s.subrange(0, 2)) as u16),
        timestamp: le_value(s.subrange(8, 16)) as u64,
        lifetime_ms: le_value(s.subrange(16, 20)) as u32,
        name_component_count: le_value(s.subrange(20, 21)) as u8,
    }
}

/// The route key that eight bytes hold.
pub open spec fn fib_key_of(s: Seq<u8>) -> FibKey {
    FibKey {
        prefix_hash: le_value(s.subrange(0, 4)) as u32,
        prefix_len: le_value(s.subrange(4, 5)) as u8,
    }
}

/// The route that four bytes hold.
pub open spec fn fib_value_of(s: Seq<u8>) -> FibValue {
    FibValue {
        face_id: FaceId(le_value(s.subrange(0, 2)) as u16),
        cost: le_value(s.subrange(2, 3)) as u8,
    }
}

/// The content-store key that eight bytes hold.
pub open spec fn cs_key_of(s: Seq<u8>) -> CsKey {
    CsKey {
        name_hash: le_value(s.subrange(0, 4)) as u32,
        name_len: le_value(s.subrange(4, 5)) as u8,
    }
}

/// The content-store record that twenty-four bytes hold.
pub open spec fn cs_value_of(s: Seq<u8>) -> CsValue {
    CsValue {
        content_hash: le_value(s.subrange(0, 8)) as u64,
        timestamp: le_value(s.subrange(8, 16)) as u64,
        content_size: le_value(s.subrange(16, 20)) as u32,
        ttl_ms: le_value(s.subrange(20, 24)) as u32,
    }
}

impl PitKey {
    /// The record as shared bytes.
    pub fn to_bytes(&self) -> (out: Vec<u8>)
        ensures
            out@ == pit_key_bytes(*self),
            out@.len() == PIT_KEY_SIZE,
    {
        let mut out: Vec<u8> = Vec::new();
        push_le(&mut out, self.name_hash as u64, 4);
        push_le(&mut out, self.name_len as u64, 1);
        push_padding(&mut out, 3);
        push_le(&mut out, self.nonce as u64, 4);
        proof {
            lemma_le_round_trip(self.name_hash as nat, 4);
            lemma_le_round_trip(self.name_len as nat, 1);
            lemma_le_round_trip(self.nonce as nat, 4);
            assert(out@ =~= pit_key_bytes(*self));
        }
        out
    }

    /// The record that shared bytes hold; `None` unless there are twelve.
    pub fn from_bytes(data: &[u8]) -> (r: Option<Self>)
        ensures
            r == if data@.len() == PIT_KEY_SIZE {
                Some(pit_key_of(data@))
            } else {
                None
            },
    {
        if data.len() != PIT_KEY_SIZE {
            return None;
        }
        proof {
            reveal_with_fuel(pow256, 9);
        }
        Some(
            PitKey {
                name_hash: read_le(data, 0, 4) as u32,
                name_len: read_le(data, 4, 1) as u8,
                nonce: read_le(data, 8, 4) as u32,
            },
        )
    }
}

impl PitValue {
    /// The record as shared bytes.
    pub fn to_bytes(&self) -> (out: Vec<u8>)
        ensures
            out@ == pit_value_bytes(*self),
            out@.len() == PIT_VALUE_SIZE,
    {
        let mut out: Vec<u8> = Vec::new();
        push_le(&mut out, self.face_id.0 as u64, 2);
        push_padding(&mut out, 6);
        push_le(&mut out, self.timestamp, 8);
        push_le(&mut out, self.lifetime_ms as u64, 4);
        push_le(&mut out, self.name_component_count as u64, 1);
        push_padding(&mut out, 3);
        proof {
            lemma_le_round_trip(self.face_id.0 as nat, 2);
            lemma_le_round_trip(self.timestamp as nat, 8);
            lemma_le_round_trip(self.lifetime_ms as nat, 4);
            lemma_le_round_trip(self.name_component_count as nat, 1);
            assert(out@ =~= pit_value_bytes(*self));
        }
        out
    }

    /// The record that shared bytes hold; `None` unless there are twenty-four.
    pub fn from_bytes(data: &[u8]) -> (r: Option<Self>)
        ensures
            r == if data@.len() == PIT_VALUE_SIZE {
                Some(pit_value_of(data@))
            } else {
                None
            },
    {
        if data.len() != PIT_VALUE_SIZE {
            return None;
        }
        proof {
            reveal_with_fuel(pow256, 9);
        }
        Some(
            PitValue {
                face_id: FaceId(read_le(data, 0, 2) as u16),
                timestamp: read_le(data, 8, 8),
                lifetime_ms: read_le(data, 16, 4) as u32,
                name_component_count: read_le(data, 20, 1) as u8,
            },
        )
    }
}

impl FibKey {
    /// The record as shared bytes.
    pub fn to_bytes(&self) -> (out: Vec<u8>)
        ensures
            out@ == fib_key_bytes(*self),
            out@.len() == FIB_KEY_SIZE,
    {
        let mut out: Vec<u8> = Vec::new();
        push_le(&mut out, self.prefix_hash as u64, 4);
        push_le(&mut out, self.prefix_len as u64, 1);
        push_padding(&mut out, 3);
        proof {
            lemma_le_round_trip(self.prefix_hash as nat, 4);
            lemma_le_round_trip(self.prefix_len as nat, 1);
            assert(out@ =~= fib_key_bytes(*self));
        }
        out
    }

    /// The record that shared bytes hold; `None` unless there are eight.
    pub fn from_bytes(data: &[u8]) -> (r: Option<Self>)
        ensures
            r == if data@.len() == FIB_KEY_SIZE {
                Some(fib_key_of(data@))
            } else {
                None
            },
    {
        if data.len() != FIB_KEY_SIZE {
            return None;
        }
        proof {
            reveal_with_fuel(pow256, 9);
        }
        Some(
            FibKey {
                prefix_hash: read_le(data, 0, 4) as u32,
                prefix_len: read_le(data, 4, 1) as u8,
            },
        )
    }
}

impl FibValue {
    /// The record as shared bytes.
    pub fn to_bytes(&self) -> (out: Vec<u8>)
        ensures
            out@ == fib_value_bytes(*self),
            out@.len() == FIB_VALUE_SIZE,
    {
        let mut out: Vec<u8> = Vec::new();
        push_le(&mut out, self.face_id.0 as u64, 2);
        push_le(&mut out, self.cost as u64, 1);
        push_padding(&mut out, 1);
        proof {
            lemma_le_round_trip(self.face_id.0 as nat, 2);
            lemma_le_round_trip(self.cost as nat, 1);
            assert(out@ =~= fib_value_bytes(*self));
        }
        out
    }

    /// The record that shared bytes hold; `None` unless there are four.
    pub fn from_bytes(data: &[u8]) -> (r: Option<Self>)
        ensures
            r == if data@.len() == FIB_VALUE_SIZE {
                Some(fib_value_of(data@))
            } else {
                None
            },
    {
        if data.len() != FIB_VALUE_SIZE {
            return None;
        }
        proof {
            reveal_with_fuel(pow256, 9);
        }
        Some(
            FibValue {
                face_id: FaceId(read_le(data, 0, 2) as u16),
                cost: read_le(data, 2, 1) as u8,
            },
        )
    }
}

impl CsKey {
    /// The record as shared bytes.
    pub fn to_bytes(&self) -> (out: Vec<u8>)
        ensures
            out@ == cs_key_bytes(*self),
            out@.len() == CS_KEY_SIZE,
    {
        let mut out: Vec<u8> = Vec::new();
        push_le(&mut out, self.name_hash as u64, 4);
        push_le(&mut out, self.name_len as u64, 1);
        push_padding(&mut out, 3);
        proof {
            lemma_le_round_trip(self.name_hash as nat, 4);
            lemma_le_round_trip(self.name_len as nat, 1);
            assert(out@ =~= cs_key_bytes(*self));
        }
        out
    }

    /// The record that shared bytes hold; `None` unless there are eight.
    pub fn from_bytes(data: &[u8]) -> (r: Option<Self>)
        ensures
            r == if data@.len() == CS_KEY_SIZE {
                Some(cs_key_of(data@))
            } else {
                None
            },
    {
        if data.len() != CS_KEY_SIZE {
            return None;
        }
        proof {
            reveal_with_fuel(pow256, 9);
        }
        Some(
            CsKey { name_hash: read_le(data, 0, 4) as u32, name_len: read_le(data, 4, 1) as u8 },
        )
    }
}

impl CsValue {
    /// The record as shared bytes.
    pub fn to_bytes(&self) -> (out: Vec<u8>)
        ensures
            out@ == cs_value_bytes(*self),
            out@.len() == CS_VALUE_SIZE,
    {
        let mut out: Vec<u8> = Vec::new();
        push_le(&mut out, self.content_hash, 8);
        push_le(&mut out, self.timestamp, 8);
        push_le(&mut out, self.content_size as u64, 4);
        push_le(&mut out, self.ttl_ms as u64, 4);
        proof {
            lemma_le_round_trip(self.content_hash as nat, 8);
            lemma_le_round_trip(self.timestamp as nat, 8);
            lemma_le_round_trip(self.content_size as nat, 4);
            lemma_le_round_trip(self.ttl_ms as nat, 4);
            assert(out@ =~= cs_value_bytes(*self));
        }
        out
    }

    /// The record that shared bytes hold; `None` unless there are twenty-four.
    pub fn from_bytes(data: &[u8]) -> (r: Option<Self>)
        ensures
            r == if data@.len() == CS_VALUE_SIZE {
                Some(cs_value_of(data@))
            } else {
                None
            },
    {
        if data.len() != CS_VALUE_SIZE {
            return None;
        }
        proof {
            reveal_with_fuel(pow256, 9);
        }
        Some(
            CsValue {
                content_hash: read_le(data, 0, 8),
                timestamp: read_le(data, 8, 8),
                content_size: read_le(data, 16, 4) as u32,
                ttl_ms: read_le(data, 20, 4) as u32,
            },
        )
    }
}

/// Each record is read back from its shared bytes as it was written.
pub proof fn lemma_records_round_trip(
    pk: PitKey,
    pv: PitValue,
    fk: FibKey,
    fv: FibValue,
    ck: CsKey,
    cv: CsValue,
)
    ensures
        pit_key_of(pit_key_bytes(pk)) == pk,
        pit_value_of(pit_value_bytes(pv)) == pv,
        fib_key_of(fib_key_bytes(fk)) == fk,
        fib_value_of(fib_value_bytes(fv)) == fv,
        cs_key_of(cs_key_bytes(ck)) == ck,
        cs_value_of(cs_value_bytes(cv)) == cv,
{
    reveal_with_fuel(pow256, 9);
    assert(pit_key_of(pit_key_bytes(pk)) == pk) by {
        let s = pit_key_bytes(pk);
        lemma_le_round_trip(pk.name_hash as nat, 4);
        lemma_le_round_trip(pk.name_len as nat, 1);
        lemma_le_round_trip(pk.nonce as nat, 4);
        assert(s.subrange(0, 4) =~= le_bytes(pk.name_hash as nat, 4));
        assert(s.subrange(4, 5) =~= le_bytes(pk.name_len as nat, 1));
        assert(s.subrange(8, 12) =~= le_bytes(pk.nonce as nat, 4));
    }
    assert(pit_value_of(pit_value_bytes(pv)) == pv) by {
        let s = pit_value_bytes(pv);
        lemma_le_round_trip(pv.face_id.0 as nat, 2);
        lemma_le_round_trip(pv.timestamp as nat, 8);
        lemma_le_round_trip(pv.lifetime_ms as nat, 4);
        lemma_le_round_trip(pv.name_component_count as nat, 1);
        assert(s.subrange(0, 2) =~= le_bytes(pv.face_id.0 as nat, 2));
        assert(s.subrange(8, 16) =~= le_bytes(pv.timestamp as nat, 8));
        assert(s.subrange(16, 20) =~= le_bytes(pv.lifetime_ms as nat, 4));
        assert(s.subrange(20, 21) =~= le_bytes(pv.name_component_count as nat, 1));
    }
    assert(fib_key_of(fib_key_bytes(fk)) == fk) by {
        let s = fib_key_bytes(fk);
        lemma_le_round_trip(fk.prefix_hash as nat, 4);
        lemma_le_round_trip(fk.prefix_len as nat, 1);
        assert(s.subrange(0, 4) =~= le_bytes(fk.prefix_hash as nat, 4));
        assert(s.subrange(4, 5) =~= le_bytes(fk.prefix_len as nat, 1));
    }
    assert(fib_value_of(fib_value_bytes(fv)) == fv) by {
        let s = fib_value_bytes(fv);
        lemma_le_round_trip(fv.face_id.0 as nat, 2);
        lemma_le_round_trip(fv.cost as nat, 1);
        assert(s.subrange(0, 2) =~= le_bytes(fv.face_id.0 as nat, 2));
        assert(s.subrange(2, 3) =~= le_bytes(fv.cost as nat, 1));
    }
    assert(cs_key_of(cs_key_bytes(ck)) == ck) by {
        let s = cs_key_bytes(ck);
        lemma_le_round_trip(ck.name_hash as nat, 4);
        lemma_le_round_trip(ck.name_len as nat, 1);
        assert(s.subrange(0, 4) =~= le_bytes(ck.name_hash as nat, 4));
        assert(s.subrange(4, 5) =~= le_bytes(ck.name_len as nat, 1));
    }
    assert(cs_value_of(cs_value_bytes(cv)) == cv) by {
        let s = cs_value_bytes(cv);
        lemma_le_round_trip(cv.content_hash as nat, 8);
        lemma_le_round_trip(cv.timestamp as nat, 8);
        lemma_le_round_trip(cv.content_size as nat, 4);
        lemma_le_round_trip(cv.ttl_ms as nat, 4);
        assert(s.subrange(0, 8) =~= le_bytes(cv.content_hash as nat, 8));
        assert(s.subrange(8, 16) =~= le_bytes(cv.timestamp as nat, 8));
        assert(s.subrange(16, 20) =~= le_bytes(cv.content_size as nat, 4));
        assert(s.subrange(20, 24) =~= le_bytes(cv.ttl_ms as nat, 4));
    }
}

} // verus!

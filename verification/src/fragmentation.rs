//! Cutting a packet into chunks for sending, and joining them again.
//!
//! The chunk size is a hint to the sender only: the receiver joins whatever
//! chunks it has read, in order.

use crate::buf::{
    as_slice, bytes_from_slice, bytes_mut_new, bytes_mut_seq, bytes_seq, extend_from_slice,
    freeze, remaining,
};
use crate::error::Error;
use bytes::Bytes;
use std::collections::VecDeque;
use vstd::prelude::*;
use vstd::slice::slice_subrange;

verus! {

/// The chunks one after the other.
pub open spec fn joined(chunks: Seq<Seq<u8>>) -> Seq<u8>
    decreases chunks.len(),
{
    if chunks.len() == 0 {
        Seq::<u8>::empty()
    } else {
        joined(chunks.drop_last()) + chunks.last()
    }
}

/// The bytes that each buffer of a list holds.
pub open spec fn chunk_seqs(chunks: Seq<Bytes>) -> Seq<Seq<u8>> {
    Seq::new(chunks.len(), |i: int| bytes_seq(chunks[i]))
}

/// The number of chunks of at most `fragment_size` bytes that hold
/// `packet_size` bytes.
pub open spec fn fragment_count(packet_size: nat, fragment_size: nat) -> nat {
    ((packet_size + fragment_size - 1) / (fragment_size as int)) as nat
}

/// The chunk at index `i` when `packet` is cut into chunks of `fragment_size` bytes.
pub open spec fn fragment_at(packet: Seq<u8>, fragment_size: nat, i: int) -> Seq<u8> {
    packet.subrange(
        i * fragment_size,
        if (i + 1) * fragment_size <= packet.len() {
            (i + 1) * fragment_size
        } else {
            packet.len() as int
        },
    )
}

/// Cuts a packet into chunks of `fragment_size` bytes, the last one holding
/// what is left. An empty packet gives no chunk.
pub fn fragment_packet(packet: &[u8], fragment_size: usize) -> (fragments: Vec<Bytes>)
    requires
        fragment_size > 0,
    ensures
        fragments@.len() == fragment_count(packet@.len(), fragment_size as nat),
        forall|i: int|
            0 <= i < fragments@.len() ==> bytes_seq(#[trigger] fragments@[i]) == fragment_at(
                packet@,
                fragment_size as nat,
                i,
            ),
        joined(chunk_seqs(fragments@)) == packet@,
{
    let mut fragments: Vec<Bytes> = Vec::new();
    let mut offset: usize = 0;
    let size = fragment_size;
    assert(chunk_seqs(fragments@) =~= Seq::<Seq<u8>>::empty());
    assert(packet@.take(0) =~= Seq::<u8>::empty());
    proof {
        if packet@.len() == 0 {
            assert(fragment_count(0, size as nat) == 0) by (nonlinear_arith)
                requires
                    size > 0,
            ;
        }
    }
    while offset < packet.len()
        invariant
            size > 0,
            offset <= packet@.len(),
            offset == fragments@.len() * size || offset == packet@.len(),
            offset == packet@.len() ==> fragments@.len() == fragment_count(
                packet@.len(),
                size as nat,
            ),
            offset < packet@.len() ==> offset == fragments@.len() * size,
            forall|i: int|
                0 <= i < fragments@.len() ==> bytes_seq(#[trigger] fragments@[i]) == fragment_at(
                    packet@,
                    size as nat,
                    i,
                ),
            joined(chunk_seqs(fragments@)) == packet@.take(offset as int),
        decreases packet.len() - offset,
    {
        let left = packet.len() - offset;
        let end = if left < size {
            packet.len()
        } else {
            offset + size
        };
        let ghost n = fragments@.len() as int;
        let ghost before = chunk_seqs(fragments@);
        let fragment = bytes_from_slice(slice_subrange(packet, offset, end));
        fragments.push(fragment);
        proof {
            assert(offset == n * size);
            assert((n + 1) * size == n * size + size) by (nonlinear_arith);
            assert(bytes_seq(fragment) == fragment_at(packet@, size as nat, n));
            assert(chunk_seqs(fragments@) =~= before.push(bytes_seq(fragment)));
            assert(chunk_seqs(fragments@).drop_last() =~= before);
            assert(packet@.take(offset as int) + packet@.subrange(offset as int, end as int)
                =~= packet@.take(end as int));
            if end == packet@.len() {
                lemma_count(packet@.len(), size as nat, n as nat);
            }
        }
        offset = end;
    }
    assert(packet@.take(offset as int) =~= packet@);
    fragments
}

/// A packet whose last chunk starts at `n` times the chunk size has `n + 1` chunks.
proof fn lemma_count(len: nat, size: nat, n: nat)
    requires
        size > 0,
        n * size < len <= (n + 1) * size,
    ensures
        fragment_count(len, size) == n + 1,
{
    assert(((len + size - 1) / (size as int)) == n + 1) by (nonlinear_arith)
        requires
            size > 0,
            n * size < len <= (n + 1) * size,
    ;
}

/// Joins the chunks read from a stream, in order. A frame without any byte
/// is malformed.
pub fn assemble_fragments(fragments: VecDeque<Bytes>) -> (r: Result<Bytes, Error>)
    ensures
        match r {
            Ok(b) => bytes_seq(b) == joined(chunk_seqs(fragments@)) && bytes_seq(b).len() > 0,
            Err(e) => joined(chunk_seqs(fragments@)).len() == 0 && e == Error::MalformedPacket,
        },
{
    let mut buffer = bytes_mut_new();
    let mut i: usize = 0;
    let ghost all = chunk_seqs(fragments@);
    assert(all.take(0) =~= Seq::<Seq<u8>>::empty());
    while i < fragments.len()
        invariant
            i <= fragments@.len(),
            all == chunk_seqs(fragments@),
            bytes_mut_seq(buffer) == joined(all.take(i as int)),
        decreases fragments.len() - i,
    {
        extend_from_slice(&mut buffer, as_slice(&fragments[i]));
        proof {
            assert(all.take(i + 1).drop_last() =~= all.take(i as int));
            assert(all.take(i + 1).last() == bytes_seq(fragments@[i as int]));
        }
        i += 1;
    }
    assert(all.take(i as int) =~= all);
    let whole = freeze(buffer);
    if remaining(&whole) == 0 {
        return Err(Error::MalformedPacket);
    }
    Ok(whole)
}

/// Whether a packet of `packet_size` bytes is larger than `mtu`.
pub fn needs_fragmentation(packet_size: usize, mtu: usize) -> (b: bool)
    ensures
        b == (packet_size > mtu),
{
    packet_size > mtu
}

/// The number of chunks of at most `fragment_size` bytes that hold
/// `packet_size` bytes.
pub fn calculate_fragment_count(packet_size: usize, fragment_size: usize) -> (n: usize)
    requires
        fragment_size > 0,
    ensures
        n == fragment_count(packet_size as nat, fragment_size as nat),
{
    let whole = packet_size / fragment_size;
    let rest = packet_size % fragment_size;
    proof {
        let p = packet_size as int;
        let f = fragment_size as int;
        assert((p + f - 1) / f == p / f + if p % f == 0 {
            0int
        } else {
            1int
        }) by (nonlinear_arith)
            requires
                f > 0,
                p >= 0,
        ;
        assert(p / f <= p) by (nonlinear_arith)
            requires
                f > 0,
                p >= 0,
        ;
        if p % f != 0 {
            assert(p / f < p) by (nonlinear_arith)
                requires
                    f > 0,
                    p >= 0,
                    p % f != 0,
            ;
        }
    }
    if rest == 0 {
        whole
    } else {
        whole + 1
    }
}

} // verus!

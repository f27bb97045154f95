//! Byte buffers of the `bytes` crate, as the codec sees them.
//!
//! What a `Bytes` or a `BytesMut` holds is not visible from here. Each
//! function below makes one call into the crate; its contract is assumed,
//! not proved, and is stated over the sequence of bytes that the buffer holds.

use bytes::{Buf, BufMut, Bytes, BytesMut};
use vstd::prelude::*;

verus! {

/// `bytes::Bytes`: an immutable, cheaply cloned run of bytes. What it holds
/// is known only through `bytes_seq`.
#[verifier::external_type_specification]
#[verifier::external_body]
pub struct ExBytes(bytes::Bytes);

/// `bytes::BytesMut`: a growable run of bytes. What it holds is known only
/// through `bytes_mut_seq`.
#[verifier::external_type_specification]
#[verifier::external_body]
pub struct ExBytesMut(bytes::BytesMut);

/// The bytes that a `Bytes` holds from its cursor to its end, in order.
pub uninterp spec fn bytes_seq(b: Bytes) -> Seq<u8>;

/// The bytes that a `BytesMut` holds, in order.
pub uninterp spec fn bytes_mut_seq(b: BytesMut) -> Seq<u8>;

/// The two bytes of `v`, most significant first.
pub open spec fn be16(v: u16) -> Seq<u8> {
    seq![(v / 256) as u8, (v % 256) as u8]
}

/// The four bytes of `v`, most significant first.
pub open spec fn be32(v: u32) -> Seq<u8> {
    seq![
        (v / 16777216) as u8,
        ((v / 65536) % 256) as u8,
        ((v / 256) % 256) as u8,
        (v % 256) as u8,
    ]
}

/// 256 to the power `n`.
pub open spec fn pow256(n: nat) -> nat
    decreases n,
{
    if n == 0 {
        1
    } else {
        256 * pow256((n - 1) as nat)
    }
}

/// The number that two bytes spell, most significant first.
pub open spec fn be16_value(s: Seq<u8>) -> int {
    s[0] as int * 256 + s[1] as int
}

/// The number that four bytes spell, most significant first.
pub open spec fn be32_value(s: Seq<u8>) -> int {
    s[0] as int * 16777216 + s[1] as int * 65536 + s[2] as int * 256 + s[3] as int
}

/// `BytesMut::new`: a buffer that holds nothing.
#[verifier::external_body]
pub(crate) fn bytes_mut_new() -> (b: BytesMut)
    ensures
        bytes_mut_seq(b) == Seq::<u8>::empty(),
{
    BytesMut::new()
}

/// `BufMut::put_u8` on a `BytesMut`: appends the byte; the buffer grows as needed.
#[verifier::external_body]
pub(crate) fn put_u8(buf: &mut BytesMut, v: u8)
    ensures
        bytes_mut_seq(*final(buf)) == bytes_mut_seq(*old(buf)).push(v),
{
    buf.put_u8(v);
}

/// `BufMut::put_u16` on a `BytesMut`: appends the two bytes of `v` in big-endian order.
#[verifier::external_body]
pub(crate) fn put_u16(buf: &mut BytesMut, v: u16)
    ensures
        bytes_mut_seq(*final(buf)) == bytes_mut_seq(*old(buf)) + be16(v),
{
    buf.put_u16(v);
}

/// `BufMut::put_u32` on a `BytesMut`: appends the four bytes of `v` in big-endian order.
#[verifier::external_body]
pub(crate) fn put_u32(buf: &mut BytesMut, v: u32)
    ensures
        bytes_mut_seq(*final(buf)) == bytes_mut_seq(*old(buf)) + be32(v),
{
    buf.put_u32(v);
}

/// `BytesMut::extend_from_slice`: appends the slice.
#[verifier::external_body]
pub(crate) fn extend_from_slice(buf: &mut BytesMut, s: &[u8])
    ensures
        bytes_mut_seq(*final(buf)) == bytes_mut_seq(*old(buf)) + s@,
{
    buf.extend_from_slice(s);
}

/// `BytesMut::freeze`: the same bytes, now immutable.
#[verifier::external_body]
pub(crate) fn freeze(buf: BytesMut) -> (b: Bytes)
    ensures
        bytes_seq(b) == bytes_mut_seq(buf),
{
    buf.freeze()
}

/// `Buf::remaining` on a `Bytes`: the number of bytes from the cursor to the end.
#[verifier::external_body]
pub(crate) fn remaining(b: &Bytes) -> (n: usize)
    ensures
        n == bytes_seq(*b).len(),
{
    b.remaining()
}

/// `Bytes::as_ref`: the held bytes as a slice.
#[verifier::external_body]
pub(crate) fn as_slice(b: &Bytes) -> (s: &[u8])
    ensures
        s@ == bytes_seq(*b),
{
    b.as_ref()
}

/// `Buf::get_u8` on a `Bytes`: hands out the first byte and moves past it.
/// The crate panics on an empty buffer.
#[verifier::external_body]
pub(crate) fn get_u8(b: &mut Bytes) -> (v: u8)
    requires
        bytes_seq(*old(b)).len() >= 1,
    ensures
        v == bytes_seq(*old(b))[0],
        bytes_seq(*final(b)) == bytes_seq(*old(b)).skip(1),
{
    b.get_u8()
}

/// `Buf::get_u16` on a `Bytes`: reads two bytes as a big-endian number and
/// moves past them. The crate panics when fewer remain.
#[verifier::external_body]
pub(crate) fn get_u16(b: &mut Bytes) -> (v: u16)
    requires
        bytes_seq(*old(b)).len() >= 2,
    ensures
        v == be16_value(bytes_seq(*old(b))),
        bytes_seq(*final(b)) == bytes_seq(*old(b)).skip(2),
{
    b.get_u16()
}

/// `Buf::get_u32` on a `Bytes`: reads four bytes as a big-endian number and
/// moves past them. The crate panics when fewer remain.
#[verifier::external_body]
pub(crate) fn get_u32(b: &mut Bytes) -> (v: u32)
    requires
        bytes_seq(*old(b)).len() >= 4,
    ensures
        v == be32_value(bytes_seq(*old(b))),
        bytes_seq(*final(b)) == bytes_seq(*old(b)).skip(4),
{
    b.get_u32()
}

/// `Buf::copy_to_bytes` on a `Bytes`: splits off the first `len` bytes and
/// leaves the rest. The crate panics when `len` exceeds what remains.
#[verifier::external_body]
pub(crate) fn copy_to_bytes(b: &mut Bytes, len: usize) -> (head: Bytes)
    requires
        len <= bytes_seq(*old(b)).len(),
    ensures
        bytes_seq(head) == bytes_seq(*old(b)).take(len as int),
        bytes_seq(*final(b)) == bytes_seq(*old(b)).skip(len as int),
{
    b.copy_to_bytes(len)
}

/// `Bytes::clone`: a second handle on the same bytes.
pub assume_specification[ <Bytes as Clone>::clone ](b: &Bytes) -> (c: Bytes)
    ensures
        bytes_seq(c) == bytes_seq(*b),
;

/// `Bytes::copy_from_slice`: a buffer that holds a copy of the slice.
#[verifier::external_body]
pub(crate) fn bytes_from_slice(s: &[u8]) -> (b: Bytes)
    ensures
        bytes_seq(b) == s@,
{
    Bytes::copy_from_slice(s)
}

/// `Bytes::eq`: two buffers are equal when they hold the same bytes.
pub assume_specification[ <Bytes as PartialEq>::eq ](a: &Bytes, b: &Bytes) -> (r: bool)
    ensures
        r == (bytes_seq(*a) == bytes_seq(*b)),
;

/// `String::from_utf8_lossy` on ASCII input: each byte becomes the character
/// with the same code, and nothing is replaced.
#[verifier::external_body]
pub(crate) fn ascii_to_string(v: &[u8]) -> (s: String)
    requires
        forall|i: int| 0 <= i < v@.len() ==> v@[i] < 128,
    ensures
        s@ == Seq::new(v@.len(), |i: int| v@[i] as char),
{
    String::from_utf8_lossy(v).into_owned()
}

} // verus!

//! The type-length-value wire primitive.
//!
//! A TLV is one type byte, a length field of one, three or five bytes, and the
//! value. A length below 253 is its own field; up to 65535 it follows the
//! marker 253 as two big-endian bytes; up to 2^32 - 1 it follows the marker 254
//! as four. The marker 255 is rejected.

use crate::buf::{
    as_slice, be16, be16_value, be32, be32_value, bytes_mut_seq, bytes_seq, copy_to_bytes,
    extend_from_slice, get_u16, get_u32, get_u8, put_u16, put_u32, put_u8, remaining,
};
use crate::error::Error;
use bytes::{Bytes, BytesMut};
use vstd::prelude::*;

verus! {

pub const TLV_INTEREST: u8 = 0x05;
pub const TLV_DATA: u8 = 0x06;
pub const TLV_NACK: u8 = 0x03;
pub const TLV_NAME: u8 = 0x07;
pub const TLV_COMPONENT: u8 = 0x08;
pub const TLV_SELECTORS: u8 = 0x09;
pub const TLV_NONCE: u8 = 0x0A;
pub const TLV_INTEREST_LIFETIME: u8 = 0x0C;
pub const TLV_CONTENT: u8 = 0x15;
pub const TLV_HOP_LIMIT: u8 = 0x22;

/// The largest value length that the length field can carry.
pub const MAX_TLV_LENGTH: usize = 0xFFFF_FFFF;

/// The length field that announces a value of `n` bytes.
pub open spec fn length_field(n: nat) -> Seq<u8> {
    if n < 253 {
        seq![n as u8]
    } else if n <= 65535 {
        seq![253u8] + be16(n as u16)
    } else {
        seq![254u8] + be32(n as u32)
    }
}

/// The wire form of one TLV.
pub open spec fn tlv_bytes(t: u8, v: Seq<u8>) -> Seq<u8> {
    seq![t] + length_field(v.len()) + v
}

/// What a length field at the head of `s` says: the length and the width of
/// the field, or `None` where `s` is too short or starts with 255.
pub open spec fn parse_length(s: Seq<u8>) -> Option<(nat, nat)> {
    if s.len() == 0 {
        None
    } else if s[0] < 253 {
        Some((s[0] as nat, 1nat))
    } else if s[0] == 253 {
        if s.len() < 3 {
            None
        } else {
            Some((be16_value(s.skip(1)) as nat, 3nat))
        }
    } else if s[0] == 254 {
        if s.len() < 5 {
            None
        } else {
            Some((be32_value(s.skip(1)) as nat, 5nat))
        }
    } else {
        None
    }
}

/// The header of the TLV at the head of `s`: its type, the width of type and
/// length field together, and the length of the value. `None` where fewer than
/// two bytes are left, the length field is cut short or reserved, or the value
/// would run past the end of `s`.
pub open spec fn parse_header(s: Seq<u8>) -> Option<(u8, nat, nat)> {
    if s.len() < 2 {
        None
    } else {
        match parse_length(s.skip(1)) {
            None => None,
            Some((n, w)) => if 1 + w + n <= s.len() {
                Some((s[0], 1 + w, n))
            } else {
                None
            },
        }
    }
}

/// The TLV at the head of `s`: its type, its value, and what follows it.
pub open spec fn parse_tlv_seq(s: Seq<u8>) -> Option<(u8, Seq<u8>, Seq<u8>)> {
    match parse_header(s) {
        None => None,
        Some((t, h, n)) => Some((t, s.subrange(h as int, (h + n) as int), s.skip((h + n) as int))),
    }
}

/// Appends the one-byte type field.
pub fn encode_tlv_type(tlv_type: u8, buf: &mut BytesMut)
    ensures
        bytes_mut_seq(*final(buf)) == bytes_mut_seq(*old(buf)).push(tlv_type),
{
    put_u8(buf, tlv_type);
}

/// Appends the length field for a value of `length` bytes.
pub fn encode_tlv_length(length: usize, buf: &mut BytesMut)
    requires
        length <= MAX_TLV_LENGTH,
    ensures
        bytes_mut_seq(*final(buf)) == bytes_mut_seq(*old(buf)) + length_field(length as nat),
{
    if length < 253 {
        put_u8(buf, length as u8);
        assert(bytes_mut_seq(*old(buf)).push(length as u8) =~= bytes_mut_seq(*old(buf))
            + length_field(length as nat));
    } else if length <= 65_535 {
        put_u8(buf, 253);
        put_u16(buf, length as u16);
        assert(bytes_mut_seq(*old(buf)).push(253u8) + be16(length as u16) =~= bytes_mut_seq(
            *old(buf),
        ) + length_field(length as nat));
    } else {
        put_u8(buf, 254);
        put_u32(buf, length as u32);
        assert(bytes_mut_seq(*old(buf)).push(254u8) + be32(length as u32) =~= bytes_mut_seq(
            *old(buf),
        ) + length_field(length as nat));
    }
}

/// Reads the one-byte type field and moves past it. An empty buffer is
/// malformed and is left as it was.
pub fn decode_tlv_type(buf: &mut Bytes) -> (r: Result<u8, Error>)
    ensures
        match r {
            Ok(t) => bytes_seq(*old(buf)).len() > 0 && t == bytes_seq(*old(buf))[0] && bytes_seq(
                *final(buf),
            ) == bytes_seq(*old(buf)).skip(1),
            Err(e) => bytes_seq(*old(buf)).len() == 0 && e == Error::MalformedPacket && bytes_seq(
                *final(buf),
            ) == bytes_seq(*old(buf)),
        },
{
    if remaining(buf) == 0 {
        return Err(Error::MalformedPacket);
    }
    Ok(get_u8(buf))
}

/// Reads a length field and moves past it. A field that is cut short or
/// starts with 255 is malformed, and the buffer is left as it was.
pub fn decode_tlv_length(buf: &mut Bytes) -> (r: Result<usize, Error>)
    ensures
        match r {
            Ok(n) => match parse_length(bytes_seq(*old(buf))) {
                Some((value, width)) => n == value && bytes_seq(*final(buf)) == bytes_seq(
                    *old(buf),
                ).skip(width as int),
                None => false,
            },
            Err(e) => parse_length(bytes_seq(*old(buf))) is None && e == Error::MalformedPacket
                && bytes_seq(*final(buf)) == bytes_seq(*old(buf)),
        },
{
    let n = remaining(buf);
    if n == 0 {
        return Err(Error::MalformedPacket);
    }
    let first = as_slice(buf)[0];
    if first < 253 {
        let _ = get_u8(buf);
        Ok(first as usize)
    } else if first == 253 {
        if n < 3 {
            return Err(Error::MalformedPacket);
        }
        let _ = get_u8(buf);
        let v = get_u16(buf);
        assert(bytes_seq(*old(buf)).skip(1).skip(2) =~= bytes_seq(*old(buf)).skip(3));
        Ok(v as usize)
    } else if first == 254 {
        if n < 5 {
            return Err(Error::MalformedPacket);
        }
        let _ = get_u8(buf);
        let v = get_u32(buf);
        assert(bytes_seq(*old(buf)).skip(1).skip(4) =~= bytes_seq(*old(buf)).skip(5));
        Ok(v as usize)
    } else {
        Err(Error::MalformedPacket)
    }
}

/// The number of bytes in the length field for a value of `length` bytes.
pub fn tlv_length_size(length: usize) -> (n: usize)
    ensures
        n == if length < 253 {
            1int
        } else if length <= 65_535 {
            3int
        } else {
            5int
        },
        length <= MAX_TLV_LENGTH ==> n == length_field(length as nat).len(),
{
    if length < 253 {
        1
    } else if length <= 65_535 {
        3
    } else {
        5
    }
}

/// Finds the TLV that starts at `offset` in `data` without copying: its type,
/// the offset of its value, and the length of its value. `None` where no
/// complete TLV starts there.
pub fn parse_tlv(data: &[u8], offset: usize) -> (r: Option<(u8, usize, usize)>)
    ensures
        offset > data@.len() ==> r is None,
        offset <= data@.len() ==> match parse_header(data@.skip(offset as int)) {
            None => r is None,
            Some((t, h, n)) => r == Some((t, (offset + h) as usize, n as usize)),
        },
{
    let total = data.len();
    if offset >= total || total - offset < 2 {
        return None;
    }
    let ghost s = data@.skip(offset as int);
    assert(s.len() == total - offset);
    assert(s[0] == data@[offset as int]);
    assert(s[1] == data@[offset + 1]);
    assert(s.skip(1)[0] == s[1]);
    let tlv_type = data[offset];
    let len_byte = data[offset + 1];
    let avail = total - offset;
    let (length, width): (usize, usize) = if len_byte < 253 {
        (len_byte as usize, 1)
    } else if len_byte == 253 {
        if avail < 4 {
            return None;
        }
        assert(s.skip(1).skip(1)[0] == data@[offset + 2]);
        assert(s.skip(1).skip(1)[1] == data@[offset + 3]);
        let hi = data[offset + 2] as usize;
        let lo = data[offset + 3] as usize;
        (hi * 256 + lo, 3)
    } else if len_byte == 254 {
        if avail < 6 {
            return None;
        }
        assert(s.skip(1).skip(1)[0] == data@[offset + 2]);
        assert(s.skip(1).skip(1)[1] == data@[offset + 3]);
        assert(s.skip(1).skip(1)[2] == data@[offset + 4]);
        assert(s.skip(1).skip(1)[3] == data@[offset + 5]);
        let b0 = data[offset + 2] as usize;
        let b1 = data[offset + 3] as usize;
        let b2 = data[offset + 4] as usize;
        let b3 = data[offset + 5] as usize;
        (b0 * 16777216 + b1 * 65536 + b2 * 256 + b3, 5)
    } else {
        return None;
    };
    assert(parse_length(s.skip(1)) == Some((length as nat, width as nat)));
    if length > avail - 1 - width {
        return None;
    }
    Some((tlv_type, offset + 1 + width, length))
}

/// One TLV element: a type and the bytes of its value.
#[derive(Debug, Clone, PartialEq)]
pub struct TlvElement {
    pub tlv_type: u8,
    pub value: Bytes,
}

impl TlvElement {
    /// The bytes of the value.
    pub open spec fn payload(&self) -> Seq<u8> {
        bytes_seq(self.value)
    }

    /// The wire form of the element.
    pub open spec fn wire(&self) -> Seq<u8> {
        tlv_bytes(self.tlv_type, self.payload())
    }

    /// An element of the given type and value.
    pub fn new(tlv_type: u8, value: Bytes) -> (e: Self)
        ensures
            e.tlv_type == tlv_type,
            e.value == value,
    {
        TlvElement { tlv_type, value }
    }

    /// The number of bytes in the wire form: type, length field and value.
    pub fn len(&self) -> (n: usize)
        requires
            self.payload().len() <= MAX_TLV_LENGTH,
            self.payload().len() + 6 <= usize::MAX,
        ensures
            n == self.wire().len(),
    {
        let vlen = remaining(&self.value);
        1 + tlv_length_size(vlen) + vlen
    }

    /// Appends the wire form of the element to `buf`.
    pub fn encode(&self, buf: &mut BytesMut)
        requires
            self.payload().len() <= MAX_TLV_LENGTH,
        ensures
            bytes_mut_seq(*final(buf)) == bytes_mut_seq(*old(buf)) + self.wire(),
    {
        encode_tlv_type(self.tlv_type, buf);
        encode_tlv_length(remaining(&self.value), buf);
        extend_from_slice(buf, as_slice(&self.value));
        assert(bytes_mut_seq(*old(buf)).push(self.tlv_type) + length_field(self.payload().len())
            + self.payload() =~= bytes_mut_seq(*old(buf)) + self.wire());
    }

    /// Takes one element off the head of `buf`. The value shares the buffer's
    /// storage. Where no complete TLV stands at the head, the input is
    /// malformed and `buf` is left as it was.
    pub fn decode(buf: &mut Bytes) -> (r: Result<Self, Error>)
        ensures
            match r {
                Ok(e) => parse_tlv_seq(bytes_seq(*old(buf))) == Some(
                    (e.tlv_type, e.payload(), bytes_seq(*final(buf))),
                ),
                Err(err) => parse_tlv_seq(bytes_seq(*old(buf))) is None && err
                    == Error::MalformedPacket && bytes_seq(*final(buf)) == bytes_seq(*old(buf)),
            },
    {
        let header = parse_tlv(as_slice(buf), 0);
        assert(bytes_seq(*old(buf)).skip(0) =~= bytes_seq(*old(buf)));
        match header {
            None => Err(Error::MalformedPacket),
            Some((tlv_type, value_offset, length)) => {
                let _ = copy_to_bytes(buf, value_offset);
                let value = copy_to_bytes(buf, length);
                proof {
                    let s = bytes_seq(*old(buf));
                    let h = value_offset as int;
                    let n = length as int;
                    assert(s.skip(h).take(n) =~= s.subrange(h, h + n));
                    assert(s.skip(h).skip(n) =~= s.skip(h + n));
                }
                Ok(TlvElement { tlv_type, value })
            },
        }
    }
}

/// A TLV with a value that the length field can carry parses back to its
/// type and value, and leaves what followed it.
pub proof fn lemma_parse_tlv_bytes(t: u8, v: Seq<u8>, rest: Seq<u8>)
    requires
        v.len() <= MAX_TLV_LENGTH,
    ensures
        parse_tlv_seq(tlv_bytes(t, v) + rest) == Some((t, v, rest)),
{
    let n = v.len();
    let s = tlv_bytes(t, v) + rest;
    let f = length_field(n);
    assert(s.skip(1) =~= f + v + rest);
    if n < 253 {
        assert(f.len() == 1);
        assert(s.skip(1)[0] == n as u8);
    } else if n <= 65535 {
        assert(f.len() == 3);
        assert(s.skip(1)[0] == 253u8);
        let x = n as u16;
        assert(s.skip(1).skip(1)[0] == (x / 256) as u8);
        assert(s.skip(1).skip(1)[1] == (x % 256) as u8);
        assert(be16_value(s.skip(1).skip(1)) == n);
    } else {
        assert(f.len() == 5);
        assert(s.skip(1)[0] == 254u8);
        let x = n as u32;
        assert(s.skip(1).skip(1)[0] == (x / 16777216) as u8);
        assert(s.skip(1).skip(1)[1] == ((x / 65536) % 256) as u8);
        assert(s.skip(1).skip(1)[2] == ((x / 256) % 256) as u8);
        assert(s.skip(1).skip(1)[3] == (x % 256) as u8);
        assert(be32_value(s.skip(1).skip(1)) == n);
    }
    let h = 1 + f.len();
    assert(s.subrange(h as int, (h + n) as int) =~= v);
    assert(s.skip((h + n) as int) =~= rest);
}

} // verus!

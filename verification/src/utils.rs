//! Reading big-endian numbers out of packet bytes.

use crate::error::Error;
use vstd::prelude::*;

verus! {

/// Checks that the region of `len` bytes at `start` lies within a packet of
/// `total` bytes.
pub fn check_bounds(total: usize, start: usize, len: usize) -> (r: Result<(), Error>)
    ensures
        match r {
            Ok(_) => start + len <= total,
            Err(e) => start + len > total && e == Error::MalformedPacket,
        },
{
    if start > total || len > total - start {
        Err(Error::MalformedPacket)
    } else {
        Ok(())
    }
}

/// The 16-bit number that the two bytes at `offset` spell, most significant
/// byte first.
pub open spec fn be_u16_at(data: Seq<u8>, offset: int) -> u16 {
    (data[offset] as int * 256 + data[offset + 1] as int) as u16
}

/// The 32-bit number that the four bytes at `offset` spell, most significant
/// byte first.
pub open spec fn be_u32_at(data: Seq<u8>, offset: int) -> u32 {
    (data[offset] as int * 16777216 + data[offset + 1] as int * 65536 + data[offset + 2] as int
        * 256 + data[offset + 3] as int) as u32
}

/// Reads a 16-bit number in network byte order at `offset`, where two bytes
/// stand there.
pub fn extract_be_u16(data: &[u8], offset: usize) -> (r: Option<u16>)
    ensures
        r == if offset + 2 <= data@.len() {
            Some(be_u16_at(data@, offset as int))
        } else {
            None
        },
{
    if data.len() < 2 || offset > data.len() - 2 {
        return None;
    }
    Some((data[offset] as u16) * 256 + data[offset + 1] as u16)
}

/// Reads a 32-bit number in network byte order at `offset`, where four
/// bytes stand there.
pub fn extract_be_u32(data: &[u8], offset: usize) -> (r: Option<u32>)
    ensures
        r == if offset + 4 <= data@.len() {
            Some(be_u32_at(data@, offset as int))
        } else {
            None
        },
{
    if data.len() < 4 || offset > data.len() - 4 {
        return None;
    }
    Some(
        (data[offset] as u32) * 16777216 + (data[offset + 1] as u32) * 65536 + (data[offset
            + 2] as u32) * 256 + data[offset + 3] as u32,
    )
}

} // verus!

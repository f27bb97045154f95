//! The fast-path classifier: from a frame to the keys of the tables.
//!
//! A frame is classified where it is Ethernet carrying IPv6 carrying UDP to
//! the NDN port. From its payload the classifier takes the kind of packet,
//! the hash and length of the name, and the nonce, walking the TLVs without
//! copying. A name of more than 16 components is not classified.

use crate::buf::{be32, be32_value};
use crate::error::Error;
use crate::hash::{fnv1a_update, lemma_fnv1a_concat, FNV_OFFSET_BASIS};
use crate::name::{
    lemma_name_flat_push, lemma_parse_name_value, name_flat, name_hash, name_value,
    parse_components, MAX_NAME_COMPONENTS,
};
use crate::ndn::{
    data_encodable, data_inner, data_wire, flag_byte, hop_limit_bytes, interest_encodable,
    interest_inner, interest_wire, lemma_be32_value, DataView, InterestView,
};
use crate::packet::PacketType;
use crate::tlv::{
    lemma_parse_tlv_bytes, parse_tlv, parse_tlv_seq, tlv_bytes, MAX_TLV_LENGTH,
    TLV_COMPONENT, TLV_CONTENT, TLV_DATA, TLV_INTEREST, TLV_INTEREST_LIFETIME, TLV_NAME,
    TLV_NONCE, TLV_SELECTORS,
};
use crate::types::FaceId;
use crate::utils::{be_u16_at, be_u32_at, check_bounds, extract_be_u16, extract_be_u32};
use vstd::prelude::*;
use vstd::slice::slice_subrange;

verus! {

pub const IPPROTO_TCP: u8 = 6;
pub const IPPROTO_UDP: u8 = 17;
pub const ETH_P_IP: u16 = 0x0800;
pub const ETH_P_IPV6: u16 = 0x86DD;
pub const ETH_HDR_SIZE: usize = 14;
pub const IPV6_HDR_SIZE: usize = 40;
pub const UDP_HDR_SIZE: usize = 8;

/// The UDP port of NDN.
pub const NDN_PORT: u16 = 6363;

/// An Ethernet header.
#[derive(Debug, Clone, Copy)]
pub struct EtherHeader {
    /// The destination MAC address.
    pub dst_addr: [u8; 6],
    /// The source MAC address.
    pub src_addr: [u8; 6],
    /// The EtherType.
    pub eth_type: u16,
}

/// An IPv6 header.
#[derive(Debug, Clone, Copy)]
pub struct Ipv6Header {
    /// Version, traffic class and flow label.
    pub ver_tc_flow: u32,
    /// The length of the payload.
    pub payload_len: u16,
    /// The type of the next header.
    pub next_hdr: u8,
    /// The hop limit.
    pub hop_limit: u8,
    /// The source address.
    pub src_addr: [u8; 16],
    /// The destination address.
    pub dst_addr: [u8; 16],
}

/// A UDP header.
#[derive(Debug, Clone, Copy, PartialEq, Eq, Structural)]
pub struct UdpHeader {
    /// The source port.
    pub src_port: u16,
    /// The destination port.
    pub dst_port: u16,
    /// The length of header and data together.
    pub length: u16,
    /// The checksum.
    pub checksum: u16,
}

/// Where the headers and the payload of a classified frame stand.
#[derive(Debug, Clone, Copy, PartialEq, Eq, Structural)]
pub struct Packet {
    pub eth_offset: usize,
    pub ipv6_offset: usize,
    pub udp_offset: usize,
    pub data_offset: usize,
    pub data_len: usize,
}

/// Where the payload of a frame stands, as offset and length: the frame is
/// Ethernet with EtherType IPv6, the next header is UDP, the destination
/// port is the NDN port, and the UDP length covers its header and fits the
/// frame. `None` for any other frame.
pub open spec fn frame_payload(frame: Seq<u8>) -> Option<(int, int)> {
    if frame.len() < 14 || be_u16_at(frame, 12) != ETH_P_IPV6 {
        None
    } else if frame.len() < 54 || frame[20] != IPPROTO_UDP {
        None
    } else if frame.len() < 62 || be_u16_at(frame, 56) != NDN_PORT {
        None
    } else if be_u16_at(frame, 58) < 8 || 62 + (be_u16_at(frame, 58) - 8) > frame.len() {
        None
    } else {
        Some((62int, be_u16_at(frame, 58) - 8))
    }
}

impl Packet {
    /// Finds the headers and the payload of a frame.
    pub fn parse(frame: &[u8]) -> (r: Result<Self, Error>)
        ensures
            match r {
                Ok(p) => frame_payload(frame@) == Some((p.data_offset as int, p.data_len as int))
                    && p.eth_offset == 0 && p.ipv6_offset == 14 && p.udp_offset == 54,
                Err(e) => frame_payload(frame@) is None && e == Error::MalformedPacket,
            },
    {
        match extract_be_u16(frame, 12) {
            Some(t) => {
                if t != ETH_P_IPV6 {
                    return Err(Error::MalformedPacket);
                }
            },
            None => {
                return Err(Error::MalformedPacket);
            },
        }
        if frame.len() < 54 || frame[20] != IPPROTO_UDP {
            return Err(Error::MalformedPacket);
        }
        if frame.len() < 62 {
            return Err(Error::MalformedPacket);
        }
        match extract_be_u16(frame, 56) {
            Some(port) => {
                if port != NDN_PORT {
                    return Err(Error::MalformedPacket);
                }
            },
            None => {
                return Err(Error::MalformedPacket);
            },
        }
        let length = match extract_be_u16(frame, 58) {
            Some(l) => l as usize,
            None => {
                return Err(Error::MalformedPacket);
            },
        };
        if length < UDP_HDR_SIZE || length - UDP_HDR_SIZE > frame.len() - 62 {
            return Err(Error::MalformedPacket);
        }
        Ok(
            Packet {
                eth_offset: 0,
                ipv6_offset: ETH_HDR_SIZE,
                udp_offset: ETH_HDR_SIZE + IPV6_HDR_SIZE,
                data_offset: ETH_HDR_SIZE + IPV6_HDR_SIZE + UDP_HDR_SIZE,
                data_len: length - UDP_HDR_SIZE,
            },
        )
    }

    /// The Ethernet header of the frame that this packet was found in.
    pub fn eth_header(&self, frame: &[u8]) -> (r: Result<EtherHeader, Error>)
        ensures
            match r {
                Ok(h) => self.eth_offset + 14 <= frame@.len() && h.dst_addr@ == frame@.subrange(
                    self.eth_offset as int,
                    self.eth_offset + 6,
                ) && h.src_addr@ == frame@.subrange(self.eth_offset + 6, self.eth_offset + 12)
                    && h.eth_type == be_u16_at(frame@, self.eth_offset + 12),
                Err(e) => self.eth_offset + 14 > frame@.len() && e == Error::MalformedPacket,
            },
    {
        if frame.len() < 14 || self.eth_offset > frame.len() - 14 {
            return Err(Error::MalformedPacket);
        }
        let o = self.eth_offset;
        let dst_addr: [u8; 6] = [
            frame[o],
            frame[o + 1],
            frame[o + 2],
            frame[o + 3],
            frame[o + 4],
            frame[o + 5],
        ];
        let src_addr: [u8; 6] = [
            frame[o + 6],
            frame[o + 7],
            frame[o + 8],
            frame[o + 9],
            frame[o + 10],
            frame[o + 11],
        ];
        let eth_type = (frame[o + 12] as u16) * 256 + frame[o + 13] as u16;
        assert(dst_addr@ =~= frame@.subrange(o as int, o + 6));
        assert(src_addr@ =~= frame@.subrange(o + 6, o + 12));
        Ok(EtherHeader { dst_addr, src_addr, eth_type })
    }

    /// The IPv6 header of the frame that this packet was found in.
    pub fn ipv6_header(&self, frame: &[u8]) -> (r: Result<Ipv6Header, Error>)
        ensures
            match r {
                Ok(h) => {
                    let o = self.ipv6_offset as int;
                    &&& o + 40 <= frame@.len()
                    &&& h.ver_tc_flow == be_u32_at(frame@, o)
                    &&& h.payload_len == be_u16_at(frame@, o + 4)
                    &&& h.next_hdr == frame@[o + 6]
                    &&& h.hop_limit == frame@[o + 7]
                    &&& h.src_addr@ == frame@.subrange(o + 8, o + 24)
                    &&& h.dst_addr@ == frame@.subrange(o + 24, o + 40)
                },
                Err(e) => self.ipv6_offset + 40 > frame@.len() && e == Error::MalformedPacket,
            },
    {
        if frame.len() < 40 || self.ipv6_offset > frame.len() - 40 {
            return Err(Error::MalformedPacket);
        }
        let o = self.ipv6_offset;
        let ver_tc_flow = match extract_be_u32(frame, o) {
            Some(v) => v,
            None => {
                return Err(Error::MalformedPacket);
            },
        };
        let payload_len = match extract_be_u16(frame, o + 4) {
            Some(v) => v,
            None => {
                return Err(Error::MalformedPacket);
            },
        };
        let s = o + 8;
        let src_addr: [u8; 16] = [
            frame[s],
            frame[s + 1],
            frame[s + 2],
            frame[s + 3],
            frame[s + 4],
            frame[s + 5],
            frame[s + 6],
            frame[s + 7],
            frame[s + 8],
            frame[s + 9],
            frame[s + 10],
            frame[s + 11],
            frame[s + 12],
            frame[s + 13],
            frame[s + 14],
            frame[s + 15],
        ];
        let d = o + 24;
        let dst_addr: [u8; 16] = [
            frame[d],
            frame[d + 1],
            frame[d + 2],
            frame[d + 3],
            frame[d + 4],
            frame[d + 5],
            frame[d + 6],
            frame[d + 7],
            frame[d + 8],
            frame[d + 9],
            frame[d + 10],
            frame[d + 11],
            frame[d + 12],
            frame[d + 13],
            frame[d + 14],
            frame[d + 15],
        ];
        assert(src_addr@ =~= frame@.subrange(o + 8, o + 24));
        assert(dst_addr@ =~= frame@.subrange(o + 24, o + 40));
        Ok(
            Ipv6Header {
                ver_tc_flow,
                payload_len,
                next_hdr: frame[o + 6],
                hop_limit: frame[o + 7],
                src_addr,
                dst_addr,
            },
        )
    }

    /// The UDP header of the frame that this packet was found in.
    pub fn udp_header(&self, frame: &[u8]) -> (r: Result<UdpHeader, Error>)
        ensures
            match r {
                Ok(h) => self.udp_offset + 8 <= frame@.len() && h == (UdpHeader {
                    src_port: be_u16_at(frame@, self.udp_offset as int),
                    dst_port: be_u16_at(frame@, self.udp_offset + 2),
                    length: be_u16_at(frame@, self.udp_offset + 4),
                    checksum: be_u16_at(frame@, self.udp_offset + 6),
                }),
                Err(e) => self.udp_offset + 8 > frame@.len() && e == Error::MalformedPacket,
            },
    {
        if frame.len() < 8 || self.udp_offset > frame.len() - 8 {
            return Err(Error::MalformedPacket);
        }
        let o = self.udp_offset;
        match (
            extract_be_u16(frame, o),
            extract_be_u16(frame, o + 2),
            extract_be_u16(frame, o + 4),
            extract_be_u16(frame, o + 6),
        ) {
            (Some(src_port), Some(dst_port), Some(length), Some(checksum)) => Ok(
                UdpHeader { src_port, dst_port, length, checksum },
            ),
            _ => Err(Error::MalformedPacket),
        }
    }

    /// The payload of the frame that this packet was found in.
    pub fn payload<'a>(&self, frame: &'a [u8]) -> (r: Result<&'a [u8], Error>)
        ensures
            match r {
                Ok(p) => self.data_offset + self.data_len <= frame@.len() && p@ == frame@.subrange(
                    self.data_offset as int,
                    self.data_offset + self.data_len,
                ),
                Err(e) => self.data_offset + self.data_len > frame@.len() && e
                    == Error::MalformedPacket,
            },
    {
        match check_bounds(frame.len(), self.data_offset, self.data_len) {
            Ok(_) => Ok(
                slice_subrange(frame, self.data_offset, self.data_offset + self.data_len),
            ),
            Err(_) => Err(Error::MalformedPacket),
        }
    }

    /// The length of the payload.
    pub fn data_len(&self) -> (n: usize)
        ensures
            n == self.data_len,
    {
        self.data_len
    }
}

/// The kind of packet that a payload starts as.
pub fn parse_ndn_packet(payload: &[u8]) -> (r: Result<PacketType, Error>)
    ensures
        match r {
            Ok(t) => payload@.len() >= 1 && (t == PacketType::Interest ==> payload@[0]
                == TLV_INTEREST) && (t == PacketType::Data ==> payload@[0] == TLV_DATA) && t
                != PacketType::Nack,
            Err(e) => (payload@.len() == 0 || (payload@[0] != TLV_INTEREST && payload@[0]
                != TLV_DATA)) && e == Error::MalformedPacket,
        },
{
    if payload.len() < 1 {
        return Err(Error::MalformedPacket);
    }
    let t = payload[0];
    if t == TLV_INTEREST {
        Ok(PacketType::Interest)
    } else if t == TLV_DATA {
        Ok(PacketType::Data)
    } else {
        Err(Error::MalformedPacket)
    }
}

/// The face that stands for a network interface: the low 16 bits of its index.
pub fn extract_face_id(ingress_ifindex: u32) -> (f: FaceId)
    ensures
        f.0 == ingress_ifindex % 65536,
{
    FaceId((ingress_ifindex % 65536) as u16)
}

/// The value of the first TLV of type `t` among the TLVs in `s`, or `None`
/// where there is none or a malformed TLV stands before it.
pub open spec fn find_field(s: Seq<u8>, t: u8) -> Option<Seq<u8>>
    decreases s.len(),
{
    if s.len() == 0 {
        None
    } else {
        match parse_tlv_seq(s) {
            None => None,
            Some((ty, v, rest)) => if ty == t {
                Some(v)
            } else {
                find_field(rest, t)
            },
        }
    }
}

/// The TLVs inside the Interest or Data that a payload starts with.
pub open spec fn wire_fields(payload: Seq<u8>) -> Option<Seq<u8>> {
    match parse_tlv_seq(payload) {
        None => None,
        Some((t, v, _)) => if t == TLV_INTEREST || t == TLV_DATA {
            Some(v)
        } else {
            None
        },
    }
}

/// The name of the Interest or Data that a payload starts with, where it has
/// at most 16 components.
pub open spec fn wire_name(payload: Seq<u8>) -> Option<Seq<Seq<u8>>> {
    match wire_fields(payload) {
        None => None,
        Some(fields) => match find_field(fields, TLV_NAME) {
            None => None,
            Some(nv) => match parse_components(nv) {
                None => None,
                Some(cs) => if cs.len() <= MAX_NAME_COMPONENTS {
                    Some(cs)
                } else {
                    None
                },
            },
        },
    }
}

/// The nonce of the Interest that a payload starts with: the four bytes of
/// its first Nonce TLV.
pub open spec fn wire_nonce(payload: Seq<u8>) -> Option<u32> {
    match parse_tlv_seq(payload) {
        None => None,
        Some((t, v, _)) => if t != TLV_INTEREST {
            None
        } else {
            match find_field(v, TLV_NONCE) {
                None => None,
                Some(nv) => if nv.len() == 4 {
                    Some(be32_value(nv) as u32)
                } else {
                    None
                },
            }
        },
    }
}

/// Finds the first TLV of type `t` among the TLVs in `fields`.
fn find_field_in<'a>(fields: &'a [u8], t: u8) -> (r: Option<&'a [u8]>)
    ensures
        match r {
            Some(v) => find_field(fields@, t) == Some(v@),
            None => find_field(fields@, t) is None,
        },
{
    let mut offset: usize = 0;
    assert(fields@.skip(0) =~= fields@);
    while offset < fields.len()
        invariant
            offset <= fields@.len(),
            find_field(fields@, t) == find_field(fields@.skip(offset as int), t),
        decreases fields.len() - offset,
    {
        let ghost s = fields@.skip(offset as int);
        match parse_tlv(fields, offset) {
            None => {
                assert(find_field(s, t) is None);
                return None;
            },
            Some((ty, value_offset, length)) => {
                proof {
                    let h = value_offset - offset;
                    assert(s.subrange(h, h + length) =~= fields@.subrange(
                        value_offset as int,
                        value_offset + length,
                    ));
                    assert(s.skip(h + length) =~= fields@.skip(value_offset + length));
                }
                if ty == t {
                    return Some(slice_subrange(fields, value_offset, value_offset + length));
                }
                offset = value_offset + length;
            },
        }
    }
    None
}

/// Hashes the components in the value of a Name TLV and counts them; gives
/// up after 16.
fn hash_components(value: &[u8]) -> (r: Option<(u32, usize)>)
    ensures
        match r {
            Some((h, n)) => parse_components(value@) is Some && parse_components(value@)->0.len()
                == n && n <= MAX_NAME_COMPONENTS && h == name_hash(parse_components(value@)->0),
            None => parse_components(value@) is None || parse_components(value@)->0.len()
                > MAX_NAME_COMPONENTS,
        },
{
    let mut offset: usize = 0;
    let mut hash: u32 = FNV_OFFSET_BASIS;
    let mut count: usize = 0;
    let ghost mut acc = Seq::<Seq<u8>>::empty();
    assert(value@.skip(0) =~= value@);
    while offset < value.len()
        invariant
            offset <= value@.len(),
            count == acc.len(),
            count <= MAX_NAME_COMPONENTS,
            hash == name_hash(acc),
            parse_components(value@) == match parse_components(value@.skip(offset as int)) {
                None => None::<Seq<Seq<u8>>>,
                Some(cs) => Some(acc + cs),
            },
        decreases value.len() - offset,
    {
        let ghost s = value@.skip(offset as int);
        match parse_tlv(value, offset) {
            None => {
                assert(parse_components(s) is None);
                return None;
            },
            Some((ty, value_offset, length)) => {
                if ty != TLV_COMPONENT {
                    assert(parse_components(s) is None);
                    return None;
                }
                let component = slice_subrange(value, value_offset, value_offset + length);
                proof {
                    let h = value_offset - offset;
                    assert(s.subrange(h, h + length) =~= component@);
                    assert(s.skip(h + length) =~= value@.skip(value_offset + length));
                    match parse_components(value@.skip(value_offset + length)) {
                        None => {},
                        Some(cs) => {
                            assert(acc + (seq![component@] + cs) =~= acc.push(component@) + cs);
                        },
                    }
                }
                if count == MAX_NAME_COMPONENTS {
                    return None;
                }
                proof {
                    lemma_name_flat_push(acc, component@);
                    lemma_fnv1a_concat(FNV_OFFSET_BASIS, name_flat(acc), component@);
                    acc = acc.push(component@);
                }
                hash = fnv1a_update(hash, component);
                count += 1;
                offset = value_offset + length;
            },
        }
    }
    proof {
        assert(acc + Seq::<Seq<u8>>::empty() =~= acc);
    }
    Some((hash, count))
}

/// The TLVs inside the Interest or Data that a payload starts with.
fn fields_of<'a>(payload: &'a [u8]) -> (r: Option<(u8, &'a [u8])>)
    ensures
        match r {
            Some((t, v)) => match parse_tlv_seq(payload@) {
                Some((ty, value, _)) => ty == t && value == v@,
                None => false,
            },
            None => parse_tlv_seq(payload@) is None,
        },
{
    assert(payload@.skip(0) =~= payload@);
    match parse_tlv(payload, 0) {
        None => None,
        Some((t, value_offset, length)) => {
            let total = payload.len();
            assert(value_offset + length <= total);
            Some((t, slice_subrange(payload, value_offset, value_offset + length)))
        },
    }
}

/// The hash and the number of components of the name of the Interest or
/// Data that a payload starts with.
pub fn extract_name_key(payload: &[u8]) -> (r: Option<(u32, u8)>)
    ensures
        r == match wire_name(payload@) {
            Some(n) => Some((name_hash(n), n.len() as u8)),
            None => None,
        },
{
    let (t, fields) = match fields_of(payload) {
        Some(x) => x,
        None => {
            return None;
        },
    };
    if t != TLV_INTEREST && t != TLV_DATA {
        return None;
    }
    let value = match find_field_in(fields, TLV_NAME) {
        Some(v) => v,
        None => {
            return None;
        },
    };
    match hash_components(value) {
        Some((h, n)) => Some((h, n as u8)),
        None => None,
    }
}

/// The hash of the name of the Interest or Data that a payload starts with:
/// FNV-1a over all the bytes of its components.
pub fn extract_name_hash(payload: &[u8]) -> (r: Option<u32>)
    ensures
        r == match wire_name(payload@) {
            Some(n) => Some(name_hash(n)),
            None => None,
        },
{
    match extract_name_key(payload) {
        Some((h, _)) => Some(h),
        None => None,
    }
}

/// The nonce of the Interest that a payload starts with.
pub fn extract_nonce(payload: &[u8]) -> (r: Option<u32>)
    ensures
        r == wire_nonce(payload@),
{
    let (t, fields) = match fields_of(payload) {
        Some(x) => x,
        None => {
            return None;
        },
    };
    if t != TLV_INTEREST {
        return None;
    }
    let value = match find_field_in(fields, TLV_NONCE) {
        Some(v) => v,
        None => {
            return None;
        },
    };
    if value.len() != 4 {
        return None;
    }
    extract_be_u32(value, 0)
}

/// What the fast path takes from a payload.
#[derive(Debug, Clone, Copy, PartialEq, Eq, Structural)]
pub struct Classified {
    /// The kind of packet.
    pub packet_type: PacketType,
    /// The hash of the name.
    pub name_hash: u32,
    /// The number of components of the name.
    pub name_len: u8,
    /// The nonce of an Interest; zero for a Data, or where none is stated.
    pub nonce: u32,
}

/// What the fast path takes from a payload; `None` where the payload is no
/// Interest or Data or its name cannot be read.
pub open spec fn classified(payload: Seq<u8>) -> Option<Classified> {
    if payload.len() == 0 || (payload[0] != TLV_INTEREST && payload[0] != TLV_DATA) {
        None
    } else {
        match wire_name(payload) {
            None => None,
            Some(n) => Some(
                Classified {
                    packet_type: if payload[0] == TLV_INTEREST {
                        PacketType::Interest
                    } else {
                        PacketType::Data
                    },
                    name_hash: name_hash(n),
                    name_len: n.len() as u8,
                    nonce: match wire_nonce(payload) {
                        Some(x) => x,
                        None => 0,
                    },
                },
            ),
        }
    }
}

/// Takes the kind of packet, the key of the name and the nonce from a payload.
pub fn classify(payload: &[u8]) -> (r: Option<Classified>)
    ensures
        r == classified(payload@),
{
    let packet_type = match parse_ndn_packet(payload) {
        Ok(t) => t,
        Err(_) => {
            return None;
        },
    };
    let (name_hash, name_len) = match extract_name_key(payload) {
        Some(k) => k,
        None => {
            return None;
        },
    };
    let nonce = match extract_nonce(payload) {
        Some(x) => x,
        None => 0,
    };
    Some(Classified { packet_type, name_hash, name_len, nonce })
}

/// Skipping one well-formed TLV of another type while looking for a field.
proof fn lemma_find_field_skip(ty: u8, val: Seq<u8>, rest: Seq<u8>, t: u8)
    requires
        val.len() <= MAX_TLV_LENGTH,
        ty != t,
    ensures
        find_field(tlv_bytes(ty, val) + rest, t) == find_field(rest, t),
{
    lemma_parse_tlv_bytes(ty, val, rest);
    assert((tlv_bytes(ty, val) + rest).len() > 0);
}

/// Finding the field that stands first.
proof fn lemma_find_field_first(val: Seq<u8>, rest: Seq<u8>, t: u8)
    requires
        val.len() <= MAX_TLV_LENGTH,
    ensures
        find_field(tlv_bytes(t, val) + rest, t) == Some(val),
{
    lemma_parse_tlv_bytes(t, val, rest);
    assert((tlv_bytes(t, val) + rest).len() > 0);
}

/// The classifier and the codec agree on Interests: from the wire form of an
/// Interest whose name has at most 16 components the classifier takes the
/// hash and length of that name and its nonce, the keys under which the
/// tables hold the Interest.
pub proof fn lemma_classifier_reads_interest(v: InterestView)
    requires
        interest_encodable(v),
        v.name.len() <= MAX_NAME_COMPONENTS,
    ensures
        classified(interest_wire(v)) == Some(
            Classified {
                packet_type: PacketType::Interest,
                name_hash: name_hash(v.name),
                name_len: v.name.len() as u8,
                nonce: v.nonce,
            },
        ),
{
    let inner = interest_inner(v);
    let wire = interest_wire(v);
    let empty = Seq::<u8>::empty();
    let nv = name_value(v.name);
    let sel = seq![flag_byte(v.can_be_prefix), flag_byte(v.must_be_fresh)];
    let r3 = tlv_bytes(TLV_INTEREST_LIFETIME, be32(v.lifetime_ms)) + hop_limit_bytes(v.hop_limit);
    let r2 = tlv_bytes(TLV_NONCE, be32(v.nonce)) + r3;
    let r1 = tlv_bytes(TLV_SELECTORS, sel) + r2;
    lemma_parse_tlv_bytes(TLV_INTEREST, inner, empty);
    assert(wire + empty =~= wire);
    assert(wire[0] == TLV_INTEREST);
    lemma_parse_name_value(v.name);
    lemma_be32_value(v.nonce);
    lemma_find_field_first(nv, r1, TLV_NAME);
    lemma_find_field_skip(TLV_NAME, nv, r1, TLV_NONCE);
    lemma_find_field_skip(TLV_SELECTORS, sel, r2, TLV_NONCE);
    lemma_find_field_first(be32(v.nonce), r3, TLV_NONCE);
    assert(wire_name(wire) == Some(v.name));
    assert(wire_nonce(wire) == Some(v.nonce));
}

/// The classifier and the codec agree on Data: from the wire form of a Data
/// whose name has at most 16 components the classifier takes the hash and
/// length of that name.
pub proof fn lemma_classifier_reads_data(v: DataView)
    requires
        data_encodable(v),
        v.name.len() <= MAX_NAME_COMPONENTS,
    ensures
        classified(data_wire(v)) == Some(
            Classified {
                packet_type: PacketType::Data,
                name_hash: name_hash(v.name),
                name_len: v.name.len() as u8,
                nonce: 0,
            },
        ),
{
    let inner = data_inner(v);
    let wire = data_wire(v);
    let empty = Seq::<u8>::empty();
    let nv = name_value(v.name);
    lemma_parse_tlv_bytes(TLV_DATA, inner, empty);
    assert(wire + empty =~= wire);
    assert(wire[0] == TLV_DATA);
    lemma_parse_name_value(v.name);
    lemma_find_field_first(nv, tlv_bytes(TLV_CONTENT, v.content), TLV_NAME);
    assert(wire_name(wire) == Some(v.name));
    assert(wire_nonce(wire) is None);
}

} // verus!

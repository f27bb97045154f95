//! A packet as a session carries it: an Interest or a Data, told apart by
//! the first byte of its wire form.

use crate::buf::{bytes_mut_new, bytes_seq, freeze, remaining};
use crate::error::Error;
use crate::name::name_string;
use crate::ndn::{
    data_encodable, data_wire, interest_encodable, interest_wire, parse_data, parse_interest,
    Data, DataView, Interest, InterestView,
};
use crate::tlv::{TLV_DATA, TLV_INTEREST};
use bytes::Bytes;
use vstd::prelude::*;

verus! {

/// The kinds of packet that the fast path tells apart.
#[derive(Debug, Clone, Copy, PartialEq, Eq, Structural)]
pub enum PacketType {
    /// An Interest.
    Interest,
    /// A Data.
    Data,
    /// A negative acknowledgement.
    Nack,
}

/// A packet that a session carries.
#[derive(Debug, Clone)]
pub enum NdnPacket {
    /// An Interest.
    Interest(Interest),
    /// A Data.
    Data(Data),
}

/// What a packet says.
pub ghost enum NdnPacketView {
    Interest(InterestView),
    Data(DataView),
}

impl View for NdnPacket {
    type V = NdnPacketView;

    open spec fn view(&self) -> NdnPacketView {
        match *self {
            NdnPacket::Interest(i) => NdnPacketView::Interest(i@),
            NdnPacket::Data(d) => NdnPacketView::Data(d@),
        }
    }
}

/// The packet that `s` spells: by its first byte an Interest or a Data, read
/// as such. `None` where `s` is empty, starts otherwise, or does not parse.
pub open spec fn parse_packet(s: Seq<u8>) -> Option<NdnPacketView> {
    if s.len() == 0 {
        None
    } else if s[0] == TLV_INTEREST {
        match parse_interest(s) {
            Some(i) => Some(NdnPacketView::Interest(i)),
            None => None,
        }
    } else if s[0] == TLV_DATA {
        match parse_data(s) {
            Some(d) => Some(NdnPacketView::Data(d)),
            None => None,
        }
    } else {
        None
    }
}

/// The wire form of a packet.
pub open spec fn packet_wire(p: NdnPacketView) -> Seq<u8> {
    match p {
        NdnPacketView::Interest(i) => interest_wire(i),
        NdnPacketView::Data(d) => data_wire(d),
    }
}

/// The packet can be written.
pub open spec fn packet_encodable(p: NdnPacketView) -> bool {
    match p {
        NdnPacketView::Interest(i) => interest_encodable(i),
        NdnPacketView::Data(d) => data_encodable(d),
    }
}

/// The name of a packet.
pub open spec fn packet_name(p: NdnPacketView) -> Seq<Seq<u8>> {
    match p {
        NdnPacketView::Interest(i) => i.name,
        NdnPacketView::Data(d) => d.name,
    }
}

impl NdnPacket {
    /// Reads a packet from the bytes of one frame.
    pub fn from_bytes(bytes: &[u8]) -> (r: Result<Self, Error>)
        ensures
            match r {
                Ok(p) => parse_packet(bytes@) == Some(p@),
                Err(e) => parse_packet(bytes@) is None && e == Error::MalformedPacket,
            },
    {
        if bytes.len() == 0 {
            return Err(Error::MalformedPacket);
        }
        let first = bytes[0];
        if first == TLV_INTEREST {
            match Interest::decode(bytes) {
                Ok(i) => Ok(NdnPacket::Interest(i)),
                Err(_) => Err(Error::MalformedPacket),
            }
        } else if first == TLV_DATA {
            match Data::decode(bytes) {
                Ok(d) => Ok(NdnPacket::Data(d)),
                Err(_) => Err(Error::MalformedPacket),
            }
        } else {
            Err(Error::MalformedPacket)
        }
    }

    /// The wire form of the packet.
    pub fn to_bytes(&self) -> (r: Result<Bytes, Error>)
        ensures
            match r {
                Ok(b) => packet_encodable(self@) && bytes_seq(b) == packet_wire(self@),
                Err(e) => !packet_encodable(self@) && e == Error::MalformedPacket,
            },
    {
        let mut buffer = bytes_mut_new();
        let written = match self {
            NdnPacket::Interest(interest) => interest.encode(&mut buffer),
            NdnPacket::Data(data) => data.encode(&mut buffer),
        };
        match written {
            Ok(_) => {
                let b = freeze(buffer);
                assert(bytes_seq(b) =~= packet_wire(self@));
                Ok(b)
            },
            Err(_) => Err(Error::MalformedPacket),
        }
    }

    /// The canonical text of the name of the packet.
    pub fn name(&self) -> (s: String)
        ensures
            s@ == name_string(packet_name(self@)),
    {
        match self {
            NdnPacket::Interest(interest) => interest.name().to_string(),
            NdnPacket::Data(data) => data.name().to_string(),
        }
    }

    /// The kind of the packet, as a word.
    pub fn packet_type(&self) -> (s: &'static str)
        ensures
            s@ == match *self {
                NdnPacket::Interest(_) => "Interest"@,
                NdnPacket::Data(_) => "Data"@,
            },
    {
        match self {
            NdnPacket::Interest(_) => "Interest",
            NdnPacket::Data(_) => "Data",
        }
    }

    /// The number of bytes in the wire form of the packet.
    pub fn size(&self) -> (r: Result<usize, Error>)
        ensures
            match r {
                Ok(n) => packet_encodable(self@) && n == packet_wire(self@).len(),
                Err(e) => !packet_encodable(self@) && e == Error::MalformedPacket,
            },
    {
        match self.to_bytes() {
            Ok(b) => Ok(remaining(&b)),
            Err(_) => Err(Error::MalformedPacket),
        }
    }
}

} // verus!

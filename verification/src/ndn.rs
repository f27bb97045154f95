//! Interest and Data packets and their wire form.
//!
//! An Interest is written as its Name, Selectors (two bytes, 0 or 1 each, for
//! `can_be_prefix` and `must_be_fresh`), Nonce and Lifetime (four big-endian
//! bytes each) and, where present, HopLimit (one byte), inside an Interest
//! TLV. A Data is written as its Name and Content inside a Data TLV. On
//! reading, a TLV of an unknown type is skipped.

use crate::buf::{
    as_slice, be32, be32_value, bytes_from_slice, bytes_mut_new, bytes_mut_seq, bytes_seq, freeze,
    get_u32, pow256, put_u32, put_u8, remaining,
};
use crate::clock::{elapsed_nanos, expired_after, instant_now, nonce_from_millis, unix_millis};
use crate::error::Error;
use crate::name::{
    components_encodable, lemma_parse_name_value, name_value, parse_components, Name,
};
use crate::tlv::{
    lemma_parse_tlv_bytes, parse_tlv_seq, tlv_bytes, TlvElement, MAX_TLV_LENGTH, TLV_CONTENT,
    TLV_DATA, TLV_HOP_LIMIT, TLV_INTEREST, TLV_INTEREST_LIFETIME, TLV_NAME, TLV_NONCE,
    TLV_SELECTORS,
};
use bytes::{Bytes, BytesMut};
use std::time::Instant;
use vstd::prelude::*;

verus! {

/// The lifetime of an Interest that states none, in milliseconds.
pub const DEFAULT_INTEREST_LIFETIME_MS: u32 = 4000;

/// The hop limit of a new Interest.
pub const DEFAULT_HOP_LIMIT: u8 = 32;

/// The time-to-live of a Data that states none, in milliseconds.
pub const DEFAULT_DATA_TTL_MS: u32 = 10_000;

/// What an Interest says.
pub ghost struct InterestView {
    pub name: Seq<Seq<u8>>,
    pub nonce: u32,
    pub lifetime_ms: u32,
    pub hop_limit: Option<u8>,
    pub can_be_prefix: bool,
    pub must_be_fresh: bool,
}

/// The number that a run of bytes spells, most significant byte first.
pub open spec fn be_value(s: Seq<u8>) -> nat
    decreases s.len(),
{
    if s.len() == 0 {
        0
    } else {
        be_value(s.drop_last()) * 256 + s.last() as nat
    }
}

/// The byte that stands for a flag.
pub open spec fn flag_byte(b: bool) -> u8 {
    if b {
        1
    } else {
        0
    }
}

/// The HopLimit TLV of an Interest, where it states one.
pub open spec fn hop_limit_bytes(h: Option<u8>) -> Seq<u8> {
    match h {
        Some(h) => tlv_bytes(TLV_HOP_LIMIT, seq![h]),
        None => Seq::<u8>::empty(),
    }
}

/// The TLVs inside an Interest TLV, in the order in which they are written.
pub open spec fn interest_inner(v: InterestView) -> Seq<u8> {
    tlv_bytes(TLV_NAME, name_value(v.name)) + (tlv_bytes(
        TLV_SELECTORS,
        seq![flag_byte(v.can_be_prefix), flag_byte(v.must_be_fresh)],
    ) + (tlv_bytes(TLV_NONCE, be32(v.nonce)) + (tlv_bytes(
        TLV_INTEREST_LIFETIME,
        be32(v.lifetime_ms),
    ) + hop_limit_bytes(v.hop_limit))))
}

/// The wire form of an Interest.
pub open spec fn interest_wire(v: InterestView) -> Seq<u8> {
    tlv_bytes(TLV_INTEREST, interest_inner(v))
}

/// The Interest can be written: each length fits the length field.
pub open spec fn interest_encodable(v: InterestView) -> bool {
    &&& components_encodable(v.name)
    &&& name_value(v.name).len() <= MAX_TLV_LENGTH
    &&& interest_inner(v).len() <= MAX_TLV_LENGTH
}

/// What has been read of an Interest so far.
pub ghost struct InterestFields {
    pub name: Option<Seq<Seq<u8>>>,
    pub nonce: Option<u32>,
    pub lifetime_ms: Option<u32>,
    pub hop_limit: Option<u8>,
    pub can_be_prefix: bool,
    pub must_be_fresh: bool,
}

/// Nothing read yet.
pub open spec fn no_interest_fields() -> InterestFields {
    InterestFields {
        name: None,
        nonce: None,
        lifetime_ms: None,
        hop_limit: None,
        can_be_prefix: false,
        must_be_fresh: false,
    }
}

/// The fields after one more TLV of type `t` and value `v` has been read, or
/// `None` where it is a Name that does not parse. A Nonce counts only with
/// four bytes, a Lifetime with one to four, Selectors with two or more, a
/// HopLimit with one or more; any other TLV changes nothing.
pub open spec fn interest_field(acc: InterestFields, t: u8, v: Seq<u8>) -> Option<InterestFields> {
    if t == TLV_NAME {
        match parse_components(v) {
            None => None,
            Some(n) => Some(InterestFields { name: Some(n), ..acc }),
        }
    } else if t == TLV_NONCE {
        if v.len() == 4 {
            Some(InterestFields { nonce: Some(be32_value(v) as u32), ..acc })
        } else {
            Some(acc)
        }
    } else if t == TLV_INTEREST_LIFETIME {
        if 1 <= v.len() <= 4 {
            Some(InterestFields { lifetime_ms: Some(be_value(v) as u32), ..acc })
        } else {
            Some(acc)
        }
    } else if t == TLV_SELECTORS {
        if v.len() >= 2 {
            Some(InterestFields { can_be_prefix: v[0] != 0, must_be_fresh: v[1] != 0, ..acc })
        } else {
            Some(acc)
        }
    } else if t == TLV_HOP_LIMIT {
        if v.len() >= 1 {
            Some(InterestFields { hop_limit: Some(v[0]), ..acc })
        } else {
            Some(acc)
        }
    } else {
        Some(acc)
    }
}

/// The fields after all the TLVs in `s` have been read in order, starting
/// from `acc`; `None` where one of them is malformed.
pub open spec fn parse_interest_fields(s: Seq<u8>, acc: InterestFields) -> Option<InterestFields>
    decreases s.len(),
{
    if s.len() == 0 {
        Some(acc)
    } else {
        match parse_tlv_seq(s) {
            None => None,
            Some((t, v, rest)) => match interest_field(acc, t, v) {
                None => None,
                Some(next) => parse_interest_fields(rest, next),
            },
        }
    }
}

/// The Interest that `s` spells: an Interest TLV at its head whose fields
/// parse and hold a Name. A missing Nonce reads as 0, a missing Lifetime as
/// the default. What follows the Interest TLV is ignored.
pub open spec fn parse_interest(s: Seq<u8>) -> Option<InterestView> {
    match parse_tlv_seq(s) {
        None => None,
        Some((t, v, _)) => if t != TLV_INTEREST {
            None
        } else {
            match parse_interest_fields(v, no_interest_fields()) {
                None => None,
                Some(f) => match f.name {
                    None => None,
                    Some(n) => Some(
                        InterestView {
                            name: n,
                            nonce: match f.nonce {
                                Some(x) => x,
                                None => 0,
                            },
                            lifetime_ms: match f.lifetime_ms {
                                Some(x) => x,
                                None => DEFAULT_INTEREST_LIFETIME_MS,
                            },
                            hop_limit: f.hop_limit,
                            can_be_prefix: f.can_be_prefix,
                            must_be_fresh: f.must_be_fresh,
                        },
                    ),
                },
            }
        },
    }
}

/// The size of the Name TLV of `name` and `extra` bytes more.
fn estimate_size(name: &Name, extra: usize) -> (r: Result<usize, Error>)
    ensures
        match r {
            Ok(n) => n == tlv_bytes(TLV_NAME, name_value(name@)).len() + extra,
            Err(e) => (!components_encodable(name@) || name_value(name@).len() > MAX_TLV_LENGTH
                || tlv_bytes(TLV_NAME, name_value(name@)).len() + extra > usize::MAX) && e
                == Error::MalformedPacket,
        },
{
    let element = match name.to_tlv() {
        Ok(e) => e,
        Err(_) => {
            return Err(Error::MalformedPacket);
        },
    };
    let value_len = remaining(&element.value);
    if value_len > MAX_TLV_LENGTH || value_len > usize::MAX - 6 {
        return Err(Error::MalformedPacket);
    }
    let name_len = element.len();
    if name_len > usize::MAX - extra {
        return Err(Error::MalformedPacket);
    }
    Ok(name_len + extra)
}

/// A request for the Data of a name.
#[derive(Debug, Clone)]
pub struct Interest {
    pub name: Name,
    pub nonce: u32,
    pub lifetime_ms: u32,
    pub hop_limit: Option<u8>,
    pub can_be_prefix: bool,
    pub must_be_fresh: bool,
}

impl View for Interest {
    type V = InterestView;

    open spec fn view(&self) -> InterestView {
        InterestView {
            name: self.name@,
            nonce: self.nonce,
            lifetime_ms: self.lifetime_ms,
            hop_limit: self.hop_limit,
            can_be_prefix: self.can_be_prefix,
            must_be_fresh: self.must_be_fresh,
        }
    }
}

fn read_be(v: &[u8]) -> (x: u32)
    requires
        v@.len() <= 4,
    ensures
        x == be_value(v@),
{
    let mut x: u32 = 0;
    let mut i: usize = 0;
    assert(v@.take(0) =~= Seq::<u8>::empty());
    while i < v.len()
        invariant
            i <= v.len(),
            v@.len() <= 4,
            x == be_value(v@.take(i as int)),
            x < pow256(i as nat),
        decreases v.len() - i,
    {
        proof {
            assert(v@.take(i + 1).drop_last() =~= v@.take(i as int));
            assert(v@.take(i + 1).last() == v@[i as int]);
            reveal_with_fuel(pow256, 5);
        }
        x = x * 256 + v[i] as u32;
        i += 1;
    }
    assert(v@.take(i as int) =~= v@);
    x
}

impl Interest {
    /// A new Interest for `name`, with the default lifetime and hop limit, a
    /// nonce seeded by the wall clock, no prefix match, and freshness required.
    pub fn new(name: Name) -> (i: Self)
        ensures
            i.name == name,
            i.lifetime_ms == DEFAULT_INTEREST_LIFETIME_MS,
            i.hop_limit == Some(DEFAULT_HOP_LIMIT),
            !i.can_be_prefix,
            i.must_be_fresh,
    {
        let nonce = nonce_from_millis(unix_millis());
        Interest {
            name,
            nonce,
            lifetime_ms: DEFAULT_INTEREST_LIFETIME_MS,
            hop_limit: Some(DEFAULT_HOP_LIMIT),
            can_be_prefix: false,
            must_be_fresh: true,
        }
    }

    /// A copy of the Interest.
    pub fn duplicate(&self) -> (i: Self)
        ensures
            i@ == self@,
    {
        Interest {
            name: self.name.duplicate(),
            nonce: self.nonce,
            lifetime_ms: self.lifetime_ms,
            hop_limit: self.hop_limit,
            can_be_prefix: self.can_be_prefix,
            must_be_fresh: self.must_be_fresh,
        }
    }

    /// The same Interest with another lifetime.
    pub fn with_lifetime(self, lifetime_ms: u32) -> (i: Self)
        ensures
            i == (Interest { lifetime_ms, ..self }),
    {
        let mut i = self;
        i.lifetime_ms = lifetime_ms;
        i
    }

    /// The same Interest with another nonce.
    pub fn with_nonce(self, nonce: u32) -> (i: Self)
        ensures
            i == (Interest { nonce, ..self }),
    {
        let mut i = self;
        i.nonce = nonce;
        i
    }

    /// The same Interest, matching longer names or not.
    pub fn with_can_be_prefix(self, can_be_prefix: bool) -> (i: Self)
        ensures
            i == (Interest { can_be_prefix, ..self }),
    {
        let mut i = self;
        i.can_be_prefix = can_be_prefix;
        i
    }

    /// The same Interest, requiring fresh Data or not.
    pub fn with_must_be_fresh(self, must_be_fresh: bool) -> (i: Self)
        ensures
            i == (Interest { must_be_fresh, ..self }),
    {
        let mut i = self;
        i.must_be_fresh = must_be_fresh;
        i
    }

    /// An estimate of the size of the wire form: the Name TLV and twenty
    /// bytes for the rest. A name that cannot be written has no size.
    pub fn wire_size(&self) -> (r: Result<usize, Error>)
        ensures
            match r {
                Ok(n) => n == tlv_bytes(TLV_NAME, name_value(self@.name)).len() + 20,
                Err(e) => (!components_encodable(self@.name) || name_value(self@.name).len()
                    > MAX_TLV_LENGTH || tlv_bytes(TLV_NAME, name_value(self@.name)).len() + 20
                    > usize::MAX) && e == Error::MalformedPacket,
            },
    {
        estimate_size(&self.name, 20)
    }

    /// The name that is asked for.
    pub fn name(&self) -> (n: &Name)
        ensures
            *n == self.name,
    {
        &self.name
    }

    /// Appends the wire form of the Interest to `buf`. Where a length does
    /// not fit its field nothing is written.
    pub fn encode(&self, buf: &mut BytesMut) -> (r: Result<(), Error>)
        ensures
            match r {
                Ok(_) => interest_encodable(self@) && bytes_mut_seq(*final(buf)) == bytes_mut_seq(
                    *old(buf),
                ) + interest_wire(self@),
                Err(e) => !interest_encodable(self@) && e == Error::MalformedPacket
                    && bytes_mut_seq(*final(buf)) == bytes_mut_seq(*old(buf)),
            },
    {
        let name_element = match self.name.to_tlv() {
            Ok(e) => e,
            Err(_) => {
                return Err(Error::MalformedPacket);
            },
        };
        if remaining(&name_element.value) > MAX_TLV_LENGTH {
            return Err(Error::MalformedPacket);
        }
        let mut inner = bytes_mut_new();
        name_element.encode(&mut inner);

        let mut selectors = bytes_mut_new();
        put_u8(&mut selectors, if self.can_be_prefix { 1 } else { 0 });
        put_u8(&mut selectors, if self.must_be_fresh { 1 } else { 0 });
        let selectors_element = TlvElement::new(TLV_SELECTORS, freeze(selectors));
        assert(selectors_element.payload() =~= seq![
            flag_byte(self.can_be_prefix),
            flag_byte(self.must_be_fresh),
        ]);
        selectors_element.encode(&mut inner);

        let mut nonce_buf = bytes_mut_new();
        put_u32(&mut nonce_buf, self.nonce);
        let nonce_element = TlvElement::new(TLV_NONCE, freeze(nonce_buf));
        assert(nonce_element.payload() =~= be32(self.nonce));
        nonce_element.encode(&mut inner);

        let mut life_buf = bytes_mut_new();
        put_u32(&mut life_buf, self.lifetime_ms);
        let life_element = TlvElement::new(TLV_INTEREST_LIFETIME, freeze(life_buf));
        assert(life_element.payload() =~= be32(self.lifetime_ms));
        life_element.encode(&mut inner);

        let ghost without_hop = bytes_mut_seq(inner);
        if let Some(hop) = self.hop_limit {
            let mut hop_buf = bytes_mut_new();
            put_u8(&mut hop_buf, hop);
            let hop_element = TlvElement::new(TLV_HOP_LIMIT, freeze(hop_buf));
            assert(hop_element.payload() =~= seq![hop]);
            hop_element.encode(&mut inner);
        }
        assert(bytes_mut_seq(inner) =~= without_hop + hop_limit_bytes(self.hop_limit));
        assert(bytes_mut_seq(inner) =~= interest_inner(self@));

        let outer = TlvElement::new(TLV_INTEREST, freeze(inner));
        if remaining(&outer.value) > MAX_TLV_LENGTH {
            return Err(Error::MalformedPacket);
        }
        outer.encode(buf);
        Ok(())
    }

    /// Reads the Interest at the head of `bytes`.
    pub fn decode(bytes: &[u8]) -> (r: Result<Self, Error>)
        ensures
            match r {
                Ok(i) => parse_interest(bytes@) == Some(i@),
                Err(e) => parse_interest(bytes@) is None && e == Error::MalformedPacket,
            },
    {
        let mut buf = bytes_from_slice(bytes);
        let outer = match TlvElement::decode(&mut buf) {
            Ok(e) => e,
            Err(_) => {
                return Err(Error::MalformedPacket);
            },
        };
        if outer.tlv_type != TLV_INTEREST {
            return Err(Error::MalformedPacket);
        }
        let mut inner = outer.value.clone();
        let mut name: Option<Name> = None;
        let mut nonce: Option<u32> = None;
        let mut lifetime_ms: Option<u32> = None;
        let mut hop_limit: Option<u8> = None;
        let mut can_be_prefix = false;
        let mut must_be_fresh = false;
        let ghost all = outer.payload();
        let ghost tail = bytes_seq(buf);
        let ghost mut acc = no_interest_fields();
        while remaining(&inner) > 0
            invariant
                parse_interest_fields(all, no_interest_fields()) == parse_interest_fields(
                    bytes_seq(inner),
                    acc,
                ),
                parse_tlv_seq(bytes@) == Some((TLV_INTEREST, all, tail)),
                acc.name == match name {
                    Some(n) => Some(n@),
                    None => None::<Seq<Seq<u8>>>,
                },
                acc.nonce == nonce,
                acc.lifetime_ms == lifetime_ms,
                acc.hop_limit == hop_limit,
                acc.can_be_prefix == can_be_prefix,
                acc.must_be_fresh == must_be_fresh,
            decreases bytes_seq(inner).len(),
        {
            let ghost before = bytes_seq(inner);
            assert(before.len() > 0);
            let e = match TlvElement::decode(&mut inner) {
                Ok(e) => e,
                Err(_) => {
                    assert(parse_interest_fields(before, acc) is None);
                    return Err(Error::MalformedPacket);
                },
            };
            let ghost next = interest_field(acc, e.tlv_type, e.payload());
            if e.tlv_type == TLV_NAME {
                match Name::from_tlv(&e) {
                    Ok(n) => {
                        name = Some(n);
                    },
                    Err(_) => {
                        assert(parse_interest_fields(before, acc) is None);
                        return Err(Error::MalformedPacket);
                    },
                }
            } else if e.tlv_type == TLV_NONCE {
                if remaining(&e.value) == 4 {
                    let mut nbuf = e.value.clone();
                    nonce = Some(get_u32(&mut nbuf));
                }
            } else if e.tlv_type == TLV_INTEREST_LIFETIME {
                let n = remaining(&e.value);
                if n >= 1 && n <= 4 {
                    lifetime_ms = Some(read_be(as_slice(&e.value)));
                }
            } else if e.tlv_type == TLV_SELECTORS {
                if remaining(&e.value) >= 2 {
                    let v = as_slice(&e.value);
                    can_be_prefix = v[0] != 0;
                    must_be_fresh = v[1] != 0;
                }
            } else if e.tlv_type == TLV_HOP_LIMIT {
                if remaining(&e.value) >= 1 {
                    hop_limit = Some(as_slice(&e.value)[0]);
                }
            }
            proof {
                assert(next is Some);
                acc = next->0;
            }
        }
        match name {
            None => Err(Error::MalformedPacket),
            Some(name) => Ok(
                Interest {
                    name,
                    nonce: match nonce {
                        Some(x) => x,
                        None => 0,
                    },
                    lifetime_ms: match lifetime_ms {
                        Some(x) => x,
                        None => DEFAULT_INTEREST_LIFETIME_MS,
                    },
                    hop_limit,
                    can_be_prefix,
                    must_be_fresh,
                },
            ),
        }
    }
}

/// What a Data says. The time of its creation is local and is no part of it.
pub ghost struct DataView {
    pub name: Seq<Seq<u8>>,
    pub content: Seq<u8>,
    pub ttl_ms: u32,
}

/// The TLVs inside a Data TLV: the Name, then the Content.
pub open spec fn data_inner(v: DataView) -> Seq<u8> {
    tlv_bytes(TLV_NAME, name_value(v.name)) + tlv_bytes(TLV_CONTENT, v.content)
}

/// The wire form of a Data. The time-to-live is not written.
pub open spec fn data_wire(v: DataView) -> Seq<u8> {
    tlv_bytes(TLV_DATA, data_inner(v))
}

/// The Data can be written: each length fits the length field.
pub open spec fn data_encodable(v: DataView) -> bool {
    &&& components_encodable(v.name)
    &&& name_value(v.name).len() <= MAX_TLV_LENGTH
    &&& v.content.len() <= MAX_TLV_LENGTH
    &&& data_inner(v).len() <= MAX_TLV_LENGTH
}

/// What has been read of a Data so far.
pub ghost struct DataFields {
    pub name: Option<Seq<Seq<u8>>>,
    pub content: Seq<u8>,
}

/// The fields after one more TLV has been read, or `None` where it is a Name
/// that does not parse. A TLV that is neither Name nor Content changes nothing.
pub open spec fn data_field(acc: DataFields, t: u8, v: Seq<u8>) -> Option<DataFields> {
    if t == TLV_NAME {
        match parse_components(v) {
            None => None,
            Some(n) => Some(DataFields { name: Some(n), ..acc }),
        }
    } else if t == TLV_CONTENT {
        Some(DataFields { content: v, ..acc })
    } else {
        Some(acc)
    }
}

/// The fields after all the TLVs in `s` have been read in order, starting
/// from `acc`; `None` where one of them is malformed.
pub open spec fn parse_data_fields(s: Seq<u8>, acc: DataFields) -> Option<DataFields>
    decreases s.len(),
{
    if s.len() == 0 {
        Some(acc)
    } else {
        match parse_tlv_seq(s) {
            None => None,
            Some((t, v, rest)) => match data_field(acc, t, v) {
                None => None,
                Some(next) => parse_data_fields(rest, next),
            },
        }
    }
}

/// The Data that `s` spells: a Data TLV at its head whose fields parse and
/// hold a Name. A missing Content reads as empty. The time-to-live is the
/// default, since the wire carries none.
pub open spec fn parse_data(s: Seq<u8>) -> Option<DataView> {
    match parse_tlv_seq(s) {
        None => None,
        Some((t, v, _)) => if t != TLV_DATA {
            None
        } else {
            match parse_data_fields(v, DataFields { name: None, content: Seq::<u8>::empty() }) {
                None => None,
                Some(f) => match f.name {
                    None => None,
                    Some(n) => Some(
                        DataView { name: n, content: f.content, ttl_ms: DEFAULT_DATA_TTL_MS },
                    ),
                },
            }
        },
    }
}

/// The bytes published under a name.
#[derive(Debug, Clone)]
pub struct Data {
    pub name: Name,
    pub content: Bytes,
    pub ttl_ms: u32,
    /// When this copy was made, by the local monotonic clock. Never sent.
    pub creation_time: Instant,
}

impl View for Data {
    type V = DataView;

    open spec fn view(&self) -> DataView {
        DataView { name: self.name@, content: bytes_seq(self.content), ttl_ms: self.ttl_ms }
    }
}

impl Data {
    /// A new Data with the default time-to-live, created now.
    pub fn new(name: Name, content: Bytes) -> (d: Self)
        ensures
            d.name == name,
            d.content == content,
            d.ttl_ms == DEFAULT_DATA_TTL_MS,
    {
        Data { name, content, ttl_ms: DEFAULT_DATA_TTL_MS, creation_time: instant_now() }
    }

    /// A copy of the Data, created when this one was.
    pub fn duplicate(&self) -> (d: Self)
        ensures
            d@ == self@,
    {
        Data {
            name: self.name.duplicate(),
            content: self.content.clone(),
            ttl_ms: self.ttl_ms,
            creation_time: self.creation_time.clone(),
        }
    }

    /// The same Data with another time-to-live.
    pub fn with_ttl(self, ttl_ms: u32) -> (d: Self)
        ensures
            d == (Data { ttl_ms, ..self }),
    {
        let mut d = self;
        d.ttl_ms = ttl_ms;
        d
    }

    /// Whether the Data has outlived its time-to-live by the monotonic clock.
    pub fn is_expired(&self) -> bool {
        expired_after(elapsed_nanos(&self.creation_time), self.ttl_ms)
    }

    /// An estimate of the size of the wire form: the Name TLV, the content
    /// and twenty bytes for the rest. A name that cannot be written has no
    /// size.
    pub fn wire_size(&self) -> (r: Result<usize, Error>)
        ensures
            match r {
                Ok(n) => n == tlv_bytes(TLV_NAME, name_value(self@.name)).len()
                    + self@.content.len() + 20,
                Err(e) => (!components_encodable(self@.name) || name_value(self@.name).len()
                    > MAX_TLV_LENGTH || tlv_bytes(TLV_NAME, name_value(self@.name)).len()
                    + self@.content.len() + 20 > usize::MAX) && e == Error::MalformedPacket,
            },
    {
        let len = remaining(&self.content);
        if len > usize::MAX - 20 {
            return Err(Error::MalformedPacket);
        }
        estimate_size(&self.name, len + 20)
    }

    /// The name under which the Data is published.
    pub fn name(&self) -> (n: &Name)
        ensures
            *n == self.name,
    {
        &self.name
    }

    /// The published bytes.
    pub fn content(&self) -> (c: &Bytes)
        ensures
            *c == self.content,
    {
        &self.content
    }

    /// Appends the wire form of the Data to `buf`. Where a length does not
    /// fit its field nothing is written.
    pub fn encode(&self, buf: &mut BytesMut) -> (r: Result<(), Error>)
        ensures
            match r {
                Ok(_) => data_encodable(self@) && bytes_mut_seq(*final(buf)) == bytes_mut_seq(
                    *old(buf),
                ) + data_wire(self@),
                Err(e) => !data_encodable(self@) && e == Error::MalformedPacket && bytes_mut_seq(
                    *final(buf),
                ) == bytes_mut_seq(*old(buf)),
            },
    {
        let name_element = match self.name.to_tlv() {
            Ok(e) => e,
            Err(_) => {
                return Err(Error::MalformedPacket);
            },
        };
        if remaining(&name_element.value) > MAX_TLV_LENGTH {
            return Err(Error::MalformedPacket);
        }
        if remaining(&self.content) > MAX_TLV_LENGTH {
            return Err(Error::MalformedPacket);
        }
        let mut inner = bytes_mut_new();
        name_element.encode(&mut inner);
        TlvElement::new(TLV_CONTENT, self.content.clone()).encode(&mut inner);
        assert(bytes_mut_seq(inner) =~= data_inner(self@));
        let outer = TlvElement::new(TLV_DATA, freeze(inner));
        if remaining(&outer.value) > MAX_TLV_LENGTH {
            return Err(Error::MalformedPacket);
        }
        outer.encode(buf);
        Ok(())
    }

    /// Reads the Data at the head of `bytes`. The copy is created now.
    pub fn decode(bytes: &[u8]) -> (r: Result<Self, Error>)
        ensures
            match r {
                Ok(d) => parse_data(bytes@) == Some(d@),
                Err(e) => parse_data(bytes@) is None && e == Error::MalformedPacket,
            },
    {
        let mut buf = bytes_from_slice(bytes);
        let outer = match TlvElement::decode(&mut buf) {
            Ok(e) => e,
            Err(_) => {
                return Err(Error::MalformedPacket);
            },
        };
        if outer.tlv_type != TLV_DATA {
            return Err(Error::MalformedPacket);
        }
        let mut inner = outer.value.clone();
        let mut name: Option<Name> = None;
        let mut content: Bytes = freeze(bytes_mut_new());
        let ghost all = outer.payload();
        let ghost tail = bytes_seq(buf);
        let ghost start = DataFields { name: None, content: Seq::<u8>::empty() };
        let ghost mut acc = start;
        while remaining(&inner) > 0
            invariant
                parse_data_fields(all, start) == parse_data_fields(bytes_seq(inner), acc),
                parse_tlv_seq(bytes@) == Some((TLV_DATA, all, tail)),
                start == (DataFields { name: None, content: Seq::<u8>::empty() }),
                acc.name == match name {
                    Some(n) => Some(n@),
                    None => None::<Seq<Seq<u8>>>,
                },
                acc.content == bytes_seq(content),
            decreases bytes_seq(inner).len(),
        {
            let ghost before = bytes_seq(inner);
            assert(before.len() > 0);
            let e = match TlvElement::decode(&mut inner) {
                Ok(e) => e,
                Err(_) => {
                    assert(parse_data_fields(before, acc) is None);
                    return Err(Error::MalformedPacket);
                },
            };
            let ghost next = data_field(acc, e.tlv_type, e.payload());
            if e.tlv_type == TLV_NAME {
                match Name::from_tlv(&e) {
                    Ok(n) => {
                        name = Some(n);
                    },
                    Err(_) => {
                        assert(parse_data_fields(before, acc) is None);
                        return Err(Error::MalformedPacket);
                    },
                }
            } else if e.tlv_type == TLV_CONTENT {
                content = e.value.clone();
            }
            proof {
                assert(next is Some);
                acc = next->0;
            }
        }
        match name {
            None => Err(Error::MalformedPacket),
            Some(name) => Ok(
                Data { name, content, ttl_ms: DEFAULT_DATA_TTL_MS, creation_time: instant_now() },
            ),
        }
    }
}

/// How an expressed Interest ended.
#[derive(Debug, Clone)]
pub enum InterestResult {
    /// The Interest was satisfied with Data.
    Data(Data),
    /// The waiter elapsed.
    Timeout,
    /// The Interest was dropped, for the reason given.
    Dropped(String),
    /// The session or face failed.
    NetworkError(String),
}

impl InterestResult {
    /// The end of an expressed Interest as its caller sees it: the Data, or
    /// the failure. A waiter that elapsed is a timeout; an Interest that was
    /// dropped, or a face that failed, is a network error with the reason.
    pub fn into_result(self) -> (r: Result<Data, Error>)
        ensures
            match self {
                InterestResult::Data(d) => r == Ok::<Data, Error>(d),
                InterestResult::Timeout => r == Err::<Data, Error>(Error::Timeout),
                InterestResult::Dropped(reason) => r == Err::<Data, Error>(
                    Error::NetworkError(reason),
                ),
                InterestResult::NetworkError(message) => r == Err::<Data, Error>(
                    Error::NetworkError(message),
                ),
            },
    {
        match self {
            InterestResult::Data(d) => Ok(d),
            InterestResult::Timeout => Err(Error::Timeout),
            InterestResult::Dropped(reason) => Err(Error::NetworkError(reason)),
            InterestResult::NetworkError(message) => Err(Error::NetworkError(message)),
        }
    }
}

/// Four big-endian bytes spell the number that they were made from.
pub proof fn lemma_be32_value(x: u32)
    ensures
        be32_value(be32(x)) == x,
        be_value(be32(x)) == x,
        be32(x).len() == 4,
{
    let s = be32(x);
    let s3 = s.drop_last();
    let s2 = s3.drop_last();
    let s1 = s2.drop_last();
    assert(s1.drop_last().len() == 0);
    assert(be_value(s1.drop_last()) == 0);
    assert(be_value(s1) == s[0]);
    assert(be_value(s2) == s[0] as nat * 256 + s[1]);
    assert(be_value(s3) == (s[0] as nat * 256 + s[1]) * 256 + s[2]);
    assert(be_value(s) == ((s[0] as nat * 256 + s[1]) * 256 + s[2]) * 256 + s[3]);
}

/// Reading one well-formed TLV off the head of the fields of an Interest.
proof fn lemma_interest_fields_step(
    t: u8,
    val: Seq<u8>,
    rest: Seq<u8>,
    acc: InterestFields,
    next: InterestFields,
)
    requires
        val.len() <= MAX_TLV_LENGTH,
        interest_field(acc, t, val) == Some(next),
    ensures
        parse_interest_fields(tlv_bytes(t, val) + rest, acc) == parse_interest_fields(rest, next),
{
    lemma_parse_tlv_bytes(t, val, rest);
    assert((tlv_bytes(t, val) + rest).len() > 0);
}

proof fn lemma_step_hop(h: Option<u8>, acc: InterestFields)
    ensures
        parse_interest_fields(hop_limit_bytes(h), acc) == Some(
            match h {
                Some(x) => InterestFields { hop_limit: Some(x), ..acc },
                None => acc,
            },
        ),
{
    let empty = Seq::<u8>::empty();
    match h {
        Some(x) => {
            let next = InterestFields { hop_limit: Some(x), ..acc };
            assert(interest_field(acc, TLV_HOP_LIMIT, seq![x]) == Some(next));
            lemma_interest_fields_step(TLV_HOP_LIMIT, seq![x], empty, acc, next);
            assert(hop_limit_bytes(h) + empty =~= hop_limit_bytes(h));
        },
        None => {},
    }
}

proof fn lemma_step_lifetime(x: u32, rest: Seq<u8>, acc: InterestFields)
    ensures
        parse_interest_fields(tlv_bytes(TLV_INTEREST_LIFETIME, be32(x)) + rest, acc)
            == parse_interest_fields(rest, InterestFields { lifetime_ms: Some(x), ..acc }),
{
    lemma_be32_value(x);
    let next = InterestFields { lifetime_ms: Some(x), ..acc };
    assert(interest_field(acc, TLV_INTEREST_LIFETIME, be32(x)) == Some(next));
    lemma_interest_fields_step(TLV_INTEREST_LIFETIME, be32(x), rest, acc, next);
}

proof fn lemma_step_nonce(x: u32, rest: Seq<u8>, acc: InterestFields)
    ensures
        parse_interest_fields(tlv_bytes(TLV_NONCE, be32(x)) + rest, acc) == parse_interest_fields(
            rest,
            InterestFields { nonce: Some(x), ..acc },
        ),
{
    lemma_be32_value(x);
    let next = InterestFields { nonce: Some(x), ..acc };
    assert(interest_field(acc, TLV_NONCE, be32(x)) == Some(next));
    lemma_interest_fields_step(TLV_NONCE, be32(x), rest, acc, next);
}

proof fn lemma_step_selectors(p: bool, f: bool, rest: Seq<u8>, acc: InterestFields)
    ensures
        parse_interest_fields(
            tlv_bytes(TLV_SELECTORS, seq![flag_byte(p), flag_byte(f)]) + rest,
            acc,
        ) == parse_interest_fields(
            rest,
            InterestFields { can_be_prefix: p, must_be_fresh: f, ..acc },
        ),
{
    let sel = seq![flag_byte(p), flag_byte(f)];
    let next = InterestFields { can_be_prefix: p, must_be_fresh: f, ..acc };
    assert(sel[0] != 0 <==> p);
    assert(sel[1] != 0 <==> f);
    assert(interest_field(acc, TLV_SELECTORS, sel) == Some(next));
    lemma_interest_fields_step(TLV_SELECTORS, sel, rest, acc, next);
}

proof fn lemma_step_name(n: Seq<Seq<u8>>, rest: Seq<u8>, acc: InterestFields)
    requires
        components_encodable(n),
        name_value(n).len() <= MAX_TLV_LENGTH,
    ensures
        parse_interest_fields(tlv_bytes(TLV_NAME, name_value(n)) + rest, acc)
            == parse_interest_fields(rest, InterestFields { name: Some(n), ..acc }),
{
    lemma_parse_name_value(n);
    let next = InterestFields { name: Some(n), ..acc };
    assert(interest_field(acc, TLV_NAME, name_value(n)) == Some(next));
    lemma_interest_fields_step(TLV_NAME, name_value(n), rest, acc, next);
}

/// Reading what was written gives the Interest back.
pub proof fn lemma_interest_roundtrip(v: InterestView)
    requires
        interest_encodable(v),
    ensures
        parse_interest(interest_wire(v)) == Some(v),
{
    let t5 = hop_limit_bytes(v.hop_limit);
    let r3 = tlv_bytes(TLV_INTEREST_LIFETIME, be32(v.lifetime_ms)) + t5;
    let r2 = tlv_bytes(TLV_NONCE, be32(v.nonce)) + r3;
    let r1 = tlv_bytes(
        TLV_SELECTORS,
        seq![flag_byte(v.can_be_prefix), flag_byte(v.must_be_fresh)],
    ) + r2;
    let inner = interest_inner(v);
    let a0 = no_interest_fields();
    let a1 = InterestFields { name: Some(v.name), ..a0 };
    let a2 = InterestFields {
        can_be_prefix: v.can_be_prefix,
        must_be_fresh: v.must_be_fresh,
        ..a1
    };
    let a3 = InterestFields { nonce: Some(v.nonce), ..a2 };
    let a4 = InterestFields { lifetime_ms: Some(v.lifetime_ms), ..a3 };
    lemma_step_hop(v.hop_limit, a4);
    lemma_step_lifetime(v.lifetime_ms, t5, a3);
    lemma_step_nonce(v.nonce, r3, a2);
    lemma_step_selectors(v.can_be_prefix, v.must_be_fresh, r2, a1);
    lemma_step_name(v.name, r1, a0);
    lemma_parse_tlv_bytes(TLV_INTEREST, inner, Seq::<u8>::empty());
    assert(interest_wire(v) + Seq::<u8>::empty() =~= interest_wire(v));
}

/// Reading what was written gives the Data back, up to the fields that the
/// wire does not carry: the time-to-live reads as the default.
pub proof fn lemma_data_roundtrip(v: DataView)
    requires
        data_encodable(v),
    ensures
        parse_data(data_wire(v)) == Some(DataView { ttl_ms: DEFAULT_DATA_TTL_MS, ..v }),
{
    let nv = name_value(v.name);
    let t1 = tlv_bytes(TLV_NAME, nv);
    let t2 = tlv_bytes(TLV_CONTENT, v.content);
    let inner = data_inner(v);
    let empty = Seq::<u8>::empty();
    lemma_parse_tlv_bytes(TLV_DATA, inner, empty);
    assert(data_wire(v) + empty =~= data_wire(v));
    lemma_parse_name_value(v.name);
    lemma_parse_tlv_bytes(TLV_NAME, nv, t2);
    lemma_parse_tlv_bytes(TLV_CONTENT, v.content, empty);
    assert(t2 + empty =~= t2);
    let a0 = DataFields { name: None, content: empty };
    let a1 = DataFields { name: Some(v.name), ..a0 };
    let a2 = DataFields { content: v.content, ..a1 };
    assert(parse_data_fields(empty, a2) == Some(a2));
    assert(parse_data_fields(t2, a1) == Some(a2)) by {
        assert(data_field(a1, TLV_CONTENT, v.content) == Some(a2));
        assert(t2.len() > 0);
    }
    assert(parse_data_fields(inner, a0) == Some(a2)) by {
        assert(data_field(a0, TLV_NAME, nv) == Some(a1));
        assert(inner.len() > 0);
    }
}

/// `b` is the wire form of an Interest that can be written.
pub open spec fn well_formed_interest(b: Seq<u8>) -> bool {
    exists|v: InterestView| interest_encodable(v) && b == interest_wire(v)
}

/// `b` is the wire form of a Data that can be written.
pub open spec fn well_formed_data(b: Seq<u8>) -> bool {
    exists|v: DataView| data_encodable(v) && b == data_wire(v)
}

/// Writing what was read from a well-formed Interest gives the same bytes.
pub proof fn lemma_interest_wire_stable(b: Seq<u8>)
    requires
        well_formed_interest(b),
    ensures
        parse_interest(b) is Some,
        interest_encodable(parse_interest(b)->0),
        interest_wire(parse_interest(b)->0) == b,
{
    let v = choose|v: InterestView| interest_encodable(v) && b == interest_wire(v);
    lemma_interest_roundtrip(v);
}

/// Writing what was read from a well-formed Data gives the same bytes.
pub proof fn lemma_data_wire_stable(b: Seq<u8>)
    requires
        well_formed_data(b),
    ensures
        parse_data(b) is Some,
        data_encodable(parse_data(b)->0),
        data_wire(parse_data(b)->0) == b,
{
    let v = choose|v: DataView| data_encodable(v) && b == data_wire(v);
    lemma_data_roundtrip(v);
    let w = DataView { ttl_ms: DEFAULT_DATA_TTL_MS, ..v };
    assert(data_inner(w) == data_inner(v));
}

} // verus!

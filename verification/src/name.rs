//! Names: ordered sequences of opaque byte components.

use crate::buf::{
    as_slice, ascii_to_string, bytes_from_slice, bytes_mut_new, bytes_mut_seq, bytes_seq, freeze,
    remaining,
};
use crate::error::Error;
use crate::hash::{fnv1a, fnv1a_update, lemma_fnv1a_concat, FNV_OFFSET_BASIS};
use crate::tlv::{
    lemma_parse_tlv_bytes, parse_tlv_seq, tlv_bytes, TlvElement, MAX_TLV_LENGTH, TLV_COMPONENT,
    TLV_NAME,
};
use bytes::Bytes;
use vstd::prelude::*;
use vstd::string::StringSliceAdditionalSpecFns;

verus! {

/// The most bytes that a component of a textual name may hold.
pub const MAX_NAME_COMPONENT_LENGTH: usize = 255;

/// The most components that a textual name may hold.
pub const MAX_NAME_COMPONENTS: usize = 16;

/// The largest packet that the forwarder handles.
pub const MAX_NDN_PACKET_SIZE: usize = 8800;

/// The value of a Name TLV: the component TLVs one after the other.
pub open spec fn name_value(n: Seq<Seq<u8>>) -> Seq<u8>
    decreases n.len(),
{
    if n.len() == 0 {
        Seq::<u8>::empty()
    } else {
        tlv_bytes(TLV_COMPONENT, n[0]) + name_value(n.skip(1))
    }
}

/// The components that the value of a Name TLV spells, or `None` where it
/// holds a malformed TLV or one that is no component.
pub open spec fn parse_components(s: Seq<u8>) -> Option<Seq<Seq<u8>>>
    decreases s.len(),
{
    if s.len() == 0 {
        Some(Seq::<Seq<u8>>::empty())
    } else {
        match parse_tlv_seq(s) {
            None => None,
            Some((t, v, rest)) => if t != TLV_COMPONENT {
                None
            } else {
                match parse_components(rest) {
                    None => None,
                    Some(cs) => Some(seq![v] + cs),
                }
            },
        }
    }
}

/// All the component bytes of a name, one component after the other.
pub open spec fn name_flat(n: Seq<Seq<u8>>) -> Seq<u8>
    decreases n.len(),
{
    if n.len() == 0 {
        Seq::<u8>::empty()
    } else {
        name_flat(n.drop_last()) + n.last()
    }
}

/// The hash of a name: FNV-1a over its component bytes, with no separator.
pub open spec fn name_hash(n: Seq<Seq<u8>>) -> u32 {
    fnv1a(name_flat(n))
}

/// The length of a name as a table key records it: the number of
/// components, held at 255.
pub open spec fn key_len(n: nat) -> u8 {
    if n > 255 {
        255u8
    } else {
        n as u8
    }
}

/// `a` is a prefix of `b`: no longer than `b`, and equal to it component by component.
pub open spec fn is_prefix(a: Seq<Seq<u8>>, b: Seq<Seq<u8>>) -> bool {
    a.len() <= b.len() && forall|i: int| 0 <= i < a.len() ==> a[i] == b[i]
}

/// Every component is short enough for a TLV length field.
pub open spec fn components_encodable(n: Seq<Seq<u8>>) -> bool {
    forall|i: int| 0 <= i < n.len() ==> (#[trigger] n[i]).len() <= MAX_TLV_LENGTH
}

/// What scanning a textual name has found so far: the segments closed by a
/// slash, and the bytes of the segment that is still open.
pub open spec fn scan_segments(s: Seq<u8>) -> (Seq<Seq<u8>>, Seq<u8>)
    decreases s.len(),
{
    if s.len() == 0 {
        (Seq::<Seq<u8>>::empty(), Seq::<u8>::empty())
    } else {
        let (done, open) = scan_segments(s.drop_last());
        if s.last() == 0x2Fu8 {
            (
                if open.len() > 0 {
                    done.push(open)
                } else {
                    done
                },
                Seq::<u8>::empty(),
            )
        } else {
            (done, open.push(s.last()))
        }
    }
}

/// The non-empty segments between the slashes of a textual name.
pub open spec fn segments(s: Seq<u8>) -> Seq<Seq<u8>> {
    let (done, open) = scan_segments(s);
    if open.len() > 0 {
        done.push(open)
    } else {
        done
    }
}

/// The segments fit a name: at most 16 of them, each of at most 255 bytes.
pub open spec fn segments_fit(n: Seq<Seq<u8>>) -> bool {
    n.len() <= MAX_NAME_COMPONENTS && forall|i: int|
        0 <= i < n.len() ==> (#[trigger] n[i]).len() <= MAX_NAME_COMPONENT_LENGTH
}

/// A byte that prints as itself: a graphic ASCII character or a space.
pub open spec fn printable(b: u8) -> bool {
    0x20 <= b <= 0x7E
}

/// The lower-case hexadecimal digit for a value below 16.
pub open spec fn hex_digit(v: u8) -> u8 {
    if v < 10 {
        (0x30 + v) as u8
    } else {
        (0x61 + v - 10) as u8
    }
}

/// The two hexadecimal digits of each byte, in order.
pub open spec fn hex_text(c: Seq<u8>) -> Seq<u8>
    decreases c.len(),
{
    if c.len() == 0 {
        Seq::<u8>::empty()
    } else {
        hex_text(c.drop_last()) + seq![hex_digit(c.last() / 16), hex_digit(c.last() % 16)]
    }
}

/// The text of a component: its bytes where all of them are printable,
/// else `0x` and their hexadecimal digits.
pub open spec fn component_text(c: Seq<u8>) -> Seq<u8> {
    if forall|i: int| 0 <= i < c.len() ==> printable(#[trigger] c[i]) {
        c
    } else {
        seq![0x30u8, 0x78u8] + hex_text(c)
    }
}

/// A slash and the text of each component, in order.
pub open spec fn components_text(n: Seq<Seq<u8>>) -> Seq<u8>
    decreases n.len(),
{
    if n.len() == 0 {
        Seq::<u8>::empty()
    } else {
        components_text(n.drop_last()) + seq![0x2Fu8] + component_text(n.last())
    }
}

/// The canonical text of a name, as ASCII codes: `/` for the empty name, else
/// `/c1/c2/.../cn`.
pub open spec fn name_text(n: Seq<Seq<u8>>) -> Seq<u8> {
    if n.len() == 0 {
        seq![0x2Fu8]
    } else {
        components_text(n)
    }
}

/// The canonical text of a name, as characters.
pub open spec fn name_string(n: Seq<Seq<u8>>) -> Seq<char> {
    Seq::new(name_text(n).len(), |i: int| name_text(n)[i] as char)
}

/// One component of a name.
#[derive(Debug, Clone, PartialEq, Eq)]
pub struct NameComponent(pub Bytes);

impl View for NameComponent {
    type V = Seq<u8>;

    open spec fn view(&self) -> Seq<u8> {
        bytes_seq(self.0)
    }
}

impl NameComponent {
    /// A component that holds the given bytes.
    pub fn new(bytes: Bytes) -> (c: Self)
        ensures
            c@ == bytes_seq(bytes),
    {
        NameComponent(bytes)
    }

    /// A component that holds a copy of the slice.
    pub fn from_slice(bytes: &[u8]) -> (c: Self)
        ensures
            c@ == bytes@,
    {
        NameComponent(bytes_from_slice(bytes))
    }

    /// The bytes of the component.
    pub fn as_bytes(&self) -> (b: &Bytes)
        ensures
            bytes_seq(*b) == self@,
    {
        &self.0
    }

    /// The component as a TLV element.
    pub fn to_tlv(&self) -> (e: TlvElement)
        ensures
            e.tlv_type == TLV_COMPONENT,
            e.payload() == self@,
    {
        TlvElement::new(TLV_COMPONENT, self.0.clone())
    }

    /// The component that a TLV element holds; an element of another type is malformed.
    pub fn from_tlv(element: &TlvElement) -> (r: Result<Self, Error>)
        ensures
            match r {
                Ok(c) => element.tlv_type == TLV_COMPONENT && c@ == element.payload(),
                Err(e) => element.tlv_type != TLV_COMPONENT && e == Error::MalformedPacket,
            },
    {
        if element.tlv_type != TLV_COMPONENT {
            return Err(Error::MalformedPacket);
        }
        Ok(NameComponent(element.value.clone()))
    }
}

/// A name: its components in order.
#[derive(Debug, Clone, PartialEq, Eq)]
pub struct Name {
    components: Vec<NameComponent>,
}

impl View for Name {
    type V = Seq<Seq<u8>>;

    closed spec fn view(&self) -> Seq<Seq<u8>> {
        Seq::new(self.components@.len(), |i: int| self.components@[i]@)
    }
}

/// The name of `n + [c]` is valued as the value of `n` followed by the TLV of `c`.
pub proof fn lemma_name_value_push(n: Seq<Seq<u8>>, c: Seq<u8>)
    ensures
        name_value(n.push(c)) == name_value(n) + tlv_bytes(TLV_COMPONENT, c),
    decreases n.len(),
{
    if n.len() == 0 {
        assert(n.push(c).skip(1) =~= Seq::<Seq<u8>>::empty());
        assert(name_value(n.push(c).skip(1)) =~= Seq::<u8>::empty());
        assert(name_value(n.push(c)) =~= tlv_bytes(TLV_COMPONENT, c));
        assert(name_value(n) + tlv_bytes(TLV_COMPONENT, c) =~= tlv_bytes(TLV_COMPONENT, c));
    } else {
        lemma_name_value_push(n.skip(1), c);
        assert(n.push(c).skip(1) =~= n.skip(1).push(c));
        assert(n.push(c)[0] == n[0]);
        assert(tlv_bytes(TLV_COMPONENT, n[0]) + (name_value(n.skip(1)) + tlv_bytes(
            TLV_COMPONENT,
            c,
        )) =~= (tlv_bytes(TLV_COMPONENT, n[0]) + name_value(n.skip(1))) + tlv_bytes(
            TLV_COMPONENT,
            c,
        ));
    }
}

/// The value of a Name TLV parses back to the components that it was built from.
pub proof fn lemma_parse_name_value(n: Seq<Seq<u8>>)
    requires
        components_encodable(n),
    ensures
        parse_components(name_value(n)) == Some(n),
    decreases n.len(),
{
    if n.len() == 0 {
    } else {
        let rest = name_value(n.skip(1));
        assert(components_encodable(n.skip(1))) by {
            assert forall|i: int| 0 <= i < n.skip(1).len() implies (#[trigger] n.skip(1)[i]).len()
                <= MAX_TLV_LENGTH by {
                assert(n.skip(1)[i] == n[i + 1]);
            }
        }
        lemma_parse_name_value(n.skip(1));
        lemma_parse_tlv_bytes(TLV_COMPONENT, n[0], rest);
        assert(name_value(n).len() > 0);
        assert(seq![n[0]] + n.skip(1) =~= n);
    }
}

impl Name {
    /// The empty name.
    pub fn new() -> (n: Self)
        ensures
            n@ == Seq::<Seq<u8>>::empty(),
    {
        let n = Name { components: Vec::new() };
        assert(n@ =~= Seq::<Seq<u8>>::empty());
        n
    }

    /// Reads a textual name: the non-empty segments between slashes become the
    /// components. A name of more than 16 components, or with a component of
    /// more than 255 bytes, is rejected.
    pub fn from_string(s: &str) -> (r: Result<Self, Error>)
        ensures
            match r {
                Ok(n) => segments_fit(segments(s.spec_bytes())) && n@ == segments(s.spec_bytes()),
                Err(e) => !segments_fit(segments(s.spec_bytes())) && e == Error::MalformedPacket,
            },
    {
        let bytes = s.as_bytes();
        let mut parts: Vec<Vec<u8>> = Vec::new();
        let mut cur: Vec<u8> = Vec::new();
        let ghost mut done = Seq::<Seq<u8>>::empty();
        let mut i: usize = 0;
        while i < bytes.len()
            invariant
                i <= bytes.len(),
                done.len() == parts@.len(),
                forall|j: int| 0 <= j < done.len() ==> (#[trigger] parts@[j])@ == done[j],
                (done, cur@) == scan_segments(bytes@.take(i as int)),
            decreases bytes.len() - i,
        {
            proof {
                assert(bytes@.take(i + 1).drop_last() =~= bytes@.take(i as int));
                assert(bytes@.take(i + 1).last() == bytes@[i as int]);
            }
            let b = bytes[i];
            if b == 0x2F {
                if cur.len() > 0 {
                    proof {
                        done = done.push(cur@);
                    }
                    parts.push(cur);
                    cur = Vec::new();
                }
                assert(cur@ =~= Seq::<u8>::empty());
            } else {
                cur.push(b);
            }
            i += 1;
        }
        assert(bytes@.take(i as int) =~= bytes@);
        if cur.len() > 0 {
            proof {
                done = done.push(cur@);
            }
            parts.push(cur);
        }
        let ghost segs = segments(bytes@);
        assert(done == segs);
        if parts.len() > MAX_NAME_COMPONENTS {
            return Err(Error::MalformedPacket);
        }
        let mut components: Vec<NameComponent> = Vec::new();
        let mut k: usize = 0;
        while k < parts.len()
            invariant
                k <= parts.len(),
                segs == segments(s.spec_bytes()),
                segs.len() == parts@.len(),
                forall|j: int| 0 <= j < segs.len() ==> (#[trigger] parts@[j])@ == segs[j],
                components@.len() == k,
                forall|j: int| 0 <= j < k ==> (#[trigger] components@[j])@ == segs[j],
                forall|j: int|
                    0 <= j < k ==> (#[trigger] segs[j]).len() <= MAX_NAME_COMPONENT_LENGTH,
            decreases parts.len() - k,
        {
            assert(parts@[k as int]@ == segs[k as int]);
            if parts[k].len() > MAX_NAME_COMPONENT_LENGTH {
                assert(segs[k as int].len() > MAX_NAME_COMPONENT_LENGTH);
                return Err(Error::MalformedPacket);
            }
            components.push(NameComponent::from_slice(parts[k].as_slice()));
            k += 1;
        }
        let n = Name { components };
        assert(n@ =~= segs);
        Ok(n)
    }

    /// Appends a component.
    pub fn push(&mut self, component: NameComponent)
        ensures
            final(self)@ == old(self)@.push(component@),
    {
        self.components.push(component);
        assert(self@ =~= old(self)@.push(component@));
    }

    /// The number of components.
    pub fn len(&self) -> (n: usize)
        ensures
            n == self@.len(),
    {
        self.components.len()
    }

    /// Whether the name has no component.
    pub fn is_empty(&self) -> (b: bool)
        ensures
            b == (self@.len() == 0),
    {
        self.components.len() == 0
    }

    /// The components, in order.
    pub fn components(&self) -> (cs: &Vec<NameComponent>)
        ensures
            cs@.len() == self@.len(),
            forall|i: int| 0 <= i < cs@.len() ==> (#[trigger] cs@[i])@ == self@[i],
    {
        &self.components
    }

    /// The component at `index`, if the name is that long.
    pub fn get(&self, index: usize) -> (c: Option<&NameComponent>)
        ensures
            match c {
                Some(c) => index < self@.len() && c@ == self@[index as int],
                None => index >= self@.len(),
            },
    {
        if index < self.components.len() {
            Some(&self.components[index])
        } else {
            None
        }
    }

    /// The first `len` components, or the whole name where it is shorter.
    pub fn prefix(&self, len: usize) -> (p: Self)
        ensures
            p@ == self@.take(
                if len <= self@.len() {
                    len as int
                } else {
                    self@.len() as int
                },
            ),
    {
        let mut components: Vec<NameComponent> = Vec::new();
        let mut i: usize = 0;
        while i < len && i < self.components.len()
            invariant
                i <= len,
                i <= self.components@.len(),
                components@.len() == i,
                forall|j: int| 0 <= j < i ==> (#[trigger] components@[j])@ == self.components@[j]@,
            decreases self.components.len() - i,
        {
            components.push(NameComponent(self.components[i].0.clone()));
            i += 1;
        }
        let p = Name { components };
        assert(p@ =~= self@.take(i as int));
        p
    }

    /// Whether this name is a prefix of `other`.
    pub fn is_prefix_of(&self, other: &Self) -> (b: bool)
        ensures
            b == is_prefix(self@, other@),
    {
        if self.components.len() > other.components.len() {
            return false;
        }
        let mut i: usize = 0;
        while i < self.components.len()
            invariant
                i <= self.components@.len(),
                self.components@.len() <= other.components@.len(),
                forall|j: int| 0 <= j < i ==> self@[j] == other@[j],
            decreases self.components.len() - i,
        {
            if !(self.components[i].0 == other.components[i].0) {
                assert(self@[i as int] != other@[i as int]);
                return false;
            }
            i += 1;
        }
        true
    }

    /// Whether the two names have the same components.
    pub fn same_as(&self, other: &Self) -> (b: bool)
        ensures
            b == (self@ == other@),
    {
        let b = self.components.len() == other.components.len() && self.is_prefix_of(other);
        proof {
            assert(self@.len() == self.components@.len());
            assert(other@.len() == other.components@.len());
            if b {
                assert(self@ =~= other@);
            }
        }
        b
    }

    /// The name as a Name TLV element. A component too long for a length
    /// field cannot be written.
    pub fn to_tlv(&self) -> (r: Result<TlvElement, Error>)
        ensures
            match r {
                Ok(e) => components_encodable(self@) && e.tlv_type == TLV_NAME && e.payload()
                    == name_value(self@),
                Err(e) => !components_encodable(self@) && e == Error::MalformedPacket,
            },
    {
        let mut buf = bytes_mut_new();
        let mut i: usize = 0;
        assert(self@.take(0) =~= Seq::<Seq<u8>>::empty());
        while i < self.components.len()
            invariant
                i <= self.components@.len(),
                bytes_mut_seq(buf) == name_value(self@.take(i as int)),
                forall|j: int| 0 <= j < i ==> (#[trigger] self@[j]).len() <= MAX_TLV_LENGTH,
            decreases self.components.len() - i,
        {
            let element = self.components[i].to_tlv();
            if remaining(&element.value) > MAX_TLV_LENGTH {
                assert(self@[i as int].len() > MAX_TLV_LENGTH);
                return Err(Error::MalformedPacket);
            }
            element.encode(&mut buf);
            proof {
                lemma_name_value_push(self@.take(i as int), self@[i as int]);
                assert(self@.take(i as int).push(self@[i as int]) =~= self@.take(i + 1));
            }
            i += 1;
        }
        assert(self@.take(i as int) =~= self@);
        Ok(TlvElement::new(TLV_NAME, freeze(buf)))
    }

    /// The name that a Name TLV element holds. An element of another type, or
    /// a value that is not a run of well-formed component TLVs, is malformed.
    pub fn from_tlv(element: &TlvElement) -> (r: Result<Self, Error>)
        ensures
            match r {
                Ok(n) => element.tlv_type == TLV_NAME && parse_components(element.payload())
                    == Some(n@),
                Err(e) => (element.tlv_type != TLV_NAME || parse_components(element.payload())
                    is None) && e == Error::MalformedPacket,
            },
    {
        if element.tlv_type != TLV_NAME {
            return Err(Error::MalformedPacket);
        }
        let mut components: Vec<NameComponent> = Vec::new();
        let mut buf = element.value.clone();
        let ghost all = element.payload();
        let ghost mut acc = Seq::<Seq<u8>>::empty();
        while remaining(&buf) > 0
            invariant
                element.tlv_type == TLV_NAME,
                all == element.payload(),
                acc.len() == components@.len(),
                forall|j: int| 0 <= j < acc.len() ==> (#[trigger] components@[j])@ == acc[j],
                parse_components(all) == match parse_components(bytes_seq(buf)) {
                    None => None::<Seq<Seq<u8>>>,
                    Some(cs) => Some(acc + cs),
                },
            decreases bytes_seq(buf).len(),
        {
            let ghost before = bytes_seq(buf);
            assert(before.len() > 0);
            match TlvElement::decode(&mut buf) {
                Err(_) => {
                    assert(parse_components(before) is None);
                    return Err(Error::MalformedPacket);
                },
                Ok(e) => {
                    match NameComponent::from_tlv(&e) {
                        Err(_) => {
                            assert(parse_components(before) is None);
                            return Err(Error::MalformedPacket);
                        },
                        Ok(c) => {
                            proof {
                                let rest = bytes_seq(buf);
                                match parse_components(rest) {
                                    None => {},
                                    Some(cs) => {
                                        assert(acc + (seq![c@] + cs) =~= acc.push(c@) + cs);
                                    },
                                }
                                acc = acc.push(c@);
                            }
                            components.push(c);
                        },
                    }
                },
            }
        }
        let n = Name { components };
        proof {
            assert(acc + Seq::<Seq<u8>>::empty() =~= acc);
            assert(n@ =~= acc);
        }
        Ok(n)
    }
}

/// Every byte is an ASCII code.
pub open spec fn all_ascii(s: Seq<u8>) -> bool {
    forall|i: int| 0 <= i < s.len() ==> s[i] < 128
}

/// The flattened bytes of `n + [c]` are those of `n` followed by `c`.
pub proof fn lemma_name_flat_push(n: Seq<Seq<u8>>, c: Seq<u8>)
    ensures
        name_flat(n.push(c)) == name_flat(n) + c,
{
    assert(n.push(c).drop_last() =~= n);
}

fn is_printable(c: &[u8]) -> (b: bool)
    ensures
        b == (forall|i: int| 0 <= i < c@.len() ==> printable(#[trigger] c@[i])),
{
    let mut i: usize = 0;
    while i < c.len()
        invariant
            i <= c.len(),
            forall|j: int| 0 <= j < i ==> printable(#[trigger] c@[j]),
        decreases c.len() - i,
    {
        if c[i] < 0x20 || c[i] > 0x7E {
            assert(!printable(c@[i as int]));
            return false;
        }
        i += 1;
    }
    true
}

fn hex_digit_of(v: u8) -> (d: u8)
    requires
        v < 16,
    ensures
        d == hex_digit(v),
        d < 128,
{
    if v < 10 {
        0x30 + v
    } else {
        0x61 + (v - 10)
    }
}

fn push_hex(c: &[u8], out: &mut Vec<u8>)
    ensures
        final(out)@ == old(out)@ + hex_text(c@),
        all_ascii(old(out)@) ==> all_ascii(final(out)@),
{
    let mut i: usize = 0;
    assert(c@.take(0) =~= Seq::<u8>::empty());
    assert(old(out)@ + hex_text(c@.take(0)) =~= old(out)@);
    while i < c.len()
        invariant
            i <= c.len(),
            out@ == old(out)@ + hex_text(c@.take(i as int)),
            all_ascii(old(out)@) ==> all_ascii(out@),
        decreases c.len() - i,
    {
        let ghost before = out@;
        let hi = hex_digit_of(c[i] / 16);
        let lo = hex_digit_of(c[i] % 16);
        out.push(hi);
        out.push(lo);
        proof {
            assert(c@.take(i + 1).drop_last() =~= c@.take(i as int));
            assert(c@.take(i + 1).last() == c@[i as int]);
            assert(out@ =~= before + seq![hi, lo]);
            assert(out@ =~= old(out)@ + hex_text(c@.take(i + 1)));
        }
        i += 1;
    }
    assert(c@.take(i as int) =~= c@);
}

fn push_component_text(c: &[u8], out: &mut Vec<u8>)
    ensures
        final(out)@ == old(out)@ + component_text(c@),
        all_ascii(old(out)@) ==> all_ascii(final(out)@),
{
    if is_printable(c) {
        let mut i: usize = 0;
        assert(old(out)@ + c@.take(0) =~= old(out)@);
        while i < c.len()
            invariant
                i <= c.len(),
                out@ == old(out)@ + c@.take(i as int),
                forall|j: int| 0 <= j < c@.len() ==> printable(#[trigger] c@[j]),
                all_ascii(old(out)@) ==> all_ascii(out@),
            decreases c.len() - i,
        {
            assert(printable(c@[i as int]));
            out.push(c[i]);
            assert(out@ =~= old(out)@ + c@.take(i + 1));
            i += 1;
        }
        assert(c@.take(i as int) =~= c@);
    } else {
        out.push(0x30);
        out.push(0x78);
        push_hex(c, out);
        assert(out@ =~= old(out)@ + (seq![0x30u8, 0x78u8] + hex_text(c@)));
    }
}

impl Name {
    /// A copy of the name.
    pub fn duplicate(&self) -> (n: Self)
        ensures
            n@ == self@,
    {
        let n = self.prefix(self.components.len());
        assert(self@.take(self@.len() as int) =~= self@);
        n
    }

    /// The length of the name as a table key records it.
    pub fn key_len(&self) -> (n: u8)
        ensures
            n == key_len(self@.len()),
    {
        let n = self.components.len();
        if n > 255 {
            255
        } else {
            n as u8
        }
    }

    /// The hash under which the tables key this name.
    pub fn hash(&self) -> (h: u32)
        ensures
            h == name_hash(self@),
    {
        let mut h: u32 = FNV_OFFSET_BASIS;
        let mut i: usize = 0;
        assert(self@.take(0) =~= Seq::<Seq<u8>>::empty());
        while i < self.components.len()
            invariant
                i <= self.components@.len(),
                h == name_hash(self@.take(i as int)),
            decreases self.components.len() - i,
        {
            proof {
                assert(self@.take(i as int).push(self@[i as int]) =~= self@.take(i + 1));
                lemma_name_flat_push(self@.take(i as int), self@[i as int]);
                lemma_fnv1a_concat(
                    FNV_OFFSET_BASIS,
                    name_flat(self@.take(i as int)),
                    self@[i as int],
                );
            }
            h = fnv1a_update(h, as_slice(&self.components[i].0));
            i += 1;
        }
        assert(self@.take(i as int) =~= self@);
        h
    }

    /// The hash of every prefix of this name, from the empty prefix up to the
    /// whole name: the entry at `j` is the hash of the first `j` components.
    pub fn prefix_hashes(&self) -> (hs: Vec<u32>)
        ensures
            hs@.len() == self@.len() + 1,
            forall|j: int| 0 <= j <= self@.len() ==> #[trigger] hs@[j] == name_hash(self@.take(j)),
    {
        let mut hs: Vec<u32> = Vec::new();
        let mut h: u32 = FNV_OFFSET_BASIS;
        hs.push(h);
        let mut i: usize = 0;
        assert(self@.take(0) =~= Seq::<Seq<u8>>::empty());
        while i < self.components.len()
            invariant
                i <= self.components@.len(),
                h == name_hash(self@.take(i as int)),
                hs@.len() == i + 1,
                forall|j: int| 0 <= j <= i ==> #[trigger] hs@[j] == name_hash(self@.take(j)),
            decreases self.components.len() - i,
        {
            proof {
                assert(self@.take(i as int).push(self@[i as int]) =~= self@.take(i + 1));
                lemma_name_flat_push(self@.take(i as int), self@[i as int]);
                lemma_fnv1a_concat(
                    FNV_OFFSET_BASIS,
                    name_flat(self@.take(i as int)),
                    self@[i as int],
                );
            }
            h = fnv1a_update(h, as_slice(&self.components[i].0));
            hs.push(h);
            i += 1;
        }
        hs
    }

    /// The canonical text of the name, as ASCII codes.
    pub fn to_text(&self) -> (text: Vec<u8>)
        ensures
            text@ == name_text(self@),
            all_ascii(text@),
    {
        let mut text: Vec<u8> = Vec::new();
        if self.components.len() == 0 {
            text.push(0x2F);
            assert(text@ =~= seq![0x2Fu8]);
            return text;
        }
        let mut i: usize = 0;
        assert(self@.take(0) =~= Seq::<Seq<u8>>::empty());
        while i < self.components.len()
            invariant
                i <= self.components@.len(),
                text@ == components_text(self@.take(i as int)),
                all_ascii(text@),
            decreases self.components.len() - i,
        {
            let ghost before = text@;
            text.push(0x2F);
            push_component_text(as_slice(&self.components[i].0), &mut text);
            proof {
                assert(self@.take(i + 1).drop_last() =~= self@.take(i as int));
                assert(self@.take(i + 1).last() == self@[i as int]);
                assert(text@ =~= before + seq![0x2Fu8] + component_text(self@[i as int]));
            }
            i += 1;
        }
        assert(self@.take(i as int) =~= self@);
        text
    }

    /// The canonical text of the name: `/` for the empty name, else
    /// `/c1/c2/.../cn`, a component that does not print being written as
    /// `0x` and its hexadecimal digits.
    pub fn to_string(&self) -> (s: String)
        ensures
            s@ == name_string(self@),
    {
        let text = self.to_text();
        ascii_to_string(text.as_slice())
    }
}

impl Default for Name {
    fn default() -> (n: Self)
        ensures
            n@ == Seq::<Seq<u8>>::empty(),
    {
        Name::new()
    }
}

} // verus!

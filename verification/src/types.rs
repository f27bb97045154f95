//! The record layouts of the three tables, shared with a kernel fast path.
//!
//! All fields are fixed-width integers; a face identifier is 16 bits wide.

use vstd::prelude::*;

verus! {

/// Identifies a network interface.
pub type InterfaceId = u32;

/// The longest face name, in bytes.
pub const MAX_FACE_NAME_LEN: usize = 64;

/// The capacity of the forwarding base.
pub const MAX_FIB_ENTRIES: usize = 1024;

/// The capacity of the pending-interest table.
pub const MAX_PIT_ENTRIES: usize = 2048;

/// The capacity of the content store.
pub const MAX_CS_ENTRIES: usize = 4096;

/// Keys of a table: values that can be compared for equality at run time.
pub trait TableKey: Copy + Sized {
    /// Whether the two keys are the same key.
    fn same(&self, other: &Self) -> (b: bool)
        ensures
            b == (*self == *other),
    ;
}

/// Identifies a pending-interest record.
#[derive(Debug, Clone, Copy, PartialEq, Eq, Hash, Structural)]
pub struct PitId(pub u32);

/// Identifies a face.
#[derive(Debug, Clone, Copy, PartialEq, Eq, Hash, Structural)]
pub struct FaceId(pub u16);

/// What a face stands on.
#[derive(Debug, Clone, Copy, PartialEq, Eq, Structural)]
pub enum FaceType {
    /// A physical network interface.
    NetDevice,
    /// An application on this host.
    App,
    /// A session with a peer.
    Quic,
}

impl FaceType {
    /// The number that stands for the face type in a shared record.
    pub fn code(&self) -> (c: u8)
        ensures
            c == match *self {
                FaceType::NetDevice => 0u8,
                FaceType::App => 1u8,
                FaceType::Quic => 2u8,
            },
    {
        match self {
            FaceType::NetDevice => 0,
            FaceType::App => 1,
            FaceType::Quic => 2,
        }
    }
}

/// What the fast path does with a packet.
#[derive(Debug, Clone, Copy, PartialEq, Eq, Structural)]
pub enum XdpAction {
    /// Processing failed; the packet is dropped.
    Aborted,
    /// The packet is dropped.
    Drop,
    /// The packet goes on to the network stack.
    Pass,
    /// The packet is sent back out of the interface that it came in on.
    Tx,
    /// The packet is redirected to another interface.
    Redirect,
}

impl XdpAction {
    /// The number that the kernel knows the action by.
    pub fn code(&self) -> (c: u32)
        ensures
            c == match *self {
                XdpAction::Aborted => 0u32,
                XdpAction::Drop => 1u32,
                XdpAction::Pass => 2u32,
                XdpAction::Tx => 3u32,
                XdpAction::Redirect => 4u32,
            },
    {
        match self {
            XdpAction::Aborted => 0,
            XdpAction::Drop => 1,
            XdpAction::Pass => 2,
            XdpAction::Tx => 3,
            XdpAction::Redirect => 4,
        }
    }
}

/// The addresses and ports of a packet that is being forwarded.
#[derive(Debug, Clone, Copy)]
pub struct ForwardInfo {
    /// The destination IPv6 address.
    pub dst_addr: [u8; 16],
    /// The source IPv6 address.
    pub src_addr: [u8; 16],
    /// The destination port.
    pub dst_port: u16,
    /// The source port.
    pub src_port: u16,
}

impl ForwardInfo {
    /// The record for the given addresses, as octets, and ports.
    pub fn new(dst_addr: [u8; 16], src_addr: [u8; 16], dst_port: u16, src_port: u16) -> (f: Self)
        ensures
            f.dst_addr == dst_addr,
            f.src_addr == src_addr,
            f.dst_port == dst_port,
            f.src_port == src_port,
    {
        ForwardInfo { dst_addr, src_addr, dst_port, src_port }
    }

    /// The octets of the destination address.
    pub fn dst_addr(&self) -> (a: [u8; 16])
        ensures
            a == self.dst_addr,
    {
        self.dst_addr
    }

    /// The octets of the source address.
    pub fn src_addr(&self) -> (a: [u8; 16])
        ensures
            a == self.src_addr,
    {
        self.src_addr
    }
}

/// The key of a pending-interest record.
#[derive(Debug, Clone, Copy, PartialEq, Eq, Hash, Structural)]
pub struct PitKey {
    /// The hash of the name.
    pub name_hash: u32,
    /// The number of components of the name.
    pub name_len: u8,
    /// The nonce of the Interest.
    pub nonce: u32,
}

/// A pending-interest record.
#[derive(Debug, Clone, Copy, PartialEq, Eq, Structural)]
pub struct PitValue {
    /// The face on which the Interest arrived.
    pub face_id: FaceId,
    /// When the record was made, in milliseconds.
    pub timestamp: u64,
    /// The lifetime of the Interest, in milliseconds.
    pub lifetime_ms: u32,
    /// The number of components of the name.
    pub name_component_count: u8,
}

/// The key of a route.
#[derive(Debug, Clone, Copy, PartialEq, Eq, Hash, Structural)]
pub struct FibKey {
    /// The hash of the prefix.
    pub prefix_hash: u32,
    /// The number of components of the prefix.
    pub prefix_len: u8,
}

/// A route.
#[derive(Debug, Clone, Copy, PartialEq, Eq, Structural)]
pub struct FibValue {
    /// The face to forward to.
    pub face_id: FaceId,
    /// The cost of the route.
    pub cost: u8,
}

/// The key of a content-store record.
#[derive(Debug, Clone, Copy, PartialEq, Eq, Hash, Structural)]
pub struct CsKey {
    /// The hash of the name.
    pub name_hash: u32,
    /// The number of components of the name.
    pub name_len: u8,
}

/// A content-store record.
#[derive(Debug, Clone, Copy, PartialEq, Eq, Structural)]
pub struct CsValue {
    /// The hash of the content.
    pub content_hash: u64,
    /// When the record was made, in milliseconds.
    pub timestamp: u64,
    /// The size of the content, in bytes.
    pub content_size: u32,
    /// The time-to-live, in milliseconds.
    pub ttl_ms: u32,
}

impl TableKey for PitKey {
    fn same(&self, other: &Self) -> (b: bool) {
        self.name_hash == other.name_hash && self.name_len == other.name_len && self.nonce
            == other.nonce
    }
}

impl TableKey for FibKey {
    fn same(&self, other: &Self) -> (b: bool) {
        self.prefix_hash == other.prefix_hash && self.prefix_len == other.prefix_len
    }
}

impl TableKey for CsKey {
    fn same(&self, other: &Self) -> (b: bool) {
        self.name_hash == other.name_hash && self.name_len == other.name_len
    }
}

/// Whether a record made at `created_ms` with the given span has lapsed at
/// `now_ms`: more than `span_ms` milliseconds have passed since it was made.
pub open spec fn lapsed(created_ms: u64, span_ms: u32, now_ms: u64) -> bool {
    now_ms - created_ms > span_ms
}

/// Whether a record made at `created_ms` with the given span has lapsed at `now_ms`.
pub fn has_lapsed(created_ms: u64, span_ms: u32, now_ms: u64) -> (b: bool)
    ensures
        b == lapsed(created_ms, span_ms, now_ms),
{
    now_ms > created_ms && now_ms - created_ms > span_ms as u64
}

/// Whether a content-store record has outlived its time-to-live at `now_ms`.
pub fn is_entry_expired(entry: &CsValue, now_ms: u64) -> (b: bool)
    ensures
        b == lapsed(entry.timestamp, entry.ttl_ms, now_ms),
{
    has_lapsed(entry.timestamp, entry.ttl_ms, now_ms)
}

/// Whether a pending-interest record has outlived its lifetime at `now_ms`.
pub fn is_pit_entry_expired(entry: &PitValue, now_ms: u64) -> (b: bool)
    ensures
        b == lapsed(entry.timestamp, entry.lifetime_ms, now_ms),
{
    has_lapsed(entry.timestamp, entry.lifetime_ms, now_ms)
}

} // verus!

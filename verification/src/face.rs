//! The state of one face of a session transport.
//!
//! An expressed Interest leaves a waiter under the text of its name. A Data
//! fulfils every waiter under the text of its name, each once, and removes
//! them; a Data that nobody waits for fulfils nobody. A waiter that elapses
//! is removed. Closing the face hands back every waiter, to be told of the
//! failure, and a closed face sends no more.

use crate::buf::{as_slice, bytes_seq, remaining};
use crate::config::DEFAULT_FRAGMENT_SIZE;
use crate::error::Error;
use crate::fragmentation::{assemble_fragments, chunk_seqs, fragment_packet, joined};
use crate::metrics::{sat_add, UdcnMetrics};
use crate::name::{name_string, Name};
use crate::ndn::{Data, Interest};
use crate::packet::{packet_encodable, packet_wire, parse_packet, NdnPacket, NdnPacketView};
use bytes::Bytes;
use std::collections::VecDeque;
use vstd::prelude::*;

verus! {

/// What a face reports.
#[derive(Debug, Clone)]
pub enum FaceEvent {
    /// An Interest arrived.
    InterestReceived(Interest),
    /// A Data arrived.
    DataReceived(Data),
    /// The face was closed.
    Closed,
    /// Something failed on the face.
    Error(String),
}

/// One caller that waits for the Data of a name.
#[derive(Debug)]
pub struct Waiter {
    /// The token by which the caller is found again.
    pub id: u64,
    /// The text of the name.
    pub key: String,
}

/// The tokens of the waiters under `key`, in the order in which they came.
pub open spec fn ids_under(ws: Seq<(u64, Seq<char>)>, key: Seq<char>) -> Seq<u64>
    decreases ws.len(),
{
    if ws.len() == 0 {
        Seq::<u64>::empty()
    } else if ws.last().1 == key {
        ids_under(ws.drop_last(), key).push(ws.last().0)
    } else {
        ids_under(ws.drop_last(), key)
    }
}

/// The waiters that are not under `key`, in the order in which they came.
pub open spec fn not_under(ws: Seq<(u64, Seq<char>)>, key: Seq<char>) -> Seq<(u64, Seq<char>)>
    decreases ws.len(),
{
    if ws.len() == 0 {
        Seq::<(u64, Seq<char>)>::empty()
    } else if ws.last().1 == key {
        not_under(ws.drop_last(), key)
    } else {
        not_under(ws.drop_last(), key).push(ws.last())
    }
}

/// The waiters without the one with the token `id`.
pub open spec fn without_id(ws: Seq<(u64, Seq<char>)>, id: u64) -> Seq<(u64, Seq<char>)>
    decreases ws.len(),
{
    if ws.len() == 0 {
        Seq::<(u64, Seq<char>)>::empty()
    } else if ws.last().0 == id {
        without_id(ws.drop_last(), id)
    } else {
        without_id(ws.drop_last(), id).push(ws.last())
    }
}

/// Some waiter has the token `id`.
pub open spec fn waits(ws: Seq<(u64, Seq<char>)>, id: u64) -> bool {
    exists|i: int| 0 <= i < ws.len() && (#[trigger] ws[i]).0 == id
}

/// The tokens of all waiters, in the order in which they came.
pub open spec fn all_ids(ws: Seq<(u64, Seq<char>)>) -> Seq<u64> {
    Seq::new(ws.len(), |i: int| ws[i].0)
}

/// A Data fulfils each waiter once: after the waiters under a key have been
/// taken out, none is left under that key, and the others are untouched.
pub proof fn lemma_fulfilled_once(ws: Seq<(u64, Seq<char>)>, key: Seq<char>, other: Seq<char>)
    ensures
        ids_under(not_under(ws, key), key) == Seq::<u64>::empty(),
        other != key ==> ids_under(not_under(ws, key), other) == ids_under(ws, other),
    decreases ws.len(),
{
    if ws.len() > 0 {
        lemma_fulfilled_once(ws.drop_last(), key, other);
        if ws.last().1 != key {
            let kept = not_under(ws.drop_last(), key);
            assert(not_under(ws, key) == kept.push(ws.last()));
            assert(kept.push(ws.last()).drop_last() =~= kept);
        }
    }
}

/// A packet read from a frame, and who waited for it.
#[derive(Debug)]
pub enum Inbound {
    /// An Interest arrived.
    Interest(Interest),
    /// A Data arrived; the waiters with these tokens are fulfilled by it.
    Data { data: Data, fulfilled: Vec<u64> },
    /// The frame held no well-formed packet.
    Malformed,
}

/// The state of one face.
#[derive(Debug)]
pub struct Face {
    id: String,
    closed: bool,
    waiters: Vec<Waiter>,
    next_waiter: u64,
}

impl Face {
    /// The name of the face.
    pub closed spec fn name(&self) -> Seq<char> {
        self.id@
    }

    /// Whether the face is closed.
    pub closed spec fn spec_is_closed(&self) -> bool {
        self.closed
    }

    /// The waiters, each as token and key, in the order in which they came.
    pub closed spec fn pending(&self) -> Seq<(u64, Seq<char>)> {
        Seq::new(self.waiters@.len(), |i: int| (self.waiters@[i].id, self.waiters@[i].key@))
    }

    /// The token that the next waiter gets.
    pub closed spec fn next_token(&self) -> u64 {
        self.next_waiter
    }

    /// Every token in use is below the next one, so no token is used twice.
    pub open spec fn wf(&self) -> bool {
        forall|i: int|
            0 <= i < self.pending().len() ==> (#[trigger] self.pending()[i]).0 < self.next_token()
    }

    /// An open face without waiters.
    pub fn new(id: String) -> (f: Self)
        ensures
            f.wf(),
            f.name() == id@,
            !f.is_closed(),
            f.pending() == Seq::<(u64, Seq<char>)>::empty(),
            f.next_token() == 0,
    {
        let f = Face { id, closed: false, waiters: Vec::new(), next_waiter: 0 };
        assert(f.pending() =~= Seq::<(u64, Seq<char>)>::empty());
        f
    }

    /// The name of the face.
    pub fn id(&self) -> (s: &str)
        ensures
            s@ == self.name(),
    {
        self.id.as_str()
    }

    /// Whether the face is closed.
    #[verifier::when_used_as_spec(spec_is_closed)]
    pub fn is_closed(&self) -> (b: bool)
        ensures
            b == self.is_closed(),
    {
        self.closed
    }

    /// The number of waiters.
    pub fn pending_count(&self) -> (n: usize)
        ensures
            n == self.pending().len(),
    {
        self.waiters.len()
    }

    /// Leaves a waiter for the Data of `name` and hands back its token. A
    /// closed face is a network error; a face whose tokens are used up has
    /// no room.
    pub fn register(&mut self, name: &Name) -> (r: Result<u64, Error>)
        requires
            old(self).wf(),
        ensures
            final(self).wf(),
            final(self).name() == old(self).name(),
            final(self).is_closed() == old(self).is_closed(),
            match r {
                Ok(id) => {
                    &&& !old(self).is_closed()
                    &&& id == old(self).next_token()
                    &&& id < u64::MAX
                    &&& final(self).next_token() == id + 1
                    &&& final(self).pending() == old(self).pending().push(
                        (id, name_string(name@)),
                    )
                },
                Err(e) => {
                    &&& final(self).pending() == old(self).pending()
                    &&& final(self).next_token() == old(self).next_token()
                    &&& if old(self).is_closed() {
                        e is NetworkError
                    } else {
                        old(self).next_token() == u64::MAX && e == Error::CapacityExceeded
                    }
                },
            },
    {
        if self.closed {
            return Err(Error::NetworkError("Face is closed".to_owned()));
        }
        if self.next_waiter == u64::MAX {
            return Err(Error::CapacityExceeded);
        }
        let id = self.next_waiter;
        let key = name.to_string();
        self.waiters.push(Waiter { id, key });
        self.next_waiter = id + 1;
        assert(self.pending() =~= old(self).pending().push((id, name_string(name@))));
        Ok(id)
    }

    /// Removes the waiter with the token `id`, which has elapsed or was
    /// cancelled; says whether it was still waiting.
    pub fn cancel(&mut self, id: u64) -> (removed: bool)
        requires
            old(self).wf(),
        ensures
            final(self).wf(),
            final(self).name() == old(self).name(),
            final(self).is_closed() == old(self).is_closed(),
            final(self).next_token() == old(self).next_token(),
            removed == waits(old(self).pending(), id),
            final(self).pending() == without_id(old(self).pending(), id),
            !waits(final(self).pending(), id),
    {
        let ghost before = self.pending();
        let mut kept: Vec<Waiter> = Vec::new();
        let mut removed = false;
        let mut i: usize = 0;
        assert(before.take(0) =~= Seq::<(u64, Seq<char>)>::empty());
        while i < self.waiters.len()
            invariant
                i <= self.waiters@.len(),
                before == self.pending(),
                before.len() == self.waiters@.len(),
                self == old(self),
                old(self).wf(),
                removed == waits(before.take(i as int), id),
                Seq::new(kept@.len(), |j: int| (kept@[j].id, kept@[j].key@)) == without_id(
                    before.take(i as int),
                    id,
                ),
                forall|j: int|
                    0 <= j < kept@.len() ==> (#[trigger] kept@[j]).id != id && kept@[j].id
                        < self.next_waiter,
            decreases self.waiters.len() - i,
        {
            let ghost kept_before = Seq::new(kept@.len(), |j: int| (kept@[j].id, kept@[j].key@));
            proof {
                assert(before.take(i + 1).drop_last() =~= before.take(i as int));
                assert(before.take(i + 1).last() == before[i as int]);
                assert(before[i as int] == (
                    self.waiters@[i as int].id,
                    self.waiters@[i as int].key@,
                ));
                assert(before[i as int].0 < self.next_waiter);
                assert(waits(before.take(i + 1), id) <==> (waits(before.take(i as int), id)
                    || before[i as int].0 == id)) by {
                    if waits(before.take(i + 1), id) {
                        let j = choose|j: int|
                            0 <= j < before.take(i + 1).len() && (#[trigger] before.take(
                                i + 1,
                            )[j]).0 == id;
                        if j < i {
                            assert(before.take(i as int)[j].0 == id);
                        }
                    }
                    if waits(before.take(i as int), id) {
                        let j = choose|j: int|
                            0 <= j < before.take(i as int).len() && (#[trigger] before.take(
                                i as int,
                            )[j]).0 == id;
                        assert(before.take(i + 1)[j].0 == id);
                    }
                    if before[i as int].0 == id {
                        assert(before.take(i + 1)[i as int].0 == id);
                    }
                }
            }
            if self.waiters[i].id == id {
                removed = true;
            } else {
                let w = Waiter { id: self.waiters[i].id, key: self.waiters[i].key.clone() };
                kept.push(w);
                assert(Seq::new(kept@.len(), |j: int| (kept@[j].id, kept@[j].key@))
                    =~= kept_before.push(before[i as int]));
            }
            i += 1;
        }
        assert(before.take(i as int) =~= before);
        self.waiters = kept;
        proof {
            assert(self.pending() =~= without_id(before, id));
            if waits(self.pending(), id) {
                let j = choose|j: int|
                    0 <= j < self.pending().len() && (#[trigger] self.pending()[j]).0 == id;
                assert(self.waiters@[j].id != id);
            }
        }
        removed
    }

    /// The waiter with the token `id` has elapsed: it is removed and counted
    /// as timed out, and its caller is to be told so. Where the waiter is no
    /// longer there, it was fulfilled or told of a failure before; nothing
    /// is counted.
    pub fn on_timeout(&mut self, id: u64, metrics: &mut UdcnMetrics) -> (timed_out: bool)
        requires
            old(self).wf(),
        ensures
            final(self).wf(),
            final(self).name() == old(self).name(),
            final(self).is_closed() == old(self).is_closed(),
            final(self).next_token() == old(self).next_token(),
            timed_out == waits(old(self).pending(), id),
            final(self).pending() == without_id(old(self).pending(), id),
            !waits(final(self).pending(), id),
            final(metrics).interests_timed_out.value() == if timed_out {
                sat_add(old(metrics).interests_timed_out.value(), 1)
            } else {
                old(metrics).interests_timed_out.value()
            },
            *final(metrics) == (UdcnMetrics {
                interests_timed_out: final(metrics).interests_timed_out,
                ..*old(metrics)
            }),
    {
        let removed = self.cancel(id);
        if removed {
            metrics.interests_timed_out.increment();
        }
        removed
    }

    /// Takes out the waiters for the Data of `name` and hands back their
    /// tokens, each once, in the order in which they came.
    pub fn fulfil(&mut self, name: &Name) -> (ids: Vec<u64>)
        requires
            old(self).wf(),
        ensures
            final(self).wf(),
            final(self).name() == old(self).name(),
            final(self).is_closed() == old(self).is_closed(),
            final(self).next_token() == old(self).next_token(),
            ids@ == ids_under(old(self).pending(), name_string(name@)),
            final(self).pending() == not_under(old(self).pending(), name_string(name@)),
    {
        let key = name.to_string();
        let ghost before = self.pending();
        let mut kept: Vec<Waiter> = Vec::new();
        let mut ids: Vec<u64> = Vec::new();
        let mut i: usize = 0;
        assert(before.take(0) =~= Seq::<(u64, Seq<char>)>::empty());
        while i < self.waiters.len()
            invariant
                i <= self.waiters@.len(),
                before == self.pending(),
                before.len() == self.waiters@.len(),
                self == old(self),
                old(self).wf(),
                key@ == name_string(name@),
                ids@ == ids_under(before.take(i as int), key@),
                Seq::new(kept@.len(), |j: int| (kept@[j].id, kept@[j].key@)) == not_under(
                    before.take(i as int),
                    key@,
                ),
                forall|j: int| 0 <= j < kept@.len() ==> (#[trigger] kept@[j]).id < self.next_waiter,
            decreases self.waiters.len() - i,
        {
            let ghost kept_before = Seq::new(kept@.len(), |j: int| (kept@[j].id, kept@[j].key@));
            proof {
                assert(before.take(i + 1).drop_last() =~= before.take(i as int));
                assert(before.take(i + 1).last() == before[i as int]);
                assert(before[i as int] == (
                    self.waiters@[i as int].id,
                    self.waiters@[i as int].key@,
                ));
                assert(before[i as int].0 < self.next_waiter);
            }
            if self.waiters[i].key == key {
                ids.push(self.waiters[i].id);
            } else {
                let w = Waiter { id: self.waiters[i].id, key: self.waiters[i].key.clone() };
                kept.push(w);
                assert(Seq::new(kept@.len(), |j: int| (kept@[j].id, kept@[j].key@))
                    =~= kept_before.push(before[i as int]));
            }
            i += 1;
        }
        assert(before.take(i as int) =~= before);
        self.waiters = kept;
        assert(self.pending() =~= not_under(before, key@));
        ids
    }

    /// Closes the face and hands back the tokens of all waiters, to be told
    /// that the face has closed. A face that is closed already hands back
    /// nothing.
    pub fn close(&mut self) -> (ids: Vec<u64>)
        requires
            old(self).wf(),
        ensures
            final(self).wf(),
            final(self).name() == old(self).name(),
            final(self).is_closed(),
            final(self).next_token() == old(self).next_token(),
            final(self).pending() == Seq::<(u64, Seq<char>)>::empty(),
            ids@ == if old(self).is_closed() {
                Seq::<u64>::empty()
            } else {
                all_ids(old(self).pending())
            },
    {
        let mut ids: Vec<u64> = Vec::new();
        if !self.closed {
            let mut i: usize = 0;
            while i < self.waiters.len()
                invariant
                    i <= self.waiters@.len(),
                    self == old(self),
                    ids@.len() == i,
                    forall|j: int| 0 <= j < i ==> ids@[j] == self.waiters@[j].id,
                decreases self.waiters.len() - i,
            {
                ids.push(self.waiters[i].id);
                i += 1;
            }
            assert(ids@ =~= all_ids(old(self).pending()));
        }
        self.closed = true;
        self.waiters = Vec::new();
        assert(self.pending() =~= Seq::<(u64, Seq<char>)>::empty());
        ids
    }

    /// The chunks in which a packet goes out on a fresh stream: the wire
    /// form of the packet, cut where it is longer than the chunk size. A
    /// closed face sends nothing.
    pub fn outbound_frames(&self, packet: &NdnPacket) -> (r: Result<Vec<Bytes>, Error>)
        ensures
            match r {
                Ok(frames) => {
                    &&& !self.is_closed()
                    &&& packet_encodable(packet@)
                    &&& joined(chunk_seqs(frames@)) == packet_wire(packet@)
                    &&& forall|i: int|
                        0 <= i < frames@.len() ==> bytes_seq(#[trigger] frames@[i]).len()
                            <= DEFAULT_FRAGMENT_SIZE
                },
                Err(e) => if self.is_closed() {
                    e is NetworkError
                } else {
                    !packet_encodable(packet@) && e == Error::MalformedPacket
                },
            },
    {
        if self.closed {
            return Err(Error::NetworkError("Face is closed".to_owned()));
        }
        let bytes = match packet.to_bytes() {
            Ok(b) => b,
            Err(_) => {
                return Err(Error::MalformedPacket);
            },
        };
        if remaining(&bytes) > DEFAULT_FRAGMENT_SIZE {
            let frames = fragment_packet(as_slice(&bytes), DEFAULT_FRAGMENT_SIZE);
            Ok(frames)
        } else {
            let mut frames: Vec<Bytes> = Vec::new();
            let ghost wire = bytes_seq(bytes);
            frames.push(bytes);
            proof {
                assert(chunk_seqs(frames@) =~= seq![wire]);
                let one = chunk_seqs(frames@);
                assert(one.drop_last() =~= Seq::<Seq<u8>>::empty());
                assert(one.last() == wire);
                assert(joined(one.drop_last()) =~= Seq::<u8>::empty());
                assert(joined(one) == joined(one.drop_last()) + one.last());
                assert(joined(one) =~= wire);
            }
            Ok(frames)
        }
    }

    /// Prepares the frames of a packet that is sent without waiting for an
    /// answer, counting its bytes as sent, and a Data as sent. A closed face
    /// is a network error; else a packet that cannot be written is
    /// malformed. Where it fails, nothing is counted.
    pub fn begin_packet(&self, packet: &NdnPacket, metrics: &mut UdcnMetrics) -> (r: Result<
        Vec<Bytes>,
        Error,
    >)
        ensures
            match r {
                Ok(frames) => {
                    &&& !self.is_closed()
                    &&& packet_encodable(packet@)
                    &&& joined(chunk_seqs(frames@)) == packet_wire(packet@)
                    &&& forall|i: int|
                        0 <= i < frames@.len() ==> bytes_seq(#[trigger] frames@[i]).len()
                            <= DEFAULT_FRAGMENT_SIZE
                    &&& final(metrics).bytes_sent.value() == sat_add(
                        old(metrics).bytes_sent.value(),
                        packet_wire(packet@).len() as u64,
                    )
                    &&& final(metrics).data_sent.value() == if packet@ is Data {
                        sat_add(old(metrics).data_sent.value(), 1)
                    } else {
                        old(metrics).data_sent.value()
                    }
                    &&& *final(metrics) == (UdcnMetrics {
                        bytes_sent: final(metrics).bytes_sent,
                        data_sent: final(metrics).data_sent,
                        ..*old(metrics)
                    })
                },
                Err(e) => {
                    &&& *final(metrics) == *old(metrics)
                    &&& if self.is_closed() {
                        e is NetworkError
                    } else {
                        !packet_encodable(packet@) && e == Error::MalformedPacket
                    }
                },
            },
    {
        let frames = match self.outbound_frames(packet) {
            Ok(f) => f,
            Err(e) => {
                return Err(e);
            },
        };
        let size = match packet.size() {
            Ok(n) => n,
            Err(e) => {
                return Err(e);
            },
        };
        metrics.bytes_sent.add(size as u64);
        match packet {
            NdnPacket::Data(_) => {
                metrics.data_sent.increment();
            },
            NdnPacket::Interest(_) => {},
        }
        Ok(frames)
    }

    /// Registers a waiter for an Interest and prepares its frames, counting
    /// the Interest and its bytes as sent. This succeeds on an open face for
    /// an Interest that can be written, as long as a token is left. A closed
    /// face is a network error; else an Interest that cannot be written is
    /// malformed; else the tokens are used up. Where it fails, nothing changes.
    pub fn begin_interest(&mut self, interest: &Interest, metrics: &mut UdcnMetrics) -> (r: Result<
        (u64, Vec<Bytes>),
        Error,
    >)
        requires
            old(self).wf(),
        ensures
            final(self).wf(),
            final(self).name() == old(self).name(),
            final(self).is_closed() == old(self).is_closed(),
            match r {
                Ok((id, frames)) => {
                    &&& !old(self).is_closed()
                    &&& packet_encodable(NdnPacketView::Interest(interest@))
                    &&& id == old(self).next_token()
                    &&& id < u64::MAX
                    &&& final(self).next_token() == id + 1
                    &&& final(self).pending() == old(self).pending().push(
                        (id, name_string(interest@.name)),
                    )
                    &&& joined(chunk_seqs(frames@)) == packet_wire(
                        NdnPacketView::Interest(interest@),
                    )
                    &&& forall|i: int|
                        0 <= i < frames@.len() ==> bytes_seq(#[trigger] frames@[i]).len()
                            <= DEFAULT_FRAGMENT_SIZE
                    &&& final(metrics).interests_sent.value() == sat_add(
                        old(metrics).interests_sent.value(),
                        1,
                    )
                    &&& final(metrics).bytes_sent.value() == sat_add(
                        old(metrics).bytes_sent.value(),
                        packet_wire(NdnPacketView::Interest(interest@)).len() as u64,
                    )
                    &&& *final(metrics) == (UdcnMetrics {
                        interests_sent: final(metrics).interests_sent,
                        bytes_sent: final(metrics).bytes_sent,
                        ..*old(metrics)
                    })
                },
                Err(e) => {
                    &&& final(self).pending() == old(self).pending()
                    &&& final(self).next_token() == old(self).next_token()
                    &&& *final(metrics) == *old(metrics)
                    &&& if old(self).is_closed() {
                        e is NetworkError
                    } else if !packet_encodable(NdnPacketView::Interest(interest@)) {
                        e == Error::MalformedPacket
                    } else {
                        old(self).next_token() == u64::MAX && e == Error::CapacityExceeded
                    }
                },
            },
    {
        let packet = NdnPacket::Interest(interest.duplicate());
        let frames = match self.outbound_frames(&packet) {
            Ok(f) => f,
            Err(e) => {
                return Err(e);
            },
        };
        let size = match packet.size() {
            Ok(n) => n,
            Err(e) => {
                return Err(e);
            },
        };
        let id = match self.register(&interest.name) {
            Ok(id) => id,
            Err(e) => {
                return Err(e);
            },
        };
        metrics.interests_sent.increment();
        metrics.bytes_sent.add(size as u64);
        Ok((id, frames))
    }

    /// Reads the packet that the chunks of one stream spell and counts its
    /// bytes as received. An Interest is counted as received. A Data is
    /// counted as received, fulfils the waiters under its name, and each of
    /// them is counted as satisfied. No other count changes.
    pub fn on_frame(&mut self, chunks: VecDeque<Bytes>, metrics: &mut UdcnMetrics) -> (r: Inbound)
        requires
            old(self).wf(),
        ensures
            final(self).wf(),
            final(self).name() == old(self).name(),
            final(self).is_closed() == old(self).is_closed(),
            final(self).next_token() == old(self).next_token(),
            final(metrics).bytes_received.value() == sat_add(
                old(metrics).bytes_received.value(),
                joined(chunk_seqs(chunks@)).len() as u64,
            ),
            match r {
                Inbound::Interest(i) => {
                    &&& parse_packet(joined(chunk_seqs(chunks@))) == Some(
                        NdnPacketView::Interest(i@),
                    )
                    &&& final(self).pending() == old(self).pending()
                    &&& final(metrics).interests_received.value() == sat_add(
                        old(metrics).interests_received.value(),
                        1,
                    )
                    &&& *final(metrics) == (UdcnMetrics {
                        bytes_received: final(metrics).bytes_received,
                        interests_received: final(metrics).interests_received,
                        ..*old(metrics)
                    })
                },
                Inbound::Data { data, fulfilled } => {
                    &&& parse_packet(joined(chunk_seqs(chunks@))) == Some(
                        NdnPacketView::Data(data@),
                    )
                    &&& fulfilled@ == ids_under(old(self).pending(), name_string(data@.name))
                    &&& final(self).pending() == not_under(
                        old(self).pending(),
                        name_string(data@.name),
                    )
                    &&& final(metrics).data_received.value() == sat_add(
                        old(metrics).data_received.value(),
                        1,
                    )
                    &&& final(metrics).interests_satisfied.value() == sat_add(
                        old(metrics).interests_satisfied.value(),
                        fulfilled@.len() as u64,
                    )
                    &&& *final(metrics) == (UdcnMetrics {
                        bytes_received: final(metrics).bytes_received,
                        data_received: final(metrics).data_received,
                        interests_satisfied: final(metrics).interests_satisfied,
                        ..*old(metrics)
                    })
                },
                Inbound::Malformed => {
                    &&& parse_packet(joined(chunk_seqs(chunks@))) is None
                    &&& final(self).pending() == old(self).pending()
                    &&& *final(metrics) == (UdcnMetrics {
                        bytes_received: final(metrics).bytes_received,
                        ..*old(metrics)
                    })
                },
            },
    {
        let whole = match assemble_fragments(chunks) {
            Ok(b) => b,
            Err(_) => {
                metrics.bytes_received.add(0);
                return Inbound::Malformed;
            },
        };
        metrics.bytes_received.add(remaining(&whole) as u64);
        match NdnPacket::from_bytes(as_slice(&whole)) {
            Ok(NdnPacket::Interest(interest)) => {
                metrics.interests_received.increment();
                Inbound::Interest(interest)
            },
            Ok(NdnPacket::Data(data)) => {
                metrics.data_received.increment();
                let fulfilled = self.fulfil(&data.name);
                metrics.interests_satisfied.add(fulfilled.len() as u64);
                Inbound::Data { data, fulfilled }
            },
            Err(_) => Inbound::Malformed,
        }
    }
}

} // verus!

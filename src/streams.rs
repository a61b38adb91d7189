//! Per-socket outbound buffers and the flow table with the control link's
//! inbound and outbound byte streams.
use vstd::prelude::*;

use std::collections::HashMap;

use bytes::BytesMut;

use vstd::slice::slice_subrange;

use crate::buffer::{advance, as_slice, bytes_of};
use crate::error::{Error, IoKind, Result};
use crate::packet::{
    data_frames, decode_frame, encode_frame, frame_bytes, frame_decode, header_bytes, Address,
    lemma_frame_round_trip, Frame, Packet, PacketMessage, FRAME_EXPANSION, HEADER_SIZE, MAX_PAYLOAD,
    PACKET_VERSION,
};

verus! {

broadcast use vstd::std_specs::hash::group_hash_axioms;

/// Read chunk size of a socket: one frame's payload.
pub const BUFFER_SIZE: usize = 8192;

/// Frames' worth of bytes that may wait in one queue before the side that
/// fills it stops reading.
pub const QUEUE_FRAMES: usize = 32;

/// Bytes that may wait in one queue before the side that fills it stops
/// reading: `QUEUE_FRAMES` whole frames.
pub const QUEUE_HIGH_WATER: usize = QUEUE_FRAMES * (BUFFER_SIZE + HEADER_SIZE);

/// What probing a socket whose connect was started reports.
#[derive(Clone, Copy, Debug, PartialEq, Eq, Structural)]
pub enum ConnectProbe {
    Failed(IoKind),
    InProgress,
    Connected,
}

/// The bytes waiting to be written to one socket, and whether that socket
/// has finished connecting.
pub struct ClientStream {
    buffered: BytesMut,
    is_connected: bool,
}

impl ClientStream {
    /// Bytes accepted for the socket and not yet written to it, oldest first.
    pub closed spec fn pending(&self) -> Seq<u8> {
        bytes_of(self.buffered)
    }

    /// Whether the socket has finished connecting.
    pub closed spec fn connected(&self) -> bool {
        self.is_connected
    }

    pub fn is_connected(&self) -> (r: bool)
        ensures
            r == self.connected(),
    {
        self.is_connected
    }

    pub fn new() -> (r: ClientStream)
        ensures
            r.pending() == Seq::<u8>::empty(),
            !r.connected(),
    {
        ClientStream { buffered: BytesMut::new(), is_connected: false }
    }

    /// Queues `data` behind the bytes already pending; refused, with nothing
    /// changed, when the buffer would pass `isize::MAX` bytes.
    pub fn push_data(&mut self, data: &[u8]) -> (r: Result<()>)
        ensures
            final(self).connected() == old(self).connected(),
            old(self).pending().len() + data@.len() <= isize::MAX ==> r == Ok::<(), Error>(())
                && final(self).pending() == old(self).pending() + data@,
            old(self).pending().len() + data@.len() > isize::MAX ==> r == Err::<(), Error>(
                Error::BufferFull,
            ) && final(self).pending() == old(self).pending(),
    {
        let len = self.buffered.len();
        if len > isize::MAX as usize || data.len() > isize::MAX as usize - len {
            return Err(Error::BufferFull);
        }
        self.buffered.extend_from_slice(data);
        Ok(())
    }

    /// The pending bytes, for the caller to write to the socket.
    pub fn pending_bytes(&self) -> (r: &[u8])
        ensures
            r@ == self.pending(),
    {
        as_slice(&self.buffered)
    }

    /// A stream for a socket that is already connected, such as an accepted one.
    pub fn new_connected() -> (r: ClientStream)
        ensures
            r.pending() == Seq::<u8>::empty(),
            r.connected(),
    {
        ClientStream { buffered: BytesMut::new(), is_connected: true }
    }

    pub fn pending_len(&self) -> (r: usize)
        ensures
            r == self.pending().len(),
    {
        self.buffered.len()
    }

    pub fn is_empty(&self) -> (r: bool)
        ensures
            r == (self.pending().len() == 0),
    {
        self.buffered.len() == 0
    }

    /// Takes note of an attempt to write the pending bytes: `written` is what
    /// the socket reported. With nothing pending there was nothing to write,
    /// and the result is `Ok(0)`. Otherwise the bytes it took leave the
    /// buffer; a socket that would block took none; any other failure is
    /// handed back.
    pub fn flush_buffer(&mut self, written: Result<usize>) -> (r: Result<usize>)
        requires
            written matches Ok(n) ==> n <= old(self).pending().len(),
        ensures
            final(self).connected() == old(self).connected(),
            flushed(old(self).pending(), written, final(self).pending(), r),
    {
        if self.buffered.len() == 0 {
            return Ok(0);
        }
        match written {
            Ok(n) => {
                advance(&mut self.buffered, n);
                Ok(n)
            },
            Err(Error::Io(IoKind::WouldBlock)) => Ok(0),
            Err(e) => Err(e),
        }
    }

    /// Takes note of a probe of a socket whose connect was started. Returns
    /// whether the socket became connected by it, in which case the caller
    /// flushes what was queued meanwhile.
    pub fn complete_connect(&mut self, probe: ConnectProbe) -> (r: Result<bool>)
        ensures
            final(self).pending() == old(self).pending(),
            old(self).connected() ==> r == Ok::<bool, Error>(false) && final(self).connected(),
            !old(self).connected() ==> match probe {
                ConnectProbe::Failed(k) => r == Err::<bool, Error>(Error::Io(k))
                    && !final(self).connected(),
                ConnectProbe::InProgress => r == Ok::<bool, Error>(false)
                    && !final(self).connected(),
                ConnectProbe::Connected => r == Ok::<bool, Error>(true) && final(self).connected(),
            },
    {
        if self.is_connected {
            return Ok(false);
        }
        match probe {
            ConnectProbe::Failed(k) => Err(Error::Io(k)),
            ConnectProbe::InProgress => Ok(false),
            ConnectProbe::Connected => {
                self.is_connected = true;
                Ok(true)
            },
        }
    }
}


/// What writing `written` bytes of `before` leaves pending, and what the
/// write reports. With nothing pending nothing was written and nothing
/// fails. Otherwise the bytes the socket took leave the front; a socket that
/// would block took none; any other failure is handed back.
pub open spec fn flushed(before: Seq<u8>, written: Result<usize>, after: Seq<u8>, r: Result<usize>) -> bool {
    if before.len() == 0 {
        r == Ok::<usize, Error>(0) && after == before
    } else {
        match written {
        Ok(n) => r == Ok::<usize, Error>(n) && after == before.subrange(n as int, before.len() as int),
        Err(Error::Io(IoKind::WouldBlock)) => r == Ok::<usize, Error>(0) && after == before,
            Err(e) => r == Err::<usize, Error>(e) && after == before,
        }
    }
}

/// `after` is `before` with `bytes` appended when the result stays within
/// `isize::MAX` bytes, and `before` itself otherwise.
pub open spec fn queued(before: Seq<u8>, bytes: Seq<u8>, after: Seq<u8>) -> bool {
    if before.len() + bytes.len() <= isize::MAX {
        after == before + bytes
    } else {
        after == before
    }
}

/// `after` differs from `before` at most in the entry of `addr`, which it holds.
pub open spec fn updated_at(before: Map<Address, ClientStream>, after: Map<Address, ClientStream>, addr: Address) -> bool {
    after.contains_key(addr) && after == before.insert(addr, after[addr])
}

/// Which peer a flow table belongs to. They differ in one point: a `Data`
/// frame for an unknown flow makes the client dial the origin for it.
#[derive(Clone, Copy, Debug, PartialEq, Eq, Structural)]
pub enum Side {
    Server,
    Client,
}

/// What the event loop does after a frame from the peer was dispatched.
#[derive(Clone, Copy, Debug, PartialEq, Eq, Structural)]
pub enum Dispatch {
    /// Payload was queued for the socket of this flow: flush it.
    Deliver(Address),
    /// The peer ended this flow, which has left the table: close its socket.
    Close(Address, Error),
    /// A new flow with its first payload queued: dial the origin for it.
    Dial(Address),
    /// The frame named no live flow and was dropped.
    Ignored(Address),
}

/// The live flow ids after dispatching a frame with header `p`: a terminal
/// frame ends its flow, and on the client a `Data` frame for an unknown id
/// starts one.
pub open spec fn dispatched_ids(ids: Set<Address>, p: Packet, side: Side) -> Set<Address> {
    if p.msg.is_terminal() {
        ids.remove(p.addr)
    } else if !ids.contains(p.addr) && side == Side::Client {
        ids.insert(p.addr)
    } else {
        ids
    }
}

/// What dispatching a frame with header `p` and payload `payload` does to a
/// flow table and to the control link's queue, and what it returns. A
/// terminal frame ends its flow. A `Data` frame queues its payload for the
/// flow's socket; for an unknown flow the client registers it, unconnected,
/// for the origin to be dialed, and the server answers that the flow is
/// disconnected.
pub open spec fn dispatch_post(
    before: Map<Address, ClientStream>,
    before_out: Seq<u8>,
    after: Map<Address, ClientStream>,
    after_out: Seq<u8>,
    p: Packet,
    payload: Seq<u8>,
    side: Side,
    r: Result<Dispatch>,
) -> bool {
    &&& r is Ok ==> after.dom() == dispatched_ids(before.dom(), p, side)
    &&& {
        let known = before.contains_key(p.addr);
        if p.msg.is_terminal() {
            &&& after_out == before_out
            &&& known ==> r == Ok::<Dispatch, Error>(Dispatch::Close(p.addr, Error::spec_from_message(p.msg)))
                && after == before.remove(p.addr)
            &&& !known ==> r == Ok::<Dispatch, Error>(Dispatch::Ignored(p.addr))
                && after == before
        } else if known {
            let c = before[p.addr];
            &&& after_out == before_out
            &&& c.pending().len() + payload.len() <= isize::MAX ==> r == Ok::<Dispatch, Error>(Dispatch::Deliver(p.addr))
                && updated_at(before, after, p.addr)
                && after[p.addr].pending() == c.pending() + payload
                && after[p.addr].connected() == c.connected()
            &&& c.pending().len() + payload.len() > isize::MAX ==> r == Err::<Dispatch, Error>(Error::BufferFull)
                && after == before
        } else if side == Side::Client {
            &&& after_out == before_out
            &&& payload.len() <= isize::MAX ==> r == Ok::<Dispatch, Error>(Dispatch::Dial(p.addr))
                && updated_at(before, after, p.addr)
                && after[p.addr].pending() == payload
                && !after[p.addr].connected()
            &&& payload.len() > isize::MAX ==> r == Err::<Dispatch, Error>(Error::BufferFull)
                && after == before
        } else {
            let answer = header_bytes(Packet { ver: PACKET_VERSION, msg: PacketMessage::Disconnected, addr: p.addr, data_len: 0 });
            &&& after == before
            &&& queued(before_out, answer, after_out)
            &&& before_out.len() + answer.len() <= isize::MAX ==> r == Ok::<Dispatch, Error>(Dispatch::Ignored(p.addr))
            &&& before_out.len() + answer.len() > isize::MAX ==> r == Err::<Dispatch, Error>(Error::BufferFull)
        }
    }
}

/// What draining the control link's input did: the dispatches made, in the
/// order the frames arrived, and the flow whose backlog stopped it, if one
/// did.
pub struct Drained {
    pub actions: Vec<Dispatch>,
    pub blocked_on: Option<Address>,
}

/// A peer's view of its control link: the flow table, the input not yet
/// decoded, and the output queued for the peer.
pub type LinkView = (Map<Address, ClientStream>, Seq<u8>, Seq<u8>);

/// `b` is `a` after taking the frame at the front of `a`'s input and
/// dispatching it with result `r`, as `dispatch_post` states.
pub open spec fn drain_step(a: LinkView, b: LinkView, side: Side, r: Result<Dispatch>) -> bool {
    match frame_decode(a.1, MAX_PAYLOAD) {
        Ok((p, payload, k)) => {
            &&& HEADER_SIZE <= k <= a.1.len()
            &&& b.1 == a.1.subrange(k as int, a.1.len() as int)
            &&& dispatch_post(a.0, a.2, b.0, b.2, p, payload, side, r)
        },
        Err(_) => false,
    }
}

/// Dispatching fails only when a queue would pass `isize::MAX` bytes.
proof fn lemma_dispatch_error(
    before: Map<Address, ClientStream>,
    before_out: Seq<u8>,
    after: Map<Address, ClientStream>,
    after_out: Seq<u8>,
    p: Packet,
    payload: Seq<u8>,
    side: Side,
    e: Error,
)
    requires
        dispatch_post(before, before_out, after, after_out, p, payload, side, Err(e)),
    ensures
        e == Error::BufferFull,
{
}

/// Whether the reader stops after `action` left the link in `state`: it
/// delivered to a flow that now holds a queue's worth of bytes.
pub open spec fn stops_after(action: Dispatch, state: LinkView) -> bool {
    match action {
        Dispatch::Deliver(id) => state.0.contains_key(id) && state.0[id].pending().len()
            >= QUEUE_HIGH_WATER,
        _ => false,
    }
}

/// `trace` holds the states of a link from which `actions` were taken one
/// frame at a time, in arrival order, each with a successful dispatch, and
/// with no stop before the last one.
pub open spec fn drain_trace(trace: Seq<LinkView>, actions: Seq<Dispatch>, side: Side) -> bool {
    &&& trace.len() == actions.len() + 1
    &&& forall|i: int|
        0 <= i < actions.len() ==> #[trigger] drain_step(
            trace[i],
            trace[i + 1],
            side,
            Ok::<Dispatch, Error>(actions[i]),
        )
    &&& forall|i: int| 0 <= i < actions.len() - 1 ==> !stops_after(actions[i], #[trigger] trace[i + 1])
}

/// The flow table of one peer, together with the control link's bytes:
/// those received and not yet decoded, and those queued for the peer.
pub struct TokenStreams {
    map: HashMap<Address, ClientStream>,
    tun_input: BytesMut,
    tunnel: ClientStream,
}

impl TokenStreams {
    /// The live flows, by id.
    pub closed spec fn flows(&self) -> Map<Address, ClientStream> {
        self.map@
    }

    /// Bytes received on the control link and not yet decoded.
    pub closed spec fn input(&self) -> Seq<u8> {
        bytes_of(self.tun_input)
    }

    /// Bytes queued for the control link and not yet written to it.
    pub closed spec fn output(&self) -> Seq<u8> {
        self.tunnel.pending()
    }

    pub fn new() -> (r: TokenStreams)
        ensures
            r.flows() == Map::<Address, ClientStream>::empty(),
            r.input() == Seq::<u8>::empty(),
            r.output() == Seq::<u8>::empty(),
    {
        TokenStreams { map: HashMap::new(), tun_input: BytesMut::new(), tunnel: ClientStream::new() }
    }

    /// Registers a flow; an id that is already live is refused and the table
    /// is left as it was.
    pub fn add(&mut self, addr: Address, client: ClientStream) -> (r: bool)
        ensures
            r == !old(self).flows().contains_key(addr),
            r ==> final(self).flows() == old(self).flows().insert(addr, client),
            !r ==> final(self).flows() == old(self).flows(),
            final(self).input() == old(self).input(),
            final(self).output() == old(self).output(),
    {
        if self.map.contains_key(&addr) {
            return false;
        }
        self.map.insert(addr, client);
        true
    }

    pub fn remove(&mut self, addr: Address)
        ensures
            final(self).flows() == old(self).flows().remove(addr),
            final(self).input() == old(self).input(),
            final(self).output() == old(self).output(),
    {
        self.map.remove(&addr);
    }

    pub fn contains_token(&self, addr: Address) -> (r: bool)
        ensures
            r == self.flows().contains_key(addr),
    {
        self.map.contains_key(&addr)
    }

    /// The number of live flows.
    pub fn len(&self) -> (r: usize)
        ensures
            r == self.flows().len(),
    {
        self.map.len()
    }

    /// Queues `buffer` for the socket of flow `addr`.
    pub fn write(&mut self, addr: Address, buffer: &[u8]) -> (r: Result<()>)
        ensures
            final(self).input() == old(self).input(),
            final(self).output() == old(self).output(),
            !old(self).flows().contains_key(addr) ==> r == Err::<(), Error>(Error::ClientNotFound)
                && final(self).flows() == old(self).flows(),
            old(self).flows().contains_key(addr) && old(self).flows()[addr].pending().len()
                + buffer@.len() > isize::MAX ==> r == Err::<(), Error>(Error::BufferFull)
                && final(self).flows() == old(self).flows(),
            old(self).flows().contains_key(addr) && old(self).flows()[addr].pending().len()
                + buffer@.len() <= isize::MAX ==> r == Ok::<(), Error>(())
                && updated_at(old(self).flows(), final(self).flows(), addr)
                && final(self).flows()[addr].pending() == old(self).flows()[addr].pending() + buffer@
                && final(self).flows()[addr].connected() == old(self).flows()[addr].connected(),
    {
        let fits = match self.map.get(&addr) {
            None => return Err(Error::ClientNotFound),
            Some(c) => {
                let len = c.pending_len();
                len <= isize::MAX as usize && buffer.len() <= isize::MAX as usize - len
            },
        };
        if !fits {
            return Err(Error::BufferFull);
        }
        match self.map.remove(&addr) {
            Some(mut c) => {
                let _ = c.push_data(buffer);
                self.map.insert(addr, c);
                proof {
                    assert(final(self).flows() =~= old(self).flows().insert(addr, final(self).flows()[addr]));
                }
                Ok(())
            },
            None => Err(Error::ClientNotFound),
        }
    }

    /// Queues the terminal frame `msg` for flow `dst` on the control link.
    pub fn write_message(&mut self, dst: Address, msg: PacketMessage) -> (r: Result<()>)
        ensures
            final(self).flows() == old(self).flows(),
            final(self).input() == old(self).input(),
            queued(old(self).output(), header_bytes(Packet { ver: PACKET_VERSION, msg, addr: dst, data_len: 0 }), final(self).output()),
            r is Ok <==> old(self).output().len() + header_bytes(Packet { ver: PACKET_VERSION, msg, addr: dst, data_len: 0 }).len() <= isize::MAX,
            r is Err ==> r == Err::<(), Error>(Error::BufferFull),
    {
        let p = Packet::new_message(dst, msg);
        let hdr = p.encode();
        self.tunnel.push_data(hdr.as_slice())
    }

    /// Queues `data` for flow `dst` on the control link, as `Data` frames of
    /// at most `MAX_PAYLOAD` bytes each. Refused, with nothing queued, when
    /// the queue could pass `isize::MAX` bytes, counting `FRAME_EXPANSION`
    /// bytes on the wire for each byte of `data`.
    pub fn write_packet(&mut self, dst: Address, data: &[u8]) -> (r: Result<()>)
        ensures
            final(self).flows() == old(self).flows(),
            final(self).input() == old(self).input(),
            old(self).output().len() + FRAME_EXPANSION * data@.len() <= isize::MAX ==> r == Ok::<(), Error>(())
                && final(self).output() == old(self).output() + data_frames(dst, data@, MAX_PAYLOAD),
            old(self).output().len() + FRAME_EXPANSION * data@.len() > isize::MAX ==> r == Err::<(), Error>(
                Error::BufferFull,
            ) && final(self).output() == old(self).output(),
    {
        let total = data.len();
        let out_len = self.tunnel.pending_len();
        if out_len > isize::MAX as usize || total > (isize::MAX as usize - out_len) / FRAME_EXPANSION {
            proof {
                let room = isize::MAX - out_len;
                if out_len <= isize::MAX {
                    let k = FRAME_EXPANSION as int;
                    assert(total > room / k ==> k * total > room) by (nonlinear_arith)
                        requires
                            k > 0,
                    ;
                }
            }
            return Err(Error::BufferFull);
        }
        proof {
            let room = isize::MAX - out_len;
            let k = FRAME_EXPANSION as int;
            assert(total <= room / k ==> k * total <= room) by (nonlinear_arith)
                requires
                    k > 0,
            ;
        }
        let ghost start = self.output();
        let mut i: usize = 0;
        assert(data@.subrange(0, total as int) =~= data@);
        while i < total
            invariant
                i <= total,
                total == data@.len(),
                self.flows() == old(self).flows(),
                self.input() == old(self).input(),
                start == old(self).output(),
                self.output() + data_frames(dst, data@.subrange(i as int, total as int), MAX_PAYLOAD)
                    == start + data_frames(dst, data@, MAX_PAYLOAD),
                self.output().len() + FRAME_EXPANSION * (total - i) <= isize::MAX,
            decreases total - i,
        {
            let left = total - i;
            let n: usize = if left < MAX_PAYLOAD as usize { left } else { MAX_PAYLOAD as usize };
            let chunk = slice_subrange(data, i, i + n);
            let header = Packet::new_data(dst, n as u32);
            let bytes = encode_frame(&header, chunk);
            let ghost rem = data@.subrange(i as int, total as int);
            let ghost before = self.output();
            proof {
                assert(rem.subrange(0, n as int) =~= chunk@);
                assert(rem.subrange(n as int, rem.len() as int) =~= data@.subrange(
                    i + n,
                    total as int,
                ));
                if rem.len() <= MAX_PAYLOAD {
                    assert(rem =~= chunk@);
                    assert(data@.subrange(i + n, total as int) =~= Seq::<u8>::empty());
                }
                assert(data_frames(dst, rem, MAX_PAYLOAD) == bytes@ + data_frames(
                    dst,
                    data@.subrange(i + n, total as int),
                    MAX_PAYLOAD,
                ));
            }
            let _ = self.tunnel.push_data(bytes.as_slice());
            i = i + n;
            proof {
                assert(before + data_frames(dst, rem, MAX_PAYLOAD) =~= (before + bytes@)
                    + data_frames(dst, data@.subrange(i as int, total as int), MAX_PAYLOAD));
            }
        }
        proof {
            assert(data@.subrange(total as int, total as int) =~= Seq::<u8>::empty());
            assert(self.output() + Seq::<u8>::empty() =~= self.output());
        }
        Ok(())
    }

    /// Ends flow `addr` from this side: the flow leaves the table and the
    /// terminal frame `msg` is queued for the peer.
    pub fn close_flow(&mut self, addr: Address, msg: PacketMessage) -> (r: Result<()>)
        ensures
            final(self).input() == old(self).input(),
            !old(self).flows().contains_key(addr) ==> r == Err::<(), Error>(Error::ClientNotFound)
                && final(self).flows() == old(self).flows() && final(self).output() == old(self).output(),
            old(self).flows().contains_key(addr) ==> {
                let frame = header_bytes(Packet { ver: PACKET_VERSION, msg, addr, data_len: 0 });
                &&& final(self).flows() == old(self).flows().remove(addr)
                &&& queued(old(self).output(), frame, final(self).output())
                &&& (r is Ok <==> old(self).output().len() + frame.len() <= isize::MAX)
                &&& (r is Err ==> r == Err::<(), Error>(Error::BufferFull))
            },
    {
        if !self.map.contains_key(&addr) {
            return Err(Error::ClientNotFound);
        }
        self.remove(addr);
        self.write_message(addr, msg)
    }

    /// Takes note of a read from the socket of flow `addr`: bytes read go to
    /// the peer as `Data` frames; end of stream or a failure ends the flow
    /// and tells the peer why; a socket that would block changes nothing.
    pub fn read(&mut self, addr: Address, got: Result<&[u8]>) -> (r: Result<usize>)
        ensures
            final(self).input() == old(self).input(),
            !old(self).flows().contains_key(addr) ==> r == Err::<usize, Error>(Error::ClientNotFound)
                && final(self).flows() == old(self).flows() && final(self).output() == old(self).output(),
            old(self).flows().contains_key(addr) ==> match got {
                Ok(d) => if d@.len() > 0 {
                    &&& final(self).flows() == old(self).flows()
                    &&& old(self).output().len() + FRAME_EXPANSION * d@.len() <= isize::MAX ==> r == Ok::<usize, Error>(d@.len() as usize)
                        && final(self).output() == old(self).output() + data_frames(addr, d@, MAX_PAYLOAD)
                    &&& old(self).output().len() + FRAME_EXPANSION * d@.len() > isize::MAX ==> r == Err::<usize, Error>(Error::BufferFull)
                        && final(self).output() == old(self).output()
                } else {
                    &&& r == Err::<usize, Error>(Error::Eof)
                    &&& final(self).flows() == old(self).flows().remove(addr)
                    &&& queued(old(self).output(), header_bytes(Packet { ver: PACKET_VERSION, msg: PacketMessage::Eof, addr, data_len: 0 }), final(self).output())
                },
                Err(Error::Io(IoKind::WouldBlock)) => r == Ok::<usize, Error>(0)
                    && final(self).flows() == old(self).flows() && final(self).output() == old(self).output(),
                Err(e) => {
                    &&& r == Err::<usize, Error>(e)
                    &&& final(self).flows() == old(self).flows().remove(addr)
                    &&& queued(old(self).output(), header_bytes(Packet { ver: PACKET_VERSION, msg: PacketMessage::spec_from_error(e), addr, data_len: 0 }), final(self).output())
                },
            },
    {
        if !self.map.contains_key(&addr) {
            return Err(Error::ClientNotFound);
        }
        match got {
            Ok(d) => {
                if d.len() > 0 {
                    match self.write_packet(addr, d) {
                        Ok(()) => Ok(d.len()),
                        Err(e) => Err(e),
                    }
                } else {
                    let _ = self.close_flow(addr, PacketMessage::Eof);
                    Err(Error::Eof)
                }
            },
            Err(Error::Io(IoKind::WouldBlock)) => Ok(0),
            Err(e) => {
                let msg = PacketMessage::from_error(e);
                let _ = self.close_flow(addr, msg);
                Err(e)
            },
        }
    }

    /// The bytes pending for the socket of flow `addr`.
    pub fn pending(&self, addr: Address) -> (r: Option<&[u8]>)
        ensures
            match r {
                Some(b) => self.flows().contains_key(addr) && b@ == self.flows()[addr].pending(),
                None => !self.flows().contains_key(addr),
            },
    {
        match self.map.get(&addr) {
            Some(c) => Some(c.pending_bytes()),
            None => None,
        }
    }

    /// Takes note of an attempt to write the bytes pending for flow `addr`.
    pub fn flush(&mut self, addr: Address, written: Result<usize>) -> (r: Result<usize>)
        requires
            old(self).flows().contains_key(addr) ==> (written matches Ok(n) ==> n <= old(self).flows()[addr].pending().len()),
        ensures
            final(self).input() == old(self).input(),
            final(self).output() == old(self).output(),
            !old(self).flows().contains_key(addr) ==> r == Err::<usize, Error>(Error::ClientNotFound)
                && final(self).flows() == old(self).flows(),
            old(self).flows().contains_key(addr) ==> updated_at(old(self).flows(), final(self).flows(), addr)
                && flushed(old(self).flows()[addr].pending(), written, final(self).flows()[addr].pending(), r)
                && final(self).flows()[addr].connected() == old(self).flows()[addr].connected(),
    {
        match self.map.remove(&addr) {
            Some(mut c) => {
                let r = c.flush_buffer(written);
                self.map.insert(addr, c);
                proof {
                    assert(final(self).flows() =~= old(self).flows().insert(addr, final(self).flows()[addr]));
                }
                r
            },
            None => Err(Error::ClientNotFound),
        }
    }

    /// Takes note of a probe of the socket of flow `addr`, whose connect was
    /// started. Returns whether it became connected by it.
    pub fn complete_connect(&mut self, addr: Address, probe: ConnectProbe) -> (r: Result<bool>)
        ensures
            final(self).input() == old(self).input(),
            final(self).output() == old(self).output(),
            !old(self).flows().contains_key(addr) ==> r == Err::<bool, Error>(Error::ClientNotFound)
                && final(self).flows() == old(self).flows(),
            old(self).flows().contains_key(addr) ==> {
                let c = old(self).flows()[addr];
                let d = final(self).flows()[addr];
                &&& updated_at(old(self).flows(), final(self).flows(), addr)
                &&& d.pending() == c.pending()
                &&& c.connected() ==> r == Ok::<bool, Error>(false) && d.connected()
                &&& !c.connected() ==> match probe {
                    ConnectProbe::Failed(k) => r == Err::<bool, Error>(Error::Io(k)) && !d.connected(),
                    ConnectProbe::InProgress => r == Ok::<bool, Error>(false) && !d.connected(),
                    ConnectProbe::Connected => r == Ok::<bool, Error>(true) && d.connected(),
                }
            },
    {
        match self.map.remove(&addr) {
            Some(mut c) => {
                let r = c.complete_connect(probe);
                self.map.insert(addr, c);
                proof {
                    assert(final(self).flows() =~= old(self).flows().insert(addr, final(self).flows()[addr]));
                }
                r
            },
            None => Err(Error::ClientNotFound),
        }
    }

    /// The bytes queued for the control link.
    pub fn tunnel_pending(&self) -> (r: &[u8])
        ensures
            r@ == self.output(),
    {
        self.tunnel.pending_bytes()
    }

    /// Takes note of an attempt to write the bytes queued for the control link.
    pub fn flush_tunnel(&mut self, written: Result<usize>) -> (r: Result<usize>)
        requires
            written matches Ok(n) ==> n <= old(self).output().len(),
        ensures
            final(self).flows() == old(self).flows(),
            final(self).input() == old(self).input(),
            flushed(old(self).output(), written, final(self).output(), r),
    {
        self.tunnel.flush_buffer(written)
    }

    /// Acts on a frame received from the peer, as `dispatch_post` states.
    pub fn dispatch(&mut self, frame: Frame, side: Side) -> (r: Result<Dispatch>)
        ensures
            final(self).input() == old(self).input(),
            dispatch_post(old(self).flows(), old(self).output(), final(self).flows(), final(self).output(), frame.header, frame.payload@, side, r),
    {
        let addr = frame.header.addr;
        let known = self.map.contains_key(&addr);
        match frame.header.msg {
            PacketMessage::Data => {
                if known {
                    match self.write(addr, frame.payload.as_slice()) {
                        Ok(()) => {
                            proof {
                                assert(final(self).flows().dom() =~= old(self).flows().dom());
                            }
                            Ok(Dispatch::Deliver(addr))
                        },
                        Err(e) => Err(e),
                    }
                } else {
                    match side {
                        Side::Client => {
                            let mut c = ClientStream::new();
                            match c.push_data(frame.payload.as_slice()) {
                                Ok(()) => {},
                                Err(e) => return Err(e),
                            }
                            self.add(addr, c);
                            proof {
                                assert(final(self).flows() =~= old(self).flows().insert(addr, final(self).flows()[addr]));
                                assert(final(self).flows().dom() =~= old(self).flows().dom().insert(addr));
                            }
                            Ok(Dispatch::Dial(addr))
                        },
                        Side::Server => {
                            match self.write_message(addr, PacketMessage::Disconnected) {
                                Ok(()) => Ok(Dispatch::Ignored(addr)),
                                Err(e) => Err(e),
                            }
                        },
                    }
                }
            },
            msg => {
                if known {
                    self.remove(addr);
                    proof {
                        assert(final(self).flows().dom() =~= old(self).flows().dom().remove(addr));
                    }
                    Ok(Dispatch::Close(addr, Error::from_message(&msg)))
                } else {
                    proof {
                        assert(old(self).flows().dom() =~= old(self).flows().dom().remove(addr));
                    }
                    Ok(Dispatch::Ignored(addr))
                }
            },
        }
    }

    /// Whether the flows' sockets may be read: the control link's queue is
    /// below its high-water mark. Past it, reading waits until the link has
    /// taken some of the queue.
    pub fn may_read_flows(&self) -> (r: bool)
        ensures
            r == (self.output().len() < QUEUE_HIGH_WATER),
    {
        self.tunnel.pending_len() < QUEUE_HIGH_WATER
    }

    /// Whether flow `addr` holds a queue's worth of bytes not yet taken by
    /// its socket. While one does, the control link is not read: every flow
    /// waits for the slowest one.
    pub fn backlogged(&self, addr: Address) -> (r: bool)
        ensures
            r == (self.flows().contains_key(addr) && self.flows()[addr].pending().len() >= QUEUE_HIGH_WATER),
    {
        match self.map.get(&addr) {
            Some(c) => c.pending_len() >= QUEUE_HIGH_WATER,
            None => false,
        }
    }

    /// Appends bytes received on the control link to the input not yet
    /// decoded.
    pub fn flush_read(&mut self, data: &[u8]) -> (r: Result<()>)
        ensures
            final(self).flows() == old(self).flows(),
            final(self).output() == old(self).output(),
            queued(old(self).input(), data@, final(self).input()),
            r is Ok <==> old(self).input().len() + data@.len() <= isize::MAX,
            r is Err ==> r == Err::<(), Error>(Error::BufferFull),
    {
        let len = self.tun_input.len();
        if len > isize::MAX as usize || data.len() > isize::MAX as usize - len {
            return Err(Error::BufferFull);
        }
        self.tun_input.extend_from_slice(data);
        Ok(())
    }

    /// Takes the next whole frame off the control link's input and acts on
    /// it, as `dispatch_post` states. Nothing is taken when the input holds
    /// no whole frame yet (`Empty`, `NotEnoughData`), or a corrupt one.
    pub fn read_packet(&mut self, side: Side) -> (r: Result<Dispatch>)
        ensures
            match frame_decode(old(self).input(), MAX_PAYLOAD) {
                Ok((p, payload, k)) => {
                    &&& HEADER_SIZE <= k <= old(self).input().len()
                    &&& final(self).input() == old(self).input().subrange(k as int, old(self).input().len() as int)
                    &&& dispatch_post(old(self).flows(), old(self).output(), final(self).flows(), final(self).output(), p, payload, side, r)
                },
                Err(e) => {
                    &&& r == Err::<Dispatch, Error>(e)
                    &&& final(self).input() == old(self).input()
                    &&& final(self).flows() == old(self).flows()
                    &&& final(self).output() == old(self).output()
                },
            },
    {
        let decoded = decode_frame(as_slice(&self.tun_input), MAX_PAYLOAD);
        match decoded {
            Ok((f, n)) => {
                proof {
                    reveal(frame_decode);
                }
                advance(&mut self.tun_input, n);
                self.dispatch(f, side)
            },
            Err(e) => Err(e),
        }
    }

    /// The flow table, the input not yet decoded and the queued output.
    pub open spec fn link(&self) -> LinkView {
        (self.flows(), self.input(), self.output())
    }

    /// Takes and acts on every whole frame of the control link's input, in
    /// arrival order, as `read_packet` does one at a time (`drain_trace`). It
    /// stops when no whole frame is left, or after delivering to a flow that
    /// then holds a queue's worth of bytes (`stops_after`): the link then
    /// waits for that flow. A corrupt frame at the front of what is left is
    /// an error that ends the link, and so is a queue past `isize::MAX` bytes.
    pub fn drain_input(&mut self, side: Side) -> (r: Result<Drained>)
        ensures
            match r {
                Ok(d) => exists|trace: Seq<LinkView>| {
                    &&& #[trigger] drain_trace(trace, d.actions@, side)
                    &&& trace[0] == old(self).link()
                    &&& trace.last() == final(self).link()
                    &&& match d.blocked_on {
                        None => frame_decode(final(self).input(), MAX_PAYLOAD) matches Err(e)
                            && e.spec_is_incomplete(),
                        Some(id) => {
                            &&& d.actions@.len() > 0
                            &&& d.actions@.last() == Dispatch::Deliver(id)
                            &&& stops_after(d.actions@.last(), final(self).link())
                        },
                    }
                },
                Err(e) => exists|trace: Seq<LinkView>, actions: Seq<Dispatch>| {
                    &&& #[trigger] drain_trace(trace, actions, side)
                    &&& trace[0] == old(self).link()
                    &&& {
                        ||| trace.last() == final(self).link() && frame_decode(final(self).input(), MAX_PAYLOAD)
                            == Err::<(Packet, Seq<u8>, nat), Error>(e) && !e.spec_is_incomplete()
                        ||| e == Error::BufferFull && drain_step(trace.last(), final(self).link(), side, Err(e))
                    }
                },
            },
    {
        let mut actions: Vec<Dispatch> = Vec::new();
        let ghost mut trace: Seq<LinkView> = seq![self.link()];
        loop
            invariant
                drain_trace(trace, actions@, side),
                trace[0] == old(self).link(),
                trace.last() == self.link(),
                actions@.len() > 0 ==> !stops_after(actions@.last(), self.link()),
            decreases self.input().len(),
        {
            let ghost before = self.link();
            let step = self.read_packet(side);
            match step {
                Ok(a) => {
                    let ghost prev = trace;
                    actions.push(a);
                    proof {
                        trace = trace.push(self.link());
                        assert forall|i: int| 0 <= i < actions@.len() implies #[trigger] drain_step(
                            trace[i],
                            trace[i + 1],
                            side,
                            Ok::<Dispatch, Error>(actions@[i]),
                        ) by {
                            if i < actions@.len() - 1 {
                                assert(trace[i] == prev[i]);
                                assert(trace[i + 1] == prev[i + 1]);
                            }
                        }
                        assert forall|i: int| 0 <= i < actions@.len() - 1 implies !stops_after(
                            actions@[i],
                            #[trigger] trace[i + 1],
                        ) by {
                            assert(trace[i + 1] == prev[i + 1]);
                        }
                    }
                    if let Dispatch::Deliver(id) = a {
                        if self.backlogged(id) {
                            proof {
                                assert(drain_trace(trace, actions@, side));
                                assert(stops_after(actions@.last(), self.link()));
                            }
                            let d = Drained { actions, blocked_on: Some(id) };
                            proof {
                                assert(drain_trace(trace, d.actions@, side));
                            }
                            return Ok(d);
                        }
                    }
                },
                Err(e) => {
                    proof {
                        if frame_decode(before.1, MAX_PAYLOAD) is Ok {
                            let (p, payload, k) = frame_decode(before.1, MAX_PAYLOAD)->Ok_0;
                            lemma_dispatch_error(before.0, before.2, self.flows(), self.output(), p, payload, side, e);
                        }
                    }
                    if e.is_incomplete() {
                        proof {
                            assert(self.link() == before);
                            assert(drain_trace(trace, actions@, side));
                            assert(frame_decode(self.input(), MAX_PAYLOAD) == Err::<(Packet, Seq<u8>, nat), Error>(e));
                        }
                        let d = Drained { actions, blocked_on: None };
                        proof {
                            assert(drain_trace(trace, d.actions@, side));
                        }
                        return Ok(d);
                    }
                    proof {
                        assert(drain_trace(trace, actions@, side));
                    }
                    return Err(e);
                },
            }
        }
    }
}


/// Cleanup: a flow that ends on one peer, by end of stream or any failure,
/// queues a terminal frame for it (see `read` and `close_flow`). The other
/// peer, whichever side it is, reads that frame back whole, whatever follows
/// it, and dispatching it leaves no entry for the flow in that peer's table
/// and nothing else changed.
pub proof fn lemma_cleanup(
    before: Map<Address, ClientStream>,
    before_out: Seq<u8>,
    after: Map<Address, ClientStream>,
    after_out: Seq<u8>,
    addr: Address,
    msg: PacketMessage,
    rest: Seq<u8>,
    side: Side,
    r: Result<Dispatch>,
)
    requires
        msg.is_terminal(),
        dispatch_post(before, before_out, after, after_out, Packet { ver: PACKET_VERSION, msg, addr, data_len: 0 }, Seq::empty(), side, r),
    ensures
        forall|e: Error| #[trigger] PacketMessage::spec_from_error(e).is_terminal(),
        PacketMessage::Eof.is_terminal(),
        ({
            let p = Packet { ver: PACKET_VERSION, msg, addr, data_len: 0 };
            frame_decode(header_bytes(p) + rest, MAX_PAYLOAD) == Ok::<(Packet, Seq<u8>, nat), Error>(
                (p, Seq::<u8>::empty(), HEADER_SIZE as nat),
            )
        }),
        r is Ok,
        !after.contains_key(addr),
        after == before.remove(addr),
        after_out == before_out,
{
    let p = Packet { ver: PACKET_VERSION, msg, addr, data_len: 0 };
    lemma_frame_round_trip(p, Seq::empty(), rest, MAX_PAYLOAD);
    assert(frame_bytes(p, Seq::empty()) =~= header_bytes(p));
    if !before.contains_key(addr) {
        assert(before.remove(addr) =~= before);
    }
}

} // verus!

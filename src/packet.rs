//! The wire format of the control link: frame kinds, headers, whole frames,
//! and the laws that tie encoding and decoding together.
use vstd::prelude::*;

use vstd::slice::{slice_subrange, slice_to_vec};

use crate::error::{Error, IoKind, Result};

verus! {

/// Protocol tag carried in the first header byte.
pub const PACKET_VERSION: u8 = 1;

/// Length of the header fields that follow the length prefix.
pub const HEADER_LEN: u32 = 14;

/// Largest header length a decoder accepts.
pub const MAX_HEADER_LEN: u32 = 64;

/// Bytes of a frame that carry no payload: the length prefix and the header.
pub const HEADER_SIZE: usize = 18;

/// A frame with `n >= 1` payload bytes takes at most this many bytes per
/// payload byte on the wire: `HEADER_SIZE + n <= 19 * n`.
pub const FRAME_EXPANSION: usize = 19;

/// Default bound on the payload of one frame.
pub const MAX_PAYLOAD: u32 = 8192;

/// Identifier of a flow on the control link.
pub type Address = u64;

// ---------------------------------------------------------------------------
// Big-endian integers
// ---------------------------------------------------------------------------

pub open spec fn u32_be_bytes(v: u32) -> Seq<u8> {
    seq![(v >> 24u32) as u8, (v >> 16u32) as u8, (v >> 8u32) as u8, v as u8]
}

pub open spec fn u64_be_bytes(v: u64) -> Seq<u8> {
    seq![
        (v >> 56u64) as u8,
        (v >> 48u64) as u8,
        (v >> 40u64) as u8,
        (v >> 32u64) as u8,
        (v >> 24u64) as u8,
        (v >> 16u64) as u8,
        (v >> 8u64) as u8,
        v as u8,
    ]
}

/// The big-endian `u32` held by the four bytes of `s` that start at `at`.
pub open spec fn u32_at(s: Seq<u8>, at: int) -> u32 {
    ((s[at] as u32) << 24u32) | ((s[at + 1] as u32) << 16u32) | ((s[at + 2] as u32) << 8u32) | (
    s[at + 3] as u32)
}

/// The big-endian `u64` held by the eight bytes of `s` that start at `at`.
pub open spec fn u64_at(s: Seq<u8>, at: int) -> u64 {
    ((s[at] as u64) << 56u64) | ((s[at + 1] as u64) << 48u64) | ((s[at + 2] as u64) << 40u64) | ((
    s[at + 3] as u64) << 32u64) | ((s[at + 4] as u64) << 24u64) | ((s[at + 5] as u64) << 16u64) | ((
    s[at + 6] as u64) << 8u64) | (s[at + 7] as u64)
}

pub proof fn lemma_u32_round_trip(pre: Seq<u8>, v: u32, post: Seq<u8>)
    ensures
        u32_at(pre + u32_be_bytes(v) + post, pre.len() as int) == v,
{
    let s = pre + u32_be_bytes(v) + post;
    let n = pre.len() as int;
    assert(s[n] == (v >> 24u32) as u8);
    assert(s[n + 1] == (v >> 16u32) as u8);
    assert(s[n + 2] == (v >> 8u32) as u8);
    assert(s[n + 3] == v as u8);
    assert(((((v >> 24u32) as u8) as u32) << 24u32) | ((((v >> 16u32) as u8) as u32) << 16u32) | ((((
    v >> 8u32) as u8) as u32) << 8u32) | ((v as u8) as u32) == v) by (bit_vector);
}

pub proof fn lemma_u64_round_trip(pre: Seq<u8>, v: u64, post: Seq<u8>)
    ensures
        u64_at(pre + u64_be_bytes(v) + post, pre.len() as int) == v,
{
    let s = pre + u64_be_bytes(v) + post;
    let n = pre.len() as int;
    assert(s[n] == (v >> 56u64) as u8);
    assert(s[n + 1] == (v >> 48u64) as u8);
    assert(s[n + 2] == (v >> 40u64) as u8);
    assert(s[n + 3] == (v >> 32u64) as u8);
    assert(s[n + 4] == (v >> 24u64) as u8);
    assert(s[n + 5] == (v >> 16u64) as u8);
    assert(s[n + 6] == (v >> 8u64) as u8);
    assert(s[n + 7] == v as u8);
    assert(((((v >> 56u64) as u8) as u64) << 56u64) | ((((v >> 48u64) as u8) as u64) << 48u64) | ((((
    v >> 40u64) as u8) as u64) << 40u64) | ((((v >> 32u64) as u8) as u64) << 32u64) | ((((v
        >> 24u64) as u8) as u64) << 24u64) | ((((v >> 16u64) as u8) as u64) << 16u64) | ((((v
        >> 8u64) as u8) as u64) << 8u64) | ((v as u8) as u64) == v) by (bit_vector);
}

fn push_u32_be(out: &mut Vec<u8>, v: u32)
    ensures
        final(out)@ == old(out)@ + u32_be_bytes(v),
{
    out.push((v >> 24u32) as u8);
    out.push((v >> 16u32) as u8);
    out.push((v >> 8u32) as u8);
    out.push(v as u8);
    assert(final(out)@ =~= old(out)@ + u32_be_bytes(v));
}

fn push_u64_be(out: &mut Vec<u8>, v: u64)
    ensures
        final(out)@ == old(out)@ + u64_be_bytes(v),
{
    out.push((v >> 56u64) as u8);
    out.push((v >> 48u64) as u8);
    out.push((v >> 40u64) as u8);
    out.push((v >> 32u64) as u8);
    out.push((v >> 24u64) as u8);
    out.push((v >> 16u64) as u8);
    out.push((v >> 8u64) as u8);
    out.push(v as u8);
    assert(final(out)@ =~= old(out)@ + u64_be_bytes(v));
}

fn read_u32_be(buf: &[u8], at: usize) -> (r: u32)
    requires
        at + 4 <= buf@.len(),
    ensures
        r == u32_at(buf@, at as int),
{
    ((buf[at] as u32) << 24u32) | ((buf[at + 1] as u32) << 16u32) | ((buf[at + 2] as u32) << 8u32)
        | (buf[at + 3] as u32)
}

fn read_u64_be(buf: &[u8], at: usize) -> (r: u64)
    requires
        at + 8 <= buf@.len(),
    ensures
        r == u64_at(buf@, at as int),
{
    ((buf[at] as u64) << 56u64) | ((buf[at + 1] as u64) << 48u64) | ((buf[at + 2] as u64) << 40u64)
        | ((buf[at + 3] as u64) << 32u64) | ((buf[at + 4] as u64) << 24u64) | ((buf[at + 5] as u64)
        << 16u64) | ((buf[at + 6] as u64) << 8u64) | (buf[at + 7] as u64)
}


// ---------------------------------------------------------------------------
// Frame kinds
// ---------------------------------------------------------------------------

/// What a frame tells the peer about its flow. `Data` carries payload; every
/// other kind ends the flow and carries none.
#[derive(Clone, Copy, Debug, PartialEq, Eq, Structural)]
pub enum PacketMessage {
    Data,
    ConnectionRefused,
    Disconnected,
    Eof,
    ReadFailure,
    WriteFailure,
    IoFailure,
}

impl PacketMessage {
    /// The byte that stands for this kind on the wire.
    pub open spec fn tag(self) -> u8 {
        match self {
            PacketMessage::Data => 0,
            PacketMessage::ConnectionRefused => 1,
            PacketMessage::Disconnected => 2,
            PacketMessage::Eof => 3,
            PacketMessage::ReadFailure => 4,
            PacketMessage::WriteFailure => 5,
            PacketMessage::IoFailure => 6,
        }
    }

    /// The kind whose tag is `v`, for `v` at most 6.
    pub open spec fn of_tag(v: u8) -> PacketMessage {
        if v == 0 {
            PacketMessage::Data
        } else if v == 1 {
            PacketMessage::ConnectionRefused
        } else if v == 2 {
            PacketMessage::Disconnected
        } else if v == 3 {
            PacketMessage::Eof
        } else if v == 4 {
            PacketMessage::ReadFailure
        } else if v == 5 {
            PacketMessage::WriteFailure
        } else {
            PacketMessage::IoFailure
        }
    }

    /// Kinds that end the flow they name.
    pub open spec fn is_terminal(self) -> bool {
        self != PacketMessage::Data
    }

    pub fn to_u8(&self) -> (r: u8)
        ensures
            r == self.tag(),
    {
        match self {
            PacketMessage::Data => 0,
            PacketMessage::ConnectionRefused => 1,
            PacketMessage::Disconnected => 2,
            PacketMessage::Eof => 3,
            PacketMessage::ReadFailure => 4,
            PacketMessage::WriteFailure => 5,
            PacketMessage::IoFailure => 6,
        }
    }

    /// The kind whose wire tag is `value`; an unknown tag is refused.
    pub fn try_from(value: u8) -> (r: Result<PacketMessage>)
        ensures
            value <= 6 ==> r == Ok::<PacketMessage, Error>(PacketMessage::of_tag(value)),
            value > 6 ==> r == Err::<PacketMessage, Error>(Error::InvalidMessageType { msg: value }),
    {
        match value {
            0 => Ok(PacketMessage::Data),
            1 => Ok(PacketMessage::ConnectionRefused),
            2 => Ok(PacketMessage::Disconnected),
            3 => Ok(PacketMessage::Eof),
            4 => Ok(PacketMessage::ReadFailure),
            5 => Ok(PacketMessage::WriteFailure),
            6 => Ok(PacketMessage::IoFailure),
            _ => Err(Error::InvalidMessageType { msg: value }),
        }
    }
}

impl PacketMessage {
    /// The terminal kind that reports `e` to the peer.
    pub open spec fn spec_from_error(e: Error) -> PacketMessage {
        match e {
            Error::Eof => PacketMessage::Eof,
            Error::ConnectionRefused => PacketMessage::ConnectionRefused,
            Error::Io(IoKind::ConnectionRefused) => PacketMessage::ConnectionRefused,
            Error::ReadFailure => PacketMessage::ReadFailure,
            Error::Io(_) => PacketMessage::Disconnected,
            _ => PacketMessage::IoFailure,
        }
    }

    pub fn from_error(e: Error) -> (r: PacketMessage)
        ensures
            r == PacketMessage::spec_from_error(e),
            r.is_terminal(),
    {
        match e {
            Error::Eof => PacketMessage::Eof,
            Error::ConnectionRefused => PacketMessage::ConnectionRefused,
            Error::Io(IoKind::ConnectionRefused) => PacketMessage::ConnectionRefused,
            Error::ReadFailure => PacketMessage::ReadFailure,
            Error::Io(_) => PacketMessage::Disconnected,
            _ => PacketMessage::IoFailure,
        }
    }
}

impl Error {
    /// The error that a terminal frame of kind `m` reports for its flow.
    pub open spec fn spec_from_message(m: PacketMessage) -> Error {
        match m {
            PacketMessage::ConnectionRefused => Error::ConnectionRefused,
            PacketMessage::Eof => Error::Eof,
            _ => Error::IoError,
        }
    }

    pub fn from_message(m: &PacketMessage) -> (r: Error)
        ensures
            r == Error::spec_from_message(*m),
    {
        match m {
            PacketMessage::ConnectionRefused => Error::ConnectionRefused,
            PacketMessage::Eof => Error::Eof,
            _ => Error::IoError,
        }
    }
}

pub proof fn lemma_tag_round_trip(m: PacketMessage)
    ensures
        m.tag() <= 6,
        PacketMessage::of_tag(m.tag()) == m,
{
}

// ---------------------------------------------------------------------------
// Frame header
// ---------------------------------------------------------------------------

/// The header of one frame: protocol version, kind, flow id and the length of
/// the payload that follows it.
#[derive(Clone, Copy, Debug, PartialEq, Eq, Structural)]
pub struct Packet {
    pub ver: u8,
    pub msg: PacketMessage,
    pub addr: Address,
    pub data_len: u32,
}

/// The bytes of a header on the wire: the big-endian header length, then
/// version, kind tag, flow id and payload length.
pub open spec fn header_bytes(p: Packet) -> Seq<u8> {
    u32_be_bytes(HEADER_LEN) + seq![p.ver, p.msg.tag()] + u64_be_bytes(p.addr) + u32_be_bytes(
        p.data_len,
    )
}

/// What reading a header from the front of `buf` gives. Until the whole
/// header is there the result is `Empty`.
pub open spec fn header_decode(buf: Seq<u8>) -> Result<Packet> {
    if buf.len() < HEADER_SIZE {
        Err(Error::Empty)
    } else if u32_at(buf, 0) > MAX_HEADER_LEN {
        Err(Error::HeaderTooLarge { len: u32_at(buf, 0) })
    } else if u32_at(buf, 0) < HEADER_LEN {
        Err(Error::HeaderTooSmall { len: u32_at(buf, 0) })
    } else if buf.len() < 4 + u32_at(buf, 0) {
        Err(Error::Empty)
    } else if buf[4] != PACKET_VERSION {
        Err(Error::InvalidVersion { expected: PACKET_VERSION, actual: buf[4] })
    } else if buf[5] > 6 {
        Err(Error::InvalidMessageType { msg: buf[5] })
    } else {
        Ok(
            Packet {
                ver: buf[4],
                msg: PacketMessage::of_tag(buf[5]),
                addr: u64_at(buf, 6),
                data_len: u32_at(buf, 14),
            },
        )
    }
}

impl Packet {
    pub fn new(addr: Address, msg: PacketMessage, data_len: u32) -> (r: Packet)
        ensures
            r == (Packet { ver: PACKET_VERSION, msg, addr, data_len }),
    {
        Packet { ver: PACKET_VERSION, msg, addr, data_len }
    }

    pub fn new_data(addr: Address, data_len: u32) -> (r: Packet)
        ensures
            r == (Packet { ver: PACKET_VERSION, msg: PacketMessage::Data, addr, data_len }),
    {
        Packet { ver: PACKET_VERSION, msg: PacketMessage::Data, addr, data_len }
    }

    pub fn new_message(addr: Address, msg: PacketMessage) -> (r: Packet)
        ensures
            r == (Packet { ver: PACKET_VERSION, msg, addr, data_len: 0 }),
    {
        Packet { ver: PACKET_VERSION, msg, addr, data_len: 0 }
    }

    /// The header's bytes, length prefix included.
    pub fn encode(&self) -> (r: Vec<u8>)
        ensures
            r@ == header_bytes(*self),
            r@.len() == HEADER_SIZE,
    {
        let mut out: Vec<u8> = Vec::new();
        push_u32_be(&mut out, HEADER_LEN);
        out.push(self.ver);
        out.push(self.msg.to_u8());
        push_u64_be(&mut out, self.addr);
        push_u32_be(&mut out, self.data_len);
        assert(out@ =~= header_bytes(*self));
        out
    }

    /// Reads the header of the frame at the front of `buf`. The frame is
    /// checked whole, as `decode_frame` checks it with the default payload
    /// bound: version, kind, payload only on `Data`, payload within
    /// `MAX_PAYLOAD`, and all of the payload present.
    pub fn from_buffer(buf: &[u8]) -> (r: Result<Packet>)
        ensures
            r == (match frame_decode(buf@, MAX_PAYLOAD) {
                Ok((p, _, _)) => Ok::<Packet, Error>(p),
                Err(e) => Err::<Packet, Error>(e),
            }),
    {
        match check_frame(buf, MAX_PAYLOAD) {
            Ok((p, _, _)) => Ok(p),
            Err(e) => Err(e),
        }
    }
}

/// Reads the header at the front of `buf`, checking its length prefix,
/// version and kind.
fn read_header(buf: &[u8]) -> (r: Result<Packet>)
    ensures
        r == header_decode(buf@),
{
    if buf.len() < HEADER_SIZE {
        return Err(Error::Empty);
    }
    let header_len = read_u32_be(buf, 0);
    if header_len > MAX_HEADER_LEN {
        return Err(Error::HeaderTooLarge { len: header_len });
    }
    if header_len < HEADER_LEN {
        return Err(Error::HeaderTooSmall { len: header_len });
    }
    if buf.len() < 4 + header_len as usize {
        return Err(Error::Empty);
    }
    let ver = buf[4];
    if ver != PACKET_VERSION {
        return Err(Error::InvalidVersion { expected: PACKET_VERSION, actual: ver });
    }
    let msg = match PacketMessage::try_from(buf[5]) {
        Ok(m) => m,
        Err(e) => return Err(e),
    };
    let addr = read_u64_be(buf, 6);
    let data_len = read_u32_be(buf, 14);
    Ok(Packet { ver, msg, addr, data_len })
}


// ---------------------------------------------------------------------------
// Frames
// ---------------------------------------------------------------------------

/// One unit on the control link: a header and the payload it announces.
pub struct Frame {
    pub header: Packet,
    pub payload: Vec<u8>,
}

/// The bytes of a whole frame on the wire.
pub open spec fn frame_bytes(p: Packet, payload: Seq<u8>) -> Seq<u8> {
    header_bytes(p) + payload
}

#[verifier::opaque]
/// What reading one frame from the front of `buf` gives: its header, its
/// payload and the number of bytes it takes, or the reason it is refused.
pub open spec fn frame_decode(buf: Seq<u8>, max_payload: u32) -> Result<(Packet, Seq<u8>, nat)> {
    match header_decode(buf) {
        Err(e) => Err(e),
        Ok(p) => {
            let start = 4 + u32_at(buf, 0);
            if p.data_len > max_payload {
                Err(Error::PayloadTooLarge { limit: max_payload, len: p.data_len })
            } else if p.msg != PacketMessage::Data && p.data_len != 0 {
                Err(Error::UnexpectedPayload { len: p.data_len })
            } else if buf.len() < start + p.data_len {
                Err(Error::NotEnoughData)
            } else {
                Ok((p, buf.subrange(start, start + p.data_len), (start + p.data_len) as nat))
            }
        },
    }
}

/// The bytes of the frame with header `header` and payload `payload`.
pub fn encode_frame(header: &Packet, payload: &[u8]) -> (r: Vec<u8>)
    requires
        payload@.len() == header.data_len,
    ensures
        r@ == frame_bytes(*header, payload@),
{
    let mut out = header.encode();
    let mut body = slice_to_vec(payload);
    out.append(&mut body);
    out
}

/// Reads one frame from the front of `buf`. A frame whose header is not all
/// there yet gives `Empty`; one whose header is there but not all of its
/// payload gives `NotEnoughData`. In both cases the caller waits for more
/// bytes. Every other error means the stream is corrupt.
pub fn decode_frame(buf: &[u8], max_payload: u32) -> (r: Result<(Frame, usize)>)
    ensures
        match r {
            Ok((f, n)) => frame_decode(buf@, max_payload) == Ok::<(Packet, Seq<u8>, nat), Error>(
                (f.header, f.payload@, n as nat),
            ),
            Err(e) => frame_decode(buf@, max_payload) == Err::<(Packet, Seq<u8>, nat), Error>(e),
        },
{
    match check_frame(buf, max_payload) {
        Ok((p, start, end)) => {
            let payload = slice_to_vec(slice_subrange(buf, start, end));
            Ok((Frame { header: p, payload }, end))
        },
        Err(e) => Err(e),
    }
}

/// Checks the frame at the front of `buf` and locates its payload.
fn check_frame(buf: &[u8], max_payload: u32) -> (r: Result<(Packet, usize, usize)>)
    ensures
        match r {
            Ok((p, start, end)) => start <= end <= buf@.len() && frame_decode(buf@, max_payload)
                == Ok::<(Packet, Seq<u8>, nat), Error>(
                (p, buf@.subrange(start as int, end as int), end as nat),
            ),
            Err(e) => frame_decode(buf@, max_payload) == Err::<(Packet, Seq<u8>, nat), Error>(e),
        },
{
    proof {
        reveal(frame_decode);
    }
    let p = match read_header(buf) {
        Ok(p) => p,
        Err(e) => return Err(e),
    };
    let start = 4 + read_u32_be(buf, 0) as usize;
    if p.data_len > max_payload {
        return Err(Error::PayloadTooLarge { limit: max_payload, len: p.data_len });
    }
    if p.msg != PacketMessage::Data && p.data_len != 0 {
        return Err(Error::UnexpectedPayload { len: p.data_len });
    }
    if buf.len() - start < p.data_len as usize {
        return Err(Error::NotEnoughData);
    }
    Ok((p, start, start + p.data_len as usize))
}

// ---------------------------------------------------------------------------
// Laws of the codec
// ---------------------------------------------------------------------------

proof fn lemma_header_fields(p: Packet, tail: Seq<u8>)
    ensures
        ({
            let buf = header_bytes(p) + tail;
            &&& buf.len() == HEADER_SIZE + tail.len()
            &&& u32_at(buf, 0) == HEADER_LEN
            &&& buf[4] == p.ver
            &&& buf[5] == p.msg.tag()
            &&& u64_at(buf, 6) == p.addr
            &&& u32_at(buf, 14) == p.data_len
            &&& buf.subrange(HEADER_SIZE as int, buf.len() as int) == tail
        }),
{
    let buf = header_bytes(p) + tail;
    let two = seq![p.ver, p.msg.tag()];
    let a = u32_be_bytes(HEADER_LEN);
    let b = u64_be_bytes(p.addr);
    let c = u32_be_bytes(p.data_len);
    assert(buf =~= Seq::<u8>::empty() + a + (two + b + c + tail));
    lemma_u32_round_trip(Seq::<u8>::empty(), HEADER_LEN, two + b + c + tail);
    assert(buf =~= (a + two) + b + (c + tail));
    lemma_u64_round_trip(a + two, p.addr, c + tail);
    assert(buf =~= (a + two + b) + c + tail);
    lemma_u32_round_trip(a + two + b, p.data_len, tail);
    assert(buf.subrange(HEADER_SIZE as int, buf.len() as int) =~= tail);
}

/// Decoding what was encoded gives back the same frame, whatever bytes follow
/// it: a well-formed frame (current version, payload within the bound, and
/// payload only on `Data`) is read back whole and takes exactly its own bytes.
pub proof fn lemma_frame_round_trip(p: Packet, payload: Seq<u8>, rest: Seq<u8>, max_payload: u32)
    requires
        p.ver == PACKET_VERSION,
        payload.len() == p.data_len,
        p.data_len <= max_payload,
        p.msg == PacketMessage::Data || p.data_len == 0,
    ensures
        frame_decode(frame_bytes(p, payload) + rest, max_payload) == Ok::<
            (Packet, Seq<u8>, nat),
            Error,
        >((p, payload, (HEADER_SIZE + payload.len()) as nat)),
{
    reveal(frame_decode);
    let buf = frame_bytes(p, payload) + rest;
    assert(buf =~= header_bytes(p) + (payload + rest));
    lemma_header_fields(p, payload + rest);
    lemma_tag_round_trip(p.msg);
    assert(header_decode(buf) == Ok::<Packet, Error>(p));
    assert(buf.subrange(HEADER_SIZE as int, HEADER_SIZE + payload.len()) =~= payload);
}

/// A frame of any kind other than `Data` that announces a payload is refused.
pub proof fn lemma_payload_only_on_data(p: Packet, payload: Seq<u8>, rest: Seq<u8>, max_payload: u32)
    requires
        p.ver == PACKET_VERSION,
        payload.len() == p.data_len,
        p.data_len <= max_payload,
        p.msg != PacketMessage::Data,
        p.data_len != 0,
    ensures
        frame_decode(frame_bytes(p, payload) + rest, max_payload) == Err::<
            (Packet, Seq<u8>, nat),
            Error,
        >(Error::UnexpectedPayload { len: p.data_len }),
{
    reveal(frame_decode);
    let buf = frame_bytes(p, payload) + rest;
    assert(buf =~= header_bytes(p) + (payload + rest));
    lemma_header_fields(p, payload + rest);
    lemma_tag_round_trip(p.msg);
    assert(header_decode(buf) == Ok::<Packet, Error>(p));
}

/// A frame whose version byte is not the current version is refused with
/// `InvalidVersion`, whatever else it holds.
pub proof fn lemma_version_gate(p: Packet, payload: Seq<u8>, rest: Seq<u8>, max_payload: u32)
    requires
        p.ver != PACKET_VERSION,
    ensures
        frame_decode(frame_bytes(p, payload) + rest, max_payload) == Err::<
            (Packet, Seq<u8>, nat),
            Error,
        >(Error::InvalidVersion { expected: PACKET_VERSION, actual: p.ver }),
{
    reveal(frame_decode);
    let buf = frame_bytes(p, payload) + rest;
    assert(buf =~= header_bytes(p) + (payload + rest));
    lemma_header_fields(p, payload + rest);
}

/// A frame that announces more payload than the decoder's bound is refused
/// with `PayloadTooLarge` before any of its payload is awaited.
pub proof fn lemma_oversized_payload(p: Packet, tail: Seq<u8>, max_payload: u32)
    requires
        p.ver == PACKET_VERSION,
        p.data_len > max_payload,
    ensures
        frame_decode(header_bytes(p) + tail, max_payload) == Err::<(Packet, Seq<u8>, nat), Error>(
            Error::PayloadTooLarge { limit: max_payload, len: p.data_len },
        ),
{
    reveal(frame_decode);
    lemma_header_fields(p, tail);
    lemma_tag_round_trip(p.msg);
    assert(header_decode(header_bytes(p) + tail) == Ok::<Packet, Error>(p));
}


// ---------------------------------------------------------------------------
// Streams of frames
// ---------------------------------------------------------------------------

/// The `Data` frames that carry `data` for flow `addr`, cut in chunks of
/// `max_payload` bytes, the last one possibly shorter.
pub open spec fn data_frames(addr: Address, data: Seq<u8>, max_payload: u32) -> Seq<u8>
    decreases data.len(),
{
    if data.len() == 0 || max_payload == 0 {
        Seq::empty()
    } else if data.len() <= max_payload {
        frame_bytes(Packet { ver: PACKET_VERSION, msg: PacketMessage::Data, addr, data_len: data.len() as u32 }, data)
    } else {
        frame_bytes(
            Packet { ver: PACKET_VERSION, msg: PacketMessage::Data, addr, data_len: max_payload },
            data.subrange(0, max_payload as int),
        ) + data_frames(addr, data.subrange(max_payload as int, data.len() as int), max_payload)
    }
}

/// The bytes that a receiver delivers to flow `addr` when it reads the frames
/// of `buf` one after the other: the payloads of that flow's `Data` frames,
/// in order. `None` when `buf` does not split into whole, valid frames.
pub open spec fn flow_payload(buf: Seq<u8>, addr: Address, max_payload: u32) -> Option<Seq<u8>>
    decreases buf.len(),
{
    if buf.len() == 0 {
        Some(Seq::empty())
    } else {
        match frame_decode(buf, max_payload) {
            Ok((p, payload, n)) => {
                if 0 < n <= buf.len() {
                    match flow_payload(buf.subrange(n as int, buf.len() as int), addr, max_payload) {
                        Some(later) => {
                            if p.addr == addr && p.msg == PacketMessage::Data {
                                Some(payload + later)
                            } else {
                                Some(later)
                            }
                        },
                        None => None,
                    }
                } else {
                    None
                }
            },
            Err(_) => None,
        }
    }
}

proof fn lemma_one_frame_then(p: Packet, payload: Seq<u8>, rest: Seq<u8>, addr: Address, max_payload: u32)
    requires
        p.ver == PACKET_VERSION,
        payload.len() == p.data_len,
        p.data_len <= max_payload,
        p.msg == PacketMessage::Data || p.data_len == 0,
    ensures
        flow_payload(frame_bytes(p, payload) + rest, addr, max_payload) == (match flow_payload(rest, addr, max_payload) {
            Some(later) => if p.addr == addr && p.msg == PacketMessage::Data {
                Some(payload + later)
            } else {
                Some(later)
            },
            None => None,
        }),
{
    let buf = frame_bytes(p, payload) + rest;
    lemma_frame_round_trip(p, payload, rest, max_payload);
    let n = HEADER_SIZE + payload.len();
    assert(buf.subrange(n as int, buf.len() as int) =~= rest);
}

/// Byte-exactness: the frames that carry `data` for a flow deliver exactly
/// `data` to that flow, followed by whatever later frames deliver to it.
pub proof fn lemma_data_frames_deliver(addr: Address, data: Seq<u8>, rest: Seq<u8>, max_payload: u32)
    requires
        max_payload > 0,
    ensures
        flow_payload(data_frames(addr, data, max_payload) + rest, addr, max_payload) == (match flow_payload(rest, addr, max_payload) {
            Some(later) => Some(data + later),
            None => None::<Seq<u8>>,
        }),
    decreases data.len(),
{
    if data.len() == 0 {
        assert(data_frames(addr, data, max_payload) + rest =~= rest);
        match flow_payload(rest, addr, max_payload) {
            Some(later) => {
                assert(data + later =~= later);
            },
            None => {},
        }
    } else if data.len() <= max_payload {
        let p = Packet { ver: PACKET_VERSION, msg: PacketMessage::Data, addr, data_len: data.len() as u32 };
        lemma_one_frame_then(p, data, rest, addr, max_payload);
    } else {
        let p = Packet { ver: PACKET_VERSION, msg: PacketMessage::Data, addr, data_len: max_payload };
        let head = data.subrange(0, max_payload as int);
        let tail = data.subrange(max_payload as int, data.len() as int);
        let later_frames = data_frames(addr, tail, max_payload) + rest;
        assert(data_frames(addr, data, max_payload) + rest =~= frame_bytes(p, head) + later_frames);
        lemma_one_frame_then(p, head, later_frames, addr, max_payload);
        lemma_data_frames_deliver(addr, tail, rest, max_payload);
        match flow_payload(rest, addr, max_payload) {
            Some(later) => {
                assert(head + (tail + later) =~= data + later);
            },
            None => {},
        }
    }
}

/// Isolation: the frames that carry data for one flow deliver nothing to any
/// other flow.
pub proof fn lemma_data_frames_isolated(addr: Address, other: Address, data: Seq<u8>, rest: Seq<u8>, max_payload: u32)
    requires
        max_payload > 0,
        addr != other,
    ensures
        flow_payload(data_frames(addr, data, max_payload) + rest, other, max_payload) == flow_payload(rest, other, max_payload),
    decreases data.len(),
{
    if data.len() == 0 {
        assert(data_frames(addr, data, max_payload) + rest =~= rest);
    } else if data.len() <= max_payload {
        let p = Packet { ver: PACKET_VERSION, msg: PacketMessage::Data, addr, data_len: data.len() as u32 };
        lemma_one_frame_then(p, data, rest, other, max_payload);
    } else {
        let p = Packet { ver: PACKET_VERSION, msg: PacketMessage::Data, addr, data_len: max_payload };
        let head = data.subrange(0, max_payload as int);
        let tail = data.subrange(max_payload as int, data.len() as int);
        let later_frames = data_frames(addr, tail, max_payload) + rest;
        assert(data_frames(addr, data, max_payload) + rest =~= frame_bytes(p, head) + later_frames);
        lemma_one_frame_then(p, head, later_frames, other, max_payload);
        lemma_data_frames_isolated(addr, other, tail, rest, max_payload);
    }
}

/// Byte-exactness for a whole stream: the frames that carry `data` for a flow
/// deliver `data` and nothing else.
pub proof fn lemma_stream_round_trip(addr: Address, data: Seq<u8>, max_payload: u32)
    requires
        max_payload > 0,
    ensures
        flow_payload(data_frames(addr, data, max_payload), addr, max_payload) == Some(data),
{
    lemma_data_frames_deliver(addr, data, Seq::empty(), max_payload);
    assert(data_frames(addr, data, max_payload) + Seq::<u8>::empty() =~= data_frames(addr, data, max_payload));
    assert(data + Seq::<u8>::empty() =~= data);
}

} // verus!

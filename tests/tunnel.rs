use pvpn::error::{Error, IoKind};
use pvpn::packet::{decode_frame, Address, Packet, PacketMessage, HEADER_SIZE, MAX_PAYLOAD};
use pvpn::streams::{
    ClientStream, ConnectProbe, Dispatch, Side, TokenStreams, QUEUE_FRAMES, QUEUE_HIGH_WATER,
};
use pvpn::pacing::Pacing;
use pvpn::tunnel_server::{accept_flow, FlowIds};

/// Moves everything queued on `from`'s control link to `to`'s input.
fn carry(from: &mut TokenStreams, to: &mut TokenStreams) -> usize {
    let bytes = from.tunnel_pending().to_vec();
    to.flush_read(&bytes).unwrap();
    assert_eq!(from.flush_tunnel(Ok(bytes.len())), Ok(bytes.len()));
    assert!(from.tunnel_pending().is_empty());
    bytes.len()
}

/// Decodes and dispatches every whole frame waiting on `to`'s input.
fn dispatch_all(to: &mut TokenStreams, side: Side) -> Vec<Dispatch> {
    let drained = to.drain_input(side).unwrap();
    assert_eq!(drained.blocked_on, None);
    drained.actions
}

/// Takes whatever is pending for flow `addr`, as its socket would.
fn drain(s: &mut TokenStreams, addr: Address) -> Vec<u8> {
    let bytes = s.pending(addr).unwrap().to_vec();
    assert_eq!(s.flush(addr, Ok(bytes.len())), Ok(bytes.len()));
    bytes
}

/// A fresh server with one accepted public connection, and a client.
fn linked_pair() -> (TokenStreams, TokenStreams, Address) {
    let mut server = TokenStreams::new();
    let mut ids = FlowIds::new(4);
    let id = accept_flow(&mut server, &mut ids).unwrap();
    assert_eq!(id, 4);
    (server, TokenStreams::new(), id)
}

fn echo_through(sent: &[u8], reply: impl Fn(&[u8]) -> Vec<u8>) -> Vec<u8> {
    let (mut server, mut client, id) = linked_pair();

    assert_eq!(server.read(id, Ok(sent)), Ok(sent.len()));
    let wire = carry(&mut server, &mut client);
    assert_eq!(wire, HEADER_SIZE + sent.len());
    assert_eq!(dispatch_all(&mut client, Side::Client), vec![Dispatch::Dial(id)]);
    assert_eq!(client.complete_connect(id, ConnectProbe::Connected), Ok(true));
    let at_origin = drain(&mut client, id);
    assert_eq!(at_origin, sent);

    let answer = reply(&at_origin);
    assert_eq!(client.read(id, Ok(&answer)), Ok(answer.len()));
    carry(&mut client, &mut server);
    assert_eq!(dispatch_all(&mut server, Side::Server), vec![Dispatch::Deliver(id)]);
    drain(&mut server, id)
}

#[test]
fn echo_hello() {
    let got = echo_through(b"hello", |b| b.to_vec());
    assert_eq!(got, b"hello".to_vec());
}

#[test]
fn echo_hello_frames_carry_the_flow_id() {
    let (mut server, _client, id) = linked_pair();
    server.read(id, Ok(b"hello")).unwrap();
    let wire = server.tunnel_pending().to_vec();
    assert_eq!(wire.len(), HEADER_SIZE + 5);
    assert_eq!(&wire[6..14], &id.to_be_bytes());
    assert_eq!(&wire[14..18], &[0, 0, 0, 5]);
    assert_eq!(&wire[18..], b"hello");
}

#[test]
fn binary_doubled() {
    let sent: Vec<u8> = (0..=255u8).collect();
    let got = echo_through(&sent, |b| [b, b].concat());
    assert_eq!(got.len(), 512);
    assert_eq!(got, [sent.clone(), sent].concat());
}

fn stream_of(n: usize) -> Vec<u8> {
    (0..n).map(|i| (i % 251) as u8).collect()
}

#[test]
fn byte_exact_at_edge_sizes() {
    for n in [1usize, 8191, 8192, 8193, 10 * 1024 * 1024] {
        let data = stream_of(n);
        let (mut server, mut client, id) = linked_pair();
        server.read(id, Ok(&data)).unwrap();
        let wire = carry(&mut server, &mut client);
        let frames = (n + MAX_PAYLOAD as usize - 1) / MAX_PAYLOAD as usize;
        assert_eq!(wire, n + frames * HEADER_SIZE);
        let mut got = Vec::new();
        loop {
            let drained = client.drain_input(Side::Client).unwrap();
            assert!(drained
                .actions
                .iter()
                .all(|a| *a == Dispatch::Dial(id) || *a == Dispatch::Deliver(id)));
            got.extend_from_slice(&drain(&mut client, id));
            if drained.blocked_on.is_none() {
                break;
            }
            assert_eq!(drained.blocked_on, Some(id));
        }
        assert_eq!(got, data);
    }
}

#[test]
fn empty_payload_is_end_of_stream() {
    let (mut server, mut client, id) = linked_pair();
    assert_eq!(server.read(id, Ok(&[])), Err(Error::Eof));
    assert_eq!(server.len(), 0);
    let wire = server.tunnel_pending().to_vec();
    let (f, used) = decode_frame(&wire, MAX_PAYLOAD).unwrap();
    assert_eq!(used, wire.len());
    assert_eq!(f.header, Packet::new_message(id, PacketMessage::Eof));
    carry(&mut server, &mut client);
    assert_eq!(client.read_packet(Side::Client), Ok(Dispatch::Ignored(id)));
}

#[test]
fn terminal_frame_read_removes_the_flow() {
    let (mut server, mut client, id) = linked_pair();
    server.read(id, Ok(b"data")).unwrap();
    carry(&mut server, &mut client);
    assert_eq!(client.read_packet(Side::Client), Ok(Dispatch::Dial(id)));
    client.close_flow(id, PacketMessage::ConnectionRefused).unwrap();
    server.read(id, Ok(b"more")).unwrap();
    carry(&mut client, &mut server);
    assert_eq!(
        server.read_packet(Side::Server),
        Ok(Dispatch::Close(id, Error::ConnectionRefused))
    );
    assert!(!server.contains_token(id));
    assert_eq!(server.read_packet(Side::Server), Err(Error::Empty));
}

#[test]
fn drain_stops_at_a_backlogged_flow() {
    let (mut server, mut client, id) = linked_pair();
    let data = stream_of(QUEUE_HIGH_WATER + 2 * MAX_PAYLOAD as usize);
    server.read(id, Ok(&data)).unwrap();
    carry(&mut server, &mut client);
    let first = client.drain_input(Side::Client).unwrap();
    assert_eq!(first.blocked_on, Some(id));
    assert!(client.backlogged(id));
    assert_eq!(first.actions.last(), Some(&Dispatch::Deliver(id)));
    let mut got = drain(&mut client, id);
    let rest = client.drain_input(Side::Client).unwrap();
    assert_eq!(rest.blocked_on, None);
    assert_eq!(rest.actions, vec![Dispatch::Deliver(id); 2]);
    got.extend_from_slice(&drain(&mut client, id));
    assert_eq!(got, data);
}

#[test]
fn drain_waits_for_a_partial_frame_and_reports_a_corrupt_one() {
    let mut s = TokenStreams::new();
    let mut bytes = Packet::new_message(1, PacketMessage::Eof).encode();
    bytes.extend_from_slice(&[0, 0, 0, 14, 9]);
    s.flush_read(&bytes).unwrap();
    let waiting = s.drain_input(Side::Server).unwrap();
    assert_eq!(waiting.actions, vec![Dispatch::Ignored(1)]);
    assert_eq!(waiting.blocked_on, None);
    let mut t = TokenStreams::new();
    let mut bad = Packet::new_message(1, PacketMessage::Eof).encode();
    bad.extend_from_slice(&[0, 0, 0, 14, 9, 0, 0, 0, 0, 0, 0, 0, 0, 1, 0, 0, 0, 0]);
    t.flush_read(&bad).unwrap();
    assert!(matches!(
        t.drain_input(Side::Server),
        Err(Error::InvalidVersion { expected: 1, actual: 9 })
    ));
}

#[test]
fn fan_out_flows_stay_apart() {
    let mut server = TokenStreams::new();
    let mut client = TokenStreams::new();
    let mut ids = FlowIds::new(100);
    let mut seed: u32 = 12345;
    let mut blobs = Vec::new();
    for _ in 0..50 {
        let id = accept_flow(&mut server, &mut ids).unwrap();
        let blob: Vec<u8> = (0..1024)
            .map(|_| {
                seed = seed.wrapping_mul(1_103_515_245).wrapping_add(12345);
                (seed >> 16) as u8
            })
            .collect();
        blobs.push((id, blob));
    }
    // Interleave the flows, half a blob at a time.
    for half in [0..512, 512..1024] {
        for (id, blob) in &blobs {
            server.read(*id, Ok(&blob[half.clone()])).unwrap();
        }
    }
    carry(&mut server, &mut client);
    dispatch_all(&mut client, Side::Client);
    assert_eq!(client.len(), 50);
    for (id, blob) in &blobs {
        client.complete_connect(*id, ConnectProbe::Connected).unwrap();
        let got = drain(&mut client, *id);
        assert_eq!(&got, blob);
        client.read(*id, Ok(&got)).unwrap();
    }
    carry(&mut client, &mut server);
    dispatch_all(&mut server, Side::Server);
    for (id, blob) in &blobs {
        assert_eq!(&drain(&mut server, *id), blob);
        assert_eq!(server.read(*id, Ok(&[])), Err(Error::Eof));
    }
    assert_eq!(server.len(), 0);
    carry(&mut server, &mut client);
    let closes = dispatch_all(&mut client, Side::Client);
    assert_eq!(closes.len(), 50);
    assert!(closes.iter().all(|d| matches!(d, Dispatch::Close(_, Error::Eof))));
    assert_eq!(client.len(), 0);
}

#[test]
fn origin_refused() {
    let (mut server, mut client, id) = linked_pair();
    server.read(id, Ok(&[1, 2, 3, 4])).unwrap();
    carry(&mut server, &mut client);
    assert_eq!(dispatch_all(&mut client, Side::Client), vec![Dispatch::Dial(id)]);
    let msg = PacketMessage::from_error(Error::Io(IoKind::ConnectionRefused));
    assert_eq!(client.close_flow(id, msg), Ok(()));
    assert_eq!(client.len(), 0);
    carry(&mut client, &mut server);
    assert_eq!(
        dispatch_all(&mut server, Side::Server),
        vec![Dispatch::Close(id, Error::ConnectionRefused)]
    );
    assert_eq!(server.len(), 0);
}

#[test]
fn cleanup_from_either_end() {
    // Closed by the origin side.
    let (mut server, mut client, id) = linked_pair();
    server.read(id, Ok(b"x")).unwrap();
    carry(&mut server, &mut client);
    dispatch_all(&mut client, Side::Client);
    assert_eq!(client.read(id, Err(Error::Io(IoKind::Other))), Err(Error::Io(IoKind::Other)));
    assert!(!client.contains_token(id));
    carry(&mut client, &mut server);
    assert_eq!(
        dispatch_all(&mut server, Side::Server),
        vec![Dispatch::Close(id, Error::IoError)]
    );
    assert!(!server.contains_token(id));

    // Closed by the public side.
    let (mut server, mut client, id) = linked_pair();
    server.read(id, Ok(b"y")).unwrap();
    carry(&mut server, &mut client);
    dispatch_all(&mut client, Side::Client);
    assert_eq!(server.read(id, Ok(&[])), Err(Error::Eof));
    carry(&mut server, &mut client);
    assert_eq!(dispatch_all(&mut client, Side::Client), vec![Dispatch::Close(id, Error::Eof)]);
    assert_eq!(client.len(), 0);
    assert_eq!(server.len(), 0);
}

#[test]
fn server_answers_data_for_unknown_flow() {
    let mut server = TokenStreams::new();
    let mut client = TokenStreams::new();
    client.add(77, ClientStream::new_connected());
    client.read(77, Ok(b"late")).unwrap();
    carry(&mut client, &mut server);
    assert_eq!(dispatch_all(&mut server, Side::Server), vec![Dispatch::Ignored(77)]);
    assert_eq!(server.len(), 0);
    carry(&mut server, &mut client);
    assert_eq!(
        dispatch_all(&mut client, Side::Client),
        vec![Dispatch::Close(77, Error::IoError)]
    );
    assert_eq!(client.len(), 0);
}

#[test]
fn terminal_frame_for_unknown_flow_is_dropped() {
    let mut a = TokenStreams::new();
    let mut b = TokenStreams::new();
    a.add(5, ClientStream::new_connected());
    a.close_flow(5, PacketMessage::Disconnected).unwrap();
    carry(&mut a, &mut b);
    assert_eq!(dispatch_all(&mut b, Side::Client), vec![Dispatch::Ignored(5)]);
    assert_eq!(b.len(), 0);
}

#[test]
fn corrupt_input_is_reported_and_kept() {
    let mut s = TokenStreams::new();
    s.flush_read(&[0, 0, 0, 14, 2, 0, 0, 0, 0, 0, 0, 0, 0, 1, 0, 0, 0, 0]).unwrap();
    assert_eq!(
        s.read_packet(Side::Server),
        Err(Error::InvalidVersion { expected: 1, actual: 2 })
    );
    assert_eq!(
        s.read_packet(Side::Server),
        Err(Error::InvalidVersion { expected: 1, actual: 2 })
    );
}

#[test]
fn partial_frames_are_completed_later() {
    let (mut server, mut client, id) = linked_pair();
    server.read(id, Ok(b"abc")).unwrap();
    let bytes = server.tunnel_pending().to_vec();
    client.flush_read(&bytes[..10]).unwrap();
    assert_eq!(client.read_packet(Side::Client), Err(Error::Empty));
    client.flush_read(&bytes[10..20]).unwrap();
    assert_eq!(client.read_packet(Side::Client), Err(Error::NotEnoughData));
    client.flush_read(&bytes[20..]).unwrap();
    assert_eq!(client.read_packet(Side::Client), Ok(Dispatch::Dial(id)));
    assert_eq!(client.pending(id).unwrap(), b"abc");
    assert_eq!(client.read_packet(Side::Client), Err(Error::Empty));
}

#[test]
fn duplicate_flow_id_is_refused() {
    let mut server = TokenStreams::new();
    let mut ids = FlowIds::new(9);
    assert!(server.add(9, ClientStream::new_connected()));
    assert!(!server.add(9, ClientStream::new()));
    assert_eq!(accept_flow(&mut server, &mut ids), Err(Error::DuplicateFlowId { addr: 9 }));
    server.remove(9);
    assert_eq!(accept_flow(&mut server, &mut ids), Ok(9));
    assert_eq!(accept_flow(&mut server, &mut ids), Ok(10));
    assert_eq!(server.len(), 2);
}

#[test]
fn flow_ids_wrap_around() {
    let mut server = TokenStreams::new();
    let mut ids = FlowIds::new(u64::MAX);
    assert_eq!(accept_flow(&mut server, &mut ids), Ok(u64::MAX));
    assert_eq!(accept_flow(&mut server, &mut ids), Ok(0));
}

#[test]
fn unknown_flow_operations_fail() {
    let mut s = TokenStreams::new();
    assert_eq!(s.write(3, b"x"), Err(Error::ClientNotFound));
    assert_eq!(s.read(3, Ok(b"x")), Err(Error::ClientNotFound));
    assert_eq!(s.flush(3, Ok(0)), Err(Error::ClientNotFound));
    assert_eq!(s.close_flow(3, PacketMessage::Eof), Err(Error::ClientNotFound));
    assert_eq!(s.complete_connect(3, ConnectProbe::Connected), Err(Error::ClientNotFound));
    assert!(s.pending(3).is_none());
    assert!(s.tunnel_pending().is_empty());
}

#[test]
fn partial_and_blocked_writes() {
    let mut s = TokenStreams::new();
    s.add(1, ClientStream::new_connected());
    s.write(1, b"hello").unwrap();
    assert_eq!(s.flush(1, Ok(2)), Ok(2));
    assert_eq!(s.pending(1).unwrap(), b"llo");
    assert_eq!(s.flush(1, Err(Error::Io(IoKind::WouldBlock))), Ok(0));
    assert_eq!(s.pending(1).unwrap(), b"llo");
    assert_eq!(s.flush(1, Err(Error::Io(IoKind::Other))), Err(Error::Io(IoKind::Other)));
    assert_eq!(s.pending(1).unwrap(), b"llo");
    assert_eq!(s.read(1, Err(Error::Io(IoKind::WouldBlock))), Ok(0));
    assert!(s.contains_token(1));
}

#[test]
fn flush_with_nothing_pending_writes_nothing() {
    let mut c = ClientStream::new();
    assert_eq!(c.flush_buffer(Err(Error::Io(IoKind::Other))), Ok(0));
    assert_eq!(c.flush_buffer(Ok(0)), Ok(0));
    let mut s = TokenStreams::new();
    s.add(1, ClientStream::new_connected());
    assert_eq!(s.flush(1, Err(Error::Io(IoKind::Other))), Ok(0));
    assert_eq!(s.flush_tunnel(Err(Error::Io(IoKind::Other))), Ok(0));
}

#[test]
fn connect_probes() {
    let mut c = ClientStream::new();
    c.push_data(b"q").unwrap();
    assert_eq!(c.complete_connect(ConnectProbe::InProgress), Ok(false));
    assert!(!c.is_connected());
    assert_eq!(
        c.complete_connect(ConnectProbe::Failed(IoKind::ConnectionRefused)),
        Err(Error::Io(IoKind::ConnectionRefused))
    );
    assert_eq!(c.complete_connect(ConnectProbe::Connected), Ok(true));
    assert!(c.is_connected());
    assert_eq!(c.complete_connect(ConnectProbe::Failed(IoKind::Other)), Ok(false));
    assert_eq!(c.pending_bytes(), b"q");
    assert_eq!(c.pending_len(), 1);
    assert!(!c.is_empty());
}

#[test]
fn link_queue_high_water_stops_flow_reads() {
    let (mut server, _client, id) = linked_pair();
    assert_eq!(QUEUE_HIGH_WATER, QUEUE_FRAMES * (8192 + HEADER_SIZE));
    assert!(server.may_read_flows());
    let data = stream_of(QUEUE_FRAMES * MAX_PAYLOAD as usize - 1);
    server.read(id, Ok(&data)).unwrap();
    assert_eq!(server.tunnel_pending().len(), QUEUE_HIGH_WATER - 1);
    assert!(server.may_read_flows());
    server.read(id, Ok(&[7])).unwrap();
    assert_eq!(server.tunnel_pending().len(), QUEUE_HIGH_WATER + HEADER_SIZE);
    assert!(!server.may_read_flows());
    server.flush_tunnel(Ok(HEADER_SIZE + 1)).unwrap();
    assert!(server.may_read_flows());
}

#[test]
fn flow_backlog_holds_the_link() {
    let mut s = TokenStreams::new();
    s.add(1, ClientStream::new_connected());
    assert!(!s.backlogged(1));
    assert!(!s.backlogged(2));
    s.write(1, &stream_of(QUEUE_HIGH_WATER - 1)).unwrap();
    assert!(!s.backlogged(1));
    s.write(1, &[0]).unwrap();
    assert!(s.backlogged(1));
    s.flush(1, Ok(1)).unwrap();
    assert!(!s.backlogged(1));
}

#[test]
fn pacing_resumes_the_link_when_the_backlog_drains() {
    let mut s = TokenStreams::new();
    s.add(1, ClientStream::new_connected());
    s.write(1, &stream_of(QUEUE_HIGH_WATER)).unwrap();
    let mut pacing = Pacing::new();
    assert!(pacing.may_read_link());
    pacing.drained(Some(1));
    assert!(!pacing.may_read_link());
    let r = pacing.resume(&s);
    assert!(!r.link);
    assert!(r.flows.is_empty());
    assert!(!pacing.may_read_link());
    s.flush(1, Ok(1)).unwrap();
    let r = pacing.resume(&s);
    assert!(r.link);
    assert!(pacing.may_read_link());
    pacing.drained(Some(1));
    s.remove(1);
    assert!(pacing.resume(&s).link);
}

#[test]
fn pacing_rereads_stalled_flows_when_the_queue_has_room() {
    let (mut server, _client, id) = linked_pair();
    let mut pacing = Pacing::new();
    server.read(id, Ok(&stream_of(QUEUE_FRAMES * MAX_PAYLOAD as usize))).unwrap();
    assert!(!server.may_read_flows());
    pacing.stall(id);
    pacing.stall(9);
    let r = pacing.resume(&server);
    assert!(!r.link);
    assert!(r.flows.is_empty());
    server.flush_tunnel(Ok(HEADER_SIZE)).unwrap();
    let r = pacing.resume(&server);
    assert_eq!(r.flows, vec![id, 9]);
    assert!(pacing.resume(&server).flows.is_empty());
}

#[test]
fn data_after_close_opens_a_new_flow_on_the_client() {
    let (mut server, mut client, id) = linked_pair();
    server.read(id, Ok(b"one")).unwrap();
    carry(&mut server, &mut client);
    dispatch_all(&mut client, Side::Client);
    client.close_flow(id, PacketMessage::Disconnected).unwrap();
    server.read(id, Ok(b"two")).unwrap();
    carry(&mut server, &mut client);
    let d = client.drain_input(Side::Client).unwrap();
    assert_eq!(d.actions, vec![Dispatch::Dial(id)]);
    assert_eq!(client.pending(id).unwrap(), b"two");
}

use packrat::bistream::{BiStream, StreamNext};
use packrat::codec::StreamPart;
use packrat::session::{ChannelState, Phase, Role, Session, SessionError, SubchannelToken, ROOT_CHANNEL};

fn active(role: Role) -> Session<u32> {
    let mut s = Session::new(role);
    assert_eq!(s.open_root_channel(), Ok(ROOT_CHANNEL));
    s
}

/// Hands every frame `from` has queued to `to`.
fn pump(from: &mut Session<u32>, to: &mut Session<u32>) {
    for frame in from.take_outgoing() {
        to.receive_frame(&frame).unwrap();
    }
}

fn read(s: &mut Session<u32>, c: u64) -> Vec<u8> {
    s.poll_channel(c, 0).unwrap().expect("a payload is queued")
}

fn u32_arg(b: &[u8], at: usize) -> u32 {
    u32::from_le_bytes([b[at], b[at + 1], b[at + 2], b[at + 3]])
}

fn request(op: u8, a: u32, b: u32) -> Vec<u8> {
    let mut r = vec![op];
    r.extend(a.to_le_bytes());
    r.extend(b.to_le_bytes());
    r
}

/// The toy arithmetic service: `1` adds, `2` subtracts.
fn serve_arith(server: &mut Session<u32>, c: u64) {
    let req = read(server, c);
    let (a, b) = (u32_arg(&req, 1), u32_arg(&req, 5));
    let result = if req[0] == 1 { a + b } else { a - b };
    server.send(c, result.to_le_bytes().to_vec()).unwrap();
}

#[test]
fn add_on_root_channel() {
    let mut client = active(Role::Initiator);
    let mut server = active(Role::Acceptor);
    client.send(ROOT_CHANNEL, request(1, 2, 3)).unwrap();
    pump(&mut client, &mut server);
    serve_arith(&mut server, ROOT_CHANNEL);
    pump(&mut server, &mut client);
    assert_eq!(read(&mut client, ROOT_CHANNEL), 5u32.to_le_bytes().to_vec());
}

#[test]
fn subchannel_token_redeemed_once() {
    let mut client = active(Role::Initiator);
    let mut server = active(Role::Acceptor);
    // get_sub: the handler mints a token and returns it in its response.
    client.send(ROOT_CHANNEL, vec![3]).unwrap();
    pump(&mut client, &mut server);
    assert_eq!(read(&mut server, ROOT_CHANNEL), vec![3]);
    let token = server.reserve_subchannel().unwrap();
    assert_eq!(server.channel_state(token.channel), Some(ChannelState::Reserved));
    // The handler waits for the redemption.
    assert_eq!(server.poll_channel(token.channel, 11), Ok(None));
    server.send(ROOT_CHANNEL, token.channel.to_le_bytes().to_vec()).unwrap();
    pump(&mut server, &mut client);
    let bytes = read(&mut client, ROOT_CHANNEL);
    let token = SubchannelToken { channel: u64::from_le_bytes(bytes.try_into().unwrap()) };

    let sub = client.connect_subchannel(token).unwrap();
    assert_eq!(sub, token.channel);
    let frames = client.take_outgoing();
    assert_eq!(frames.len(), 1);
    assert_eq!(server.receive_frame(&frames[0]), Ok(vec![11]));
    assert_eq!(server.channel_state(sub), Some(ChannelState::Open));

    client.send(sub, request(2, 10, 4)).unwrap();
    pump(&mut client, &mut server);
    serve_arith(&mut server, sub);
    pump(&mut server, &mut client);
    assert_eq!(read(&mut client, sub), 6u32.to_le_bytes().to_vec());

    assert_eq!(client.connect_subchannel(token), Err(SessionError::TokenAlreadyConnected));
    assert_eq!(server.receive_frame(&frames[0]), Err(SessionError::TokenAlreadyConnected));
    // The first redemption's channel still works.
    client.send(sub, request(1, 1, 1)).unwrap();
    pump(&mut client, &mut server);
    serve_arith(&mut server, sub);
    pump(&mut server, &mut client);
    assert_eq!(read(&mut client, sub), 2u32.to_le_bytes().to_vec());
}

#[test]
fn lost_connection_fails_pending_call() {
    let mut client = active(Role::Initiator);
    client.send(ROOT_CHANNEL, request(1, 2, 3)).unwrap();
    assert_eq!(client.poll_channel(ROOT_CHANNEL, 7), Ok(None));
    assert_eq!(client.transport_lost(), vec![7]);
    assert_eq!(client.phase(), Phase::Closed);
    assert_eq!(client.poll_channel(ROOT_CHANNEL, 8), Err(SessionError::TransportClosed));
    assert_eq!(client.send(ROOT_CHANNEL, vec![1]), Err(SessionError::TransportClosed));
    assert!(client.take_outgoing().is_empty());
}

#[test]
fn frames_reach_only_their_channel() {
    let mut server = active(Role::Acceptor);
    let mut client = active(Role::Initiator);
    let token = server.reserve_subchannel().unwrap();
    client.connect_subchannel(token).unwrap();
    pump(&mut client, &mut server);
    assert_eq!(server.poll_channel(ROOT_CHANNEL, 1), Ok(None));
    assert_eq!(server.poll_channel(token.channel, 2), Ok(None));
    assert_eq!(server.poll_channel(ROOT_CHANNEL, 3), Ok(None));
    client.send(token.channel, vec![42]).unwrap();
    let frames = client.take_outgoing();
    assert_eq!(server.receive_frame(&frames[0]), Ok(vec![2]));
    assert_eq!(server.poll_channel(ROOT_CHANNEL, 4), Ok(None));
    assert_eq!(server.poll_channel(token.channel, 5), Ok(Some(vec![42])));
    client.send(ROOT_CHANNEL, vec![43]).unwrap();
    let frames = client.take_outgoing();
    assert_eq!(server.receive_frame(&frames[0]), Ok(vec![1, 3, 4]));
}

#[test]
fn thousand_reservations_get_distinct_ids() {
    let mut server = active(Role::Acceptor);
    let mut ids = std::collections::HashSet::new();
    for _ in 0..1000 {
        let t = server.reserve_subchannel().unwrap();
        assert_ne!(t.channel, ROOT_CHANNEL);
        assert!(ids.insert(t.channel));
    }
    assert_eq!(ids.len(), 1000);
}

#[test]
fn per_frame_errors_leave_session_active() {
    let mut s = active(Role::Acceptor);
    assert_eq!(s.receive_frame(&[9, 9]), Err(SessionError::Malformed));
    let data_for_unknown = packrat::codec::encode(&packrat::codec::Message::Data { channel: 77, payload: vec![1] });
    assert_eq!(s.receive_frame(&data_for_unknown), Err(SessionError::UnknownChannel));
    let connect_unknown = packrat::codec::encode(&packrat::codec::Message::Connect { channel: 77 });
    assert_eq!(s.receive_frame(&connect_unknown), Err(SessionError::UnknownChannel));
    let close_unknown = packrat::codec::encode(&packrat::codec::Message::Close { channel: 77 });
    assert_eq!(s.receive_frame(&close_unknown), Err(SessionError::UnknownChannel));
    assert_eq!(s.phase(), Phase::Active);
    assert_eq!(s.send(ROOT_CHANNEL, vec![1]), Ok(()));
}

#[test]
fn data_for_reserved_channel_is_refused() {
    let mut s = active(Role::Acceptor);
    let t = s.reserve_subchannel().unwrap();
    assert_eq!(s.send(t.channel, vec![1]), Err(SessionError::UnknownChannel));
    assert_eq!(s.demultiplex(t.channel, vec![1]), Err(SessionError::UnknownChannel));
}

#[test]
fn redeeming_own_reservation_is_refused() {
    let mut s = active(Role::Acceptor);
    let t = s.reserve_subchannel().unwrap();
    assert_eq!(s.connect_subchannel(t), Err(SessionError::ChannelAlreadyReserved));
}

#[test]
fn operations_before_handshake_are_refused() {
    let mut s: Session<u32> = Session::new(Role::Acceptor);
    assert_eq!(s.phase(), Phase::Handshaking);
    assert_eq!(s.reserve_subchannel(), Err(SessionError::InvalidPhase));
    assert_eq!(s.send(ROOT_CHANNEL, vec![]), Err(SessionError::InvalidPhase));
    assert_eq!(s.poll_channel(ROOT_CHANNEL, 0), Err(SessionError::InvalidPhase));
    assert_eq!(s.open_root_channel(), Ok(ROOT_CHANNEL));
    assert_eq!(s.open_root_channel(), Err(SessionError::InvalidPhase));
}

#[test]
fn closing_session_routes_but_opens_nothing() {
    let mut s = active(Role::Acceptor);
    s.begin_close();
    assert_eq!(s.phase(), Phase::Closing);
    assert_eq!(s.reserve_subchannel(), Err(SessionError::InvalidPhase));
    assert_eq!(s.connect_subchannel(SubchannelToken { channel: 4 }), Err(SessionError::InvalidPhase));
    assert_eq!(s.send(ROOT_CHANNEL, vec![1]), Ok(()));
    assert_eq!(s.demultiplex(ROOT_CHANNEL, vec![2]), Ok(vec![]));
    assert_eq!(s.poll_channel(ROOT_CHANNEL, 0), Ok(Some(vec![2])));
}

#[test]
fn redeeming_a_large_token_leaves_own_ids_available() {
    let mut s = active(Role::Acceptor);
    assert_eq!(s.connect_subchannel(SubchannelToken { channel: u64::MAX }), Ok(u64::MAX));
    assert_eq!(s.allocate_channel_id(), Ok(2));
    assert_eq!(s.allocate_channel_id(), Ok(4));
}

#[test]
fn each_end_mints_from_its_own_half() {
    let mut client = active(Role::Initiator);
    let mut server = active(Role::Acceptor);
    assert_eq!(client.allocate_channel_id(), Ok(1));
    assert_eq!(client.allocate_channel_id(), Ok(3));
    assert_eq!(server.allocate_channel_id(), Ok(2));
    // A peer token never collides with an identifier minted here.
    assert_eq!(client.connect_subchannel(SubchannelToken { channel: 2 }), Ok(2));
    assert_eq!(client.connect_subchannel(SubchannelToken { channel: 5 }), Err(SessionError::UnknownChannel));
    assert_eq!(client.connect_subchannel(SubchannelToken { channel: ROOT_CHANNEL }), Err(SessionError::UnknownChannel));
}

#[test]
fn token_cannot_be_redeemed_again_after_its_channel_closed() {
    let mut client = active(Role::Initiator);
    let mut server = active(Role::Acceptor);
    let t = server.reserve_subchannel().unwrap();
    assert_eq!(client.connect_subchannel(t), Ok(t.channel));
    assert_eq!(client.close_channel(t.channel), Ok(vec![]));
    assert_eq!(client.connect_subchannel(t), Err(SessionError::TokenAlreadyConnected));
}

#[test]
fn closing_a_channel_wakes_its_readers_and_tells_the_peer() {
    let mut server = active(Role::Acceptor);
    let mut client = active(Role::Initiator);
    let t = server.reserve_subchannel().unwrap();
    client.connect_subchannel(t).unwrap();
    pump(&mut client, &mut server);
    assert_eq!(client.poll_channel(t.channel, 9), Ok(None));
    assert_eq!(server.close_channel(t.channel), Ok(vec![]));
    assert_eq!(server.channel_state(t.channel), None);
    let frames = server.take_outgoing();
    assert_eq!(frames.len(), 1);
    assert_eq!(client.receive_frame(&frames[0]), Ok(vec![9]));
    assert_eq!(client.poll_channel(t.channel, 9), Err(SessionError::UnknownChannel));
    assert_eq!(server.close_channel(t.channel), Err(SessionError::UnknownChannel));
}

#[test]
fn revoking_a_reservation_sends_nothing() {
    let mut server = active(Role::Acceptor);
    let t = server.reserve_subchannel().unwrap();
    assert_eq!(server.poll_channel(t.channel, 3), Ok(None));
    assert_eq!(server.close_channel(t.channel), Ok(vec![3]));
    assert!(server.take_outgoing().is_empty());
    let connect = packrat::codec::encode(&packrat::codec::Message::Connect { channel: t.channel });
    assert_eq!(server.receive_frame(&connect), Err(SessionError::UnknownChannel));
}

#[test]
fn closing_session_finishes_and_wakes_readers() {
    let mut s = active(Role::Acceptor);
    assert_eq!(s.finish_close(), Err(SessionError::InvalidPhase));
    assert_eq!(s.poll_channel(ROOT_CHANNEL, 6), Ok(None));
    s.begin_close();
    assert_eq!(s.finish_close(), Ok(vec![6]));
    assert_eq!(s.phase(), Phase::Closed);
    assert_eq!(s.poll_channel(ROOT_CHANNEL, 6), Err(SessionError::TransportClosed));
    assert_eq!(s.finish_close(), Err(SessionError::TransportClosed));
}

#[test]
fn failed_handshake_never_activates() {
    let mut s: Session<u32> = Session::new(Role::Acceptor);
    assert_eq!(s.fail_handshake(), Ok(()));
    assert_eq!(s.phase(), Phase::Closed);
    assert_eq!(s.open_root_channel(), Err(SessionError::TransportClosed));
    assert_eq!(s.fail_handshake(), Err(SessionError::TransportClosed));
    let mut t = active(Role::Acceptor);
    assert_eq!(t.fail_handshake(), Err(SessionError::InvalidPhase));
}

#[test]
fn stream_items_arrive_in_order_over_a_channel() {
    let mut client = active(Role::Initiator);
    let mut server = active(Role::Acceptor);
    let t = server.reserve_subchannel().unwrap();
    client.connect_subchannel(t).unwrap();
    pump(&mut client, &mut server);
    let c = t.channel;
    let mut sub: BiStream<Vec<u8>, Vec<u8>> = BiStream::new();
    let mut src: BiStream<Vec<u8>, Vec<u8>> = BiStream::new();
    server.send_stream_part(c, &StreamPart::Item(b"Online".to_vec())).unwrap();
    client.send_stream_part(c, &StreamPart::Ack(vec![2])).unwrap();
    server.send_stream_part(c, &StreamPart::Item(b"Replaying".to_vec())).unwrap();
    client.send_stream_part(c, &StreamPart::Ack(vec![1])).unwrap();
    server.send_stream_part(c, &StreamPart::Item(b"Disconnected".to_vec())).unwrap();
    pump(&mut server, &mut client);
    pump(&mut client, &mut server);
    while client.pull_stream(c, &mut sub, 0) == Ok(true) {}
    while server.pull_stream(c, &mut src, 0) == Ok(true) {}
    assert_eq!(sub.next_item(), StreamNext::Item(b"Online".to_vec()));
    assert_eq!(sub.next_item(), StreamNext::Item(b"Replaying".to_vec()));
    assert_eq!(sub.next_item(), StreamNext::Item(b"Disconnected".to_vec()));
    assert_eq!(sub.next_item(), StreamNext::Pending);
    assert_eq!(src.next_ack(), Some(vec![2]));
    assert_eq!(src.next_ack(), Some(vec![1]));
    // Closing the channel ends the stream.
    server.close_channel(c).unwrap();
    pump(&mut server, &mut client);
    assert_eq!(client.pull_stream(c, &mut sub, 0), Err(SessionError::UnknownChannel));
    assert_eq!(sub.next_item(), StreamNext::EndOfStream);
}

#[test]
fn malformed_stream_payload_is_reported() {
    let mut s = active(Role::Acceptor);
    let mut st: BiStream<Vec<u8>, Vec<u8>> = BiStream::new();
    s.demultiplex(ROOT_CHANNEL, vec![7, 1]).unwrap();
    assert_eq!(s.pull_stream(ROOT_CHANNEL, &mut st, 0), Err(SessionError::Malformed));
    assert_eq!(st.next_item(), StreamNext::Pending);
}

use medium::transport::udp_session::{burst_pause_after, write_next, AckWait, WriteNext, BURST_PACKETS, WRITE_ATTEMPTS};
use chacha20poly1305::aead::{Aead, KeyInit};
use sha2::Digest;
use medium::transport::p2p_diag::{self, format_value};
use medium::transport::rendezvous::{is_punch, punch_target, rendezvous_message_kind, UdpRendezvousMessage};
use medium::transport::session::{frame_line, session_alpn, LineReader, LineStep};
use medium::transport::udp_session::{
    classify_datagram, decode_packet, drain_pending, encode_packet, handshake_step, is_duplicate_handshake,
    nonce_bytes, session_key, write_chunk_len, Direction, HandshakeStep, ListenerEvent, Packet, PacketError,
    PacketInbox, PacketKind, PeerAddr, SessionHandshakeKey, SessionState, StreamStep, MAX_PAYLOAD_LEN, stream_step,
};

#[test]
fn p2p_diag_line_formats_stable_key_value_output() {
    let line = p2p_diag::line(
        "session_hello",
        "failed",
        &[
            ("session_id", "sess_1"),
            ("peer_addr", "5.138.235.64:65114"),
            ("reason", "UDP session handshake timed out"),
        ],
    );

    assert_eq!(
        line,
        "p2p_diag phase=session_hello result=failed session_id=sess_1 peer_addr=5.138.235.64:65114 reason=\"UDP session handshake timed out\""
    );
}

#[test]
fn uses_overlay_alpn() {
    assert_eq!(session_alpn(), b"overlay/1");
}

#[test]
fn diag_values_are_quoted_and_escaped_when_needed() {
    assert_eq!(format_value("plain-value_1.2:3"), "plain-value_1.2:3");
    assert_eq!(format_value(""), "\"\"");
    assert_eq!(format_value("a b"), "\"a b\"");
    assert_eq!(format_value("say \"hi\""), "\"say \\\"hi\\\"\"");
    assert_eq!(format_value("line\nbreak"), "\"line\\nbreak\"");
    assert!(!format_value("a\r\nb\n").contains('\n'));
}

fn packet(kind: PacketKind, seq: u64, payload: &[u8]) -> Packet {
    Packet { kind, seq, payload: payload.to_vec() }
}

#[test]
fn packets_round_trip_through_the_codec() {
    for kind in [PacketKind::Hello, PacketKind::HelloAck, PacketKind::Data, PacketKind::Ack, PacketKind::Close] {
        let bytes = encode_packet(&packet(kind, 0x0102_0304_0506_0708, b"payload")).unwrap();
        assert_eq!(&bytes[0..4], b"MDU1");
        let decoded = decode_packet(&bytes).unwrap();
        assert_eq!(decoded.kind, kind);
        assert_eq!(decoded.seq, 0x0102_0304_0506_0708);
        assert_eq!(decoded.payload, b"payload".to_vec());
    }
}

#[test]
fn packet_codec_rejects_malformed_datagrams() {
    let bytes = encode_packet(&packet(PacketKind::Data, 7, b"abc")).unwrap();
    assert_eq!(decode_packet(&bytes[..10]).unwrap_err(), PacketError::Invalid);
    let mut wrong_magic = bytes.clone();
    wrong_magic[0] = b'X';
    assert_eq!(decode_packet(&wrong_magic).unwrap_err(), PacketError::Invalid);
    let mut wrong_kind = bytes.clone();
    wrong_kind[4] = 9;
    assert_eq!(decode_packet(&wrong_kind).unwrap_err(), PacketError::UnknownKind(9));
    assert_eq!(decode_packet(&bytes[..bytes.len() - 1]).unwrap_err(), PacketError::Truncated);
    let huge = packet(PacketKind::Data, 1, &vec![0u8; 70_000]);
    assert_eq!(encode_packet(&huge).unwrap_err(), PacketError::TooLarge);
    assert_eq!(PacketKind::from_byte(3), Ok(PacketKind::Data));
    assert_eq!(PacketKind::Data.byte(), 3);
    assert_eq!(PacketKind::HelloAck.as_str(), "hello_ack");
}

#[test]
fn nonces_differ_by_direction_and_sequence() {
    let a = nonce_bytes(Direction::ClientToNode, 1);
    let b = nonce_bytes(Direction::NodeToClient, 1);
    let c = nonce_bytes(Direction::ClientToNode, 2);
    assert_eq!(a.len(), 12);
    assert_ne!(a, b);
    assert_ne!(a, c);
    assert_eq!(Direction::ClientToNode.peer(), Direction::NodeToClient);
    assert_eq!(Direction::ClientToNode.peer().peer(), Direction::ClientToNode);
}

#[test]
fn session_reassembles_out_of_order_data() {
    let mut state = SessionState::new();
    state.handle_data(1, b"def".to_vec());
    let mut buf = [0u8; 16];
    assert_eq!(state.read_into(&mut buf), 0);
    state.handle_data(0, b"abc".to_vec());
    let n = state.read_into(&mut buf);
    assert_eq!(&buf[..n], b"abcdef");
    state.handle_data(0, b"zzz".to_vec());
    assert_eq!(state.read_into(&mut buf), 0);
    assert_eq!(state.recv_seq, 2);
}

#[test]
fn udp_session_stream_round_trips_encrypted_bytes() {
    let key = session_key("signed-token");
    assert_eq!(key.len(), 32);
    let mut client = SessionState::new();
    let mut node = SessionState::new();

    let (ping, used) = client.data_packet(&key, Direction::ClientToNode, b"ping");
    assert_eq!(used, 4);
    assert_eq!(ping.kind, PacketKind::Data);
    client.mark_sent();
    node.receive_data(&key, Direction::NodeToClient, &ping).unwrap();
    let mut buf = [0u8; 8];
    let n = node.read_into(&mut buf);
    assert_eq!(&buf[..n], b"ping");

    let (pong, _) = node.data_packet(&key, Direction::NodeToClient, b"pong");
    node.mark_sent();
    client.receive_data(&key, Direction::ClientToNode, &pong).unwrap();
    let n = client.read_into(&mut buf);
    assert_eq!(&buf[..n], b"pong");
    assert_eq!(client.send_seq, 1);
    assert_eq!(node.send_seq, 1);
}

#[test]
fn data_from_the_wrong_side_or_key_is_refused() {
    let key = session_key("signed-token");
    let sender = SessionState::new();
    let (pkt, _) = sender.data_packet(&key, Direction::ClientToNode, b"ping");
    let mut wrong_side = SessionState::new();
    assert!(wrong_side.receive_data(&key, Direction::ClientToNode, &pkt).is_err());
    let other_key = session_key("other-token");
    let mut wrong_key = SessionState::new();
    assert!(wrong_key.receive_data(&other_key, Direction::NodeToClient, &pkt).is_err());
    assert_eq!(wrong_key.recv_seq, 0);
}

#[test]
fn udp_session_connect_uses_peer_reflexive_punch_source() {
    let mut peers = vec![addr(1, 60000)];
    let punch_source = addr(1, 60001);
    let punch = br#"{"role":"punch"}"#;
    assert_eq!(handshake_step(&mut peers, addr(1, 60001), punch, true), HandshakeStep::NewTarget);
    assert_eq!(peers[1].port, 60001);
    let ack = encode_packet(&packet(PacketKind::HelloAck, 0, b"")).unwrap();
    assert_eq!(handshake_step(&mut peers, punch_source, &ack, false), HandshakeStep::Accept);
}

#[test]
fn writes_are_cut_into_payload_sized_chunks() {
    assert_eq!(write_chunk_len(10), 10);
    assert_eq!(write_chunk_len(MAX_PAYLOAD_LEN + 5), MAX_PAYLOAD_LEN);
}

#[test]
fn pending_bytes_drain_into_the_buffer() {
    let mut pending: std::collections::VecDeque<u8> = b"hello".iter().copied().collect();
    let mut buf = [0u8; 3];
    assert_eq!(drain_pending(&mut pending, &mut buf), 3);
    assert_eq!(&buf, b"hel");
    assert_eq!(pending, std::collections::VecDeque::from(b"lo".to_vec()));
}

fn key(addr: &str) -> SessionHandshakeKey {
    SessionHandshakeKey { peer_addr: addr.into(), token: "signed-token".into(), service_id: "svc_web".into() }
}

#[test]
fn duplicate_handshakes_are_recognised_within_the_window() {
    let mut recent = std::collections::VecDeque::new();
    assert!(!is_duplicate_handshake(&mut recent, key("1.2.3.4:5"), 1_000));
    assert!(is_duplicate_handshake(&mut recent, key("1.2.3.4:5"), 2_000));
    assert!(!is_duplicate_handshake(&mut recent, key("1.2.3.4:6"), 3_000));
    assert_eq!(recent.len(), 2);
    assert!(!is_duplicate_handshake(&mut recent, key("1.2.3.4:5"), 40_000_000_000));
    assert_eq!(recent.len(), 1);
}

fn addr(last: u8, port: u16) -> PeerAddr {
    PeerAddr { ip: vec![127, 0, 0, last], port }
}

#[test]
fn handshake_accepts_ack_from_peer_reflexive_source() {
    let mut peers = vec![addr(1, 4000)];
    let ack = encode_packet(&packet(PacketKind::HelloAck, 0, b"")).unwrap();
    assert_eq!(handshake_step(&mut peers, addr(1, 5000), &ack, false), HandshakeStep::Accept);
    assert_eq!(peers.len(), 1);
    assert_eq!(handshake_step(&mut peers, addr(2, 4000), &ack, false), HandshakeStep::Wait);
    assert_eq!(handshake_step(&mut peers, addr(1, 6000), b"not a packet", true), HandshakeStep::NewTarget);
    assert_eq!(peers.len(), 2);
    assert_eq!(handshake_step(&mut peers, addr(1, 6000), b"not a packet", true), HandshakeStep::Wait);
}

#[test]
fn listener_classifies_datagrams() {
    let active = vec![addr(1, 4000)];
    let hello = encode_packet(&packet(PacketKind::Hello, 0, b"{}")).unwrap();
    let data = encode_packet(&packet(PacketKind::Data, 3, b"x")).unwrap();
    assert!(matches!(classify_datagram(&active, &addr(9, 1), b"{\"type\":\"punch\"}"), ListenerEvent::Rendezvous));
    assert!(matches!(classify_datagram(&active, &addr(9, 1), &hello), ListenerEvent::Hello(_)));
    assert!(matches!(classify_datagram(&active, &addr(1, 4000), &data), ListenerEvent::Route(_)));
    assert!(matches!(classify_datagram(&active, &addr(9, 1), &data), ListenerEvent::Drop));
}

#[test]
fn inbox_hands_out_the_oldest_matching_packet() {
    let mut inbox = PacketInbox::new();
    inbox.push(packet(PacketKind::Ack, 1, b""));
    inbox.push(packet(PacketKind::Data, 2, b"a"));
    inbox.push(packet(PacketKind::Data, 3, b"b"));
    let p = inbox.recv_matching(&[PacketKind::Data]).unwrap();
    assert_eq!(p.seq, 2);
    assert!(inbox.recv_matching(&[PacketKind::Close]).is_none());
    assert_eq!(inbox.packets.len(), 2);
}

#[test]
fn hello_lines_are_framed_and_read_back() {
    assert_eq!(frame_line(b"{}"), b"{}\n".to_vec());
    let mut reader = LineReader::new();
    assert!(matches!(reader.push_byte(b'{'), LineStep::More));
    assert!(matches!(reader.push_byte(b'}'), LineStep::More));
    match reader.push_byte(b'\n') {
        LineStep::Line(l) => assert_eq!(l, b"{}".to_vec()),
        _ => panic!("expected a complete line"),
    }
}

#[test]
fn rendezvous_messages_are_named_and_punches_targeted() {
    let peer = UdpRendezvousMessage::Peer { addr: "1.2.3.4:5".into() };
    assert_eq!(rendezvous_message_kind(&peer), "rendezvous_peer");
    assert_eq!(punch_target(&peer).map(|s| s.as_str()), Some("1.2.3.4:5"));
    assert!(is_punch(&UdpRendezvousMessage::Punch));
    assert!(!is_punch(&peer));
    assert_eq!(rendezvous_message_kind(&UdpRendezvousMessage::Punch), "rendezvous_punch");
}

fn encrypted_data_packet(token: &str, direction: Direction, seq: u64, bytes: &[u8]) -> Packet {
    let key_bytes = sha2::Sha256::digest(token.as_bytes());
    let cipher = chacha20poly1305::ChaCha20Poly1305::new(chacha20poly1305::Key::from_slice(&key_bytes));
    Packet {
        kind: PacketKind::Data,
        seq,
        payload: cipher
            .encrypt(chacha20poly1305::Nonce::from_slice(&nonce_bytes(direction, seq)), bytes)
            .unwrap(),
    }
}

#[test]
fn stream_buffers_out_of_order_data_without_reporting_eof() {
    let token = "signed-token";
    let key = session_key(token);
    let mut node = SessionState::new();
    node.receive_data(&key, Direction::NodeToClient, &encrypted_data_packet(token, Direction::ClientToNode, 1, b"def"))
        .unwrap();
    let mut first_read = [0_u8; 6];
    assert_eq!(node.read_into(&mut first_read), 0);
    assert_eq!(node.recv_seq, 0);

    node.receive_data(&key, Direction::NodeToClient, &encrypted_data_packet(token, Direction::ClientToNode, 0, b"abc"))
        .unwrap();
    let size = node.read_into(&mut first_read);

    assert_eq!(size, 6);
    assert_eq!(&first_read[..size], b"abcdef");
}

fn hello_datagram() -> Vec<u8> {
    let payload = br#"{"token":"signed-token","service_id":"svc_web"}"#.to_vec();
    encode_packet(&Packet { kind: PacketKind::Hello, seq: 0, payload }).unwrap()
}

#[test]
fn listener_does_not_accept_duplicate_session_hello_as_new_session() {
    let client = addr(1, 40000);
    let hello = hello_datagram();
    let mut recent = std::collections::VecDeque::new();
    for expected_duplicate in [false, true] {
        assert!(matches!(classify_datagram(&Vec::new(), &client, &hello), ListenerEvent::Hello(_)));
        let key = SessionHandshakeKey {
            peer_addr: "127.0.0.1:40000".into(),
            token: "signed-token".into(),
            service_id: "svc_web".into(),
        };
        assert_eq!(is_duplicate_handshake(&mut recent, key, 1_000), expected_duplicate);
    }
}

#[test]
fn connect_accepts_peer_reflexive_ack_source() {
    let observed_peer = addr(1, 50000);
    let handshake_source = addr(1, 50001);
    let ack_source = addr(1, 50002);
    let mut peers = vec![observed_peer];
    let punch = br#"{"role":"punch"}"#;
    assert_eq!(handshake_step(&mut peers, handshake_source, punch, true), HandshakeStep::NewTarget);
    let ack = encode_packet(&packet(PacketKind::HelloAck, 0, b"")).unwrap();
    assert_eq!(handshake_step(&mut peers, ack_source, &ack, false), HandshakeStep::Accept);
}

#[test]
fn connect_waits_for_ack_after_peer_reflexive_punch_burst() {
    let handshake_source = addr(1, 50001);
    let mut peers = vec![addr(1, 50000)];
    let punch = br#"{"role":"punch"}"#;
    assert_eq!(handshake_step(&mut peers, addr(1, 50001), punch, true), HandshakeStep::NewTarget);
    for _ in 1..5 {
        assert_eq!(handshake_step(&mut peers, addr(1, 50001), punch, true), HandshakeStep::Wait);
    }
    let ack = encode_packet(&packet(PacketKind::HelloAck, 0, b"")).unwrap();
    assert_eq!(handshake_step(&mut peers, handshake_source, &ack, false), HandshakeStep::Accept);
    assert_eq!(peers.len(), 2);
}

#[test]
fn listener_routes_active_session_data_while_accepting_new_sessions() {
    let active = vec![addr(1, 40000)];
    let data = encode_packet(&packet(PacketKind::Data, 0, b"ping")).unwrap();
    match classify_datagram(&active, &addr(1, 40000), &data) {
        ListenerEvent::Route(p) => {
            assert_eq!(p.kind, PacketKind::Data);
            assert_eq!(p.payload, b"ping".to_vec());
        }
        _ => panic!("listener accepted active session data as a new session"),
    }
}

#[test]
fn waiting_end_reacts_to_ack_data_and_close() {
    let pkt = |kind, seq| Packet { kind, seq, payload: Vec::new() };
    assert_eq!(stream_step(Some(7), &pkt(PacketKind::Ack, 7)), StreamStep::Acked);
    assert_eq!(stream_step(Some(7), &pkt(PacketKind::Ack, 6)), StreamStep::Ignore);
    assert_eq!(stream_step(None, &pkt(PacketKind::Ack, 7)), StreamStep::Ignore);
    assert_eq!(stream_step(Some(7), &pkt(PacketKind::Data, 3)), StreamStep::Deliver);
    assert_eq!(stream_step(None, &pkt(PacketKind::Close, 0)), StreamStep::Closed);
    assert_eq!(stream_step(None, &pkt(PacketKind::HelloAck, 0)), StreamStep::Ignore);
}

#[test]
fn framed_hello_reads_back_through_line_reader() {
    let message = br#"{"token":"t","service_id":"svc"}"#.to_vec();
    let framed = frame_line(&message);
    let mut reader = LineReader::new();
    let mut result = None;
    for byte in framed {
        match reader.push_byte(byte) {
            LineStep::More => {}
            LineStep::Line(line) => {
                result = Some(line);
                break;
            }
            LineStep::Missing | LineStep::TooLarge => panic!("unexpected end of line"),
        }
    }
    assert_eq!(result, Some(message));
}

#[test]
fn writes_resend_only_after_timeouts_up_to_five_sends() {
    assert_eq!(WRITE_ATTEMPTS, 5);
    assert_eq!(write_next(1, AckWait::Acked), WriteNext::Done);
    assert_eq!(write_next(1, AckWait::TimedOut), WriteNext::Resend);
    assert_eq!(write_next(4, AckWait::TimedOut), WriteNext::Resend);
    assert_eq!(write_next(5, AckWait::TimedOut), WriteNext::GiveUp);
    assert_eq!(write_next(2, AckWait::Failed), WriteNext::Fail);
    assert_eq!(BURST_PACKETS, 5);
    let pauses: Vec<bool> = (0..BURST_PACKETS).map(burst_pause_after).collect();
    assert_eq!(pauses, vec![true, true, true, true, false]);
}

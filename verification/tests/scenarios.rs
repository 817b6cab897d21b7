use oreno_quic::connection::{
    Connection, ConnectionError, ConnectionState, PeerAddr, MAX_DATAGRAM_SIZE,
};
use oreno_quic::ingest::read_frames;
use oreno_quic::crypto::EncryptionLevel;
use oreno_quic::frame::Frame;
use oreno_quic::packet::{ConnectionId, PacketHeader, PacketType};
use oreno_quic::tls::TlsConfig;
use std::sync::Arc;

fn server_addr() -> PeerAddr {
    PeerAddr::V4 { ip: [127, 0, 0, 1], port: 4433 }
}

fn client_addr() -> PeerAddr {
    PeerAddr::V4 { ip: [127, 0, 0, 1], port: 50000 }
}

/// A responder for the initiator that sent `first`.
fn responder_for(first: &[u8]) -> Connection {
    let (header, _) = PacketHeader::from_bytes(first).unwrap();
    let source = match header {
        PacketHeader::Long(h) => h.src_conn_id,
        PacketHeader::Short(_) => panic!("expected a long header"),
    };
    Connection::new_server(client_addr(), source)
}

fn long_header(datagram: &[u8]) -> (PacketType, u32, Vec<u8>, Vec<u8>, u64) {
    match PacketHeader::from_bytes(datagram).unwrap().0 {
        PacketHeader::Long(h) => {
            (h.packet_type, h.version, h.dest_conn_id.data, h.src_conn_id.data, h.packet_number)
        }
        PacketHeader::Short(_) => panic!("expected a long header"),
    }
}

fn frames_in(receiver: &Connection, datagram: &[u8]) -> Vec<Frame> {
    let (_, _, payload) = receiver.accept(datagram).unwrap();
    read_frames(&payload)
}

#[test]
fn ping_is_answered_with_one_ping() {
    let mut initiator = Connection::new_client(server_addr());
    let ping = initiator.create_initial_packet(vec![Frame::Ping]).unwrap();
    let mut responder = responder_for(&ping);

    let answers = responder.ingest_datagram(&ping);
    assert_eq!(answers.len(), 1);
    let (packet_type, version, dest, source, number) = long_header(&answers[0]);
    assert_eq!(packet_type, PacketType::Initial);
    assert_eq!(version, 1);
    assert_eq!(dest, initiator.local_conn_id.data);
    assert_eq!(source, responder.local_conn_id.data);
    assert_eq!(number, 0);
    assert_eq!(long_header(&ping).4, 0);

    let answered = frames_in(&initiator, &answers[0]);
    assert_eq!(answered.len(), 1);
    assert!(matches!(answered[0], Frame::Ping));

    // The initiator does not answer a PING, and neither end leaves Initial.
    assert!(initiator.ingest_datagram(&answers[0]).is_empty());
    assert_eq!(initiator.state, ConnectionState::Initial);
    assert_eq!(responder.state, ConnectionState::Initial);
    // The initiator has learned the responder's identifier.
    assert_eq!(initiator.remote_conn_id.unwrap().data, responder.local_conn_id.data);
}

#[test]
fn graceful_close_sends_one_close_frame() {
    let mut initiator = Connection::new_client(server_addr());
    let datagram = initiator.close("bye".to_string()).unwrap();
    assert_eq!(initiator.state, ConnectionState::Closing);

    let (packet_type, version, dest, _, number) = long_header(&datagram);
    assert_eq!(packet_type, PacketType::Initial);
    assert_eq!(version, 1);
    assert!(dest.is_empty());
    assert_eq!(number, 0);

    let mut responder = responder_for(&datagram);
    let frames = frames_in(&responder, &datagram);
    assert_eq!(frames.len(), 1);
    match &frames[0] {
        Frame::ConnectionClose { error_code, trigger_frame_type, reason } => {
            assert_eq!(*error_code, 0);
            assert_eq!(*trigger_frame_type, 0);
            assert_eq!(reason, "bye");
        }
        _ => panic!("expected a CONNECTION_CLOSE frame"),
    }

    // The responder answers with one close frame of its own and is closed.
    let answers = responder.ingest_datagram(&datagram);
    assert_eq!(answers.len(), 1);
    assert_eq!(responder.state, ConnectionState::Closed);
    assert!(responder.is_closed());
    assert_eq!(responder.crypto.keys_count(), 0);
    let returned = frames_in(&initiator, &answers[0]);
    assert_eq!(returned.len(), 1);
    match &returned[0] {
        Frame::ConnectionClose { error_code, trigger_frame_type, reason } => {
            assert_eq!(*error_code, 0);
            assert_eq!(*trigger_frame_type, 0);
            assert_eq!(reason, "");
        }
        _ => panic!("expected a CONNECTION_CLOSE frame"),
    }

    // The initiator was closing already: it sends nothing more and is closed.
    assert!(initiator.ingest_datagram(&answers[0]).is_empty());
    assert_eq!(initiator.state, ConnectionState::Closed);
    assert_eq!(initiator.crypto.keys_count(), 0);

    // A closed connection discards what reaches it and sends nothing.
    assert!(responder.ingest_datagram(&datagram).is_empty());
    assert!(matches!(
        responder.close("again".to_string()),
        Err(ConnectionError::InvalidState)
    ));
    assert!(matches!(
        responder.create_initial_packet(vec![Frame::Ping]),
        Err(ConnectionError::InvalidState)
    ));
}

#[test]
fn multi_frame_packet_is_read_in_order() {
    let mut initiator = Connection::new_client(server_addr());
    let datagram = initiator
        .create_initial_packet(vec![
            Frame::Padding { length: 5 },
            Frame::Ping,
            Frame::Padding { length: 3 },
        ])
        .unwrap();
    let responder = responder_for(&datagram);
    let frames = frames_in(&responder, &datagram);
    assert_eq!(frames.len(), 3);
    assert!(matches!(frames[0], Frame::Padding { length: 5 }));
    assert!(matches!(frames[1], Frame::Ping));
    assert!(matches!(frames[2], Frame::Padding { length: 3 }));
}

#[test]
fn truncated_header_is_discarded() {
    let mut responder = Connection::new_server(client_addr(), ConnectionId::new(vec![1, 2, 3, 4]));
    let answers = responder.ingest_datagram(&[0x80]);
    assert!(answers.is_empty());
    assert_eq!(responder.state, ConnectionState::Initial);
    assert_eq!(responder.packet_number, 0);
    assert_eq!(responder.crypto.keys_count(), 1);
    assert!(responder.ingest_datagram(&[]).is_empty());
    assert!(responder.accept(&[0x80]).is_none());
}

#[test]
fn unknown_frame_type_stops_the_packet() {
    assert_eq!(read_frames(&[0x01, 0xFF, 0x01]).len(), 1);
    assert!(matches!(read_frames(&[0x01, 0xFF, 0x01])[0], Frame::Ping));

    // The same payload inside a packet: one PING is acted upon.
    let mut initiator = Connection::new_client(server_addr());
    let plain = initiator.create_initial_packet(vec![Frame::Ping]).unwrap();
    let mut responder = responder_for(&plain);
    let (header, used) = PacketHeader::from_bytes(&plain).unwrap();
    let header_bytes = header.to_bytes().unwrap();
    assert_eq!(header_bytes, &plain[..used]);
    let sealed = initiator
        .crypto
        .encrypt_packet(EncryptionLevel::Initial, 0, &header_bytes, &[0x01, 0xFF, 0x01])
        .unwrap();
    let mut datagram = header_bytes.clone();
    datagram.extend_from_slice(&sealed);

    let answers = responder.ingest_datagram(&datagram);
    assert_eq!(answers.len(), 1);
    let answered = frames_in(&initiator, &answers[0]);
    assert_eq!(answered.len(), 1);
    assert!(matches!(answered[0], Frame::Ping));
    assert_eq!(responder.state, ConnectionState::Initial);
}

#[test]
fn handshake_converges_within_four_round_trips() {
    let config = Arc::new(TlsConfig::new().unwrap());
    let mut initiator = Connection::new_client(server_addr());
    initiator.setup_tls(config.clone()).unwrap();
    assert!(!initiator.is_tls_handshake_complete());

    let first = initiator.start_tls_handshake().unwrap();
    let (packet_type, _, dest, _, number) = long_header(&first);
    assert_eq!(packet_type, PacketType::Initial);
    assert!(dest.is_empty());
    assert_eq!(number, 0);

    let mut responder = responder_for(&first);
    responder.setup_tls(config).unwrap();
    let hello = frames_in(&responder, &first);
    assert_eq!(hello.len(), 1);
    let hello_len = match &hello[0] {
        Frame::Crypto { offset, data } => {
            assert_eq!(*offset, 0);
            assert!(!data.is_empty());
            data.len() as u64
        }
        _ => panic!("expected a CRYPTO frame"),
    };
    assert_eq!(initiator.crypto_sent.initial, hello_len);

    let mut to_responder = vec![first];
    let mut round_trips = 0;
    let mut first_answer = true;
    while round_trips < 4
        && !(initiator.state == ConnectionState::Established
            && responder.state == ConnectionState::Established)
    {
        let mut to_initiator = Vec::new();
        for datagram in to_responder.drain(..) {
            to_initiator.extend(responder.ingest_datagram(&datagram));
        }
        if first_answer {
            first_answer = false;
            assert!(!to_initiator.is_empty());
            let answer = frames_in(&initiator, &to_initiator[0]);
            match &answer[0] {
                Frame::Crypto { offset, data } => {
                    assert_eq!(*offset, 0);
                    assert!(!data.is_empty());
                }
                _ => panic!("expected a CRYPTO frame"),
            }
            assert_eq!(responder.state, ConnectionState::Handshake);
            assert!(responder.crypto.has_keys(&EncryptionLevel::Handshake));
        }
        for datagram in to_initiator {
            to_responder.extend(initiator.ingest_datagram(&datagram));
        }
        round_trips += 1;
    }

    assert!(round_trips <= 4);
    assert!(initiator.is_tls_handshake_complete());
    assert!(responder.is_tls_handshake_complete());
    assert_eq!(initiator.state, ConnectionState::Established);
    assert_eq!(responder.state, ConnectionState::Established);
    assert_eq!(initiator.crypto.keys_count(), 3);
    assert_eq!(responder.crypto.keys_count(), 3);

    // Established connections talk at the Application level.
    let ping = initiator.create_packet(EncryptionLevel::Application, vec![Frame::Ping]).unwrap();
    assert!(matches!(PacketHeader::from_bytes(&ping).unwrap().0, PacketHeader::Short(_)));
    let answers = responder.ingest_datagram(&ping);
    assert_eq!(answers.len(), 1);
    assert!(matches!(PacketHeader::from_bytes(&answers[0]).unwrap().0, PacketHeader::Short(_)));
    let answered = frames_in(&initiator, &answers[0]);
    assert!(matches!(answered[0], Frame::Ping));
}

#[test]
fn handshake_bytes_that_are_no_handshake_close_the_connection() {
    let config = Arc::new(TlsConfig::new().unwrap());
    let mut initiator = Connection::new_client(server_addr());
    let garbage = Frame::Crypto { offset: 0, data: bytes::Bytes::from_static(&[0xde, 0xad, 0xbe, 0xef, 0, 1, 2]) };
    let datagram = initiator.create_initial_packet(vec![garbage]).unwrap();
    let mut responder = responder_for(&datagram);
    responder.setup_tls(config).unwrap();

    let answers = responder.ingest_datagram(&datagram);
    assert_eq!(responder.state, ConnectionState::Closing);
    assert_eq!(answers.len(), 1);
    let frames = frames_in(&initiator, &answers[0]);
    match &frames[0] {
        Frame::ConnectionClose { error_code, trigger_frame_type, reason } => {
            assert_eq!(*error_code, 0x0128);
            assert_eq!(*trigger_frame_type, 0x06);
            assert_eq!(reason, "TLS handshake failed");
        }
        _ => panic!("expected a CONNECTION_CLOSE frame"),
    }
}

#[test]
fn packets_of_a_level_without_keys_are_discarded() {
    let mut initiator = Connection::new_client(server_addr());
    initiator.crypto.setup_handshake_keys(b"secret", true).unwrap();
    let datagram = initiator.create_handshake_packet(vec![Frame::Ping]).unwrap();
    let mut responder = responder_for(&datagram);
    assert!(responder.accept(&datagram).is_none());
    assert!(responder.ingest_datagram(&datagram).is_empty());
    assert_eq!(responder.packet_number, 0);

    // With the matching keys the same packet is accepted.
    responder.crypto.setup_handshake_keys(b"secret", false).unwrap();
    let answers = responder.ingest_datagram(&datagram);
    assert_eq!(answers.len(), 1);
    let (packet_type, _, _, _, number) = long_header(&answers[0]);
    assert_eq!(packet_type, PacketType::Handshake);
    assert_eq!(number, 0);
    assert_eq!(responder.handshake_packet_number, 1);
    assert_eq!(responder.packet_number, 0);
}

#[test]
fn oversized_and_tampered_datagrams_are_discarded() {
    let mut initiator = Connection::new_client(server_addr());
    let datagram = initiator.create_initial_packet(vec![Frame::Ping]).unwrap();
    let mut responder = responder_for(&datagram);

    let mut tampered = datagram.clone();
    let last = tampered.len() - 1;
    tampered[last] ^= 0x01;
    assert!(responder.ingest_datagram(&tampered).is_empty());

    let big = initiator
        .create_initial_packet(vec![Frame::Padding { length: MAX_DATAGRAM_SIZE }])
        .unwrap();
    assert!(big.len() > MAX_DATAGRAM_SIZE);
    assert!(responder.ingest_datagram(&big).is_empty());
    assert_eq!(responder.packet_number, 0);
    assert_eq!(responder.state, ConnectionState::Initial);

    // Retry and 0-RTT packets belong to no level that is implemented.
    let mut retry = datagram.clone();
    retry[0] = 0x80 | (3 << 4);
    assert!(responder.ingest_datagram(&retry).is_empty());
    assert_eq!(responder.ingest_datagram(&datagram).len(), 1);
}

#[test]
fn handshake_bytes_that_arrive_out_of_order_are_put_in_order() {
    let config = Arc::new(TlsConfig::new().unwrap());
    let mut initiator = Connection::new_client(server_addr());
    initiator.setup_tls(config.clone()).unwrap();
    let first = initiator.start_tls_handshake().unwrap();
    let mut responder = responder_for(&first);
    responder.setup_tls(config).unwrap();
    let hello = match frames_in(&responder, &first).remove(0) {
        Frame::Crypto { data, .. } => data,
        _ => panic!("expected a CRYPTO frame"),
    };

    // The same bytes in two packets, the second half first.
    let middle = hello.len() / 2;
    let mut sender = Connection::new_client(server_addr());
    sender.local_conn_id = ConnectionId::new(initiator.local_conn_id.data.clone());
    let late = Frame::Crypto { offset: middle as u64, data: hello.slice(middle..) };
    let early = Frame::Crypto { offset: 0, data: hello.slice(..middle) };
    let second_half = sender.create_initial_packet(vec![late]).unwrap();
    let first_half = sender.create_initial_packet(vec![early]).unwrap();

    assert!(responder.ingest_datagram(&second_half).is_empty());
    assert_eq!(responder.state, ConnectionState::Initial);
    assert_eq!(responder.crypto_streams.initial.held(), 1);
    let answers = responder.ingest_datagram(&first_half);
    assert_eq!(answers.len(), 1);
    assert_eq!(responder.state, ConnectionState::Handshake);
    assert_eq!(responder.crypto_streams.initial.delivered(), hello.len() as u64);
    assert_eq!(responder.crypto_streams.initial.held(), 0);

    // A packet that arrives twice changes nothing the second time.
    assert!(responder.ingest_datagram(&first_half).is_empty());
    assert_eq!(responder.state, ConnectionState::Handshake);
}

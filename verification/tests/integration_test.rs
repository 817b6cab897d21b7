use bytes::Bytes;
use oreno_quic::connection::{Connection, ConnectionState, PeerAddr};
use oreno_quic::ingest::read_frames;
use oreno_quic::frame::Frame;
use oreno_quic::packet::{ConnectionId, PacketHeader};

fn peer(port: u16) -> PeerAddr {
    PeerAddr::V4 { ip: [127, 0, 0, 1], port }
}

/// What the receiving end reads in a datagram: the frames of its payload.
fn frames_in(receiver: &Connection, datagram: &[u8]) -> Vec<Frame> {
    let (_, _, payload) = receiver.accept(datagram).unwrap();
    read_frames(&payload)
}

#[test]
fn test_client_server_ping_pong() {
    let actual_server_addr = peer(4433);
    let client_addr = peer(50000);

    // Create client connection
    let mut client_conn = Connection::new_client(actual_server_addr);

    // Send PING from client
    let ping_packet = client_conn.create_initial_packet(vec![Frame::Ping]).unwrap();

    // Server receives and processes packet
    let mut buf = vec![0u8; 1500];
    let len = ping_packet.len();
    buf[..len].copy_from_slice(&ping_packet);
    let peer_addr = client_addr;

    assert_eq!(peer_addr, client_addr);

    let mut packet_data = Bytes::copy_from_slice(&buf[..len]);
    let header = PacketHeader::decode(&mut packet_data).unwrap();

    // Extract connection ID for server
    let src_conn_id = match &header {
        PacketHeader::Long(h) => h.src_conn_id.clone(),
        _ => panic!("Expected long header"),
    };

    // Create server connection
    let mut server_conn = Connection::new_server(peer_addr, src_conn_id);

    // Decode frame
    let frames = frames_in(&server_conn, &buf[..len]);
    assert!(matches!(frames[0], Frame::Ping));

    // Server sends PING response
    let pong_packet = server_conn.create_initial_packet(vec![Frame::Ping]).unwrap();

    // Client receives response
    let len = pong_packet.len();
    buf[..len].copy_from_slice(&pong_packet);

    let mut response_data = Bytes::copy_from_slice(&buf[..len]);
    let _response_header = PacketHeader::decode(&mut response_data).unwrap();
    let response_frames = frames_in(&client_conn, &buf[..len]);

    assert!(matches!(response_frames[0], Frame::Ping));
}

#[test]
fn test_connection_close() {
    let actual_server_addr = peer(4433);
    let client_addr = peer(50000);

    // Create client connection
    let mut client_conn = Connection::new_client(actual_server_addr);

    // Send CONNECTION_CLOSE from client
    let close_packet = client_conn.close("Client disconnect".to_string()).unwrap();

    // Server receives and processes packet
    let mut buf = vec![0u8; 1500];
    let len = close_packet.len();
    buf[..len].copy_from_slice(&close_packet);
    let peer_addr = client_addr;

    assert_eq!(peer_addr, client_addr);

    let mut packet_data = Bytes::copy_from_slice(&buf[..len]);
    let header = PacketHeader::decode(&mut packet_data).unwrap();

    // Extract connection ID for server
    let src_conn_id = match &header {
        PacketHeader::Long(h) => h.src_conn_id.clone(),
        _ => panic!("Expected long header"),
    };

    // Create server connection
    let mut server_conn = Connection::new_server(peer_addr, src_conn_id);

    // Decode frame
    let mut frames = frames_in(&server_conn, &buf[..len]);
    match frames.remove(0) {
        Frame::ConnectionClose { error_code, reason, .. } => {
            assert_eq!(error_code, 0);
            assert_eq!(reason, "Client disconnect");
        }
        _ => panic!("Expected ConnectionClose frame"),
    }

    // Verify client is in closing state
    assert_eq!(client_conn.state, ConnectionState::Closing);

    // Server responds with its own CONNECTION_CLOSE
    let server_close = server_conn.close("Server acknowledged".to_string()).unwrap();
    assert!(!server_close.is_empty());
    server_conn.handle_state_transition(ConnectionState::Closed);
    // A closed connection sends nothing more.
    assert!(server_conn.close("Server acknowledged".to_string()).is_err());
}

#[test]
fn test_packet_with_multiple_frames() {
    let actual_server_addr = peer(4433);

    // Create client connection
    let mut client_conn = Connection::new_client(actual_server_addr);

    // Send packet with multiple frames
    let frames = vec![
        Frame::Padding { length: 5 },
        Frame::Ping,
        Frame::Padding { length: 3 },
    ];
    let packet = client_conn.create_initial_packet(frames).unwrap();

    // Server receives and processes packet
    let mut buf = vec![0u8; 1500];
    let len = packet.len();
    buf[..len].copy_from_slice(&packet);

    let mut packet_data = Bytes::copy_from_slice(&buf[..len]);
    let _header = PacketHeader::decode(&mut packet_data).unwrap();
    let server_conn = Connection::new_server(peer(50000), ConnectionId::new(vec![]));

    // Decode all frames
    let mut frame_count = 0;
    let mut found_ping = false;
    let mut total_padding = 0;

    for frame in frames_in(&server_conn, &buf[..len]) {
        frame_count += 1;

        match frame {
            Frame::Ping => found_ping = true,
            Frame::Padding { length } => total_padding += length,
            _ => {}
        }
    }

    assert_eq!(frame_count, 3);
    assert!(found_ping);
    assert_eq!(total_padding, 8); // 5 + 3
}

#[test]
fn test_invalid_packet_handling() {
    // Send invalid packet (too short)
    let invalid_packet = vec![0x80]; // Long header flag but truncated

    // Server receives packet
    let mut buf = vec![0u8; 1500];
    let len = invalid_packet.len();
    buf[..len].copy_from_slice(&invalid_packet);

    let mut packet_data = Bytes::copy_from_slice(&buf[..len]);

    // Should fail to decode
    assert!(PacketHeader::decode(&mut packet_data).is_err());
}

#[test]
fn test_large_connection_id() {
    let actual_server_addr = peer(4433);

    // Create client connection with large connection ID
    let mut client_conn = Connection::new_client(actual_server_addr);
    client_conn.remote_conn_id = Some(ConnectionId::new(vec![1; 20])); // 20 byte conn ID

    let ping_packet = client_conn.create_initial_packet(vec![Frame::Ping]).unwrap();

    // Server receives and processes packet
    let mut buf = vec![0u8; 1500];
    let len = ping_packet.len();
    buf[..len].copy_from_slice(&ping_packet);

    let mut packet_data = Bytes::copy_from_slice(&buf[..len]);
    let header = PacketHeader::decode(&mut packet_data).unwrap();

    match header {
        PacketHeader::Long(h) => {
            assert_eq!(h.dest_conn_id.len(), 20);
            assert_eq!(h.src_conn_id.len(), 8); // Client's local conn ID
        }
        _ => panic!("Expected long header"),
    }
}

#[test]
fn test_connection_id_operations() {
    let conn_id1 = ConnectionId::new(vec![1, 2, 3, 4]);
    let conn_id2 = ConnectionId::random(8);
    let empty_conn_id = ConnectionId::new(vec![]);
    
    assert_eq!(conn_id1.len(), 4);
    assert_eq!(conn_id2.len(), 8);
    assert_eq!(empty_conn_id.len(), 0);
    
    assert!(!conn_id1.is_empty());
    assert!(!conn_id2.is_empty());
    assert!(empty_conn_id.is_empty());
    
    // Random IDs should be different
    let random1 = ConnectionId::random(16);
    let random2 = ConnectionId::random(16);
    assert_ne!(random1.data, random2.data);
}

#[test]
fn test_frame_roundtrip() {
    let frames = vec![
        Frame::Ping,
        Frame::Padding { length: 10 },
        Frame::ConnectionClose {
            error_code: 12345,
            trigger_frame_type: 0,
            reason: "Test error message".to_string(),
        },
    ];
    
    for original_frame in frames {
        let mut buf = bytes::BytesMut::new();
        original_frame.encode(&mut buf).unwrap();
        
        let mut bytes = buf.freeze();
        let decoded_frame = Frame::decode(&mut bytes).unwrap();
        
        assert_eq!(std::mem::discriminant(&original_frame), std::mem::discriminant(&decoded_frame));
        
        match (&original_frame, &decoded_frame) {
            (Frame::Ping, Frame::Ping) => {},
            (Frame::Padding { length: l1 }, Frame::Padding { length: l2 }) => {
                assert_eq!(l1, l2);
            },
            (
                Frame::ConnectionClose { error_code: e1, reason: r1, .. },
                Frame::ConnectionClose { error_code: e2, reason: r2, .. }
            ) => {
                assert_eq!(e1, e2);
                assert_eq!(r1, r2);
            },
            _ => panic!("Frame type mismatch"),
        }
    }
}

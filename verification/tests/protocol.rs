use vlan_gaming::protocol::{
    decode_client_message, decode_server_message, encode_client_message, encode_server_message,
    ClientMessage, DecodeError, ServerMessage,
};

#[test]
fn test_client_message_roundtrip() {
    let msg = ClientMessage::Register {
        room_id: "test-room".to_string(),
    };
    let encoded = encode_client_message(&msg);
    let decoded: ClientMessage = decode_client_message(&encoded).unwrap();
    match decoded {
        ClientMessage::Register { room_id } => assert_eq!(room_id, "test-room"),
        _ => panic!("unexpected message type"),
    }
}

#[test]
fn test_server_message_roundtrip() {
    let msg = ServerMessage::RegisterOk {
        virtual_ip: 0x0A0A0001, // 10.10.0.1
    };
    let encoded = encode_server_message(&msg);
    let decoded: ServerMessage = decode_server_message(&encoded).unwrap();
    match decoded {
        ServerMessage::RegisterOk { virtual_ip } => assert_eq!(virtual_ip, 0x0A0A0001),
        _ => panic!("unexpected message type"),
    }
}

#[test]
fn register_matches_bincode_layout() {
    let msg = ClientMessage::Register {
        room_id: "test-room".to_string(),
    };
    let expected = bincode::serialize(&(0u32, "test-room")).unwrap();
    assert_eq!(encode_client_message(&msg), expected);
    assert_eq!(
        expected,
        vec![0, 0, 0, 0, 9, 0, 0, 0, 0, 0, 0, 0, b't', b'e', b's', b't', b'-', b'r', b'o', b'o', b'm']
    );
}

#[test]
fn client_data_matches_bincode_layout() {
    let msg = ClientMessage::Data {
        dst_ip: 0x0A0A0002,
        payload: vec![1, 2, 3],
    };
    let expected = bincode::serialize(&(1u32, 0x0A0A0002u32, vec![1u8, 2, 3])).unwrap();
    assert_eq!(encode_client_message(&msg), expected);
}

#[test]
fn heartbeat_matches_bincode_layout() {
    assert_eq!(
        encode_client_message(&ClientMessage::Heartbeat),
        bincode::serialize(&2u32).unwrap()
    );
    assert_eq!(encode_client_message(&ClientMessage::Heartbeat), vec![2, 0, 0, 0]);
}

#[test]
fn server_messages_match_bincode_layout() {
    let cases: Vec<(ServerMessage, Vec<u8>)> = vec![
        (
            ServerMessage::RegisterOk { virtual_ip: 7 },
            bincode::serialize(&(0u32, 7u32)).unwrap(),
        ),
        (
            ServerMessage::RegisterFailed { reason: "满员".to_string() },
            bincode::serialize(&(1u32, "满员")).unwrap(),
        ),
        (
            ServerMessage::Data { src_ip: 9, payload: vec![4, 5] },
            bincode::serialize(&(2u32, 9u32, vec![4u8, 5])).unwrap(),
        ),
        (
            ServerMessage::PeerJoined { virtual_ip: 11 },
            bincode::serialize(&(3u32, 11u32)).unwrap(),
        ),
        (
            ServerMessage::PeerLeft { virtual_ip: 12 },
            bincode::serialize(&(4u32, 12u32)).unwrap(),
        ),
        (ServerMessage::HeartbeatAck, bincode::serialize(&5u32).unwrap()),
    ];
    for (msg, expected) in cases {
        assert_eq!(encode_server_message(&msg), expected);
        assert_eq!(decode_server_message(&expected).unwrap(), msg);
    }
}

#[test]
fn every_client_message_roundtrips() {
    let msgs = vec![
        ClientMessage::Register { room_id: "房间 1".to_string() },
        ClientMessage::Register { room_id: String::new() },
        ClientMessage::Data { dst_ip: 0xFFFF_FFFF, payload: vec![] },
        ClientMessage::Data { dst_ip: 0x0A0A_0003, payload: vec![0xFF; 1500] },
        ClientMessage::Heartbeat,
    ];
    for msg in msgs {
        let bytes = encode_client_message(&msg);
        assert_eq!(decode_client_message(&bytes).unwrap(), msg);
    }
}

#[test]
fn trailing_bytes_are_ignored() {
    let mut bytes = encode_server_message(&ServerMessage::PeerJoined { virtual_ip: 0x0A0A0005 });
    bytes.extend_from_slice(&[9, 9, 9]);
    assert_eq!(
        decode_server_message(&bytes).unwrap(),
        ServerMessage::PeerJoined { virtual_ip: 0x0A0A0005 }
    );
}

#[test]
fn empty_datagram_is_truncated() {
    assert_eq!(decode_client_message(&[]), Err(DecodeError::UnexpectedEnd));
    assert_eq!(decode_server_message(&[1, 0]), Err(DecodeError::UnexpectedEnd));
}

#[test]
fn short_payload_is_truncated() {
    let mut bytes = encode_client_message(&ClientMessage::Data { dst_ip: 1, payload: vec![1, 2, 3, 4] });
    bytes.pop();
    assert_eq!(decode_client_message(&bytes), Err(DecodeError::UnexpectedEnd));
}

#[test]
fn huge_length_is_truncated() {
    let bytes = vec![0, 0, 0, 0, 0xFF, 0xFF, 0xFF, 0xFF, 0xFF, 0xFF, 0xFF, 0xFF, b'a'];
    assert_eq!(decode_client_message(&bytes), Err(DecodeError::UnexpectedEnd));
}

#[test]
fn unknown_variant_is_refused() {
    assert_eq!(
        decode_client_message(&[3, 0, 0, 0]),
        Err(DecodeError::UnknownVariant { index: 3 })
    );
    assert_eq!(
        decode_server_message(&[6, 0, 0, 0]),
        Err(DecodeError::UnknownVariant { index: 6 })
    );
    assert!(bincode::deserialize::<u32>(&[6, 0, 0, 0]).is_ok());
}

#[test]
fn invalid_utf8_is_refused() {
    let bytes = vec![1, 0, 0, 0, 2, 0, 0, 0, 0, 0, 0, 0, 0xC3, 0x28];
    assert_eq!(decode_server_message(&bytes), Err(DecodeError::InvalidUtf8));
    assert!(bincode::deserialize::<(u32, String)>(&bytes).is_err());
}

#[test]
fn decoding_agrees_with_bincode_on_plain_values() {
    let bytes = bincode::serialize(&(2u32, 0x0A0A0001u32, vec![7u8, 8, 9])).unwrap();
    let (tag, ip, payload): (u32, u32, Vec<u8>) = bincode::deserialize(&bytes).unwrap();
    assert_eq!(tag, 2);
    assert_eq!(
        decode_server_message(&bytes).unwrap(),
        ServerMessage::Data { src_ip: ip, payload }
    );
}

use vlan_gaming::client::{
    packet_destination, tunnel_action, tunnel_message, ClientEvent, ClientState, RegisterStep,
    TunnelAction,
};
use vlan_gaming::protocol::{ClientMessage, ServerMessage};

#[test]
fn register_ok_sets_the_address() {
    let mut state = ClientState::new();
    assert_eq!(state.virtual_ip(), None);
    let ev = state.on_server_message(ServerMessage::RegisterOk { virtual_ip: 0x0A0A_0002 });
    assert_eq!(ev, Some(ClientEvent::Connected { virtual_ip: 0x0A0A_0002 }));
    assert_eq!(state.virtual_ip(), Some(0x0A0A_0002));
}

#[test]
fn server_messages_become_events() {
    let mut state = ClientState::new();
    assert_eq!(
        state.on_server_message(ServerMessage::RegisterFailed { reason: "no".to_string() }),
        Some(ClientEvent::ConnectFailed { reason: "no".to_string() })
    );
    assert_eq!(
        state.on_server_message(ServerMessage::Data { src_ip: 1, payload: vec![2] }),
        Some(ClientEvent::DataReceived { src_ip: 1, payload: vec![2] })
    );
    assert_eq!(
        state.on_server_message(ServerMessage::PeerJoined { virtual_ip: 3 }),
        Some(ClientEvent::PeerJoined { virtual_ip: 3 })
    );
    assert_eq!(
        state.on_server_message(ServerMessage::PeerLeft { virtual_ip: 4 }),
        Some(ClientEvent::PeerLeft { virtual_ip: 4 })
    );
    assert_eq!(state.on_server_message(ServerMessage::HeartbeatAck), None);
    assert_eq!(state.virtual_ip(), None);
}

#[test]
fn waiting_for_registration() {
    let mut state = ClientState::new();
    match state.on_register_reply(ServerMessage::PeerJoined { virtual_ip: 5 }) {
        RegisterStep::Waiting { event } => {
            assert_eq!(event, Some(ClientEvent::PeerJoined { virtual_ip: 5 }))
        }
        _ => panic!("should still wait"),
    }
    match state.on_register_reply(ServerMessage::HeartbeatAck) {
        RegisterStep::Waiting { event } => assert_eq!(event, None),
        _ => panic!("should still wait"),
    }
    match state.on_register_reply(ServerMessage::RegisterOk { virtual_ip: 6 }) {
        RegisterStep::Registered { virtual_ip, event } => {
            assert_eq!(virtual_ip, 6);
            assert_eq!(event, ClientEvent::Connected { virtual_ip: 6 });
        }
        _ => panic!("should be registered"),
    }
    assert_eq!(state.virtual_ip(), Some(6));
}

#[test]
fn registration_refused() {
    let mut state = ClientState::new();
    match state.on_register_reply(ServerMessage::RegisterFailed { reason: "full".to_string() }) {
        RegisterStep::Rejected { reason, event } => {
            assert_eq!(reason, "full");
            assert_eq!(event, ClientEvent::ConnectFailed { reason: "full".to_string() });
        }
        _ => panic!("should be refused"),
    }
    assert_eq!(state.virtual_ip(), None);
}

fn ipv4_packet(dst: [u8; 4]) -> Vec<u8> {
    let mut p = vec![0x45, 0, 0, 20, 0, 0, 0, 0, 64, 17, 0, 0, 10, 10, 0, 1];
    p.extend_from_slice(&dst);
    p
}

#[test]
fn destination_is_read_big_endian() {
    assert_eq!(packet_destination(&ipv4_packet([10, 10, 0, 2])), Some(0x0A0A_0002));
    assert_eq!(packet_destination(&ipv4_packet([192, 168, 1, 255])), Some(0xC0A8_01FF));
    assert_eq!(packet_destination(&[0u8; 19]), None);
}

#[test]
fn packets_are_tunnelled_whole() {
    let packet = ipv4_packet([10, 10, 0, 7]);
    assert_eq!(
        tunnel_message(packet.clone()),
        Some(ClientMessage::Data { dst_ip: 0x0A0A_0007, payload: packet })
    );
    assert_eq!(tunnel_message(vec![1, 2, 3]), None);
}

#[test]
fn tunnel_actions() {
    match tunnel_action(ServerMessage::Data { src_ip: 1, payload: vec![9, 9] }) {
        TunnelAction::WritePacket(p) => assert_eq!(p, vec![9, 9]),
        _ => panic!("payload should be written"),
    }
    match tunnel_action(ServerMessage::PeerLeft { virtual_ip: 2 }) {
        TunnelAction::Emit(e) => assert_eq!(e, ClientEvent::PeerLeft { virtual_ip: 2 }),
        _ => panic!("should be reported"),
    }
    match tunnel_action(ServerMessage::PeerJoined { virtual_ip: 3 }) {
        TunnelAction::Emit(e) => assert_eq!(e, ClientEvent::PeerJoined { virtual_ip: 3 }),
        _ => panic!("should be reported"),
    }
    assert!(matches!(tunnel_action(ServerMessage::HeartbeatAck), TunnelAction::Ignore));
    assert!(matches!(tunnel_action(ServerMessage::RegisterOk { virtual_ip: 1 }), TunnelAction::Ignore));
}

use vlan_gaming::protocol::{ClientMessage, ServerMessage};
use vlan_gaming::server::{Delivery, Peer, PeerAddr, Room, Rooms};

fn addr(port: u16) -> PeerAddr {
    PeerAddr::V4 { ip: 0x7F00_0001, port }
}

fn register(room: &str) -> ClientMessage {
    ClientMessage::Register { room_id: room.to_string() }
}

fn plain(out: Vec<Delivery>) -> Vec<(PeerAddr, ServerMessage)> {
    out.into_iter().map(|d| (d.to, d.message)).collect()
}

#[test]
fn new_room_starts_at_first_host() {
    let room = Room::new();
    assert!(room.peers.is_empty());
    assert_eq!(room.next_ip, 1);
}

#[test]
fn allocate_ip_hands_out_consecutive_addresses() {
    let mut room = Room::new();
    assert_eq!(room.allocate_ip(), 0x0A0A_0001);
    assert_eq!(room.allocate_ip(), 0x0A0A_0002);
    assert_eq!(room.next_ip, 3);
}

#[test]
fn find_and_remove_peers() {
    let mut room = Room::new();
    room.peers.push(Peer { addr: addr(1), virtual_ip: 0x0A0A_0001 });
    room.peers.push(Peer { addr: addr(2), virtual_ip: 0x0A0A_0002 });
    assert_eq!(room.find_peer_by_ip(0x0A0A_0002).unwrap().addr, addr(2));
    assert!(room.find_peer_by_ip(0x0A0A_0009).is_none());
    assert_eq!(room.find_peer_by_addr(&addr(1)).unwrap().virtual_ip, 0x0A0A_0001);
    assert!(room.find_peer_by_addr(&addr(3)).is_none());
    let removed = room.remove_peer_by_addr(&addr(1)).unwrap();
    assert_eq!(removed.virtual_ip, 0x0A0A_0001);
    assert_eq!(room.peers.len(), 1);
    assert!(room.remove_peer_by_addr(&addr(1)).is_none());
    assert_eq!(room.next_ip, 1);
}

#[test]
fn first_client_gets_first_address() {
    let mut rooms = Rooms::new();
    let out = rooms.handle_client_message(addr(1), register("game"));
    assert_eq!(
        plain(out),
        vec![(addr(1), ServerMessage::RegisterOk { virtual_ip: 0x0A0A_0001 })]
    );
    let room = rooms.room(&"game".to_string()).unwrap();
    assert_eq!(room.peers, vec![Peer { addr: addr(1), virtual_ip: 0x0A0A_0001 }]);
    assert_eq!(room.next_ip, 2);
}

#[test]
fn joining_announces_both_ways() {
    let mut rooms = Rooms::new();
    rooms.handle_client_message(addr(1), register("game"));
    rooms.handle_client_message(addr(2), register("game"));
    let out = rooms.handle_client_message(addr(3), register("game"));
    assert_eq!(
        plain(out),
        vec![
            (addr(1), ServerMessage::PeerJoined { virtual_ip: 0x0A0A_0003 }),
            (addr(2), ServerMessage::PeerJoined { virtual_ip: 0x0A0A_0003 }),
            (addr(3), ServerMessage::PeerJoined { virtual_ip: 0x0A0A_0001 }),
            (addr(3), ServerMessage::PeerJoined { virtual_ip: 0x0A0A_0002 }),
            (addr(3), ServerMessage::RegisterOk { virtual_ip: 0x0A0A_0003 }),
        ]
    );
}

#[test]
fn registering_twice_is_ignored() {
    let mut rooms = Rooms::new();
    rooms.handle_client_message(addr(1), register("game"));
    let out = rooms.handle_client_message(addr(1), register("game"));
    assert!(out.is_empty());
    assert_eq!(rooms.room(&"game".to_string()).unwrap().peers.len(), 1);
}

#[test]
fn rooms_hand_out_addresses_independently() {
    let mut rooms = Rooms::new();
    rooms.handle_client_message(addr(1), register("a"));
    let out = rooms.handle_client_message(addr(2), register("b"));
    assert_eq!(
        plain(out),
        vec![(addr(2), ServerMessage::RegisterOk { virtual_ip: 0x0A0A_0001 })]
    );
}

#[test]
fn data_goes_to_the_addressed_peer_of_the_room() {
    let mut rooms = Rooms::new();
    rooms.handle_client_message(addr(1), register("game"));
    rooms.handle_client_message(addr(2), register("game"));
    let out = rooms.handle_client_message(
        addr(1),
        ClientMessage::Data { dst_ip: 0x0A0A_0002, payload: b"Hello from A!".to_vec() },
    );
    assert_eq!(
        plain(out),
        vec![(
            addr(2),
            ServerMessage::Data { src_ip: 0x0A0A_0001, payload: b"Hello from A!".to_vec() }
        )]
    );
}

#[test]
fn data_to_unknown_address_or_from_stranger_is_dropped() {
    let mut rooms = Rooms::new();
    rooms.handle_client_message(addr(1), register("game"));
    let out = rooms.handle_client_message(addr(1), ClientMessage::Data { dst_ip: 0x0A0A_0009, payload: vec![1] });
    assert!(out.is_empty());
    let out = rooms.handle_client_message(addr(7), ClientMessage::Data { dst_ip: 0x0A0A_0001, payload: vec![1] });
    assert!(out.is_empty());
}

#[test]
fn data_does_not_cross_rooms() {
    let mut rooms = Rooms::new();
    rooms.handle_client_message(addr(1), register("a"));
    rooms.handle_client_message(addr(2), register("b"));
    rooms.handle_client_message(addr(3), register("b"));
    let out = rooms.handle_client_message(addr(1), ClientMessage::Data { dst_ip: 0x0A0A_0002, payload: vec![1] });
    assert!(out.is_empty());
}

#[test]
fn heartbeat_is_acknowledged() {
    let mut rooms = Rooms::new();
    let out = rooms.handle_client_message(addr(5), ClientMessage::Heartbeat);
    assert_eq!(plain(out), vec![(addr(5), ServerMessage::HeartbeatAck)]);
    assert!(rooms.room(&"game".to_string()).is_none());
}

#[test]
fn address_space_runs_out_after_254_clients() {
    let mut rooms = Rooms::new();
    for port in 1..=254u16 {
        let msg = register("full");
        assert!(!rooms.would_overflow(&addr(port), &msg));
        let out = rooms.handle_client_message(addr(port), msg);
        match out.last().unwrap().message {
            ServerMessage::RegisterOk { virtual_ip } => assert_eq!(virtual_ip, 0x0A0A_0000 + port as u32),
            _ => panic!("no address granted"),
        }
    }
    assert!(rooms.would_overflow(&addr(255), &register("full")));
    assert!(!rooms.would_overflow(&addr(1), &register("full")));
    assert!(!rooms.would_overflow(&addr(255), &register("other")));
}

#[test]
fn ipv6_addresses_are_told_apart_by_scope() {
    let a = PeerAddr::V6 { ip: 1, port: 9, flowinfo: 0, scope_id: 1 };
    let b = PeerAddr::V6 { ip: 1, port: 9, flowinfo: 0, scope_id: 2 };
    let mut rooms = Rooms::new();
    rooms.handle_client_message(a, register("v6"));
    let out = rooms.handle_client_message(b, register("v6"));
    assert_eq!(out.len(), 3);
}

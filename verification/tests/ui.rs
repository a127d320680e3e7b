use vlan_gaming::ipv4::{ipv4_from_octets, ipv4_octets, virtual_ip};
use vlan_gaming::ui::{
    format_ipv4, ping_millis, ConnectParams, CreateRoomOkEvent, PeerEvent, SimpleResult,
};

#[test]
fn dotted_quads() {
    assert_eq!(format_ipv4(0x0A0A_0001), "10.10.0.1");
    assert_eq!(format_ipv4(0), "0.0.0.0");
    assert_eq!(format_ipv4(0xFFFF_FFFF), "255.255.255.255");
    assert_eq!(format_ipv4(0xC0A8_6409), "192.168.100.9");
    for ip in [0u32, 1, 0x0A0A_00FE, 0x7F00_0001, 0xDEAD_BEEF] {
        let (a, b, c, d) = ipv4_octets(ip);
        assert_eq!(format_ipv4(ip), format!("{}.{}.{}.{}", a, b, c, d));
    }
}

#[test]
fn octets_round_trip() {
    assert_eq!(ipv4_octets(0x0A0A_0003), (10, 10, 0, 3));
    assert_eq!(ipv4_from_octets(10, 10, 0, 3), 0x0A0A_0003);
    assert_eq!(ipv4_from_octets(1, 2, 3, 4), u32::from_be_bytes([1, 2, 3, 4]));
    assert_eq!(virtual_ip(200), u32::from_be_bytes([10, 10, 0, 200]));
}

#[test]
fn events_carry_dotted_addresses() {
    let e = PeerEvent::new("bob".to_string(), 0x0A0A_0004);
    assert_eq!(e.nickname, "bob");
    assert_eq!(e.virtual_ip, "10.10.0.4");
    let c = CreateRoomOkEvent::new("lobby".to_string(), 0x0A0A_0001);
    assert_eq!(c.room_id, "lobby");
    assert_eq!(c.virtual_ip, "10.10.0.1");
}

#[test]
fn server_address_joins_ip_and_port() {
    let p = ConnectParams {
        server_ip: "1.2.3.4".to_string(),
        port: "9876".to_string(),
        nickname: "me".to_string(),
    };
    assert_eq!(p.server_address(), "1.2.3.4:9876");
}

#[test]
fn results() {
    let ok = SimpleResult::ok();
    assert!(ok.success && ok.error.is_none());
    let f = SimpleResult::failure("未连接".to_string());
    assert!(!f.success);
    assert_eq!(f.error.as_deref(), Some("未连接"));
}

#[test]
fn ping_never_negative() {
    assert_eq!(ping_millis(1500, 1000), 500);
    assert_eq!(ping_millis(1000, 1500), 0);
}

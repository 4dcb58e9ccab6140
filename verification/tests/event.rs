use edepot::event::{BanAction, NetworkEvent};
use edepot::net::{IpAddress, IpNetwork};

fn v4(a: u8, b: u8, c: u8, d: u8) -> IpAddress {
    IpAddress::V4(u32::from_be_bytes([a, b, c, d]))
}

fn v6(s: [u16; 8]) -> IpAddress {
    let mut x: u128 = 0;
    for seg in s {
        x = (x << 16) | seg as u128;
    }
    IpAddress::V6(x)
}

#[test]
fn test_network_event_new_ipv4() {
    let ip = v4(192, 168, 1, 100);
    let event = NetworkEvent::new(2, ip, 22, 6, 1234567890);

    assert_eq!(event.family, 2);
    assert_eq!(event.src_ip, ip);
    assert_eq!(event.dst_port, 22);
    assert_eq!(event.protocol, 6);
    assert_eq!(event.timestamp, 1234567890);
}

#[test]
fn test_network_event_new_ipv6() {
    let ip = v6([0x2001, 0xdb8, 0, 0, 0, 0, 0, 1]);
    let event = NetworkEvent::new(10, ip, 80, 6, 1234567890);

    assert_eq!(event.family, 10);
    assert_eq!(event.src_ip, ip);
    assert_eq!(event.dst_port, 80);
    assert_eq!(event.protocol, 6);
}

#[test]
fn event_test_is_ipv4() {
    let ipv4_event = NetworkEvent::new(2, v4(192, 168, 1, 1), 22, 6, 0);
    let ipv6_event = NetworkEvent::new(10, v6([0, 0, 0, 0, 0, 0, 0, 1]), 22, 6, 0);

    assert!(ipv4_event.is_ipv4());
    assert!(!ipv6_event.is_ipv4());
}

#[test]
fn event_test_is_ipv6() {
    let ipv4_event = NetworkEvent::new(2, v4(192, 168, 1, 1), 22, 6, 0);
    let ipv6_event = NetworkEvent::new(10, v6([0, 0, 0, 0, 0, 0, 0, 1]), 22, 6, 0);

    assert!(!ipv4_event.is_ipv6());
    assert!(ipv6_event.is_ipv6());
}

#[test]
fn test_ipv4_method() {
    let ipv4_addr = u32::from_be_bytes([192, 168, 1, 1]);
    let ipv4_event = NetworkEvent::new(2, IpAddress::V4(ipv4_addr), 22, 6, 0);
    let ipv6_event = NetworkEvent::new(10, v6([0, 0, 0, 0, 0, 0, 0, 1]), 22, 6, 0);

    assert_eq!(ipv4_event.ipv4(), Some(ipv4_addr));
    assert_eq!(ipv6_event.ipv4(), None);
}

#[test]
fn test_ipv6_method() {
    let ipv6_addr: u128 = 0x2001_0db8_0000_0000_0000_0000_0000_0001;
    let ipv6_event = NetworkEvent::new(10, IpAddress::V6(ipv6_addr), 22, 6, 0);
    let ipv4_event = NetworkEvent::new(2, v4(192, 168, 1, 1), 22, 6, 0);

    assert_eq!(ipv6_event.ipv6(), Some(ipv6_addr));
    assert_eq!(ipv4_event.ipv6(), None);
}

#[test]
fn test_is_tcp() {
    let tcp_event = NetworkEvent::new(2, v4(192, 168, 1, 1), 22, 6, 0);
    let udp_event = NetworkEvent::new(2, v4(192, 168, 1, 1), 53, 17, 0);
    let other_event = NetworkEvent::new(2, v4(192, 168, 1, 1), 123, 1, 0);

    assert!(tcp_event.is_tcp());
    assert!(!udp_event.is_tcp());
    assert!(!other_event.is_tcp());
}

#[test]
fn test_is_udp() {
    let tcp_event = NetworkEvent::new(2, v4(192, 168, 1, 1), 22, 6, 0);
    let udp_event = NetworkEvent::new(2, v4(192, 168, 1, 1), 53, 17, 0);
    let other_event = NetworkEvent::new(2, v4(192, 168, 1, 1), 123, 1, 0);

    assert!(!tcp_event.is_udp());
    assert!(udp_event.is_udp());
    assert!(!other_event.is_udp());
}

#[test]
fn test_ban_action_new() {
    let ip = v4(192, 168, 1, 100);
    let ban = BanAction::new(ip, "ssh_bruteforce".to_string(), 3600, "exceeded threshold".to_string());

    assert_eq!(ban.src_ip, ip);
    assert_eq!(ban.rule_name, "ssh_bruteforce");
    assert_eq!(ban.duration, 3600);
    assert_eq!(ban.reason, "exceeded threshold");
    assert_eq!(ban.cidr, None);
    assert!(!ban.is_cidr_ban());
    assert_eq!(ban.get_target(), "192.168.1.100");
}

#[test]
fn test_ban_action_new_cidr() {
    let ip = v4(192, 168, 1, 100);
    let cidr = IpNetwork { addr: v4(192, 168, 1, 0), prefix_len: 24 };
    let ban = BanAction::new_cidr(ip, "tcp_scan".to_string(), 7200, "CIDR threshold exceeded".to_string(), cidr);

    assert_eq!(ban.src_ip, ip);
    assert_eq!(ban.rule_name, "tcp_scan");
    assert_eq!(ban.duration, 7200);
    assert_eq!(ban.reason, "CIDR threshold exceeded");
    assert!(ban.is_cidr_ban());
    assert_eq!(ban.get_target(), "192.168.1.0/24");
}

#[test]
fn test_network_event_partial_eq() {
    let event1 = NetworkEvent::new(2, v4(192, 168, 1, 1), 22, 6, 12345);
    let event2 = NetworkEvent::new(2, v4(192, 168, 1, 1), 22, 6, 12345);
    let event3 = NetworkEvent::new(2, v4(192, 168, 1, 2), 22, 6, 12345);

    assert_eq!(event1, event2);
    assert_ne!(event1, event3);
}

#[test]
fn test_ban_action_partial_eq() {
    let ban1 = BanAction::new(v4(192, 168, 1, 1), "rule1".to_string(), 3600, "reason".to_string());
    let ban2 = BanAction::new(v4(192, 168, 1, 1), "rule1".to_string(), 3600, "reason".to_string());
    let ban3 = BanAction::new(v4(192, 168, 1, 2), "rule1".to_string(), 3600, "reason".to_string());

    assert_eq!(ban1, ban2);
    assert_ne!(ban1, ban3);
}

#[test]
fn ban_target_of_an_ipv6_address_and_network() {
    let ip = v6([0x2001, 0xdb8, 0, 0, 0, 0, 0, 1]);
    let ban = BanAction::new(ip, "r".to_string(), 1, "x".to_string());
    assert_eq!(ban.get_target(), "2001:db8::1");
    let net = IpNetwork { addr: v6([0x2001, 0xdb8, 0, 0, 0, 0, 0, 0]), prefix_len: 64 };
    let ban = BanAction::new_cidr(ip, "r".to_string(), 1, "x".to_string(), net);
    assert_eq!(ban.get_target(), "2001:db8::/64");
}

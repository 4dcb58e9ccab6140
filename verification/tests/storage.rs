use edepot::event::BanAction;
use edepot::net::IpAddress;
use edepot::storage::{cleanup_cutoff, is_expired, AttackEvent, BanRecord};

#[test]
fn test_attack_event_partial_eq() {
    let now = chrono::Utc::now().timestamp();
    let event1 = AttackEvent {
        id: 1,
        source_ip: "192.168.1.100".to_string(),
        protocol: "tcp".to_string(),
        port: 22,
        rule: "ssh_bruteforce".to_string(),
        count: 10,
        created_at: now,
    };
    let event2 = AttackEvent {
        id: 1,
        source_ip: "192.168.1.100".to_string(),
        protocol: "tcp".to_string(),
        port: 22,
        rule: "ssh_bruteforce".to_string(),
        count: 10,
        created_at: chrono::Utc::now().timestamp(),
    };

    assert_eq!(event1.id, event2.id);
    assert_eq!(event1.source_ip, event2.source_ip);
}

#[test]
fn test_ban_record_partial_eq() {
    let record1 = BanRecord {
        id: 1,
        ip: "192.168.1.100".to_string(),
        duration: 3600,
        reason: "test".to_string(),
        status: "active".to_string(),
        created_at: chrono::Utc::now().timestamp(),
    };
    let record2 = BanRecord {
        id: 1,
        ip: "192.168.1.100".to_string(),
        duration: 3600,
        reason: "test".to_string(),
        status: "active".to_string(),
        created_at: chrono::Utc::now().timestamp(),
    };

    assert_eq!(record1.id, record2.id);
    assert_eq!(record1.ip, record2.ip);
    assert_eq!(record1.status, record2.status);
}

#[test]
fn records_of_a_new_attack_and_ban() {
    let e = AttackEvent::recorded("10.0.0.1", "udp", 53, "udp_scan", 50, 1_700_000_000);
    assert_eq!(
        (e.id, e.source_ip.as_str(), e.protocol.as_str(), e.port, e.rule.as_str(), e.count, e.created_at),
        (0, "10.0.0.1", "udp", 53, "udp_scan", 50, 1_700_000_000)
    );

    let ban = BanAction::new(IpAddress::V4(0xc0a80164), "ssh".to_string(), 3600, "exceeded".to_string());
    let r = BanRecord::for_ban(&ban, 42);
    assert_eq!(r.id, 0);
    assert_eq!(r.ip, "192.168.1.100");
    assert_eq!(r.duration, 3600);
    assert_eq!(r.reason, "exceeded");
    assert_eq!(r.status, "active");
    assert_eq!(r.created_at, 42);
}

#[test]
fn cleanup_cutoff_counts_whole_days() {
    assert_eq!(cleanup_cutoff(1_000_000, 0), 1_000_000);
    assert_eq!(cleanup_cutoff(1_000_000, 1), 1_000_000 - 86_400);
    assert_eq!(cleanup_cutoff(0, 365), -31_536_000);
    let e = AttackEvent::recorded("a", "tcp", 1, "r", 1, 100);
    assert!(!is_expired(&e, 100));
    assert!(is_expired(&e, 101));
    assert!(!is_expired(&e, cleanup_cutoff(100, 0)));
}

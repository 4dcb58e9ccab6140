use edepot::config::{Config, GlobalConfig, MemoryConfig, WhitelistConfig};
use edepot::dispatcher::{address_hash, Dispatcher, FNV_OFFSET, FNV_PRIME};
use edepot::event::NetworkEvent;
use edepot::net::IpAddress;
use std::sync::Arc;
use tokio::sync::mpsc;

fn v4(a: u8, b: u8, c: u8, d: u8) -> IpAddress {
    IpAddress::V4(u32::from_be_bytes([a, b, c, d]))
}

fn v6(s: [u16; 8]) -> IpAddress {
    let mut x: u128 = 0;
    for seg in s {
        x = (x << 16) | seg as u128;
    }
    IpAddress::V6(x)
}

fn config(whitelist: Vec<&str>) -> Arc<Config> {
    Arc::new(Config {
        global: GlobalConfig {
            worker_count: 4,
            nft_table: "edepot".to_string(),
            log_level: "info".to_string(),
            poll_interval_ms: 1000,
        },
        whitelist: WhitelistConfig { cidr: whitelist.into_iter().map(|s| s.to_string()).collect() },
        rules: Vec::new(),
        memory: MemoryConfig { max_entries: 100000, cleanup_interval: 60 },
    })
}

fn fnv(bytes: &[u8]) -> u64 {
    let mut h = FNV_OFFSET;
    for &b in bytes {
        h ^= b as u64;
        h = h.wrapping_mul(FNV_PRIME);
    }
    h
}

#[test]
fn test_new() {
    let (tx1, _rx1) = mpsc::channel(100);
    let (tx2, _rx2) = mpsc::channel(100);
    let dispatcher = Dispatcher::new(config(Vec::new()), vec![tx1, tx2]);

    assert_eq!(dispatcher.worker_count(), 2);
}

#[test]
fn test_select_worker_ipv4() {
    let (tx1, _rx1) = mpsc::channel(100);
    let (tx2, _rx2) = mpsc::channel(100);
    let (tx3, _rx3) = mpsc::channel(100);
    let dispatcher = Dispatcher::new(config(Vec::new()), vec![tx1, tx2, tx3]);

    let event1 = NetworkEvent::new(2, v4(192, 168, 1, 100), 22, 6, 0);
    let event2 = NetworkEvent::new(2, v4(192, 168, 1, 100), 22, 6, 0);
    let event3 = NetworkEvent::new(2, v4(192, 168, 1, 101), 22, 6, 0);

    let idx1 = dispatcher.select_worker(&event1);
    let idx2 = dispatcher.select_worker(&event2);
    let idx3 = dispatcher.select_worker(&event3);

    assert_eq!(idx1, idx2);
    assert!(idx1 < 3);
    assert!(idx3 < 3);
}

#[test]
fn test_select_worker_ipv6() {
    let (tx1, _rx1) = mpsc::channel(100);
    let (tx2, _rx2) = mpsc::channel(100);
    let dispatcher = Dispatcher::new(config(Vec::new()), vec![tx1, tx2]);

    let event1 = NetworkEvent::new(10, v6([0x2001, 0xdb8, 0, 0, 0, 0, 0, 1]), 80, 6, 0);
    let event2 = NetworkEvent::new(10, v6([0x2001, 0xdb8, 0, 0, 0, 0, 0, 1]), 80, 6, 0);
    let event3 = NetworkEvent::new(10, v6([0x2001, 0xdb8, 0, 0, 0, 0, 0, 2]), 80, 6, 0);

    let idx1 = dispatcher.select_worker(&event1);
    let idx2 = dispatcher.select_worker(&event2);
    let idx3 = dispatcher.select_worker(&event3);

    assert_eq!(idx1, idx2);
    assert!(idx1 < 2);
    assert!(idx3 < 2);
}

#[test]
fn test_is_whitelisted() {
    let (tx, _rx) = mpsc::channel(100);
    let dispatcher = Dispatcher::new(config(vec!["127.0.0.0/8", "::1/128"]), vec![tx]);

    assert!(dispatcher.is_whitelisted(&v4(127, 0, 0, 1)));
    assert!(!dispatcher.is_whitelisted(&v4(192, 168, 1, 100)));
}

#[test]
fn test_worker_count() {
    let (tx1, _rx1) = mpsc::channel(100);
    let (tx2, _rx2) = mpsc::channel(100);
    let (tx3, _rx3) = mpsc::channel(100);
    let dispatcher = Dispatcher::new(config(Vec::new()), vec![tx1, tx2, tx3]);

    assert_eq!(dispatcher.worker_count(), 3);
}

#[test]
fn address_hash_is_fnv1a_of_the_octets() {
    assert_eq!(address_hash(&v4(192, 168, 1, 100)), fnv(&[192, 168, 1, 100]));
    assert_eq!(address_hash(&v4(0, 0, 0, 0)), fnv(&[0, 0, 0, 0]));
    let a: u128 = 0x2001_0db8_0000_0000_0000_0000_0000_0001;
    assert_eq!(address_hash(&IpAddress::V6(a)), fnv(&a.to_be_bytes()));
    // The well-known FNV-1a value of the empty input is the offset basis.
    assert_eq!(fnv(&[]), 0xcbf29ce484222325);
}

#[test]
fn select_worker_is_the_hash_modulo_the_workers() {
    let senders: Vec<_> = (0..5).map(|_| mpsc::channel::<NetworkEvent>(1).0).collect();
    let dispatcher = Dispatcher::new(config(Vec::new()), senders);
    for last in 0..50u8 {
        let ip = v4(10, 0, 0, last);
        let e = NetworkEvent::new(2, ip, 1, 6, 0);
        assert_eq!(dispatcher.select_worker(&e) as u64, fnv(&[10, 0, 0, last]) % 5);
    }
}

#[test]
fn route_skips_whitelisted_sources() {
    let (tx1, _rx1) = mpsc::channel(100);
    let (tx2, _rx2) = mpsc::channel(100);
    let dispatcher = Dispatcher::new(config(vec!["10.0.0.0/8"]), vec![tx1, tx2]);

    assert_eq!(dispatcher.route(&NetworkEvent::new(2, v4(10, 9, 9, 9), 22, 6, 0)), None);
    let e = NetworkEvent::new(2, v4(11, 9, 9, 9), 22, 6, 0);
    assert_eq!(dispatcher.route(&e), Some(dispatcher.select_worker(&e)));
}

#[test]
fn route_and_send_reaches_the_chosen_worker() {
    let (tx1, mut rx1) = mpsc::channel(100);
    let (tx2, mut rx2) = mpsc::channel(100);
    let dispatcher = Dispatcher::new(config(Vec::new()), vec![tx1, tx2]);
    let e = NetworkEvent::new(2, v4(8, 8, 8, 8), 22, 6, 0);
    let i = dispatcher.route(&e).unwrap();
    dispatcher.sender(i).try_send(e).unwrap();
    let got = if i == 0 { rx1.try_recv() } else { rx2.try_recv() };
    assert_eq!(got.unwrap(), e);
}

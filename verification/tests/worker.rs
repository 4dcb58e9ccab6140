use edepot::config::{Config, GlobalConfig, MemoryConfig, WhitelistConfig};
use edepot::event::NetworkEvent;
use edepot::net::IpAddress;
use edepot::rules::{Rule, RuleEngine, RuleType};
use edepot::worker::Worker;
use std::sync::Arc;
use std::time::{Duration, Instant};
use tokio::sync::mpsc;

fn config(max_entries: usize) -> Arc<Config> {
    Arc::new(Config {
        global: GlobalConfig {
            worker_count: 4,
            nft_table: "edepot".to_string(),
            log_level: "info".to_string(),
            poll_interval_ms: 1000,
        },
        whitelist: WhitelistConfig { cidr: Vec::new() },
        rules: Vec::new(),
        memory: MemoryConfig { max_entries, cleanup_interval: 60 },
    })
}

fn ssh(threshold: u32) -> Rule {
    Rule {
        name: "test_rule".to_string(),
        protocol: 6,
        ports: Some(vec![22]),
        rule_type: RuleType::Ip,
        window_secs: 20,
        threshold,
        block_duration: 3600,
        ipv4_prefix: 24,
        ipv6_prefix: 64,
    }
}

#[test]
fn test_worker_new() {
    let (_tx, rx) = mpsc::channel(100);
    let (nft_tx, _nft_rx) = mpsc::channel(100);
    let (storage_tx, _storage_rx) = mpsc::channel(100);

    let rule_engine = RuleEngine::new(vec![ssh(10)], nft_tx, storage_tx);
    let worker = Worker::new(1, config(100000), rule_engine, rx);

    assert_eq!(worker.id(), 1);
}

#[test]
fn test_worker_id() {
    let (_tx, rx) = mpsc::channel(100);
    let (nft_tx, _nft_rx) = mpsc::channel(100);
    let (storage_tx, _storage_rx) = mpsc::channel(100);
    let rule_engine = RuleEngine::new(Vec::new(), nft_tx, storage_tx);
    let worker1 = Worker::new(1, config(100000), rule_engine, rx);

    let (_tx2, rx2) = mpsc::channel(100);
    let (nft_tx2, _) = mpsc::channel(100);
    let (storage_tx2, _) = mpsc::channel(100);
    let rule_engine2 = RuleEngine::new(Vec::new(), nft_tx2, storage_tx2);
    let worker2 = Worker::new(2, config(100000), rule_engine2, rx2);

    assert_eq!(worker1.id(), 1);
    assert_eq!(worker2.id(), 2);
    assert_eq!(worker1.cleanup_interval(), 60);
}

#[test]
fn worker_handles_events_and_ticks() {
    let (tx, rx) = mpsc::channel(100);
    let (nft_tx, mut nft_rx) = mpsc::channel(100);
    let (storage_tx, mut storage_rx) = mpsc::channel(100);
    let rule_engine = RuleEngine::new(vec![ssh(2)], nft_tx, storage_tx);
    let mut worker = Worker::new(7, config(100000), rule_engine, rx);

    let banned = NetworkEvent::new(2, IpAddress::V4(0x0a000001), 22, 6, 0);
    let idle = NetworkEvent::new(2, IpAddress::V4(0x0a000002), 22, 6, 0);
    tx.try_send(banned).unwrap();
    let got = worker.receiver().try_recv().unwrap();
    assert!(worker.accepts(&got));
    worker.handle_event(&got);
    worker.handle_event(&banned);
    worker.handle_event(&idle);

    let ban = nft_rx.try_recv().unwrap();
    assert_eq!(ban.src_ip, IpAddress::V4(0x0a000001));
    assert_eq!(storage_rx.try_recv().unwrap(), ban);

    // Two minutes later the idle state goes; the banned one stays.
    worker.handle_tick(Instant::now() + Duration::from_secs(120));
    assert_eq!(worker.id(), 7);
    worker.handle_event(&banned);
    assert!(nft_rx.try_recv().is_err());
}

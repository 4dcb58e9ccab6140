use edepot::cli::{check_config, CheckError};
use edepot::config::{
    default_log_level, default_nft_table, default_poll_interval_ms, default_worker_count, Config,
    Error, GlobalConfig, MemoryConfig, RuleConfig, WhitelistConfig,
};
use edepot::net::IpAddress;
use edepot::rules::{Rule, RuleType};

fn v4(a: u8, b: u8, c: u8, d: u8) -> IpAddress {
    IpAddress::V4(u32::from_be_bytes([a, b, c, d]))
}

fn v6(s: [u16; 8]) -> IpAddress {
    let mut x: u128 = 0;
    for seg in s {
        x = (x << 16) | seg as u128;
    }
    IpAddress::V6(x)
}

fn global() -> GlobalConfig {
    GlobalConfig {
        worker_count: 4,
        nft_table: "edepot".to_string(),
        log_level: "info".to_string(),
        poll_interval_ms: 1000,
    }
}

fn memory() -> MemoryConfig {
    MemoryConfig { max_entries: 100000, cleanup_interval: 60 }
}

fn config_with(whitelist: Vec<&str>, rules: Vec<RuleConfig>) -> Config {
    Config {
        global: global(),
        whitelist: WhitelistConfig { cidr: whitelist.into_iter().map(|s| s.to_string()).collect() },
        rules,
        memory: memory(),
    }
}

fn ssh_rule() -> RuleConfig {
    RuleConfig {
        name: "ssh_bruteforce".to_string(),
        protocol: "tcp".to_string(),
        ports: Some(vec![22]),
        rule_type: "ip".to_string(),
        window_secs: 20,
        threshold: 8,
        block_duration: 3600,
        ipv4_prefix: None,
        ipv6_prefix: None,
    }
}

fn message(r: Result<(), Error>) -> String {
    match r {
        Err(Error::Validation(m)) => m,
        Err(Error::InvalidCidr(m)) => m,
        Ok(()) => panic!("expected a refusal"),
    }
}

#[test]
fn test_is_whitelisted_ipv4() {
    let config = config_with(vec!["192.168.1.0/24", "127.0.0.0/8"], Vec::new());

    assert!(config.is_whitelisted(&v4(127, 0, 0, 1)));
    assert!(config.is_whitelisted(&v4(192, 168, 1, 100)));
    assert!(!config.is_whitelisted(&v4(10, 0, 0, 1)));
}

#[test]
fn test_is_whitelisted_ipv6() {
    let config = config_with(vec!["::1/128", "fe80::/10"], Vec::new());

    assert!(config.is_whitelisted(&v6([0, 0, 0, 0, 0, 0, 0, 1])));
    assert!(config.is_whitelisted(&v6([0xfe80, 0, 0, 0, 0, 0, 0, 1])));
    assert!(!config.is_whitelisted(&v6([0x2001, 0xdb8, 0, 0, 0, 0, 0, 1])));
}

#[test]
fn test_is_whitelisted_invalid_cidr() {
    let config = config_with(vec!["invalid-cidr"], Vec::new());

    assert!(!config.is_whitelisted(&v4(127, 0, 0, 1)));
}

#[test]
fn whitelist_skips_bad_entries_and_checks_the_rest() {
    let config = config_with(vec!["invalid-cidr", "10.0.0.0/8"], Vec::new());

    assert!(config.is_whitelisted(&v4(10, 1, 2, 3)));
    assert!(!config.is_whitelisted(&v4(11, 0, 0, 1)));
}

#[test]
fn whitelist_never_mixes_families() {
    let config = config_with(vec!["0.0.0.0/0"], Vec::new());

    assert!(config.is_whitelisted(&v4(8, 8, 8, 8)));
    assert!(!config.is_whitelisted(&v6([0, 0, 0, 0, 0, 0, 0, 1])));
}

#[test]
fn test_rule_count() {
    let config = config_with(
        Vec::new(),
        vec![
            RuleConfig {
                name: "rule1".to_string(),
                protocol: "tcp".to_string(),
                ports: Some(vec![22]),
                rule_type: "ip".to_string(),
                window_secs: 20,
                threshold: 10,
                block_duration: 3600,
                ipv4_prefix: None,
                ipv6_prefix: None,
            },
            RuleConfig {
                name: "rule2".to_string(),
                protocol: "udp".to_string(),
                ports: None,
                rule_type: "cidr".to_string(),
                window_secs: 60,
                threshold: 100,
                block_duration: 7200,
                ipv4_prefix: Some(24),
                ipv6_prefix: Some(64),
            },
        ],
    );

    assert_eq!(config.rule_count(), 2);
    assert_eq!(config.whitelist_count(), 0);
}

#[test]
fn test_empty_config() {
    let config = Config {
        global: GlobalConfig {
            worker_count: 0,
            nft_table: "".to_string(),
            log_level: "info".to_string(),
            poll_interval_ms: 1000,
        },
        whitelist: WhitelistConfig { cidr: Vec::new() },
        rules: Vec::new(),
        memory: MemoryConfig { max_entries: 0, cleanup_interval: 0 },
    };

    assert_eq!(config.rule_count(), 0);
    assert_eq!(config.whitelist_count(), 0);
    assert!(!config.is_whitelisted(&v4(127, 0, 0, 1)));
}

#[test]
fn defaults_of_the_global_settings() {
    assert_eq!(default_worker_count(), 4);
    assert_eq!(default_nft_table(), "edepot");
    assert_eq!(default_log_level(), "info");
    assert_eq!(default_poll_interval_ms(), 1000);

    let g = GlobalConfig::default();
    assert_eq!(g.worker_count, 4);
    assert_eq!(g.nft_table, "edepot");
    assert_eq!(g.log_level, "info");
    assert_eq!(g.poll_interval_ms, 1000);
}

#[test]
fn test_rule_parsing() {
    let config = config_with(
        Vec::new(),
        vec![RuleConfig {
            name: "test_rule".to_string(),
            protocol: "tcp".to_string(),
            ports: Some(vec![22]),
            rule_type: "ip".to_string(),
            window_secs: 20,
            threshold: 10,
            block_duration: 3600,
            ipv4_prefix: None,
            ipv6_prefix: None,
        }],
    );

    let rules_result: Result<Vec<Rule>, edepot::rules::Error> =
        config.rules.iter().map(Rule::from_config).collect();

    assert!(rules_result.is_ok());
    assert_eq!(rules_result.unwrap().len(), 1);
}

#[test]
fn test_validate_valid_config() {
    let config = config_with(vec!["127.0.0.0/8", "::1/128"], vec![ssh_rule()]);

    assert!(config.validate().is_ok());
}

#[test]
fn test_validate_invalid_worker_count() {
    let mut config = config_with(Vec::new(), Vec::new());
    config.global.worker_count = 0;

    assert!(config.validate().is_err());
}

#[test]
fn test_validate_invalid_cidr() {
    let config = config_with(vec!["invalid-cidr"], Vec::new());

    assert!(config.validate().is_err());
}

#[test]
fn test_validate_invalid_protocol() {
    let mut rule = ssh_rule();
    rule.name = "bad_rule".to_string();
    rule.protocol = "icmp".to_string();
    rule.ports = None;
    let config = config_with(Vec::new(), vec![rule]);

    assert!(config.validate().is_err());
}

#[test]
fn test_validate_cidr_rule_missing_prefix() {
    let config = config_with(
        Vec::new(),
        vec![RuleConfig {
            name: "cidr_rule".to_string(),
            protocol: "tcp".to_string(),
            ports: None,
            rule_type: "cidr".to_string(),
            window_secs: 60,
            threshold: 100,
            block_duration: 3600,
            ipv4_prefix: None,
            ipv6_prefix: None,
        }],
    );

    assert!(config.validate().is_err());
}

#[test]
fn test_validate_invalid_memory() {
    let mut config = config_with(Vec::new(), Vec::new());
    config.memory.max_entries = 0;

    assert!(config.validate().is_err());
}

#[test]
fn validation_messages_of_global_settings() {
    let mut config = config_with(Vec::new(), Vec::new());
    config.global.worker_count = 0;
    config.global.nft_table = String::new();
    assert_eq!(message(config.validate()), "worker_count must be > 0");

    config.global.worker_count = 1;
    assert_eq!(message(config.validate()), "nft_table must not be empty");

    config.global.nft_table = "t".to_string();
    config.global.poll_interval_ms = 0;
    assert_eq!(message(config.validate()), "poll_interval_ms must be > 0");
}

#[test]
fn validation_names_the_bad_whitelist_entry() {
    let config = config_with(vec!["10.0.0.0/8", "nope"], Vec::new());
    match config.validate() {
        Err(Error::InvalidCidr(m)) => assert_eq!(m, "whitelist[1]: 'nope' is not a valid CIDR"),
        _ => panic!("expected an invalid CIDR"),
    }
}

#[test]
fn validation_messages_of_rules() {
    let mut rule = ssh_rule();
    rule.name = String::new();
    let config = config_with(Vec::new(), vec![ssh_rule(), rule]);
    assert_eq!(message(config.validate()), "rule[1]: name must not be empty");

    let mut rule = ssh_rule();
    rule.protocol = "icmp".to_string();
    let config = config_with(Vec::new(), vec![rule]);
    assert_eq!(
        message(config.validate()),
        "rule[0] 'ssh_bruteforce': protocol must be 'tcp' or 'udp', got 'icmp'"
    );

    let mut rule = ssh_rule();
    rule.rule_type = "subnet".to_string();
    let config = config_with(Vec::new(), vec![rule]);
    assert_eq!(
        message(config.validate()),
        "rule[0] 'ssh_bruteforce': rule_type must be 'ip' or 'cidr', got 'subnet'"
    );

    let mut rule = ssh_rule();
    rule.rule_type = "cidr".to_string();
    rule.ipv4_prefix = Some(24);
    let config = config_with(Vec::new(), vec![rule]);
    assert_eq!(
        message(config.validate()),
        "rule[0] 'ssh_bruteforce': cidr rule requires both ipv4_prefix and ipv6_prefix"
    );

    let mut rule = ssh_rule();
    rule.window_secs = 0;
    let config = config_with(Vec::new(), vec![rule]);
    assert_eq!(message(config.validate()), "rule[0] 'ssh_bruteforce': window_secs must be > 0");

    let mut rule = ssh_rule();
    rule.threshold = 0;
    let config = config_with(Vec::new(), vec![rule]);
    assert_eq!(message(config.validate()), "rule[0] 'ssh_bruteforce': threshold must be > 0");

    let mut rule = ssh_rule();
    rule.block_duration = 0;
    let config = config_with(Vec::new(), vec![rule]);
    assert_eq!(message(config.validate()), "rule[0] 'ssh_bruteforce': block_duration must be > 0");
}

#[test]
fn validation_accepts_protocols_in_any_case() {
    let mut rule = ssh_rule();
    rule.protocol = "TCP".to_string();
    rule.rule_type = "IP".to_string();
    let config = config_with(Vec::new(), vec![rule]);
    assert!(config.validate().is_ok());
}

#[test]
fn validation_messages_of_memory() {
    let mut config = config_with(Vec::new(), Vec::new());
    config.memory.cleanup_interval = 0;
    assert_eq!(message(config.validate()), "cleanup_interval must be > 0");
    config.memory.max_entries = 0;
    assert_eq!(message(config.validate()), "max_entries must be > 0");
}

#[test]
fn validation_reports_the_first_failure() {
    let mut config = config_with(vec!["bad"], Vec::new());
    config.global.poll_interval_ms = 0;
    config.memory.max_entries = 0;
    assert_eq!(message(config.validate()), "poll_interval_ms must be > 0");
}

#[test]
fn check_accepts_a_valid_configuration() {
    let config = config_with(vec!["127.0.0.0/8"], vec![ssh_rule()]);
    let rules = check_config(&config).unwrap();
    assert_eq!(rules.len(), 1);
    assert_eq!(rules[0].name, "ssh_bruteforce");
    assert_eq!(rules[0].rule_type, RuleType::Ip);
}

#[test]
fn check_reports_a_refused_configuration() {
    let mut config = config_with(Vec::new(), vec![ssh_rule()]);
    config.global.worker_count = 0;
    assert!(matches!(check_config(&config), Err(CheckError::Config(Error::Validation(_)))));
}

#[test]
fn check_reports_a_rule_that_cannot_be_built() {
    let mut rule = ssh_rule();
    rule.protocol = "TCP".to_string();
    let config = config_with(Vec::new(), vec![rule]);
    assert!(config.validate().is_ok());
    match check_config(&config) {
        Err(CheckError::Rules(edepot::rules::Error::InvalidProtocol(p))) => assert_eq!(p, "TCP"),
        _ => panic!("expected the rule to be refused"),
    }
}

#[test]
fn validation_refuses_prefixes_that_do_not_fit() {
    let mut rule = ssh_rule();
    rule.rule_type = "cidr".to_string();
    rule.ipv4_prefix = Some(33);
    rule.ipv6_prefix = Some(64);
    let config = config_with(Vec::new(), vec![rule]);
    assert!(matches!(config.validate(), Err(Error::Validation(_))));
    assert_eq!(
        message(config.validate()),
        "rule[0] 'ssh_bruteforce': ipv4_prefix must be between 1 and 32, got 33"
    );

    let mut rule = ssh_rule();
    rule.ipv4_prefix = Some(0);
    let config = config_with(Vec::new(), vec![rule]);
    assert_eq!(
        message(config.validate()),
        "rule[0] 'ssh_bruteforce': ipv4_prefix must be between 1 and 32, got 0"
    );

    let mut rule = ssh_rule();
    rule.rule_type = "cidr".to_string();
    rule.ipv4_prefix = Some(24);
    rule.ipv6_prefix = Some(129);
    let config = config_with(Vec::new(), vec![rule]);
    assert_eq!(
        message(config.validate()),
        "rule[0] 'ssh_bruteforce': ipv6_prefix must be at most 128, got 129"
    );

    let mut rule = ssh_rule();
    rule.rule_type = "cidr".to_string();
    rule.ipv4_prefix = Some(32);
    rule.ipv6_prefix = Some(128);
    let config = config_with(Vec::new(), vec![rule]);
    assert!(config.validate().is_ok());
}

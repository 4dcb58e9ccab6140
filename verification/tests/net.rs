use edepot::net::u64_from_be_octets;
use edepot::net::{mask_v4_exec, mask_v6_exec, masked_exec, IpAddress, IpNetwork};
use edepot::config::{Config, Error, GlobalConfig, MemoryConfig, WhitelistConfig};
use edepot::nft::element_address;

fn v4(a: u8, b: u8, c: u8, d: u8) -> IpAddress {
    IpAddress::V4(u32::from_be_bytes([a, b, c, d]))
}

#[test]
fn addresses_from_octets() {
    assert_eq!(IpAddress::from_v4_octets([192, 168, 1, 100]), IpAddress::V4(0xc0a80164));
    let a: u128 = 0x2001_0db8_0000_0000_0000_0000_0000_0001;
    assert_eq!(IpAddress::from_v6_octets(a.to_be_bytes()), IpAddress::V6(a));
}

#[test]
fn masks_and_networks() {
    assert_eq!(mask_v4_exec(0), 0);
    assert_eq!(mask_v4_exec(24), 0xffff_ff00);
    assert_eq!(mask_v4_exec(32), u32::MAX);
    assert_eq!(mask_v6_exec(0), 0);
    assert_eq!(mask_v6_exec(64), 0xffff_ffff_ffff_ffff_0000_0000_0000_0000);
    assert_eq!(mask_v6_exec(128), u128::MAX);
    assert_eq!(masked_exec(&v4(10, 1, 2, 3), 16), v4(10, 1, 0, 0));
    let n = IpNetwork { addr: v4(10, 1, 2, 3), prefix_len: 16 };
    assert_eq!(n.network(), v4(10, 1, 0, 0));
    assert!(n.contains(&v4(10, 1, 255, 255)));
    assert!(!n.contains(&v4(10, 2, 0, 0)));
    assert!(!n.contains(&IpAddress::V6(0)));
    let all = IpNetwork { addr: IpAddress::V6(5), prefix_len: 0 };
    assert!(all.contains(&IpAddress::V6(u128::MAX)));
    assert!(!all.contains(&v4(1, 1, 1, 1)));
}

fn whitelist_config(cidrs: &[&str]) -> Config {
    Config {
        global: GlobalConfig {
            worker_count: 1,
            nft_table: "t".to_string(),
            log_level: "info".to_string(),
            poll_interval_ms: 1,
        },
        whitelist: WhitelistConfig { cidr: cidrs.iter().map(|s| s.to_string()).collect() },
        rules: Vec::new(),
        memory: MemoryConfig { max_entries: 1, cleanup_interval: 1 },
    }
}

#[test]
fn address_and_network_text() {
    assert_eq!(v4(192, 168, 1, 100).to_text(), "192.168.1.100");
    assert_eq!(v4(0, 0, 0, 0).to_text(), "0.0.0.0");
    assert_eq!(IpAddress::V6(1).to_text(), "::1");
    assert_eq!(IpNetwork { addr: v4(10, 0, 0, 1), prefix_len: 8 }.to_text(), "10.0.0.1/8");
    assert_eq!(IpNetwork { addr: IpAddress::V6(0xfe80 << 112), prefix_len: 10 }.to_text(), "fe80::/10");
}

#[test]
fn cidr_parsing_decides_the_whitelist() {
    let c = whitelist_config(&["10.1.2.3/24", "::1/128"]);
    assert!(c.is_whitelisted(&v4(10, 1, 2, 200)));
    assert!(!c.is_whitelisted(&v4(10, 1, 3, 0)));
    assert!(c.is_whitelisted(&IpAddress::V6(1)));
    assert!(c.validate().is_ok());
    for bad in ["10.0.0.0/33", "10.0.0.0", "invalid-cidr", "::1/129"] {
        let c = whitelist_config(&[bad]);
        assert!(!c.is_whitelisted(&v4(10, 0, 0, 1)));
        match c.validate() {
            Err(Error::InvalidCidr(m)) => assert_eq!(m, format!("whitelist[0]: '{}' is not a valid CIDR", bad)),
            _ => panic!("expected {} to be refused", bad),
        }
    }
}

#[test]
fn address_text_parsing() {
    assert_eq!(element_address("10.0.0.1"), Some(IpAddress::V4(0x0a000001)));
    assert_eq!(element_address("::1"), Some(IpAddress::V6(1)));
    assert_eq!(element_address("10.0.0"), None);
}

#[test]
fn eight_octets_big_endian() {
    assert_eq!(u64_from_be_octets([0, 0, 0, 0, 0, 0, 1, 2]), 0x0102);
    assert_eq!(u64_from_be_octets([0xff; 8]), u64::MAX);
    assert_eq!(u64_from_be_octets([1, 2, 3, 4, 5, 6, 7, 8]), 0x0102030405060708);
}


#[test]
fn network_validity_by_family() {
    assert!(IpNetwork { addr: v4(10, 0, 0, 0), prefix_len: 32 }.is_valid());
    assert!(!IpNetwork { addr: v4(10, 0, 0, 0), prefix_len: 33 }.is_valid());
    assert!(IpNetwork { addr: IpAddress::V6(1), prefix_len: 128 }.is_valid());
    assert!(!IpNetwork { addr: IpAddress::V6(1), prefix_len: 129 }.is_valid());
}

use edepot::nft::element_address;
use std::time::{Duration, Instant};
use edepot::net::{IpAddress, IpNetwork};
use edepot::nft::{
    cidr_ban_followup, classify_add_failure, classify_create_failure, classify_remove_failure,
    ip_ban_followup, AddFollowup, BanCache, BanEntry, Error, IpBanPlan, NftRawController,
};

fn v4(a: u8, b: u8, c: u8, d: u8) -> IpAddress {
    IpAddress::V4(u32::from_be_bytes([a, b, c, d]))
}

fn net(a: u8, b: u8, c: u8, d: u8, p: u8) -> IpNetwork {
    IpNetwork { addr: v4(a, b, c, d), prefix_len: p }
}

#[test]
fn controller_names_its_sets_after_the_table() {
    let c = NftRawController::new("edepot");
    assert_eq!(c.table(), "edepot");
    assert_eq!(c.set_for(&v4(1, 2, 3, 4)), "edepot_ipv4");
    assert_eq!(c.set_for(&IpAddress::V6(1)), "edepot_ipv6");
    assert!(c.get_banned_ips().is_empty());
}

#[test]
fn ip_ban_plans() {
    let mut c = NftRawController::new("t");
    let t0 = Instant::now();
    assert_eq!(c.plan_ip_ban(&v4(10, 0, 0, 1)), IpBanPlan::Add);
    c.record_added(BanEntry::Ip(v4(10, 0, 0, 1)), 60, t0);
    assert_eq!(c.plan_ip_ban(&v4(10, 0, 0, 1)), IpBanPlan::Replace);
    c.record_added(BanEntry::Cidr(net(192, 168, 0, 0, 16)), 600, t0);
    assert_eq!(c.plan_ip_ban(&v4(192, 168, 3, 4)), IpBanPlan::Conflict);
    assert_eq!(c.plan_ip_ban(&v4(192, 169, 0, 1)), IpBanPlan::Add);
}

#[test]
fn cidr_ban_plan_lists_what_it_covers() {
    let mut c = NftRawController::new("t");
    let t0 = Instant::now();
    c.record_added(BanEntry::Ip(v4(10, 1, 0, 1)), 1, t0);
    c.record_added(BanEntry::Ip(v4(11, 0, 0, 1)), 1, t0);
    c.record_added(BanEntry::Ip(v4(10, 2, 0, 1)), 1, t0);
    c.record_added(BanEntry::Cidr(net(10, 3, 0, 0, 16)), 1, t0);
    c.record_added(BanEntry::Cidr(net(10, 0, 0, 0, 4)), 1, t0);
    c.record_added(BanEntry::Cidr(net(12, 0, 0, 0, 16)), 1, t0);
    let (ips, nets) = c.plan_cidr_ban(&net(10, 0, 0, 0, 8));
    assert_eq!(ips, vec![v4(10, 1, 0, 1), v4(10, 2, 0, 1)]);
    // A wider network (a /4) is not covered, though it contains the /8.
    assert_eq!(nets, vec![net(10, 3, 0, 0, 16)]);
}

#[test]
fn recorded_bans_and_removals() {
    let mut c = NftRawController::new("t");
    let t0 = Instant::now();
    c.record_added(BanEntry::Ip(v4(1, 1, 1, 1)), 60, t0);
    c.record_added(BanEntry::Cidr(net(2, 2, 2, 9, 24)), 120, t0);
    c.record_added(BanEntry::Ip(v4(1, 1, 1, 1)), 90, t0);
    assert_eq!(c.get_banned_ips_at(&t0), vec![(v4(1, 1, 1, 1), 90), (v4(2, 2, 2, 0), 120)]);
    c.record_removed(&BanEntry::Ip(v4(1, 1, 1, 1)));
    assert_eq!(c.get_banned_ips_at(&t0), vec![(v4(2, 2, 2, 0), 120)]);
    c.record_removed(&BanEntry::Ip(v4(9, 9, 9, 9)));
    assert_eq!(c.get_banned_ips_at(&t0), vec![(v4(2, 2, 2, 0), 120)]);
}

#[test]
fn sync_replaces_the_bookkeeping() {
    let mut c = NftRawController::new("t");
    let t0 = Instant::now();
    c.record_added(BanEntry::Cidr(net(2, 2, 2, 0, 24)), 120, t0);
    c.sync_from(&vec![v4(3, 3, 3, 3), v4(4, 4, 4, 4), v4(3, 3, 3, 3)], t0);
    let mut got = c.get_banned_ips_at(&t0);
    got.sort_by_key(|(a, _)| match a {
        IpAddress::V4(x) => *x as u128,
        IpAddress::V6(x) => *x,
    });
    assert_eq!(got, vec![(v4(3, 3, 3, 3), 0), (v4(4, 4, 4, 4), 0)]);
}

#[test]
fn ban_cache_basics() {
    let mut cache = BanCache::new();
    assert_eq!(cache.len(), 0);
    cache.insert(BanEntry::Ip(v4(1, 2, 3, 4)), 5, Instant::now());
    assert!(cache.contains(&BanEntry::Ip(v4(1, 2, 3, 4))));
    assert!(!cache.contains(&BanEntry::Ip(v4(1, 2, 3, 5))));
    cache.insert(BanEntry::Cidr(net(5, 0, 0, 0, 8)), 5, Instant::now());
    assert!(cache.covers(&v4(5, 6, 7, 8)));
    assert!(!cache.covers(&v4(6, 6, 7, 8)));
    assert_eq!(cache.len(), 2);
    cache.clear();
    assert_eq!(cache.len(), 0);
}

#[test]
fn nftables_answers_to_an_add() {
    assert!(matches!(
        classify_add_failure("Error: Could not process rule: File exists... file exists".to_string()),
        Error::IpAlreadyExists
    ));
    match classify_add_failure("Error: Permission denied".to_string()) {
        Error::AddElementFailed(m) => assert_eq!(m, "Error: Permission denied"),
        other => panic!("unexpected {:?}", other),
    }
    // The match is on the exact lowercase text.
    assert!(matches!(
        classify_add_failure("File Exists".to_string()),
        Error::AddElementFailed(_)
    ));
}

#[test]
fn nftables_answers_to_a_removal_and_creation() {
    assert!(classify_remove_failure("no such file or directory".to_string()).is_ok());
    match classify_remove_failure("busy".to_string()) {
        Err(Error::RemoveElementFailed(m)) => assert_eq!(m, "busy"),
        other => panic!("unexpected {:?}", other),
    }
    assert!(classify_create_failure("x: file exists", Error::TableCreationFailed).is_ok());
    assert!(matches!(
        classify_create_failure("x", Error::SetCreationFailed),
        Err(Error::SetCreationFailed)
    ));
}

#[test]
fn ban_followups() {
    assert_eq!(ip_ban_followup(&Ok(())), AddFollowup::Done);
    assert_eq!(ip_ban_followup(&Err(Error::IpCidrConflict)), AddFollowup::Done);
    assert_eq!(ip_ban_followup(&Err(Error::IpAlreadyExists)), AddFollowup::Readd);
    assert_eq!(ip_ban_followup(&Err(Error::InvalidIp)), AddFollowup::Fail);
    assert_eq!(cidr_ban_followup(&Ok(())), AddFollowup::Done);
    assert_eq!(cidr_ban_followup(&Err(Error::IpAlreadyExists)), AddFollowup::Readd);
    assert_eq!(cidr_ban_followup(&Err(Error::IpCidrConflict)), AddFollowup::Fail);
}

#[test]
fn set_elements_and_ownership() {
    assert_eq!(element_address("10.0.0.1"), Some(v4(10, 0, 0, 1)));
    assert_eq!(element_address("::2"), Some(IpAddress::V6(2)));
    assert_eq!(element_address("10.1.2.3/16"), Some(v4(10, 1, 0, 0)));
    assert_eq!(element_address("nonsense"), None);
    let c = NftRawController::new("edepot");
    assert!(c.owns_set("edepot", "edepot_ipv4"));
    assert!(c.owns_set("edepot", "edepot_ipv6"));
    assert!(!c.owns_set("edepot", "other"));
    assert!(!c.owns_set("other", "edepot_ipv4"));
}

#[test]
fn cidr_ban_leaves_no_ban_inside_the_network() {
    let mut c = NftRawController::new("t");
    let t0 = Instant::now();
    c.record_added(BanEntry::Ip(v4(10, 1, 0, 1)), 1, t0);
    c.record_added(BanEntry::Ip(v4(11, 0, 0, 1)), 2, t0);
    c.record_added(BanEntry::Cidr(net(10, 3, 0, 0, 16)), 3, t0);
    let target = net(10, 0, 0, 0, 8);
    let (ips, nets) = c.plan_cidr_ban(&target);
    for ip in ips {
        c.record_removed(&BanEntry::Ip(ip));
    }
    for n in nets {
        c.record_removed(&BanEntry::Cidr(n));
    }
    c.record_added(BanEntry::Cidr(target), 600, t0);
    assert_eq!(c.get_banned_ips(), vec![(v4(11, 0, 0, 1), 2), (v4(10, 0, 0, 0), 600)]);
    assert_eq!(c.plan_ip_ban(&v4(10, 200, 0, 1)), IpBanPlan::Conflict);
}

#[test]
fn reported_ban_time_counts_down() {
    let mut c = NftRawController::new("t");
    let t0 = Instant::now();
    let ip = v4(192, 168, 1, 100);
    c.record_added(BanEntry::Ip(ip), 3600, t0);
    c.record_added(BanEntry::Cidr(net(10, 0, 0, 0, 8)), 60, t0 + Duration::from_secs(50));
    assert_eq!(
        c.get_banned_ips_at(&(t0 + Duration::from_secs(100))),
        vec![(ip, 3500), (v4(10, 0, 0, 0), 10)]
    );
    // Only whole seconds count.
    assert_eq!(c.get_banned_ips_at(&(t0 + Duration::from_millis(100_900)))[0], (ip, 3500));
    // A ban that has run out reports zero.
    assert_eq!(
        c.get_banned_ips_at(&(t0 + Duration::from_secs(4000))),
        vec![(ip, 0), (v4(10, 0, 0, 0), 0)]
    );
    // Banning again starts the time anew.
    c.record_added(BanEntry::Ip(ip), 3600, t0 + Duration::from_secs(200));
    assert_eq!(c.get_banned_ips_at(&(t0 + Duration::from_secs(300)))[0], (ip, 3500));
    // Read from the clock, a fresh ban has its whole time left or a second less.
    let fresh = c.get_banned_ips();
    assert_eq!(fresh.len(), 2);
}

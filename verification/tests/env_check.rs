use edepot::env_check::combine_checks;
use edepot::env_check::{sysctl_paths, sysctl_verdict};
use edepot::env_check::{
    check_kernel_release, check_root_status, environment_report, environment_supported,
    EnvCheckResult, Error,
};

fn all(pass: bool) -> EnvCheckResult {
    EnvCheckResult {
        os_check: pass,
        kernel_check: pass,
        nftables_check: pass,
        ebpf_check: pass,
        root_check: pass,
        sysctl_check: pass,
    }
}

#[test]
fn test_is_environment_supported() {
    let result = environment_supported(&Ok(all(true)));
    assert!(result || true);
    assert!(result);
    assert!(!environment_supported(&Err(Error::NotLinux)));
    let mut one_fails = all(true);
    one_fails.sysctl_check = false;
    assert!(!environment_supported(&Ok(one_fails)));
}

#[test]
fn test_env_check_result_struct() {
    let result = all(true);

    assert!(result.os_check);
    assert!(result.kernel_check);
    assert!(result.nftables_check);
    assert!(result.ebpf_check);
    assert!(result.root_check);
    assert!(result.sysctl_check);
    assert!(result.all_pass());
    assert!(!all(false).all_pass());
}

#[test]
fn kernel_release_at_least_5_4_passes() {
    assert!(check_kernel_release("5.4.0-150-generic\n").unwrap());
    assert!(check_kernel_release("6.1.0").unwrap());
    assert!(check_kernel_release("  5.10.2  ").unwrap());
    assert!(check_kernel_release("10.0").unwrap());
}

#[test]
fn kernel_release_below_5_4_or_unreadable_fails() {
    match check_kernel_release("4.19.0-25-amd64\n") {
        Err(Error::KernelTooOld(v)) => assert_eq!(v, "4.19.0-25-amd64"),
        _ => panic!("expected an old kernel"),
    }
    match check_kernel_release("5.3.18") {
        Err(Error::KernelTooOld(v)) => assert_eq!(v, "5.3.18"),
        _ => panic!("expected an old kernel"),
    }
    assert!(matches!(check_kernel_release("6"), Err(Error::KernelTooOld(_))));
    assert!(matches!(check_kernel_release("6-rc1.2"), Err(Error::KernelTooOld(_))));
    assert!(matches!(check_kernel_release(""), Err(Error::KernelTooOld(_))));
}

#[test]
fn root_is_read_from_the_uid_line() {
    let root = "Name:\tcat\nUmask:\t0022\nUid:\t0\t0\t0\t0\nGid:\t0\t0\t0\t0\n";
    assert!(check_root_status(root).unwrap());
    let user = "Name:\tcat\nUid:\t1000\t1000\t1000\t1000\n";
    assert!(matches!(check_root_status(user), Err(Error::NotRoot)));
    assert!(matches!(check_root_status("Name:\tcat\n"), Err(Error::NotRoot)));
    assert!(matches!(check_root_status("Uid:\n"), Err(Error::NotRoot)));
}

#[test]
fn environment_error_messages() {
    assert_eq!(Error::NotLinux.message(), "not running on Linux");
    assert_eq!(
        Error::KernelTooOld("4.4".to_string()).message(),
        "kernel version too old: expected >= 5.4, got 4.4"
    );
    assert_eq!(Error::NftablesNotAvailable.message(), "nftables not available");
    assert_eq!(Error::EbpfNotSupported.message(), "ebpf not supported");
    assert_eq!(Error::NotRoot.message(), "not running as root");
    assert_eq!(
        Error::SysctlCheckFailed("missing /x".to_string()).message(),
        "sysctl check failed: missing /x"
    );
}

#[test]
fn environment_report_lines() {
    let mut c = all(true);
    c.ebpf_check = false;
    let lines = environment_report(&c, false);
    assert_eq!(
        lines,
        vec![
            "=== eDepot Environment Check ===".to_string(),
            "OS Check: PASS".to_string(),
            "Kernel Version: PASS".to_string(),
            "nftables: PASS".to_string(),
            "eBPF Support: FAIL".to_string(),
            "Root Privileges: PASS".to_string(),
            "Sysctl Settings: PASS".to_string(),
            "".to_string(),
            "Environment: NOT SUPPORTED - eDepot cannot run".to_string(),
        ]
    );
    let lines = environment_report(&all(true), true);
    assert_eq!(lines.last().unwrap(), "Environment: SUPPORTED - eDepot can run");
}

#[test]
fn sysctl_check_names_the_first_missing_file() {
    let paths = sysctl_paths();
    assert_eq!(
        paths,
        vec![
            "/proc/sys/net/ipv4/ip_forward".to_string(),
            "/proc/sys/net/ipv4/tcp_syncookies".to_string(),
            "/proc/sys/net/netfilter/nf_conntrack_max".to_string(),
        ]
    );
    assert!(sysctl_verdict(&paths, &vec![true, true, true]).unwrap());
    match sysctl_verdict(&paths, &vec![true, false, false]) {
        Err(Error::SysctlCheckFailed(m)) => assert_eq!(m, "missing /proc/sys/net/ipv4/tcp_syncookies"),
        _ => panic!("expected a missing file"),
    }
}

#[test]
fn kernel_release_numbers_are_read_as_std_reads_u32() {
    assert!(check_kernel_release("+5.4").unwrap());
    assert!(check_kernel_release("05.04.0").unwrap());
    assert!(matches!(check_kernel_release("5.+"), Err(Error::KernelTooOld(_))));
    assert!(matches!(check_kernel_release("4294967296.0"), Err(Error::KernelTooOld(_))));
    assert!(check_kernel_release("4294967295.0").unwrap());
}

#[test]
fn checks_combine_to_the_first_failure() {
    let r = combine_checks(Ok(true), Ok(true), Ok(true), Ok(true), Ok(true), Ok(false));
    match r {
        Ok(c) => {
            assert!(c.os_check && c.kernel_check && c.nftables_check && c.ebpf_check && c.root_check);
            assert!(!c.sysctl_check);
        }
        Err(_) => panic!("expected the six results"),
    }
    let r = combine_checks(
        Ok(true),
        Err(Error::KernelTooOld("4.19".to_string())),
        Err(Error::NftablesNotAvailable),
        Ok(true),
        Err(Error::NotRoot),
        Ok(true),
    );
    match r {
        Err(Error::KernelTooOld(v)) => assert_eq!(v, "4.19"),
        _ => panic!("expected the kernel failure"),
    }
    let r = combine_checks(Ok(true), Ok(true), Ok(true), Ok(true), Err(Error::NotRoot), Ok(true));
    assert!(matches!(r, Err(Error::NotRoot)));
}

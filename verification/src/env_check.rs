//! The checks that the host can run the defense system: what each reading
//! of the host means, and the report of the results.
use crate::text::{
    lines, lines_text, parse_u32, split_char, split_text, starts_with, trim, trim_text,
    u32_text_value, words, words_text, lemma_split_nonempty,
};
use vstd::prelude::*;

verus! {

/// `std::io::Error`, carried as an opaque value.
#[verifier::external_type_specification]
#[verifier::external_body]
pub struct ExIoError(std::io::Error);

/// Why the environment check failed.
#[derive(Debug)]
pub enum Error {
    NotLinux,
    KernelTooOld(String),
    NftablesNotAvailable,
    EbpfNotSupported,
    NotRoot,
    SysctlCheckFailed(String),
    Io(std::io::Error),
}

/// The result of each check.
#[derive(Debug, Clone, Copy, PartialEq, Eq, Structural)]
pub struct EnvCheckResult {
    pub os_check: bool,
    pub kernel_check: bool,
    pub nftables_check: bool,
    pub ebpf_check: bool,
    pub root_check: bool,
    pub sysctl_check: bool,
}

impl EnvCheckResult {
    /// Every check passed.
    pub open spec fn spec_all_pass(&self) -> bool {
        self.os_check && self.kernel_check && self.nftables_check && self.ebpf_check
            && self.root_check && self.sysctl_check
    }

    /// Whether every check passed.
    pub fn all_pass(&self) -> (r: bool)
        ensures
            r == self.spec_all_pass(),
    {
        self.os_check && self.kernel_check && self.nftables_check && self.ebpf_check
            && self.root_check && self.sysctl_check
    }
}

/// The outcome of the six checks taken in order (system, kernel, nftables,
/// eBPF, root, sysctl): the first failure, else the six results.
pub open spec fn combined_checks(
    os: Result<bool, Error>,
    kernel: Result<bool, Error>,
    nftables: Result<bool, Error>,
    ebpf: Result<bool, Error>,
    root: Result<bool, Error>,
    sysctl: Result<bool, Error>,
) -> Result<EnvCheckResult, Error> {
    match (os, kernel, nftables, ebpf, root, sysctl) {
        (Err(e), _, _, _, _, _) => Err(e),
        (Ok(_), Err(e), _, _, _, _) => Err(e),
        (Ok(_), Ok(_), Err(e), _, _, _) => Err(e),
        (Ok(_), Ok(_), Ok(_), Err(e), _, _) => Err(e),
        (Ok(_), Ok(_), Ok(_), Ok(_), Err(e), _) => Err(e),
        (Ok(_), Ok(_), Ok(_), Ok(_), Ok(_), Err(e)) => Err(e),
        (Ok(a), Ok(b), Ok(c), Ok(d), Ok(f), Ok(g)) => Ok(
            EnvCheckResult {
                os_check: a,
                kernel_check: b,
                nftables_check: c,
                ebpf_check: d,
                root_check: f,
                sysctl_check: g,
            },
        ),
    }
}

/// Puts the six check results together in order: the first failure among
/// them, else the result of each.
pub fn combine_checks(
    os: Result<bool, Error>,
    kernel: Result<bool, Error>,
    nftables: Result<bool, Error>,
    ebpf: Result<bool, Error>,
    root: Result<bool, Error>,
    sysctl: Result<bool, Error>,
) -> (r: Result<EnvCheckResult, Error>)
    ensures
        r == combined_checks(os, kernel, nftables, ebpf, root, sysctl),
{
    let os_check = match os {
        Ok(v) => v,
        Err(e) => return Err(e),
    };
    let kernel_check = match kernel {
        Ok(v) => v,
        Err(e) => return Err(e),
    };
    let nftables_check = match nftables {
        Ok(v) => v,
        Err(e) => return Err(e),
    };
    let ebpf_check = match ebpf {
        Ok(v) => v,
        Err(e) => return Err(e),
    };
    let root_check = match root {
        Ok(v) => v,
        Err(e) => return Err(e),
    };
    let sysctl_check = match sysctl {
        Ok(v) => v,
        Err(e) => return Err(e),
    };
    Ok(EnvCheckResult { os_check, kernel_check, nftables_check, ebpf_check, root_check, sysctl_check })
}

/// The environment is supported when the checks ran and every one passed.
pub fn environment_supported(result: &Result<EnvCheckResult, Error>) -> (r: bool)
    ensures
        r == (result matches Ok(c) && c.spec_all_pass()),
{
    match result {
        Ok(c) => c.all_pass(),
        Err(_) => false,
    }
}

/// A kernel release is recent enough: its first two dot-separated numbers
/// are at least 5.4.
pub open spec fn release_supported(release: Seq<char>) -> bool {
    let parts = split_text(release, '.');
    &&& parts.len() >= 2
    &&& u32_text_value(parts[0]) matches Some(major)
    &&& u32_text_value(parts[1]) matches Some(minor)
    &&& (major > 5 || (major == 5 && minor >= 4))
}

/// The kernel check on the content of `/proc/sys/kernel/osrelease`: passes
/// when the trimmed release is at least 5.4, else fails with the release.
pub fn check_kernel_release(content: &str) -> (r: Result<bool, Error>)
    ensures
        match r {
            Ok(b) => b && release_supported(trim_text(content@)),
            Err(e) => !release_supported(trim_text(content@)) && (e matches Error::KernelTooOld(v)
                && v@ == trim_text(content@)),
        },
{
    let version = trim(content);
    let parts = split_char(version, '.');
    let ghost pv = parts@.map_values(|p: String| p@);
    if parts.len() >= 2 {
        assert(pv[0] == parts@[0]@);
        assert(pv[1] == parts@[1]@);
        if let Some(major) = parse_u32(parts[0].as_str()) {
            if let Some(minor) = parse_u32(parts[1].as_str()) {
                if major > 5 || (major == 5 && minor >= 4) {
                    return Ok(true);
                }
            }
        }
    }
    Err(Error::KernelTooOld(version.to_owned()))
}

/// The first line of `/proc/self/status` that starts with `Uid:`, if any.
pub open spec fn uid_line(lines: Seq<Seq<char>>) -> Option<Seq<char>>
    decreases lines.len(),
{
    if lines.len() == 0 {
        None
    } else if "Uid:"@.len() <= lines[0].len() && lines[0].subrange(0, "Uid:"@.len() as int)
        == "Uid:"@ {
        Some(lines[0])
    } else {
        uid_line(lines.drop_first())
    }
}

/// The process runs as root: the `Uid:` line's second word is `0`.
pub open spec fn status_is_root(status: Seq<char>) -> bool {
    &&& uid_line(lines_text(status)) matches Some(line)
    &&& words_text(line).len() >= 2
    &&& words_text(line)[1] == "0"@
}

/// The root check on the content of `/proc/self/status`.
pub fn check_root_status(status: &str) -> (r: Result<bool, Error>)
    ensures
        match r {
            Ok(b) => b && status_is_root(status@),
            Err(e) => !status_is_root(status@) && e is NotRoot,
        },
{
    let ls = lines(status);
    let ghost lv = ls@.map_values(|p: String| p@);
    let mut i: usize = 0;
    assert(lv.skip(0) =~= lv);
    while i < ls.len()
        invariant
            i <= ls@.len(),
            lv == ls@.map_values(|p: String| p@),
            lv == lines_text(status@),
            uid_line(lv) == uid_line(lv.skip(i as int)),
        decreases ls@.len() - i,
    {
        assert(lv.skip(i as int)[0] == ls@[i as int]@);
        assert(lv.skip(i as int).drop_first() =~= lv.skip(i + 1));
        if starts_with(ls[i].as_str(), "Uid:") {
            let ws = words(ls[i].as_str());
            let ghost wv = ws@.map_values(|p: String| p@);
            if ws.len() >= 2 {
                assert(wv[1] == ws@[1]@);
                if crate::text::text_eq(ws[1].as_str(), "0") {
                    return Ok(true);
                }
            }
            return Err(Error::NotRoot);
        }
        i = i + 1;
    }
    assert(lv.skip(i as int).len() == 0);
    Err(Error::NotRoot)
}

/// The files the sysctl check looks for, in order.
pub open spec fn sysctl_paths_spec() -> Seq<Seq<char>> {
    seq![
        "/proc/sys/net/ipv4/ip_forward"@,
        "/proc/sys/net/ipv4/tcp_syncookies"@,
        "/proc/sys/net/netfilter/nf_conntrack_max"@,
    ]
}

/// The files the sysctl check looks for, in order.
pub fn sysctl_paths() -> (r: Vec<String>)
    ensures
        r@.map_values(|p: String| p@) == sysctl_paths_spec(),
{
    let r = vec![
        "/proc/sys/net/ipv4/ip_forward".to_owned(),
        "/proc/sys/net/ipv4/tcp_syncookies".to_owned(),
        "/proc/sys/net/netfilter/nf_conntrack_max".to_owned(),
    ];
    assert(r@.map_values(|p: String| p@) =~= sysctl_paths_spec());
    r
}

/// The sysctl check on which of `paths` exist: it fails at the first one
/// missing, naming it; it passes when all exist.
pub fn sysctl_verdict(paths: &Vec<String>, present: &Vec<bool>) -> (r: Result<bool, Error>)
    requires
        present@.len() == paths@.len(),
    ensures
        match r {
            Ok(b) => b && forall|i: int| 0 <= i < present@.len() ==> #[trigger] present@[i],
            Err(e) => exists|i: int|
                0 <= i < present@.len() && !#[trigger] present@[i] && (forall|j: int|
                    0 <= j < i ==> present@[j]) && (e matches Error::SysctlCheckFailed(m) && m@
                    == "missing "@ + paths@[i]@),
        },
{
    let mut i: usize = 0;
    while i < paths.len()
        invariant
            present@.len() == paths@.len(),
            i <= paths@.len(),
            forall|j: int| 0 <= j < i ==> present@[j],
        decreases paths@.len() - i,
    {
        if !present[i] {
            let mut m = "missing ".to_owned();
            m.append(paths[i].as_str());
            return Err(Error::SysctlCheckFailed(m));
        }
        i = i + 1;
    }
    Ok(true)
}

impl Error {
    /// The text of the failure (the I/O error's own text is not stated).
    pub fn message(&self) -> (r: String)
        ensures
            match self {
                Error::NotLinux => r@ == "not running on Linux"@,
                Error::KernelTooOld(v) => r@ == "kernel version too old: expected >= 5.4, got "@
                    + v@,
                Error::NftablesNotAvailable => r@ == "nftables not available"@,
                Error::EbpfNotSupported => r@ == "ebpf not supported"@,
                Error::NotRoot => r@ == "not running as root"@,
                Error::SysctlCheckFailed(m) => r@ == "sysctl check failed: "@ + m@,
                Error::Io(_) => exists|t: Seq<char>| r@ == "io error: "@ + t,
            },
    {
        match self {
            Error::NotLinux => "not running on Linux".to_owned(),
            Error::KernelTooOld(v) => {
                let mut r = "kernel version too old: expected >= 5.4, got ".to_owned();
                r.append(v.as_str());
                r
            },
            Error::NftablesNotAvailable => "nftables not available".to_owned(),
            Error::EbpfNotSupported => "ebpf not supported".to_owned(),
            Error::NotRoot => "not running as root".to_owned(),
            Error::SysctlCheckFailed(m) => {
                let mut r = "sysctl check failed: ".to_owned();
                r.append(m.as_str());
                r
            },
            Error::Io(e) => {
                let mut r = "io error: ".to_owned();
                let t = io_error_text(e);
                r.append(t.as_str());
                r
            },
        }
    }
}

/// std's `Display` for `std::io::Error`: the error's text, which std does
/// not fix.
#[verifier::external_body]
fn io_error_text(e: &std::io::Error) -> (r: String) {
    e.to_string()
}

/// `PASS` or `FAIL`.
pub open spec fn verdict_text(pass: bool) -> Seq<char> {
    if pass {
        "PASS"@
    } else {
        "FAIL"@
    }
}

/// The lines of the environment report for a completed check; `supported`
/// is the verdict of a second check made for the last line.
pub open spec fn report_lines(c: EnvCheckResult, supported: bool) -> Seq<Seq<char>> {
    seq![
        "=== eDepot Environment Check ==="@,
        "OS Check: "@ + verdict_text(c.os_check),
        "Kernel Version: "@ + verdict_text(c.kernel_check),
        "nftables: "@ + verdict_text(c.nftables_check),
        "eBPF Support: "@ + verdict_text(c.ebpf_check),
        "Root Privileges: "@ + verdict_text(c.root_check),
        "Sysctl Settings: "@ + verdict_text(c.sysctl_check),
        Seq::<char>::empty(),
        if supported {
            "Environment: SUPPORTED - eDepot can run"@
        } else {
            "Environment: NOT SUPPORTED - eDepot cannot run"@
        },
    ]
}

fn labelled(label: &str, pass: bool) -> (r: String)
    ensures
        r@ == label@ + verdict_text(pass),
{
    let mut r = label.to_owned();
    if pass {
        r.append("PASS");
    } else {
        r.append("FAIL");
    }
    r
}

/// The report printed for a completed check.
pub fn environment_report(c: &EnvCheckResult, supported: bool) -> (r: Vec<String>)
    ensures
        r@.map_values(|l: String| l@) == report_lines(*c, supported),
{
    let mut r: Vec<String> = Vec::new();
    r.push("=== eDepot Environment Check ===".to_owned());
    r.push(labelled("OS Check: ", c.os_check));
    r.push(labelled("Kernel Version: ", c.kernel_check));
    r.push(labelled("nftables: ", c.nftables_check));
    r.push(labelled("eBPF Support: ", c.ebpf_check));
    r.push(labelled("Root Privileges: ", c.root_check));
    r.push(labelled("Sysctl Settings: ", c.sysctl_check));
    r.push(String::new());
    if supported {
        r.push("Environment: SUPPORTED - eDepot can run".to_owned());
    } else {
        r.push("Environment: NOT SUPPORTED - eDepot cannot run".to_owned());
    }
    assert(r@.map_values(|l: String| l@) =~= report_lines(*c, supported));
    r
}

} // verus!

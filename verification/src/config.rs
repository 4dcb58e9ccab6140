//! The configuration of the defense system and its validation.
use crate::net::IpAddress;
use crate::text::{
    cidr_parse, decimal_text, lowercase_text, parse_cidr, text_eq, to_lowercase, usize_to_text,
};
use vstd::prelude::*;

verus! {

/// Why a configuration is refused.
#[derive(Debug)]
pub enum Error {
    InvalidCidr(String),
    Validation(String),
}

/// Settings of the whole process.
#[derive(Debug, Clone)]
pub struct GlobalConfig {
    pub worker_count: usize,
    pub nft_table: String,
    pub log_level: String,
    pub poll_interval_ms: u64,
}

/// Networks whose traffic is never inspected.
#[derive(Debug, Clone)]
pub struct WhitelistConfig {
    pub cidr: Vec<String>,
}

/// A detection rule as written in the configuration file.
#[derive(Debug, Clone)]
pub struct RuleConfig {
    pub name: String,
    pub protocol: String,
    pub ports: Option<Vec<u16>>,
    pub rule_type: String,
    pub window_secs: u32,
    pub threshold: u32,
    pub block_duration: u32,
    pub ipv4_prefix: Option<u8>,
    pub ipv6_prefix: Option<u8>,
}

/// Limits on the rule engine's memory.
#[derive(Debug, Clone)]
pub struct MemoryConfig {
    pub max_entries: usize,
    pub cleanup_interval: u32,
}

/// The whole configuration.
#[derive(Debug, Clone)]
pub struct Config {
    pub global: GlobalConfig,
    pub whitelist: WhitelistConfig,
    pub rules: Vec<RuleConfig>,
    pub memory: MemoryConfig,
}

/// The number of workers when the file names none.
pub fn default_worker_count() -> (r: usize)
    ensures
        r == 4,
{
    4
}

/// The nftables table when the file names none.
pub fn default_nft_table() -> (r: String)
    ensures
        r@ == "edepot"@,
{
    "edepot".to_owned()
}

/// The log level when the file names none.
pub fn default_log_level() -> (r: String)
    ensures
        r@ == "info"@,
{
    "info".to_owned()
}

/// The poll interval in milliseconds when the file names none.
pub fn default_poll_interval_ms() -> (r: u64)
    ensures
        r == 1000,
{
    1000
}

impl Default for GlobalConfig {
    fn default() -> (r: Self)
        ensures
            r.worker_count == 4,
            r.nft_table@ == "edepot"@,
            r.log_level@ == "info"@,
            r.poll_interval_ms == 1000,
    {
        GlobalConfig {
            worker_count: default_worker_count(),
            nft_table: default_nft_table(),
            log_level: default_log_level(),
            poll_interval_ms: default_poll_interval_ms(),
        }
    }
}


/// A refusal as the contracts speak of it: the kind and the message.
pub enum Refusal {
    InvalidCidr(Seq<char>),
    Validation(Seq<char>),
}

impl Error {
    pub open spec fn view(&self) -> Refusal {
        match self {
            Error::InvalidCidr(m) => Refusal::InvalidCidr(m@),
            Error::Validation(m) => Refusal::Validation(m@),
        }
    }
}

/// Whether the CIDR text parses to a network that contains `ip`.
pub open spec fn cidr_covers(text: Seq<char>, ip: IpAddress) -> bool {
    match cidr_parse(text) {
        Some(net) => net.spec_contains(ip),
        None => false,
    }
}

/// Some whitelist entry parses to a network that contains `ip`; entries that
/// do not parse are passed over.
pub open spec fn whitelist_admits(cidrs: Seq<String>, ip: IpAddress) -> bool {
    exists|i: int| 0 <= i < cidrs.len() && cidr_covers(#[trigger] cidrs[i]@, ip)
}

/// What is wrong with the global settings, checked in this order.
pub open spec fn global_refusal(g: GlobalConfig) -> Option<Seq<char>> {
    if g.worker_count == 0 {
        Some("worker_count must be > 0"@)
    } else if g.nft_table@.len() == 0 {
        Some("nft_table must not be empty"@)
    } else if g.poll_interval_ms == 0 {
        Some("poll_interval_ms must be > 0"@)
    } else {
        None
    }
}

/// The refusal of the first whitelist entry among the first `n` that does
/// not parse as a network.
pub open spec fn whitelist_refusal(cidrs: Seq<String>, n: nat) -> Option<Seq<char>>
    decreases n,
{
    if n == 0 {
        None
    } else {
        match whitelist_refusal(cidrs, (n - 1) as nat) {
            Some(m) => Some(m),
            None => if cidr_parse(cidrs[n - 1]@) is None {
                Some(
                    "whitelist["@ + decimal_text((n - 1) as nat) + "]: '"@ + cidrs[n - 1]@
                        + "' is not a valid CIDR"@,
                )
            } else {
                None
            },
        }
    }
}

/// The start of a message about rule `i` named `name`.
pub open spec fn rule_head(i: nat, name: Seq<char>) -> Seq<char> {
    "rule["@ + decimal_text(i) + "] '"@ + name + "': "@
}

/// What is wrong with rule `i`, checked in this order. Protocol and type
/// names are compared in lowercase; the check that both prefixes are given
/// applies to the type spelled exactly `cidr`; a prefix that is given must
/// fit its family (1 to 32 for IPv4, at most 128 for IPv6).
pub open spec fn rule_refusal(r: RuleConfig, i: nat) -> Option<Seq<char>> {
    let p = lowercase_text(r.protocol@);
    let t = lowercase_text(r.rule_type@);
    if r.name@.len() == 0 {
        Some("rule["@ + decimal_text(i) + "]: name must not be empty"@)
    } else if p != "tcp"@ && p != "udp"@ {
        Some(
            rule_head(i, r.name@) + "protocol must be 'tcp' or 'udp', got '"@ + r.protocol@ + "'"@,
        )
    } else if t != "ip"@ && t != "cidr"@ {
        Some(
            rule_head(i, r.name@) + "rule_type must be 'ip' or 'cidr', got '"@ + r.rule_type@
                + "'"@,
        )
    } else if r.rule_type@ == "cidr"@ && (r.ipv4_prefix is None || r.ipv6_prefix is None) {
        Some(rule_head(i, r.name@) + "cidr rule requires both ipv4_prefix and ipv6_prefix"@)
    } else if (match r.ipv4_prefix {
        Some(n) => n == 0 || n > 32,
        None => false,
    }) {
        Some(
            rule_head(i, r.name@) + "ipv4_prefix must be between 1 and 32, got "@ + decimal_text(
                r.ipv4_prefix->0 as nat,
            ),
        )
    } else if (match r.ipv6_prefix {
        Some(n) => n > 128,
        None => false,
    }) {
        Some(
            rule_head(i, r.name@) + "ipv6_prefix must be at most 128, got "@ + decimal_text(
                r.ipv6_prefix->0 as nat,
            ),
        )
    } else if r.window_secs == 0 {
        Some(rule_head(i, r.name@) + "window_secs must be > 0"@)
    } else if r.threshold == 0 {
        Some(rule_head(i, r.name@) + "threshold must be > 0"@)
    } else if r.block_duration == 0 {
        Some(rule_head(i, r.name@) + "block_duration must be > 0"@)
    } else {
        None
    }
}

/// The refusal of the first rule among the first `n` that is refused.
pub open spec fn rules_refusal(rules: Seq<RuleConfig>, n: nat) -> Option<Seq<char>>
    decreases n,
{
    if n == 0 {
        None
    } else {
        match rules_refusal(rules, (n - 1) as nat) {
            Some(m) => Some(m),
            None => rule_refusal(rules[n - 1], (n - 1) as nat),
        }
    }
}

/// What is wrong with the memory limits, checked in this order.
pub open spec fn memory_refusal(m: MemoryConfig) -> Option<Seq<char>> {
    if m.max_entries == 0 {
        Some("max_entries must be > 0"@)
    } else if m.cleanup_interval == 0 {
        Some("cleanup_interval must be > 0"@)
    } else {
        None
    }
}

/// The first thing wrong with a configuration: global settings, then the
/// whitelist, then the rules, then the memory limits; none when it is valid.
pub open spec fn config_refusal(c: Config) -> Option<Refusal> {
    match global_refusal(c.global) {
        Some(m) => Some(Refusal::Validation(m)),
        None => match whitelist_refusal(c.whitelist.cidr@, c.whitelist.cidr@.len()) {
            Some(m) => Some(Refusal::InvalidCidr(m)),
            None => match rules_refusal(c.rules@, c.rules@.len()) {
                Some(m) => Some(Refusal::Validation(m)),
                None => match memory_refusal(c.memory) {
                    Some(m) => Some(Refusal::Validation(m)),
                    None => None,
                },
            },
        },
    }
}

/// A refusal found among the first `n` items stays the first one for any
/// longer prefix.
proof fn lemma_whitelist_refusal_stays(cidrs: Seq<String>, n: nat, m: nat)
    requires
        n <= m,
        whitelist_refusal(cidrs, n) is Some,
    ensures
        whitelist_refusal(cidrs, m) == whitelist_refusal(cidrs, n),
    decreases m - n,
{
    if n < m {
        lemma_whitelist_refusal_stays(cidrs, n, (m - 1) as nat);
    }
}

proof fn lemma_rules_refusal_stays(rules: Seq<RuleConfig>, n: nat, m: nat)
    requires
        n <= m,
        rules_refusal(rules, n) is Some,
    ensures
        rules_refusal(rules, m) == rules_refusal(rules, n),
    decreases m - n,
{
    if n < m {
        lemma_rules_refusal_stays(rules, n, (m - 1) as nat);
    }
}

/// A rule passes every check: a name, protocol `tcp` or `udp` and type `ip`
/// or `cidr` in any case, both prefixes for a type spelled `cidr`, prefixes
/// that fit their family, and positive window, threshold and duration.
pub open spec fn rule_sound(r: RuleConfig) -> bool {
    let p = lowercase_text(r.protocol@);
    let t = lowercase_text(r.rule_type@);
    &&& r.name@.len() > 0
    &&& (p == "tcp"@ || p == "udp"@)
    &&& (t == "ip"@ || t == "cidr"@)
    &&& (r.rule_type@ == "cidr"@ ==> r.ipv4_prefix is Some && r.ipv6_prefix is Some)
    &&& (r.ipv4_prefix matches Some(n) ==> 1 <= n <= 32)
    &&& (r.ipv6_prefix matches Some(n) ==> n <= 128)
    &&& r.window_secs > 0
    &&& r.threshold > 0
    &&& r.block_duration > 0
}

proof fn lemma_whitelist_refusal_none(cidrs: Seq<String>, n: nat)
    requires
        n <= cidrs.len(),
    ensures
        whitelist_refusal(cidrs, n) is None <==> forall|j: int|
            0 <= j < n ==> cidr_parse(#[trigger] cidrs[j]@) is Some,
    decreases n,
{
    if n > 0 {
        lemma_whitelist_refusal_none(cidrs, (n - 1) as nat);
        if whitelist_refusal(cidrs, n) is None {
            assert forall|j: int| 0 <= j < n implies cidr_parse(#[trigger] cidrs[j]@) is Some by {
                if j < n - 1 {
                    assert(cidr_parse(cidrs[j]@) is Some);
                }
            }
        }
    }
}

proof fn lemma_rules_refusal_none(rules: Seq<RuleConfig>, n: nat)
    requires
        n <= rules.len(),
    ensures
        rules_refusal(rules, n) is None <==> forall|j: int|
            0 <= j < n ==> rule_sound(#[trigger] rules[j]),
    decreases n,
{
    if n > 0 {
        lemma_rules_refusal_none(rules, (n - 1) as nat);
        let last = rules[n - 1];
        assert(rule_refusal(last, (n - 1) as nat) is None <==> rule_sound(last));
        if rules_refusal(rules, n) is None {
            assert forall|j: int| 0 <= j < n implies rule_sound(#[trigger] rules[j]) by {
                if j < n - 1 {
                    assert(rule_sound(rules[j]));
                }
            }
        }
    }
}

/// Whitelisting looks at every entry alike, wherever it stands: an address
/// is whitelisted when any entry parses to a network that contains it, and
/// only then; adding an entry never takes an address off the whitelist.
pub proof fn lemma_whitelist_any_entry(cidrs: Seq<String>, ip: IpAddress, extra: String)
    ensures
        forall|i: int|
            0 <= i < cidrs.len() && (#[trigger] cidr_parse(cidrs[i]@)) is Some
                && cidr_parse(cidrs[i]@)->0.spec_contains(ip) ==> whitelist_admits(cidrs, ip),
        whitelist_admits(cidrs, ip) ==> exists|i: int|
            0 <= i < cidrs.len() && (#[trigger] cidr_parse(cidrs[i]@)) is Some
                && cidr_parse(cidrs[i]@)->0.spec_contains(ip),
        whitelist_admits(cidrs, ip) ==> whitelist_admits(cidrs.push(extra), ip),
        whitelist_admits(cidrs, ip) ==> whitelist_admits(seq![extra] + cidrs, ip),
{
    assert forall|i: int|
        0 <= i < cidrs.len() && (#[trigger] cidr_parse(cidrs[i]@)) is Some
            && cidr_parse(cidrs[i]@)->0.spec_contains(ip) implies whitelist_admits(cidrs, ip) by {
        assert(cidr_covers(cidrs[i]@, ip));
    }
    if whitelist_admits(cidrs, ip) {
        let i = choose|i: int| 0 <= i < cidrs.len() && cidr_covers(#[trigger] cidrs[i]@, ip);
        assert(cidrs.push(extra)[i] == cidrs[i]);
        assert(cidr_covers(cidrs.push(extra)[i]@, ip));
        assert((seq![extra] + cidrs)[i + 1] == cidrs[i]);
        assert(cidr_covers((seq![extra] + cidrs)[i + 1]@, ip));
    }
}

/// A configuration is accepted exactly when the worker count and the poll
/// interval are positive and the table is named, every whitelist entry
/// parses as a network, every rule passes its checks, and both memory limits
/// are positive.
pub proof fn lemma_validate_accepts_exactly(c: Config)
    ensures
        config_refusal(c) is None <==> {
            &&& c.global.worker_count > 0
            &&& c.global.nft_table@.len() > 0
            &&& c.global.poll_interval_ms > 0
            &&& forall|i: int|
                0 <= i < c.whitelist.cidr@.len() ==> cidr_parse(#[trigger] c.whitelist.cidr@[i]@) is Some
            &&& forall|i: int| 0 <= i < c.rules@.len() ==> rule_sound(#[trigger] c.rules@[i])
            &&& c.memory.max_entries > 0
            &&& c.memory.cleanup_interval > 0
        },
{
    lemma_whitelist_refusal_none(c.whitelist.cidr@, c.whitelist.cidr@.len());
    lemma_rules_refusal_none(c.rules@, c.rules@.len());
}

/// `"rule[" + i + "] '" + name + "': "` as a new `String`.
fn rule_head_text(i: usize, name: &str) -> (r: String)
    ensures
        r@ == rule_head(i as nat, name@),
{
    let mut r = "rule[".to_owned();
    let n = usize_to_text(i);
    r.append(n.as_str());
    r.append("] '");
    r.append(name);
    r.append("': ");
    r
}

/// `head + tail` as a new `String`.
fn with_tail(head: String, tail: &str) -> (r: String)
    ensures
        r@ == head@ + tail@,
{
    let mut r = head;
    r.append(tail);
    r
}

/// What is wrong with rule `i`, if anything.
fn check_rule(r: &RuleConfig, i: usize) -> (res: Option<String>)
    ensures
        match res {
            Some(m) => rule_refusal(*r, i as nat) == Some(m@),
            None => rule_refusal(*r, i as nat) is None,
        },
{
    if r.name.as_str().unicode_len() == 0 {
        let mut m = "rule[".to_owned();
        let n = usize_to_text(i);
        m.append(n.as_str());
        m.append("]: name must not be empty");
        return Some(m);
    }
    let protocol = to_lowercase(r.protocol.as_str());
    if !text_eq(protocol.as_str(), "tcp") && !text_eq(protocol.as_str(), "udp") {
        let m = with_tail(rule_head_text(i, r.name.as_str()), "protocol must be 'tcp' or 'udp', got '");
        let m = with_tail(m, r.protocol.as_str());
        return Some(with_tail(m, "'"));
    }
    let rule_type = to_lowercase(r.rule_type.as_str());
    if !text_eq(rule_type.as_str(), "ip") && !text_eq(rule_type.as_str(), "cidr") {
        let m = with_tail(rule_head_text(i, r.name.as_str()), "rule_type must be 'ip' or 'cidr', got '");
        let m = with_tail(m, r.rule_type.as_str());
        return Some(with_tail(m, "'"));
    }
    if text_eq(r.rule_type.as_str(), "cidr") {
        if r.ipv4_prefix.is_none() || r.ipv6_prefix.is_none() {
            return Some(with_tail(rule_head_text(i, r.name.as_str()), "cidr rule requires both ipv4_prefix and ipv6_prefix"));
        }
    }
    if let Some(n) = r.ipv4_prefix {
        if n == 0 || n > 32 {
            let m = with_tail(rule_head_text(i, r.name.as_str()), "ipv4_prefix must be between 1 and 32, got ");
            let d = usize_to_text(n as usize);
            return Some(with_tail(m, d.as_str()));
        }
    }
    if let Some(n) = r.ipv6_prefix {
        if n > 128 {
            let m = with_tail(rule_head_text(i, r.name.as_str()), "ipv6_prefix must be at most 128, got ");
            let d = usize_to_text(n as usize);
            return Some(with_tail(m, d.as_str()));
        }
    }
    if r.window_secs == 0 {
        return Some(with_tail(rule_head_text(i, r.name.as_str()), "window_secs must be > 0"));
    }
    if r.threshold == 0 {
        return Some(with_tail(rule_head_text(i, r.name.as_str()), "threshold must be > 0"));
    }
    if r.block_duration == 0 {
        return Some(with_tail(rule_head_text(i, r.name.as_str()), "block_duration must be > 0"));
    }
    None
}

impl Config {
    /// Whether some whitelist entry is a network that contains `ip`; entries
    /// that do not parse as networks are passed over.
    pub fn is_whitelisted(&self, ip: &IpAddress) -> (r: bool)
        ensures
            r == whitelist_admits(self.whitelist.cidr@, *ip),
    {
        let cidrs = &self.whitelist.cidr;
        let mut i: usize = 0;
        while i < cidrs.len()
            invariant
                i <= cidrs@.len(),
                forall|j: int| 0 <= j < i ==> !cidr_covers(#[trigger] cidrs@[j]@, *ip),
                cidrs@ == self.whitelist.cidr@,
            decreases cidrs@.len() - i,
        {
            if let Some(net) = parse_cidr(cidrs[i].as_str()) {
                if net.contains(ip) {
                    assert(cidr_covers(self.whitelist.cidr@[i as int]@, *ip));
                    assert(whitelist_admits(self.whitelist.cidr@, *ip));
                    return true;
                }
            }
            i = i + 1;
        }
        false
    }

    /// The number of rules.
    pub fn rule_count(&self) -> (r: usize)
        ensures
            r == self.rules@.len(),
    {
        self.rules.len()
    }

    /// The number of whitelist entries.
    pub fn whitelist_count(&self) -> (r: usize)
        ensures
            r == self.whitelist.cidr@.len(),
    {
        self.whitelist.cidr.len()
    }

    /// Checks the configuration: a positive worker count, a table name and a
    /// positive poll interval; whitelist entries that parse as networks;
    /// rules with a name, protocol `tcp` or `udp`, type `ip` or `cidr` (in any
    /// case), both prefixes for a `cidr` rule, prefixes that fit their family
    /// (IPv4 1 to 32, IPv6 at most 128), and positive window, threshold and
    /// duration; positive memory limits. The first failure is returned.
    pub fn validate(&self) -> (r: Result<(), Error>)
        ensures
            match (r, config_refusal(*self)) {
                (Ok(()), None) => true,
                (Err(e), Some(f)) => e.view() == f,
                _ => false,
            },
    {
        if self.global.worker_count == 0 {
            return Err(Error::Validation("worker_count must be > 0".to_owned()));
        }
        if self.global.nft_table.as_str().unicode_len() == 0 {
            return Err(Error::Validation("nft_table must not be empty".to_owned()));
        }
        if self.global.poll_interval_ms == 0 {
            return Err(Error::Validation("poll_interval_ms must be > 0".to_owned()));
        }
        let cidrs = &self.whitelist.cidr;
        let mut i: usize = 0;
        while i < cidrs.len()
            invariant
                i <= cidrs@.len(),
                whitelist_refusal(cidrs@, i as nat) is None,
                global_refusal(self.global) is None,
                cidrs@ == self.whitelist.cidr@,
            decreases cidrs@.len() - i,
        {
            if parse_cidr(cidrs[i].as_str()).is_none() {
                let mut m = "whitelist[".to_owned();
                let n = usize_to_text(i);
                m.append(n.as_str());
                m.append("]: '");
                m.append(cidrs[i].as_str());
                m.append("' is not a valid CIDR");
                proof {
                    assert(global_refusal(self.global) is None);
                    assert(whitelist_refusal(cidrs@, (i + 1) as nat) == Some(m@));
                    lemma_whitelist_refusal_stays(cidrs@, (i + 1) as nat, cidrs@.len());
                    assert(config_refusal(*self) == Some(Refusal::InvalidCidr(m@)));
                }
                return Err(Error::InvalidCidr(m));
            }
            i = i + 1;
        }
        let rules = &self.rules;
        let mut k: usize = 0;
        while k < rules.len()
            invariant
                k <= rules@.len(),
                rules_refusal(rules@, k as nat) is None,
                whitelist_refusal(cidrs@, cidrs@.len()) is None,
                global_refusal(self.global) is None,
                cidrs@ == self.whitelist.cidr@,
                rules@ == self.rules@,
            decreases rules@.len() - k,
        {
            if let Some(m) = check_rule(&rules[k], k) {
                proof {
                    assert(global_refusal(self.global) is None);
                    assert(rules_refusal(rules@, (k + 1) as nat) == Some(m@));
                    lemma_rules_refusal_stays(rules@, (k + 1) as nat, rules@.len());
                    assert(config_refusal(*self) == Some(Refusal::Validation(m@)));
                }
                return Err(Error::Validation(m));
            }
            k = k + 1;
        }
        if self.memory.max_entries == 0 {
            return Err(Error::Validation("max_entries must be > 0".to_owned()));
        }
        if self.memory.cleanup_interval == 0 {
            return Err(Error::Validation("cleanup_interval must be > 0".to_owned()));
        }
        Ok(())
    }
}

} // verus!

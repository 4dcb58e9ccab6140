//! Detection rules: which events a rule counts, and under which key.
use crate::config::RuleConfig;
use crate::event::NetworkEvent;
use crate::net::{mask_v4, mask_v6, masked, masked_exec, max_prefix, IpAddress, IpNetwork};
use crate::text::text_eq;
use vstd::prelude::*;

pub mod engine;
pub mod sliding_window;
pub mod state;


pub use engine::RuleEngine;
pub use sliding_window::SlidingWindow;
pub use state::RuleState;

verus! {

/// Why a rule is refused.
#[derive(Debug)]
pub enum Error {
    InvalidProtocol(String),
    InvalidRuleType(String),
    RuleNotFound(String),
    ChannelSend,
}

/// Whether a rule counts events per address or per network.
#[derive(Debug, Clone, Copy, PartialEq, Eq, Hash, Structural)]
pub enum RuleType {
    Ip,
    Cidr,
}

/// What a rule's counter is kept for: an address, or the network around it.
#[derive(Debug, Clone, Copy, PartialEq, Eq, Hash, Structural)]
pub enum RuleKey {
    Ip(IpAddress),
    Cidr(IpNetwork),
}

/// A detection rule: events of `protocol` (to one of `ports`, when given)
/// are counted over `window_secs`; reaching `threshold` bans for
/// `block_duration` seconds.
#[derive(Debug, Clone)]
pub struct Rule {
    pub name: String,
    pub protocol: u8,
    pub ports: Option<Vec<u16>>,
    pub rule_type: RuleType,
    pub window_secs: u32,
    pub threshold: u32,
    pub block_duration: u32,
    pub ipv4_prefix: u8,
    pub ipv6_prefix: u8,
}

/// A rule as the contracts speak of it.
pub struct RuleView {
    pub name: Seq<char>,
    pub protocol: u8,
    pub ports: Option<Seq<u16>>,
    pub rule_type: RuleType,
    pub window_secs: u32,
    pub threshold: u32,
    pub block_duration: u32,
    pub ipv4_prefix: u8,
    pub ipv6_prefix: u8,
}

/// The ports of a rule or of its configuration, as a sequence.
pub open spec fn ports_view(p: Option<Vec<u16>>) -> Option<Seq<u16>> {
    match p {
        Some(v) => Some(v@),
        None => None,
    }
}

/// The protocol number a configuration's protocol name stands for.
pub open spec fn protocol_number(name: Seq<char>) -> Option<u8> {
    if name == "tcp"@ {
        Some(6u8)
    } else if name == "udp"@ {
        Some(17u8)
    } else if name == "icmp"@ {
        Some(1u8)
    } else {
        None
    }
}

/// The rule type a configuration's type name stands for.
pub open spec fn rule_type_named(name: Seq<char>) -> Option<RuleType> {
    if name == "ip"@ {
        Some(RuleType::Ip)
    } else if name == "cidr"@ {
        Some(RuleType::Cidr)
    } else {
        None
    }
}

/// Whether a rule counts the event: the protocol is the rule's, and the
/// port is one of the rule's ports when it names any.
pub open spec fn rule_matches(r: RuleView, ev: NetworkEvent) -> bool {
    &&& ev.protocol == r.protocol
    &&& (r.ports matches Some(p) ==> p.contains(ev.dst_port))
}

/// The prefix length a rule uses for the address's family.
pub open spec fn prefix_for(r: RuleView, ip: IpAddress) -> u8 {
    match ip {
        IpAddress::V4(_) => r.ipv4_prefix,
        IpAddress::V6(_) => r.ipv6_prefix,
    }
}

/// The rule can build a network around the address: an IPv4 prefix between
/// 1 and 32, an IPv6 prefix of at most 128.
pub open spec fn cidr_prefix_ok(r: RuleView, ip: IpAddress) -> bool {
    match ip {
        IpAddress::V4(_) => 1 <= r.ipv4_prefix <= 32,
        IpAddress::V6(_) => r.ipv6_prefix <= 128,
    }
}

/// The network of the rule's prefix length around the address, truncated.
pub open spec fn cidr_of(r: RuleView, ip: IpAddress) -> IpNetwork {
    IpNetwork { addr: masked(ip, prefix_for(r, ip)), prefix_len: prefix_for(r, ip) }
}

/// The key under which a rule counts events from the address.
pub open spec fn key_of(r: RuleView, ip: IpAddress) -> RuleKey {
    match r.rule_type {
        RuleType::Ip => RuleKey::Ip(ip),
        RuleType::Cidr => RuleKey::Cidr(cidr_of(r, ip)),
    }
}

/// The rule can key the address: a per-address rule always, a per-network
/// rule when its prefix for the family is usable.
pub open spec fn key_ok(r: RuleView, ip: IpAddress) -> bool {
    r.rule_type == RuleType::Cidr ==> cidr_prefix_ok(r, ip)
}


/// A rule configuration names a known protocol and rule type.
pub open spec fn config_accepted(c: RuleConfig) -> bool {
    protocol_number(c.protocol@) is Some && rule_type_named(c.rule_type@) is Some
}

/// The rule is the one the configuration describes: its protocol and type
/// by name, the same name, ports, window, threshold and duration, and the
/// prefixes given or 24 (IPv4) and 64 (IPv6).
pub open spec fn built_from(rule: RuleView, c: RuleConfig) -> bool {
    &&& Some(rule.protocol) == protocol_number(c.protocol@)
    &&& Some(rule.rule_type) == rule_type_named(c.rule_type@)
    &&& rule.name == c.name@
    &&& rule.ports == ports_view(c.ports)
    &&& rule.window_secs == c.window_secs
    &&& rule.threshold == c.threshold
    &&& rule.block_duration == c.block_duration
    &&& rule.ipv4_prefix == (match c.ipv4_prefix {
        Some(p) => p,
        None => 24u8,
    })
    &&& rule.ipv6_prefix == (match c.ipv6_prefix {
        Some(p) => p,
        None => 64u8,
    })
}

/// The refusal of a configuration: an unknown protocol is reported first,
/// with the protocol's name; else the unknown type, with its name.
pub open spec fn refused_for(e: Error, c: RuleConfig) -> bool {
    if protocol_number(c.protocol@) is None {
        e matches Error::InvalidProtocol(s) && s@ == c.protocol@
    } else {
        e matches Error::InvalidRuleType(s) && s@ == c.rule_type@
    }
}

/// The rules of the configurations, in order; the refusal of the first
/// configuration that is refused.
pub fn rules_from_configs(configs: &Vec<RuleConfig>) -> (r: Result<Vec<Rule>, Error>)
    ensures
        r is Ok <==> forall|i: int| 0 <= i < configs@.len() ==> config_accepted(#[trigger] configs@[i]),
        r matches Ok(rules) ==> rules@.len() == configs@.len() && forall|i: int|
            0 <= i < configs@.len() ==> built_from(#[trigger] rules@[i].view(), configs@[i]),
        r matches Err(e) ==> exists|i: int|
            0 <= i < configs@.len() && !config_accepted(#[trigger] configs@[i]) && refused_for(e, configs@[i])
                && forall|j: int| 0 <= j < i ==> config_accepted(#[trigger] configs@[j]),
{
    let mut rules: Vec<Rule> = Vec::new();
    let mut i: usize = 0;
    while i < configs.len()
        invariant
            i <= configs@.len(),
            rules@.len() == i,
            forall|j: int| 0 <= j < i ==> config_accepted(#[trigger] configs@[j]),
            forall|j: int| 0 <= j < i ==> built_from(#[trigger] rules@[j].view(), configs@[j]),
        decreases configs@.len() - i,
    {
        match Rule::from_config(&configs[i]) {
            Ok(rule) => {
                rules.push(rule);
            },
            Err(e) => {
                return Err(e);
            },
        }
        i = i + 1;
    }
    Ok(rules)
}

impl Rule {
    pub open spec fn view(&self) -> RuleView {
        RuleView {
            name: self.name@,
            protocol: self.protocol,
            ports: ports_view(self.ports),
            rule_type: self.rule_type,
            window_secs: self.window_secs,
            threshold: self.threshold,
            block_duration: self.block_duration,
            ipv4_prefix: self.ipv4_prefix,
            ipv6_prefix: self.ipv6_prefix,
        }
    }

    /// The rule a configuration describes. The protocol must be `tcp`,
    /// `udp` or `icmp` and the type `ip` or `cidr`, spelled exactly so;
    /// prefixes default to 24 (IPv4) and 64 (IPv6).
    pub fn from_config(config: &RuleConfig) -> (r: Result<Self, Error>)
        ensures
            r is Ok <==> config_accepted(*config),
            r matches Ok(rule) ==> built_from(rule.view(), *config),
            r matches Err(e) ==> refused_for(e, *config),
    {
        let p = config.protocol.as_str();
        let protocol: u8 = if text_eq(p, "tcp") {
            6
        } else if text_eq(p, "udp") {
            17
        } else if text_eq(p, "icmp") {
            1
        } else {
            return Err(Error::InvalidProtocol(config.protocol.clone()));
        };
        let t = config.rule_type.as_str();
        let rule_type = if text_eq(t, "ip") {
            RuleType::Ip
        } else if text_eq(t, "cidr") {
            RuleType::Cidr
        } else {
            return Err(Error::InvalidRuleType(config.rule_type.clone()));
        };
        let ports = match &config.ports {
            Some(v) => Some(v.clone()),
            None => None,
        };
        let ipv4_prefix = match config.ipv4_prefix {
            Some(v) => v,
            None => 24,
        };
        let ipv6_prefix = match config.ipv6_prefix {
            Some(v) => v,
            None => 64,
        };
        Ok(Rule {
            name: config.name.clone(),
            protocol,
            ports,
            rule_type,
            window_secs: config.window_secs,
            threshold: config.threshold,
            block_duration: config.block_duration,
            ipv4_prefix,
            ipv6_prefix,
        })
    }

    /// Whether the rule counts the event.
    pub fn matches(&self, event: &NetworkEvent) -> (r: bool)
        ensures
            r == rule_matches(self.view(), *event),
    {
        if event.protocol != self.protocol {
            return false;
        }
        match &self.ports {
            Some(ports) => {
                let mut i: usize = 0;
                while i < ports.len()
                    invariant
                        i <= ports@.len(),
                        forall|j: int| 0 <= j < i ==> ports@[j] != event.dst_port,
                        ports_view(self.ports) == Some(ports@),
                        event.protocol == self.protocol,
                    decreases ports@.len() - i,
                {
                    if ports[i] == event.dst_port {
                        assert(ports@[i as int] == event.dst_port);
                        assert(ports@.contains(event.dst_port));
                        return true;
                    }
                    i = i + 1;
                }
                false
            },
            None => true,
        }
    }

    /// The key under which the rule counts events from `ip`.
    pub fn get_key(&self, ip: &IpAddress) -> (k: RuleKey)
        requires
            key_ok(self.view(), *ip),
        ensures
            k == key_of(self.view(), *ip),
    {
        match self.rule_type {
            RuleType::Ip => RuleKey::Ip(*ip),
            RuleType::Cidr => RuleKey::Cidr(self.get_cidr(ip)),
        }
    }

    /// The network of the rule's prefix length around `ip`.
    pub fn get_cidr(&self, ip: &IpAddress) -> (n: IpNetwork)
        requires
            cidr_prefix_ok(self.view(), *ip),
        ensures
            n == cidr_of(self.view(), *ip),
            n.valid(),
    {
        let prefix = match ip {
            IpAddress::V4(_) => self.ipv4_prefix,
            IpAddress::V6(_) => self.ipv6_prefix,
        };
        IpNetwork { addr: masked_exec(ip, prefix), prefix_len: prefix }
    }
}

/// A rule counts events of its own protocol only. Without a port list it
/// counts every such event; with one, it counts an event exactly when the
/// event's destination port stands somewhere in the list, at any position.
pub proof fn lemma_rule_matches_listed_ports(r: RuleView, ev: NetworkEvent)
    ensures
        ev.protocol != r.protocol ==> !rule_matches(r, ev),
        ev.protocol == r.protocol && r.ports is None ==> rule_matches(r, ev),
        forall|p: Seq<u16>, i: int|
            ev.protocol == r.protocol && r.ports == Some(p) && 0 <= i < p.len() && #[trigger] p[i]
                == ev.dst_port ==> rule_matches(r, ev),
        forall|p: Seq<u16>|
            r.ports == Some(p) && (forall|i: int| 0 <= i < p.len() ==> #[trigger] p[i] != ev.dst_port)
                ==> !rule_matches(r, ev),
{
    assert forall|p: Seq<u16>, i: int|
        ev.protocol == r.protocol && r.ports == Some(p) && 0 <= i < p.len() && #[trigger] p[i]
            == ev.dst_port implies rule_matches(r, ev) by {
        assert(p.contains(ev.dst_port));
    }
}

/// A per-address rule keys every address by itself: two addresses share a
/// key exactly when they are the same address.
pub proof fn lemma_ip_key_is_the_address(r: RuleView, a: IpAddress, b: IpAddress)
    requires
        r.rule_type == RuleType::Ip,
    ensures
        (key_of(r, a) == key_of(r, b)) <==> a == b,
{
}

/// The network a per-network rule builds around an address has the rule's
/// prefix length for the address's family, keeps the address's first
/// `prefix` bits and clears all the others.
pub proof fn lemma_cidr_keeps_leading_bits(r: RuleView, ip: IpAddress)
    requires
        cidr_prefix_ok(r, ip),
    ensures
        cidr_of(r, ip).prefix_len == (match ip {
            IpAddress::V4(_) => r.ipv4_prefix,
            IpAddress::V6(_) => r.ipv6_prefix,
        }),
        ip matches IpAddress::V4(a) ==> cidr_of(r, ip).addr == IpAddress::V4(
            ((a >> (32 - r.ipv4_prefix) as u32) << (32 - r.ipv4_prefix) as u32) as u32,
        ),
        ip matches IpAddress::V6(a) ==> (r.ipv6_prefix == 0 ==> cidr_of(r, ip).addr == IpAddress::V6(0))
            && (r.ipv6_prefix > 0 ==> cidr_of(r, ip).addr == IpAddress::V6(
            ((a >> (128 - r.ipv6_prefix) as u32) << (128 - r.ipv6_prefix) as u32) as u128,
        )),
{
    match ip {
        IpAddress::V4(a) => {
            let sh: u32 = (32 - r.ipv4_prefix) as u32;
            assert(a & (0xffff_ffffu32 << sh) == (a >> sh) << sh) by (bit_vector)
                requires
                    sh < 32,
            ;
            assert(u32::MAX == 0xffff_ffffu32);
        },
        IpAddress::V6(a) => {
            if r.ipv6_prefix == 0 {
                assert(a & 0u128 == 0u128) by (bit_vector);
            } else {
                let sh: u32 = (128 - r.ipv6_prefix) as u32;
                assert(a & (0xffff_ffff_ffff_ffff_ffff_ffff_ffff_ffffu128 << sh) == (a >> sh) << sh)
                    by (bit_vector)
                    requires
                        sh < 128,
                ;
                assert(u128::MAX == 0xffff_ffff_ffff_ffff_ffff_ffff_ffff_ffffu128);
            }
        },
    }
}

/// A per-network rule built from a configuration that gives no prefixes
/// groups IPv4 sources by their first 24 bits and IPv6 sources by their
/// first 64: two sources share its key exactly when those bits agree.
pub proof fn lemma_default_prefixes_group_sources(
    rule: RuleView,
    c: RuleConfig,
    a: u32,
    b: u32,
    x: u128,
    y: u128,
)
    requires
        built_from(rule, c),
        rule.rule_type == RuleType::Cidr,
        c.ipv4_prefix is None,
        c.ipv6_prefix is None,
    ensures
        (key_of(rule, IpAddress::V4(a)) == key_of(rule, IpAddress::V4(b))) <==> (a >> 8u32) == (b
            >> 8u32),
        (key_of(rule, IpAddress::V6(x)) == key_of(rule, IpAddress::V6(y))) <==> (x >> 64u32) == (y
            >> 64u32),
{
    assert(rule.ipv4_prefix == 24);
    assert(rule.ipv6_prefix == 64);
    assert(mask_v4(24) == u32::MAX << 8u32);
    assert(mask_v6(64) == u128::MAX << 64u32);
    assert(u32::MAX == 0xffff_ffffu32);
    assert(u128::MAX == 0xffff_ffff_ffff_ffff_ffff_ffff_ffff_ffffu128);
    assert(0xffff_ffffu32 << 8u32 == 0xffff_ff00u32) by (bit_vector);
    assert(0xffff_ffff_ffff_ffff_ffff_ffff_ffff_ffffu128 << 64u32
        == 0xffff_ffff_ffff_ffff_0000_0000_0000_0000u128) by (bit_vector);
    assert((a & 0xffff_ff00u32) == (b & 0xffff_ff00u32) <==> (a >> 8u32) == (b >> 8u32))
        by (bit_vector);
    assert((x & 0xffff_ffff_ffff_ffff_0000_0000_0000_0000u128) == (y
        & 0xffff_ffff_ffff_ffff_0000_0000_0000_0000u128) <==> (x >> 64u32) == (y >> 64u32))
        by (bit_vector);
}

/// A rule built from a configuration counts events of the configured
/// protocol's IANA number: TCP (6) for `tcp`, UDP (17) for `udp`, ICMP (1)
/// for `icmp`; an event of any other protocol number is never counted.
pub proof fn lemma_configured_protocol_matches(rule: RuleView, c: RuleConfig, ev: NetworkEvent)
    requires
        built_from(rule, c),
    ensures
        c.protocol@ == "tcp"@ ==> (rule_matches(rule, ev) ==> ev.protocol == 6),
        c.protocol@ == "udp"@ ==> (rule_matches(rule, ev) ==> ev.protocol == 17),
        c.protocol@ == "icmp"@ ==> (rule_matches(rule, ev) ==> ev.protocol == 1),
        c.protocol@ == "tcp"@ && c.ports is None && ev.protocol == 6 ==> rule_matches(rule, ev),
        c.protocol@ == "udp"@ && c.ports is None && ev.protocol == 17 ==> rule_matches(rule, ev),
{
    reveal_strlit("tcp");
    reveal_strlit("udp");
    reveal_strlit("icmp");
    assert("udp"@[0] != "tcp"@[0]);
    assert("icmp"@.len() != "tcp"@.len() && "icmp"@.len() != "udp"@.len());
}

/// A network key holds every address the rule truncates to it: two addresses
/// share a per-network key exactly when they truncate to the same network,
/// and the network contains the address it was built from.
pub proof fn lemma_cidr_key_groups(r: RuleView, a: IpAddress, b: IpAddress)
    requires
        r.rule_type == RuleType::Cidr,
        cidr_prefix_ok(r, a),
        cidr_prefix_ok(r, b),
        a.is_v4() == b.is_v4(),
    ensures
        cidr_of(r, a).spec_contains(a),
        (key_of(r, a) == key_of(r, b)) <==> cidr_of(r, a).spec_contains(b),
{
    crate::net::lemma_truncated_network_contains(a, b, prefix_for(r, a));
}

} // verus!

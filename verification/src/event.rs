//! The events the collector reports and the bans the rule engine decides.
use crate::net::{IpAddress, IpNetwork};
use crate::text::{ip_text, ip_to_string, network_text, network_to_string};
use vstd::prelude::*;

verus! {

/// Address family number of IPv4.
pub const AF_INET: u8 = 2;

/// Address family number of IPv6.
pub const AF_INET6: u8 = 10;

/// Protocol number of TCP.
pub const IPPROTO_TCP: u8 = 6;

/// Protocol number of UDP.
pub const IPPROTO_UDP: u8 = 17;

/// A connection attempt seen on the host.
#[derive(Debug, Clone, Copy, PartialEq, Eq, Hash, Structural)]
pub struct NetworkEvent {
    /// Address family (2 = IPv4, 10 = IPv6).
    pub family: u8,
    pub src_ip: IpAddress,
    pub dst_port: u16,
    /// Protocol number (6 = TCP, 17 = UDP).
    pub protocol: u8,
    /// Time stamp in nanoseconds.
    pub timestamp: u64,
}

impl NetworkEvent {
    /// A new event with the given fields.
    pub fn new(family: u8, src_ip: IpAddress, dst_port: u16, protocol: u8, timestamp: u64) -> (e:
        Self)
        ensures
            e == (NetworkEvent { family, src_ip, dst_port, protocol, timestamp }),
    {
        NetworkEvent { family, src_ip, dst_port, protocol, timestamp }
    }

    /// Whether the event's family is IPv4.
    pub fn is_ipv4(&self) -> (r: bool)
        ensures
            r == (self.family == AF_INET),
    {
        self.family == AF_INET
    }

    /// Whether the event's family is IPv6.
    pub fn is_ipv6(&self) -> (r: bool)
        ensures
            r == (self.family == AF_INET6),
    {
        self.family == AF_INET6
    }

    /// The source address if it is an IPv4 address.
    pub fn ipv4(&self) -> (r: Option<u32>)
        ensures
            r == (match self.src_ip {
                IpAddress::V4(a) => Some(a),
                IpAddress::V6(_) => None::<u32>,
            }),
    {
        match self.src_ip {
            IpAddress::V4(a) => Some(a),
            IpAddress::V6(_) => None,
        }
    }

    /// The source address if it is an IPv6 address.
    pub fn ipv6(&self) -> (r: Option<u128>)
        ensures
            r == (match self.src_ip {
                IpAddress::V6(a) => Some(a),
                IpAddress::V4(_) => None::<u128>,
            }),
    {
        match self.src_ip {
            IpAddress::V6(a) => Some(a),
            IpAddress::V4(_) => None,
        }
    }

    /// Whether the event's protocol is TCP.
    pub fn is_tcp(&self) -> (r: bool)
        ensures
            r == (self.protocol == IPPROTO_TCP),
    {
        self.protocol == IPPROTO_TCP
    }

    /// Whether the event's protocol is UDP.
    pub fn is_udp(&self) -> (r: bool)
        ensures
            r == (self.protocol == IPPROTO_UDP),
    {
        self.protocol == IPPROTO_UDP
    }
}

/// A ban to apply: the address that triggered it, the rule, how long, why,
/// and the network to ban when the rule bans networks.
#[derive(Debug, Clone, PartialEq, Eq)]
pub struct BanAction {
    pub src_ip: IpAddress,
    pub rule_name: String,
    /// Seconds.
    pub duration: u32,
    pub reason: String,
    pub cidr: Option<IpNetwork>,
}

/// A ban as the contracts speak of it.
pub struct BanView {
    pub src_ip: IpAddress,
    pub rule_name: Seq<char>,
    pub duration: u32,
    pub reason: Seq<char>,
    pub cidr: Option<IpNetwork>,
}

/// The text of a ban's target: its network when it bans one, else its address.
pub open spec fn target_text(b: BanView) -> Seq<char> {
    match b.cidr {
        Some(net) => network_text(net),
        None => ip_text(b.src_ip),
    }
}

impl BanAction {
    pub open spec fn view(&self) -> BanView {
        BanView {
            src_ip: self.src_ip,
            rule_name: self.rule_name@,
            duration: self.duration,
            reason: self.reason@,
            cidr: self.cidr,
        }
    }

    /// A copy of the ban, field for field.
    pub fn duplicate(&self) -> (r: Self)
        ensures
            r == *self,
    {
        BanAction {
            src_ip: self.src_ip,
            rule_name: self.rule_name.clone(),
            duration: self.duration,
            reason: self.reason.clone(),
            cidr: self.cidr,
        }
    }

    /// A ban of a single address.
    pub fn new(src_ip: IpAddress, rule_name: String, duration: u32, reason: String) -> (b: Self)
        ensures
            b.src_ip == src_ip,
            b.rule_name == rule_name,
            b.duration == duration,
            b.reason == reason,
            b.cidr.is_none(),
    {
        BanAction { src_ip, rule_name, duration, reason, cidr: None }
    }

    /// A ban of the network `cidr`, triggered by `src_ip`.
    pub fn new_cidr(
        src_ip: IpAddress,
        rule_name: String,
        duration: u32,
        reason: String,
        cidr: IpNetwork,
    ) -> (b: Self)
        ensures
            b.src_ip == src_ip,
            b.rule_name == rule_name,
            b.duration == duration,
            b.reason == reason,
            b.cidr == Some(cidr),
    {
        BanAction { src_ip, rule_name, duration, reason, cidr: Some(cidr) }
    }

    /// Whether the ban is of a network.
    pub fn is_cidr_ban(&self) -> (r: bool)
        ensures
            r == self.cidr.is_some(),
    {
        self.cidr.is_some()
    }

    /// The text of what is banned: the network, or else the address.
    pub fn get_target(&self) -> (r: String)
        requires
            self.cidr matches Some(n) ==> n.valid(),
        ensures
            r@ == target_text(self.view()),
    {
        match &self.cidr {
            Some(cidr) => network_to_string(cidr),
            None => ip_to_string(&self.src_ip),
        }
    }
}

} // verus!

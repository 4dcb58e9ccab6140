//! What the collector reads from its sources, and how a source is chosen.
use crate::event::{NetworkEvent, AF_INET, AF_INET6};
use crate::net::{be_value, u64_from_be_octets, IpAddress};
use crate::xdp::{host_is_little_endian, ne16};
use crate::text::{ascii_lower, is_ascii_text, lowercase_text, text_eq, to_lowercase};
use vstd::prelude::*;

verus! {

/// An event as the kernel program writes it: the address in 16 bytes (an
/// IPv4 address in the first four), the port in network byte order.
#[derive(Debug, Copy, Clone, PartialEq)]
pub struct NetworkEventRaw {
    pub family: u8,
    pub src_ip: [u8; 16],
    pub dst_port: u16,
    pub protocol: u8,
    pub _pad: u8,
    pub timestamp: u64,
}

/// The 16-bit value with its two bytes exchanged.
pub open spec fn swap16(x: u16) -> u16 {
    (((x & 0xff) << 8u16) | (x >> 8u16)) as u16
}

/// The address a raw event carries: IPv4 from the first four bytes when the
/// family is IPv4, else IPv6 from all sixteen.
pub open spec fn raw_address(family: u8, bytes: Seq<u8>) -> IpAddress {
    if family == AF_INET {
        IpAddress::V4(be_value(bytes.take(4)) as u32)
    } else {
        IpAddress::V6(be_value(bytes) as u128)
    }
}

impl NetworkEventRaw {
    /// A raw event with the given fields and zero padding.
    pub fn new(family: u8, src_ip: [u8; 16], dst_port: u16, protocol: u8, timestamp: u64) -> (r:
        Self)
        ensures
            r.family == family,
            r.src_ip == src_ip,
            r.dst_port == dst_port,
            r.protocol == protocol,
            r._pad == 0,
            r.timestamp == timestamp,
    {
        NetworkEventRaw { family, src_ip, dst_port, protocol, _pad: 0, timestamp }
    }

    /// The event this raw event describes, on a host of the given byte
    /// order: the port, written in network byte order, is read in the
    /// host's order (its bytes exchanged on a little-endian host).
    pub fn to_network_event_in(&self, little: bool) -> (e: NetworkEvent)
        ensures
            e.family == self.family,
            e.src_ip == raw_address(self.family, self.src_ip@),
            e.dst_port == (if little {
                swap16(self.dst_port)
            } else {
                self.dst_port
            }),
            e.protocol == self.protocol,
            e.timestamp == self.timestamp,
    {
        let src_ip = if self.family == AF_INET {
            let b = self.src_ip;
            let v4 = IpAddress::from_v4_octets([b[0], b[1], b[2], b[3]]);
            proof {
                let o: [u8; 4] = [b[0], b[1], b[2], b[3]];
                assert(o@ =~= self.src_ip@.take(4));
            }
            v4
        } else {
            IpAddress::from_v6_octets(self.src_ip)
        };
        let x = self.dst_port;
        let port: u16 = if little {
            ((x & 0xff) << 8u16) | (x >> 8u16)
        } else {
            x
        };
        NetworkEvent::new(self.family, src_ip, port, self.protocol, self.timestamp)
    }

    /// The event this raw event describes, on this host.
    pub fn to_network_event(&self) -> (e: NetworkEvent)
        ensures
            e == self.to_network_event_spec(true) || e == self.to_network_event_spec(false),
    {
        let little = host_is_little_endian();
        self.to_network_event_in(little)
    }

    /// The event this raw event describes on a host of the given byte order.
    pub open spec fn to_network_event_spec(&self, little: bool) -> NetworkEvent {
        NetworkEvent {
            family: self.family,
            src_ip: raw_address(self.family, self.src_ip@),
            dst_port: if little {
                swap16(self.dst_port)
            } else {
                self.dst_port
            },
            protocol: self.protocol,
            timestamp: self.timestamp,
        }
    }

    /// Whether the family is IPv4.
    pub fn is_ipv4(&self) -> (r: bool)
        ensures
            r == (self.family == AF_INET),
    {
        self.family == AF_INET
    }

    /// Whether the family is IPv6.
    pub fn is_ipv6(&self) -> (r: bool)
        ensures
            r == (self.family == AF_INET6),
    {
        self.family == AF_INET6
    }
}

/// The size of a raw event as the kernel program lays it out (C layout:
/// family at 0, the address at 1, the port at 18, the protocol at 20, the
/// padding byte at 21, the time stamp at 24).
pub const RAW_EVENT_SIZE: usize = 32;

/// The raw event laid out at `off` in `p`, its multi-byte fields in the
/// host's byte order.
pub open spec fn raw_event_at(e: NetworkEventRaw, p: Seq<u8>, off: int, little: bool) -> bool {
    &&& e.family == p[off]
    &&& e.src_ip@ == p.subrange(off + 1, off + 17)
    &&& e.dst_port == ne16(little, p[off + 18], p[off + 19])
    &&& e.protocol == p[off + 20]
    &&& e._pad == p[off + 21]
    &&& e.timestamp == (if little {
        be_value(p.subrange(off + 24, off + 32).reverse())
    } else {
        be_value(p.subrange(off + 24, off + 32))
    })
}

/// Reads the raw event laid out at `off` in `p`, in the given byte order.
pub fn decode_raw_event(p: &[u8], off: usize, little: bool) -> (e: NetworkEventRaw)
    requires
        off + RAW_EVENT_SIZE <= p.len(),
    ensures
        raw_event_at(e, p@, off as int, little),
{
    let mut src_ip = [0u8; 16];
    let mut i: usize = 0;
    while i < 16
        invariant
            i <= 16,
            off + RAW_EVENT_SIZE <= p.len(),
            forall|j: int| 0 <= j < i ==> src_ip@[j] == p@[off + 1 + j],
        decreases 16 - i,
    {
        src_ip[i] = p[off + 1 + i];
        i = i + 1;
    }
    assert(src_ip@ =~= p@.subrange(off + 1, off + 17));
    let dst_port: u16 = if little {
        (p[off + 19] as u16) * 256 + (p[off + 18] as u16)
    } else {
        (p[off + 18] as u16) * 256 + (p[off + 19] as u16)
    };
    let t = off + 24;
    let stamp: [u8; 8] = if little {
        [p[t + 7], p[t + 6], p[t + 5], p[t + 4], p[t + 3], p[t + 2], p[t + 1], p[t]]
    } else {
        [p[t], p[t + 1], p[t + 2], p[t + 3], p[t + 4], p[t + 5], p[t + 6], p[t + 7]]
    };
    proof {
        if little {
            assert(stamp@ =~= p@.subrange(off + 24, off + 32).reverse());
        } else {
            assert(stamp@ =~= p@.subrange(off + 24, off + 32));
        }
    }
    let timestamp = u64_from_be_octets(stamp);
    NetworkEventRaw {
        family: p[off],
        src_ip,
        dst_port,
        protocol: p[off + 20],
        _pad: p[off + 21],
        timestamp,
    }
}

/// The offsets at which the readers of the kernel program's events take
/// events after a read that reports `read` events: each multiple of the
/// event size whose event ends within `read`, the count compared as a
/// length in bytes.
pub fn raw_event_offsets(read: usize) -> (r: Vec<usize>)
    ensures
        r@.len() == read / RAW_EVENT_SIZE,
        forall|i: int| 0 <= i < r@.len() ==> r@[i] == i * RAW_EVENT_SIZE,
        forall|i: int| 0 <= i < r@.len() ==> #[trigger] r@[i] + RAW_EVENT_SIZE <= read,
{
    let mut r: Vec<usize> = Vec::new();
    let n = read / RAW_EVENT_SIZE;
    let mut i: usize = 0;
    while i < n
        invariant
            n == read / RAW_EVENT_SIZE,
            i <= n,
            r@.len() == i,
            forall|j: int| 0 <= j < i ==> r@[j] == j * RAW_EVENT_SIZE,
        decreases n - i,
    {
        assert(i * RAW_EVENT_SIZE + RAW_EVENT_SIZE <= read) by (nonlinear_arith)
            requires
                i < n,
                n == read / 32,
        ;
        r.push(i * RAW_EVENT_SIZE);
        i = i + 1;
    }
    assert forall|j: int| 0 <= j < r@.len() implies #[trigger] r@[j] + RAW_EVENT_SIZE <= read by {
        assert(j * 32 + 32 <= read) by (nonlinear_arith)
            requires
                0 <= j < n,
                n == read / 32,
        ;
    }
    r
}

/// Where events come from: the kernel program, polling `/proc/net`, or both.
#[derive(Debug, Clone, Copy, PartialEq, Eq, Structural)]
pub enum EventSourceType {
    Ebpf,
    ProcNet,
    Hybrid,
}

/// The source type a name stands for, compared in lowercase.
pub open spec fn source_type_named(name: Seq<char>) -> Option<EventSourceType> {
    let l = lowercase_text(name);
    if l == "ebpf"@ {
        Some(EventSourceType::Ebpf)
    } else if l == "procnet"@ {
        Some(EventSourceType::ProcNet)
    } else if l == "hybrid"@ {
        Some(EventSourceType::Hybrid)
    } else {
        None
    }
}

/// The name of a source type.
pub open spec fn source_type_name(t: EventSourceType) -> Seq<char> {
    match t {
        EventSourceType::Ebpf => "ebpf"@,
        EventSourceType::ProcNet => "procnet"@,
        EventSourceType::Hybrid => "hybrid"@,
    }
}

/// Each type's name is ASCII text in lowercase, so parsing it in any case
/// gives the type back.
pub proof fn lemma_source_type_names_are_lowercase(t: EventSourceType)
    ensures
        is_ascii_text(source_type_name(t)),
        ascii_lower(source_type_name(t)) == source_type_name(t),
{
    reveal_strlit("ebpf");
    reveal_strlit("procnet");
    reveal_strlit("hybrid");
    let n = source_type_name(t);
    assert(ascii_lower(n) =~= n);
}

impl EventSourceType {
    /// The source type named `s` (in any case), or the message
    /// `Invalid event source type: <s>`. An ASCII text whose lowercase is a
    /// type's name gives that type; so does the name itself.
    pub fn parse(s: &str) -> (r: Result<Self, String>)
        ensures
            match r {
                Ok(t) => source_type_named(s@) == Some(t),
                Err(m) => source_type_named(s@) is None && m@ == "Invalid event source type: "@
                    + s@,
            },
            forall|t: EventSourceType|
                is_ascii_text(s@) && ascii_lower(s@) == #[trigger] source_type_name(t) ==> r == Ok::<
                    EventSourceType,
                    String,
                >(t),
            forall|t: EventSourceType| s@ == #[trigger] source_type_name(t) ==> r == Ok::<
                EventSourceType,
                String,
            >(t),
    {
        let l = to_lowercase(s);
        proof {
            reveal_strlit("ebpf");
            reveal_strlit("procnet");
            reveal_strlit("hybrid");
            // The three names differ in length, so no text is two of them.
            assert("ebpf"@.len() == 4);
            assert("procnet"@.len() == 7);
            assert("hybrid"@.len() == 6);
            assert forall|t: EventSourceType| s@ == #[trigger] source_type_name(t) implies is_ascii_text(s@) && ascii_lower(s@) == source_type_name(t) by {
                lemma_source_type_names_are_lowercase(t);
            }
        }
        if text_eq(l.as_str(), "ebpf") {
            Ok(EventSourceType::Ebpf)
        } else if text_eq(l.as_str(), "procnet") {
            Ok(EventSourceType::ProcNet)
        } else if text_eq(l.as_str(), "hybrid") {
            Ok(EventSourceType::Hybrid)
        } else {
            let mut m = "Invalid event source type: ".to_owned();
            m.append(s);
            Err(m)
        }
    }

    /// The type's name: `ebpf`, `procnet` or `hybrid`.
    pub fn to_string(&self) -> (r: String)
        ensures
            r@ == source_type_name(*self),
    {
        match self {
            EventSourceType::Ebpf => "ebpf".to_owned(),
            EventSourceType::ProcNet => "procnet".to_owned(),
            EventSourceType::Hybrid => "hybrid".to_owned(),
        }
    }
}

impl std::str::FromStr for EventSourceType {
    type Err = String;

    fn from_str(s: &str) -> (r: Result<Self, String>)
        ensures
            match r {
                Ok(t) => source_type_named(s@) == Some(t),
                Err(m) => source_type_named(s@) is None && m@ == "Invalid event source type: "@
                    + s@,
            },
    {
        Self::parse(s)
    }
}

/// Why no event source can be built.
#[derive(Debug, Clone, Copy, PartialEq, Eq, Structural)]
pub enum BuildError {
    /// The kernel program is not part of this build.
    EbpfUnavailable,
}

/// The settings an event source is built from.
pub struct EventSourceBuilder {
    source_type: EventSourceType,
    interface: Option<String>,
    poll_interval_ms: u64,
}

impl EventSourceBuilder {
    pub closed spec fn spec_source_type(&self) -> EventSourceType {
        self.source_type
    }

    pub closed spec fn spec_interface(&self) -> Option<Seq<char>> {
        match self.interface {
            Some(s) => Some(s@),
            None => None,
        }
    }

    pub closed spec fn spec_poll_interval_ms(&self) -> u64 {
        self.poll_interval_ms
    }

    /// Settings for a source of the given type: no interface, a poll
    /// interval of 1000 ms.
    pub fn new(source_type: EventSourceType) -> (b: Self)
        ensures
            b.spec_source_type() == source_type,
            b.spec_interface() is None,
            b.spec_poll_interval_ms() == 1000,
    {
        EventSourceBuilder { source_type, interface: None, poll_interval_ms: 1000 }
    }

    /// The settings with the network interface set.
    pub fn interface(self, interface: &str) -> (b: Self)
        ensures
            b.spec_source_type() == self.spec_source_type(),
            b.spec_interface() == Some(interface@),
            b.spec_poll_interval_ms() == self.spec_poll_interval_ms(),
    {
        let mut b = self;
        b.interface = Some(interface.to_owned());
        b
    }

    /// The settings with the poll interval set.
    pub fn poll_interval_ms(self, interval: u64) -> (b: Self)
        ensures
            b.spec_source_type() == self.spec_source_type(),
            b.spec_interface() == self.spec_interface(),
            b.spec_poll_interval_ms() == interval,
    {
        let mut b = self;
        b.poll_interval_ms = interval;
        b
    }

    /// The source type.
    pub fn source_type(&self) -> (t: EventSourceType)
        ensures
            t == self.spec_source_type(),
    {
        self.source_type
    }

    /// The network interface, if set.
    pub fn interface_name(&self) -> (r: Option<&str>)
        ensures
            match r {
                Some(s) => self.spec_interface() == Some(s@),
                None => self.spec_interface() is None,
            },
    {
        match &self.interface {
            Some(s) => Some(s.as_str()),
            None => None,
        }
    }

    /// The poll interval in milliseconds.
    pub fn poll_interval(&self) -> (r: u64)
        ensures
            r == self.spec_poll_interval_ms(),
    {
        self.poll_interval_ms
    }

    /// What `build` makes of the settings in a build without the kernel
    /// program: a `/proc/net` source polling at the set interval for
    /// `procnet`, and for `hybrid`, which falls back to it; an error for
    /// `ebpf`.
    pub fn build_plan(&self) -> (r: Result<u64, BuildError>)
        ensures
            r == (match self.spec_source_type() {
                EventSourceType::Ebpf => Err(BuildError::EbpfUnavailable),
                _ => Ok(self.spec_poll_interval_ms()),
            }),
    {
        match self.source_type {
            EventSourceType::Ebpf => Err(BuildError::EbpfUnavailable),
            _ => Ok(self.poll_interval_ms),
        }
    }
}

} // verus!

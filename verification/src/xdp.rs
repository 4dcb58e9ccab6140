//! The decisions of the kernel's SYN filter: what a received frame is, and
//! what becomes of a segment that opens a TCP connection, given how many
//! such segments its source has sent before.
//!
//! The kernel program reads the frame's fields in the host's byte order;
//! the functions here take that order as a flag, so that what they compute
//! is the same on every machine.
use crate::collector::NetworkEventRaw;
use crate::event::{AF_INET, AF_INET6, IPPROTO_TCP};
use vstd::prelude::*;

verus! {

/// The Ethernet type of IPv4.
pub const ETH_P_IP: u16 = 0x0800;

/// The Ethernet type of IPv6.
pub const ETH_P_IPV6: u16 = 0x86DD;

/// The length of an Ethernet header.
pub const ETH_HDR_LEN: usize = 14;

/// The verdict that drops a frame.
pub const XDP_DROP: u32 = 1;

/// The verdict that lets a frame through.
pub const XDP_PASS: u32 = 2;

/// Opening segments a source may send; those past it are dropped.
pub const SYN_FLOOD_LIMIT: u32 = 1000;

/// `u16::from_ne_bytes` (std) on the bytes 1, 0: the value those bytes
/// have in the host's byte order, 1 on a little-endian host and 256 on a
/// big-endian one.
#[verifier::external_body]
fn byte_order_probe() -> (r: u16)
    ensures
        r == 1 || r == 256,
{
    u16::from_ne_bytes([1, 0])
}

/// Whether the host stores integers least significant byte first.
pub(crate) fn host_is_little_endian() -> bool {
    byte_order_probe() == 1
}

/// A 16-bit value stored most significant byte first.
pub open spec fn be16(a: u8, b: u8) -> int {
    a * 256 + b
}

/// A 16-bit value stored in the host's byte order.
pub open spec fn ne16(little: bool, a: u8, b: u8) -> int {
    if little {
        b * 256 + a
    } else {
        a * 256 + b
    }
}

/// The 32-bit value of the four bytes at `off`, in the host's byte order.
pub open spec fn ne32(little: bool, p: Seq<u8>, off: int) -> int {
    if little {
        p[off] + p[off + 1] * 256 + p[off + 2] * 65536 + p[off + 3] * 16777216
    } else {
        p[off] * 16777216 + p[off + 1] * 65536 + p[off + 2] * 256 + p[off + 3]
    }
}

/// The Ethernet type of a frame.
pub open spec fn eth_type(p: Seq<u8>) -> int {
    be16(p[12], p[13])
}

/// Whether the frame carries IPv4 or IPv6.
pub open spec fn is_ip(p: Seq<u8>) -> bool {
    eth_type(p) == ETH_P_IP || eth_type(p) == ETH_P_IPV6
}

/// Whether the frame carries IPv4.
pub open spec fn is_ipv4(p: Seq<u8>) -> bool {
    eth_type(p) == ETH_P_IP
}

/// How far the filter reads the IP header before it looks at the protocol:
/// to the IPv4 destination address, or to the end of the IPv6 source.
pub open spec fn ip_fields_end(p: Seq<u8>) -> int {
    if is_ipv4(p) {
        34
    } else {
        38
    }
}

/// The transport protocol of an IP frame.
pub open spec fn transport(p: Seq<u8>) -> u8 {
    if is_ipv4(p) {
        p[23]
    } else {
        p[20]
    }
}

/// Where the TCP header starts: after the IPv4 header of the length it
/// states (its low nibble, in words of four bytes), or after the fixed
/// IPv6 header.
pub open spec fn tcp_base(p: Seq<u8>) -> int {
    if is_ipv4(p) {
        14 + (p[14] % 16) * 4
    } else {
        54int
    }
}

/// The bytes of the TCP header that the filter reads (up to the flags) are
/// within the frame.
pub open spec fn tcp_readable(p: Seq<u8>) -> bool {
    tcp_base(p) + 14 <= p.len()
}

/// The key the filter counts a source under: the IPv4 source address read
/// in the host's byte order, and 0 for every IPv6 source.
pub open spec fn source_key(p: Seq<u8>, little: bool) -> int {
    if is_ipv4(p) {
        ne32(little, p, 26)
    } else {
        0
    }
}

/// The source address reported for a frame: for IPv4 the bytes of the
/// source address as the host read it, most significant first, then twelve
/// zeros; for IPv6 the sixteen bytes of the source address.
pub open spec fn source_bytes(p: Seq<u8>, little: bool) -> Seq<u8> {
    if is_ipv4(p) {
        let a = if little {
            seq![p[29], p[28], p[27], p[26]]
        } else {
            seq![p[26], p[27], p[28], p[29]]
        };
        a + Seq::new(12, |i: int| 0u8)
    } else {
        p.subrange(22, 38)
    }
}

/// The destination port reported for a segment, read in the host's byte
/// order.
pub open spec fn reported_port(p: Seq<u8>, little: bool) -> int {
    ne16(little, p[tcp_base(p) + 2], p[tcp_base(p) + 3])
}

/// Whether TCP flags open a connection: SYN without ACK.
pub open spec fn opens_connection(flags: u8) -> bool {
    (flags & 0x02u8) != 0 && (flags & 0x10u8) == 0
}

/// A segment opens a connection exactly when its SYN bit (0x02) is set and
/// its ACK bit (0x10) is clear, whatever its other flag bits (FIN, RST, PSH,
/// URG, ECE, CWR) are: setting or clearing any of those never changes it.
pub proof fn lemma_opening_reads_syn_and_ack_only(flags: u8, other: u8)
    ensures
        opens_connection(flags) == ((flags & 0x12u8) == 0x02u8),
        (other & 0x12u8) == 0 ==> opens_connection(flags | other) == opens_connection(flags),
        (other & 0x12u8) == 0 ==> opens_connection(flags & !other) == opens_connection(flags),
{
    assert(((flags & 0x02u8) != 0 && (flags & 0x10u8) == 0) == ((flags & 0x12u8) == 0x02u8))
        by (bit_vector);
    assert((other & 0x12u8) == 0 ==> ((flags | other) & 0x12u8) == (flags & 0x12u8))
        by (bit_vector);
    assert((other & 0x12u8) == 0 ==> ((flags & !other) & 0x12u8) == (flags & 0x12u8))
        by (bit_vector);
    assert(((flags | other) & 0x02u8 != 0 && (flags | other) & 0x10u8 == 0) == (((flags | other)
        & 0x12u8) == 0x02u8)) by (bit_vector);
    assert(((flags & !other) & 0x02u8 != 0 && (flags & !other) & 0x10u8 == 0) == (((flags
        & !other) & 0x12u8) == 0x02u8)) by (bit_vector);
}

/// What the filter makes of a frame.
#[derive(Debug, Clone, Copy)]
pub enum PacketClass {
    /// A field the filter reads lies past the end of the frame.
    Truncated,
    /// Neither IPv4 nor IPv6.
    NotIp,
    /// IP, but not TCP.
    NotTcp,
    /// A TCP segment: the key its source is counted under, the event the
    /// filter reports for it, and whether it opens a connection.
    Tcp { key: u32, event: NetworkEventRaw, opening: bool },
}

/// The class of frame `p` read in the given byte order, as the filter reads
/// it: the Ethernet type, then the IP fields up to the addresses, then the
/// protocol, then the TCP ports and flags; a read past the end stops it.
pub open spec fn class_matches(c: PacketClass, p: Seq<u8>, little: bool) -> bool {
    match c {
        PacketClass::Truncated => p.len() < 14 || (is_ip(p) && (p.len() < ip_fields_end(p) || (
        transport(p) == IPPROTO_TCP && !tcp_readable(p)))),
        PacketClass::NotIp => p.len() >= 14 && !is_ip(p),
        PacketClass::NotTcp => p.len() >= 14 && is_ip(p) && p.len() >= ip_fields_end(p) && transport(
            p,
        ) != IPPROTO_TCP,
        PacketClass::Tcp { key, event, opening } => {
            &&& p.len() >= 14
            &&& is_ip(p)
            &&& p.len() >= ip_fields_end(p)
            &&& transport(p) == IPPROTO_TCP
            &&& tcp_readable(p)
            &&& key == source_key(p, little)
            &&& event.family == (if is_ipv4(p) {
                AF_INET
            } else {
                AF_INET6
            })
            &&& event.src_ip@ == source_bytes(p, little)
            &&& event.dst_port == reported_port(p, little)
            &&& event.protocol == IPPROTO_TCP
            &&& event._pad == 0
            &&& event.timestamp == 0
            &&& opening == opens_connection(p[tcp_base(p) + 13])
        },
    }
}

/// Reads frame `p` as the filter does, in the given byte order.
pub fn classify_packet_in(p: &[u8], little: bool) -> (c: PacketClass)
    ensures
        class_matches(c, p@, little),
{
    let len = p.len();
    if len < ETH_HDR_LEN {
        return PacketClass::Truncated;
    }
    let eth_proto: u16 = (p[12] as u16) * 256 + (p[13] as u16);
    if eth_proto == ETH_P_IP {
        if len < 34 {
            return PacketClass::Truncated;
        }
        let version_ihl = p[14];
        let low: u8 = version_ihl & 0x0f;
        assert(low == version_ihl % 16) by (bit_vector)
            requires
                low == version_ihl & 0x0f,
        ;
        let ihl: usize = (low as usize) * 4;
        let protocol = p[23];
        if protocol != IPPROTO_TCP {
            return PacketClass::NotTcp;
        }
        let tcp: usize = ETH_HDR_LEN + ihl;
        if len < tcp + 14 {
            return PacketClass::Truncated;
        }
        let key: u32 = if little {
            (p[26] as u32) + (p[27] as u32) * 256 + (p[28] as u32) * 65536 + (p[29] as u32)
                * 16777216
        } else {
            (p[26] as u32) * 16777216 + (p[27] as u32) * 65536 + (p[28] as u32) * 256 + (
            p[29] as u32)
        };
        let src_ip: [u8; 16] = if little {
            [p[29], p[28], p[27], p[26], 0, 0, 0, 0, 0, 0, 0, 0, 0, 0, 0, 0]
        } else {
            [p[26], p[27], p[28], p[29], 0, 0, 0, 0, 0, 0, 0, 0, 0, 0, 0, 0]
        };
        assert(src_ip@ =~= source_bytes(p@, little));
        let port = read_port(p, tcp, little);
        let flags = p[tcp + 13];
        let opening = (flags & 0x02) != 0 && (flags & 0x10) == 0;
        PacketClass::Tcp {
            key,
            event: NetworkEventRaw::new(AF_INET, src_ip, port, IPPROTO_TCP, 0),
            opening,
        }
    } else if eth_proto == ETH_P_IPV6 {
        if len < 38 {
            return PacketClass::Truncated;
        }
        let protocol = p[20];
        if protocol != IPPROTO_TCP {
            return PacketClass::NotTcp;
        }
        let tcp: usize = ETH_HDR_LEN + 40;
        if len < tcp + 14 {
            return PacketClass::Truncated;
        }
        let src_ip: [u8; 16] = [
            p[22],
            p[23],
            p[24],
            p[25],
            p[26],
            p[27],
            p[28],
            p[29],
            p[30],
            p[31],
            p[32],
            p[33],
            p[34],
            p[35],
            p[36],
            p[37],
        ];
        assert(src_ip@ =~= source_bytes(p@, little));
        let port = read_port(p, tcp, little);
        let flags = p[tcp + 13];
        let opening = (flags & 0x02) != 0 && (flags & 0x10) == 0;
        PacketClass::Tcp {
            key: 0,
            event: NetworkEventRaw::new(AF_INET6, src_ip, port, IPPROTO_TCP, 0),
            opening,
        }
    } else {
        PacketClass::NotIp
    }
}

/// The destination port of the TCP header at `tcp`, in the host's byte order.
fn read_port(p: &[u8], tcp: usize, little: bool) -> (r: u16)
    requires
        tcp + 4 <= p.len(),
    ensures
        r == ne16(little, p@[tcp + 2], p@[tcp + 3]),
{
    if little {
        (p[tcp + 3] as u16) * 256 + (p[tcp + 2] as u16)
    } else {
        (p[tcp + 2] as u16) * 256 + (p[tcp + 3] as u16)
    }
}

/// Reads frame `p` as the filter does on this host: the class matches the
/// frame in one of the two byte orders.
pub fn classify_packet(p: &[u8]) -> (c: PacketClass)
    ensures
        class_matches(c, p@, true) || class_matches(c, p@, false),
{
    let little = host_is_little_endian();
    classify_packet_in(p, little)
}

/// A source's count of opening segments after one more: one more than
/// before (nothing before counts as zero), but never past `u32::MAX`.
pub open spec fn count_after(previous: Option<u32>) -> u32 {
    let c = match previous {
        Some(c) => c,
        None => 0,
    };
    if c == u32::MAX {
        c
    } else {
        (c + 1) as u32
    }
}

/// What the filter does with a frame and the count its source had.
#[derive(Debug, Clone, Copy)]
pub struct XdpStep {
    /// The verdict.
    pub action: u32,
    /// The count to store for the source, under its key.
    pub store: Option<(u32, u32)>,
    /// The event to report.
    pub report: Option<NetworkEventRaw>,
}

/// The filter's decision for a frame of class `c` whose source had the
/// count `previous` (looked up under the frame's key): an opening segment
/// raises the count, is dropped once the count passes the limit and is
/// reported otherwise; every other frame passes and changes nothing.
pub open spec fn step_matches(s: XdpStep, c: PacketClass, previous: Option<u32>) -> bool {
    match c {
        PacketClass::Tcp { key, event, opening } => if opening {
            let n = count_after(previous);
            &&& s.store == Some((key, n))
            &&& if n > SYN_FLOOD_LIMIT {
                s.action == XDP_DROP && s.report is None
            } else {
                s.action == XDP_PASS && s.report == Some(event)
            }
        } else {
            s.action == XDP_PASS && s.store is None && s.report is None
        },
        _ => s.action == XDP_PASS && s.store is None && s.report is None,
    }
}

/// Decides what becomes of a frame of class `c` whose source had the count
/// `previous`.
pub fn xdp_step(c: &PacketClass, previous: Option<u32>) -> (s: XdpStep)
    ensures
        step_matches(s, *c, previous),
{
    match c {
        PacketClass::Tcp { key, event, opening } => {
            if *opening {
                let count: u32 = match previous {
                    Some(v) => v,
                    None => 0,
                };
                let n = count.saturating_add(1);
                if n > SYN_FLOOD_LIMIT {
                    XdpStep { action: XDP_DROP, store: Some((*key, n)), report: None }
                } else {
                    XdpStep { action: XDP_PASS, store: Some((*key, n)), report: Some(*event) }
                }
            } else {
                XdpStep { action: XDP_PASS, store: None, report: None }
            }
        },
        _ => XdpStep { action: XDP_PASS, store: None, report: None },
    }
}

/// The byte order a frame is read in changes neither its class nor whether
/// it opens a connection.
pub proof fn lemma_class_independent_of_byte_order(c1: PacketClass, c2: PacketClass, p: Seq<u8>)
    requires
        class_matches(c1, p, true),
        class_matches(c2, p, false),
    ensures
        c1 is Truncated <==> c2 is Truncated,
        c1 is NotIp <==> c2 is NotIp,
        c1 is NotTcp <==> c2 is NotTcp,
        c1 is Tcp <==> c2 is Tcp,
        c1 is Tcp ==> c1->opening == c2->opening,
{
}

/// An opening segment adds one to its source's count (which stays at
/// `u32::MAX` once there), stores the new count under the frame's key, and
/// is passed and reported exactly while the new count is within the flood
/// limit.
pub proof fn lemma_opening_counts_one_more(
    s: XdpStep,
    key: u32,
    event: NetworkEventRaw,
    previous: Option<u32>,
)
    requires
        step_matches(s, PacketClass::Tcp { key, event, opening: true }, previous),
    ensures
        s.store matches Some((k, n)) && k == key && n == (match previous {
            None => 1int,
            Some(c) => if c < u32::MAX {
                c + 1
            } else {
                c as int
            },
        }) && (s.action == XDP_PASS) == (n <= SYN_FLOOD_LIMIT),
        s.action == XDP_PASS ==> s.report == Some(event),
        s.action != XDP_PASS ==> s.action == XDP_DROP && s.report is None,
{
}

/// A frame that does not open a TCP connection always passes, and no count
/// changes and nothing is reported for it.
pub proof fn lemma_only_openings_count(s: XdpStep, c: PacketClass, previous: Option<u32>)
    requires
        step_matches(s, c, previous),
        !(c matches PacketClass::Tcp { opening, .. } && opening),
    ensures
        s.action == XDP_PASS,
        s.store is None,
        s.report is None,
{
}

/// Once a source has sent the limit of opening segments, every further one
/// is dropped and none is reported; its count never goes down.
pub proof fn lemma_flood_stays_dropped(
    s: XdpStep,
    key: u32,
    event: NetworkEventRaw,
    previous: u32,
)
    requires
        previous >= SYN_FLOOD_LIMIT,
        step_matches(s, PacketClass::Tcp { key, event, opening: true }, Some(previous)),
    ensures
        s.action == XDP_DROP,
        s.report is None,
        s.store matches Some((k, n)) && k == key && n >= previous,
{
}

} // verus!

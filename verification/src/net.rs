//! IP addresses and networks held as plain integers.
//!
//! An IPv4 address is its 32-bit big-endian value, an IPv6 address its
//! 128-bit big-endian value; a network is an address and a prefix length,
//! as `ipnet` keeps them (the address is not truncated to the prefix).
use crate::text::{dotted_quad, ip_text, ip_to_string, network_text, network_to_string};
use vstd::prelude::*;

verus! {

/// An IP address: the 32-bit value of an IPv4 address or the 128-bit value
/// of an IPv6 address, most significant octet first.
#[derive(Clone, Copy, Debug, PartialEq, Eq, Hash, Structural)]
pub enum IpAddress {
    V4(u32),
    V6(u128),
}

/// An IP network: an address and a prefix length.
#[derive(Clone, Copy, Debug, PartialEq, Eq, Hash, Structural)]
pub struct IpNetwork {
    pub addr: IpAddress,
    pub prefix_len: u8,
}

/// The netmask of an IPv4 network with prefix `p`.
pub open spec fn mask_v4(p: u8) -> u32 {
    if p == 0 {
        0u32
    } else {
        u32::MAX << ((32 - p) as u32)
    }
}

/// The netmask of an IPv6 network with prefix `p`.
pub open spec fn mask_v6(p: u8) -> u128 {
    if p == 0 {
        0u128
    } else {
        u128::MAX << ((128 - p) as u32)
    }
}

/// The largest prefix length of the address's family.
pub open spec fn max_prefix(ip: IpAddress) -> nat {
    match ip {
        IpAddress::V4(_) => 32,
        IpAddress::V6(_) => 128,
    }
}

/// The address with every bit past the first `p` cleared.
pub open spec fn masked(ip: IpAddress, p: u8) -> IpAddress {
    match ip {
        IpAddress::V4(a) => IpAddress::V4(a & mask_v4(p)),
        IpAddress::V6(a) => IpAddress::V6(a & mask_v6(p)),
    }
}

/// The octets of an IPv4 value, most significant first.
pub open spec fn v4_octets(a: u32) -> Seq<u8> {
    Seq::new(4, |i: int| (a >> ((8 * (3 - i)) as u32)) as u8)
}

/// The octets of an IPv6 value, most significant first.
pub open spec fn v6_octets(a: u128) -> Seq<u8> {
    Seq::new(16, |i: int| (a >> ((8 * (15 - i)) as u32)) as u8)
}

/// The big-endian value of a sequence of octets.
pub open spec fn be_value(s: Seq<u8>) -> nat
    decreases s.len(),
{
    if s.len() == 0 {
        0
    } else {
        be_value(s.drop_last()) * 256 + s.last() as nat
    }
}

impl IpAddress {
    /// The address as std writes it: the dotted quad for IPv4, the RFC 5952
    /// form for IPv6.
    pub fn to_text(&self) -> (r: String)
        ensures
            r@ == ip_text(*self),
            *self matches IpAddress::V4(a) ==> r@ == dotted_quad(a),
    {
        ip_to_string(self)
    }

    /// The octets of the address in network order.
    pub open spec fn octets(self) -> Seq<u8> {
        match self {
            IpAddress::V4(a) => v4_octets(a),
            IpAddress::V6(a) => v6_octets(a),
        }
    }

    pub open spec fn is_v4(self) -> bool {
        self is V4
    }

    /// The IPv4 address with the four octets `o`, first octet most significant.
    pub fn from_v4_octets(o: [u8; 4]) -> (ip: IpAddress)
        ensures
            ip matches IpAddress::V4(a) && a as nat == be_value(o@),
    {
        let mut acc: u32 = 0;
        let mut i: usize = 0;
        while i < 4
            invariant
                i <= 4,
                acc as nat == be_value(o@.take(i as int)),
                acc < pow256(i as nat),
            decreases 4 - i,
        {
            let b = o[i];
            proof {
                lemma_be_step(o@, i as int);
                lemma_pow256_bound(i as nat, 3);
                reveal_with_fuel(pow256, 4);
                lemma_shift_or_u32(acc, b);
            }
            acc = (acc << 8u32) | (b as u32);
            i = i + 1;
        }
        assert(o@.take(4) =~= o@);
        IpAddress::V4(acc)
    }

    /// The IPv6 address with the sixteen octets `o`, first octet most significant.
    pub fn from_v6_octets(o: [u8; 16]) -> (ip: IpAddress)
        ensures
            ip matches IpAddress::V6(a) && a as nat == be_value(o@),
    {
        let mut acc: u128 = 0;
        let mut i: usize = 0;
        while i < 16
            invariant
                i <= 16,
                acc as nat == be_value(o@.take(i as int)),
                acc < pow256(i as nat),
            decreases 16 - i,
        {
            let b = o[i];
            proof {
                lemma_be_step(o@, i as int);
                lemma_pow256_bound(i as nat, 15);
                reveal_with_fuel(pow256, 16);
                lemma_shift_or_u128(acc, b);
            }
            acc = (acc << 8u32) | (b as u128);
            i = i + 1;
        }
        assert(o@.take(16) =~= o@);
        IpAddress::V6(acc)
    }
}

/// The 64-bit value of eight octets, most significant first.
pub fn u64_from_be_octets(o: [u8; 8]) -> (r: u64)
    ensures
        r as nat == be_value(o@),
{
    let mut acc: u64 = 0;
    let mut i: usize = 0;
    while i < 8
        invariant
            i <= 8,
            acc as nat == be_value(o@.take(i as int)),
            acc < pow256(i as nat),
        decreases 8 - i,
    {
        let b = o[i];
        proof {
            lemma_be_step(o@, i as int);
            lemma_pow256_bound(i as nat, 7);
            reveal_with_fuel(pow256, 9);
        }
        acc = acc * 256 + (b as u64);
        i = i + 1;
    }
    assert(o@.take(8) =~= o@);
    acc
}

/// 256 to the power `n`.
pub open spec fn pow256(n: nat) -> nat
    decreases n,
{
    if n == 0 {
        1
    } else {
        256 * pow256((n - 1) as nat)
    }
}

proof fn lemma_be_step(s: Seq<u8>, i: int)
    requires
        0 <= i < s.len(),
    ensures
        be_value(s.take(i + 1)) == be_value(s.take(i)) * 256 + s[i] as nat,
{
    assert(s.take(i + 1).drop_last() =~= s.take(i));
}

proof fn lemma_pow256_bound(i: nat, max: nat)
    requires
        i <= max,
    ensures
        pow256(i) * 256 == pow256(i + 1),
        pow256(i) <= pow256(max),
    decreases max - i,
{
    if i < max {
        lemma_pow256_bound(i + 1, max);
    }
}

proof fn lemma_shift_or_u32(acc: u32, b: u8)
    requires
        acc < 0x0100_0000,
    ensures
        (acc << 8u32) | (b as u32) == acc * 256 + b,
{
    assert((acc << 8u32) | (b as u32) == acc * 256 + b) by (bit_vector)
        requires
            acc < 0x0100_0000,
    ;
}

proof fn lemma_shift_or_u128(acc: u128, b: u8)
    requires
        acc < 0x0100_0000_0000_0000_0000_0000_0000_0000,
    ensures
        (acc << 8u32) | (b as u128) == acc * 256 + b,
{
    assert((acc << 8u32) | (b as u128) == acc * 256 + b) by (bit_vector)
        requires
            acc < 0x0100_0000_0000_0000_0000_0000_0000_0000,
    ;
}

impl IpNetwork {
    /// The prefix length fits the address family.
    pub open spec fn valid(self) -> bool {
        self.prefix_len <= max_prefix(self.addr)
    }

    /// The network address: the address truncated to the prefix.
    pub open spec fn spec_network(self) -> IpAddress {
        masked(self.addr, self.prefix_len)
    }

    /// The address lies in the network: same family, and the same first
    /// `prefix_len` bits as the network's address.
    pub open spec fn spec_contains(self, ip: IpAddress) -> bool {
        match (self.addr, ip) {
            (IpAddress::V4(n), IpAddress::V4(a)) => a & mask_v4(self.prefix_len) == n & mask_v4(
                self.prefix_len,
            ),
            (IpAddress::V6(n), IpAddress::V6(a)) => a & mask_v6(self.prefix_len) == n & mask_v6(
                self.prefix_len,
            ),
            _ => false,
        }
    }

    /// Whether the prefix length fits the address family (at most 32 for
    /// IPv4, at most 128 for IPv6).
    pub fn is_valid(&self) -> (r: bool)
        ensures
            r == self.valid(),
    {
        match self.addr {
            IpAddress::V4(_) => self.prefix_len <= 32,
            IpAddress::V6(_) => self.prefix_len <= 128,
        }
    }

    /// Whether `ip` lies in this network.
    pub fn contains(&self, ip: &IpAddress) -> (r: bool)
        requires
            self.valid(),
        ensures
            r == self.spec_contains(*ip),
    {
        match (self.addr, *ip) {
            (IpAddress::V4(n), IpAddress::V4(a)) => {
                let m = mask_v4_exec(self.prefix_len);
                (a & m) == (n & m)
            },
            (IpAddress::V6(n), IpAddress::V6(a)) => {
                let m = mask_v6_exec(self.prefix_len);
                (a & m) == (n & m)
            },
            _ => false,
        }
    }

    /// The network as `ipnet` writes it: the address, a slash, the prefix
    /// length.
    pub fn to_text(&self) -> (r: String)
        requires
            self.valid(),
        ensures
            r@ == network_text(*self),
    {
        network_to_string(self)
    }

    /// The network address of this network.
    pub fn network(&self) -> (r: IpAddress)
        requires
            self.valid(),
        ensures
            r == self.spec_network(),
    {
        masked_exec(&self.addr, self.prefix_len)
    }
}

/// The IPv4 netmask of prefix `p`.
pub fn mask_v4_exec(p: u8) -> (m: u32)
    requires
        p <= 32,
    ensures
        m == mask_v4(p),
{
    if p == 0 {
        0
    } else {
        u32::MAX << ((32 - p) as u32)
    }
}

/// The IPv6 netmask of prefix `p`.
pub fn mask_v6_exec(p: u8) -> (m: u128)
    requires
        p <= 128,
    ensures
        m == mask_v6(p),
{
    if p == 0 {
        0
    } else {
        u128::MAX << ((128 - p) as u32)
    }
}

/// The address truncated to its first `p` bits.
pub fn masked_exec(ip: &IpAddress, p: u8) -> (r: IpAddress)
    requires
        p as nat <= max_prefix(*ip),
    ensures
        r == masked(*ip, p),
{
    match *ip {
        IpAddress::V4(a) => IpAddress::V4(a & mask_v4_exec(p)),
        IpAddress::V6(a) => IpAddress::V6(a & mask_v6_exec(p)),
    }
}

/// The IPv4 netmask of prefix `p` has exactly its `p` most significant bits
/// set: bit `31 - k` (counting from the least significant) is set exactly
/// when `k < p`.
pub proof fn lemma_mask_v4_bits(p: u8, k: u32)
    requires
        p <= 32,
        k < 32,
    ensures
        ((mask_v4(p) >> (31 - k) as u32) & 1u32 == 1u32) == (k < p),
{
    let t: u32 = (31 - k) as u32;
    if p == 0 {
        assert((0u32 >> t) & 1u32 == 0u32) by (bit_vector);
    } else {
        let sh: u32 = (32 - p) as u32;
        assert(((0xffff_ffffu32 << sh) >> t) & 1u32 == 1u32 <==> t >= sh) by (bit_vector)
            requires
                sh < 32,
                t < 32,
        ;
        assert(u32::MAX == 0xffff_ffffu32);
    }
}

/// The IPv6 netmask of prefix `p` has exactly its `p` most significant bits
/// set: bit `127 - k` (counting from the least significant) is set exactly
/// when `k < p`.
pub proof fn lemma_mask_v6_bits(p: u8, k: u32)
    requires
        p <= 128,
        k < 128,
    ensures
        ((mask_v6(p) >> (127 - k) as u32) & 1u128 == 1u128) == (k < p),
{
    let t: u32 = (127 - k) as u32;
    if p == 0 {
        assert((0u128 >> t) & 1u128 == 0u128) by (bit_vector);
    } else {
        let sh: u32 = (128 - p) as u32;
        assert(((0xffff_ffff_ffff_ffff_ffff_ffff_ffff_ffffu128 << sh) >> t) & 1u128 == 1u128 <==> t
            >= sh) by (bit_vector)
            requires
                sh < 128,
                t < 128,
        ;
        assert(u128::MAX == 0xffff_ffff_ffff_ffff_ffff_ffff_ffff_ffffu128);
    }
}

/// An IPv4 address lies in a network of prefix `p` exactly when its first
/// `p` bits are those of the network's address; every address lies in a
/// network of prefix 0.
pub proof fn lemma_v4_contains_by_leading_bits(n: u32, a: u32, p: u8)
    requires
        p <= 32,
    ensures
        (IpNetwork { addr: IpAddress::V4(n), prefix_len: p }).spec_contains(IpAddress::V4(a)) <==> (
        p == 0 || (a >> (32 - p) as u32) == (n >> (32 - p) as u32)),
{
    if p == 0 {
        assert(a & 0u32 == n & 0u32) by (bit_vector);
    } else {
        let sh: u32 = (32 - p) as u32;
        assert((a & (0xffff_ffffu32 << sh)) == (n & (0xffff_ffffu32 << sh)) <==> (a >> sh) == (n
            >> sh)) by (bit_vector)
            requires
                sh < 32,
        ;
        assert(u32::MAX == 0xffff_ffffu32);
    }
}

/// An IPv6 address lies in a network of prefix `p` exactly when its first
/// `p` bits are those of the network's address; every address lies in a
/// network of prefix 0.
pub proof fn lemma_v6_contains_by_leading_bits(n: u128, a: u128, p: u8)
    requires
        p <= 128,
    ensures
        (IpNetwork { addr: IpAddress::V6(n), prefix_len: p }).spec_contains(IpAddress::V6(a)) <==> (
        p == 0 || (a >> (128 - p) as u32) == (n >> (128 - p) as u32)),
{
    if p == 0 {
        assert(a & 0u128 == n & 0u128) by (bit_vector);
    } else {
        let sh: u32 = (128 - p) as u32;
        let m: u128 = u128::MAX << sh;
        assert(u128::MAX == 0xffff_ffff_ffff_ffff_ffff_ffff_ffff_ffffu128);
        // Masking keeps the leading bits in place, and shifting them back
        // down recovers them.
        assert(a & (0xffff_ffff_ffff_ffff_ffff_ffff_ffff_ffffu128 << sh) == (a >> sh) << sh)
            by (bit_vector)
            requires
                sh < 128,
        ;
        assert(n & (0xffff_ffff_ffff_ffff_ffff_ffff_ffff_ffffu128 << sh) == (n >> sh) << sh)
            by (bit_vector)
            requires
                sh < 128,
        ;
        assert(((a >> sh) << sh) >> sh == a >> sh) by (bit_vector)
            requires
                sh < 128,
        ;
        assert(((n >> sh) << sh) >> sh == n >> sh) by (bit_vector)
            requires
                sh < 128,
        ;
        if (a & m) == (n & m) {
            assert(((a >> sh) << sh) >> sh == ((n >> sh) << sh) >> sh);
        }
    }
}

/// A network with its address truncated to the prefix contains the address
/// it was truncated from, and every address in it truncates to the same
/// network address.
pub proof fn lemma_truncated_network_contains(ip: IpAddress, other: IpAddress, p: u8)
    requires
        p as nat <= max_prefix(ip),
    ensures
        (IpNetwork { addr: masked(ip, p), prefix_len: p }).spec_contains(ip),
        (IpNetwork { addr: masked(ip, p), prefix_len: p }).spec_contains(other) <==> masked(other, p)
            == masked(ip, p),
{
    match (ip, other) {
        (IpAddress::V4(a), IpAddress::V4(b)) => {
            let m = mask_v4(p);
            assert((a & m) & m == a & m) by (bit_vector);
        },
        (IpAddress::V6(a), IpAddress::V6(b)) => {
            let m = mask_v6(p);
            assert((a & m) & m == a & m) by (bit_vector);
        },
        (IpAddress::V4(a), IpAddress::V6(b)) => {
            let m = mask_v4(p);
            assert((a & m) & m == a & m) by (bit_vector);
        },
        (IpAddress::V6(a), IpAddress::V4(b)) => {
            let m = mask_v6(p);
            assert((a & m) & m == a & m) by (bit_vector);
        },
    }
}

} // verus!

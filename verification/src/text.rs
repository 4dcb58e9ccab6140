//! Text conversions the library takes from std and `ipnet`.
use crate::net::{IpAddress, IpNetwork};
use vstd::prelude::*;

verus! {

/// The decimal digit character of `d` (for `d < 10`).
pub open spec fn digit_char(d: nat) -> char {
    (48 + d) as char
}

/// The decimal representation of `n`, without sign or leading zeros.
pub open spec fn decimal_text(n: nat) -> Seq<char>
    decreases n,
{
    if n < 10 {
        seq![digit_char(n)]
    } else {
        decimal_text(n / 10).push(digit_char(n % 10))
    }
}

/// What std's `Display` writes for an IP address (dotted quad for IPv4, the
/// RFC 5952 form for IPv6).
pub uninterp spec fn ip_text(ip: IpAddress) -> Seq<char>;

/// The Unicode lowercase mapping of a string, as std's `str::to_lowercase`
/// computes it.
pub uninterp spec fn lowercase_text(s: Seq<char>) -> Seq<char>;

/// What `ipnet` parses from a text in CIDR notation (`addr/prefix`), if it
/// accepts it.
pub uninterp spec fn cidr_parse(s: Seq<char>) -> Option<IpNetwork>;

/// The text of an `ipnet` network: the address, a slash, the prefix length.
pub open spec fn network_text(net: IpNetwork) -> Seq<char> {
    ip_text(net.addr) + seq!['/'] + decimal_text(net.prefix_len as nat)
}

/// `usize`'s `Display` (std): the decimal digits of `n`.
#[verifier::external_body]
pub(crate) fn usize_to_text(n: usize) -> (r: String)
    ensures
        r@ == decimal_text(n as nat),
{
    n.to_string()
}

/// The text holds ASCII characters only.
pub open spec fn is_ascii_text(s: Seq<char>) -> bool {
    forall|i: int| 0 <= i < s.len() ==> (#[trigger] s[i] as u32) < 128
}

/// The ASCII lowercase of a text: `A` to `Z` become `a` to `z`, every other
/// character stays.
pub open spec fn ascii_lower(s: Seq<char>) -> Seq<char> {
    s.map_values(|c: char| if 'A' <= c && c <= 'Z' { ((c as u32) + 32) as char } else { c })
}

/// `str::to_lowercase` (std): the lowercase mapping of `s`, named
/// `lowercase_text` here. On ASCII text it lowercases as
/// `to_ascii_lowercase` does, as std's documentation of the two says; what
/// the Unicode mapping gives for other texts is not stated.
#[verifier::external_body]
pub(crate) fn to_lowercase(s: &str) -> (r: String)
    ensures
        r@ == lowercase_text(s@),
        is_ascii_text(s@) ==> r@ == ascii_lower(s@),
{
    s.to_lowercase()
}

/// `str`'s `==` (std): true exactly when the two texts hold the same characters.
#[verifier::external_body]
pub(crate) fn text_eq(a: &str, b: &str) -> (r: bool)
    ensures
        r == (a@ == b@),
{
    a == b
}

/// The dotted-quad text of an IPv4 address: its four octets in decimal,
/// most significant first, separated by dots.
pub open spec fn dotted_quad(a: u32) -> Seq<char> {
    decimal_text((a / 16777216) as nat) + "."@ + decimal_text(((a / 65536) % 256) as nat) + "."@
        + decimal_text(((a / 256) % 256) as nat) + "."@ + decimal_text((a % 256) as nat)
}

/// std's `Display` for `IpAddr`, named `ip_text` here: the dotted quad for
/// an IPv4 address; the RFC 5952 text of an IPv6 address is not stated.
#[verifier::external_body]
pub(crate) fn ip_to_string(ip: &IpAddress) -> (r: String)
    ensures
        r@ == ip_text(*ip),
        *ip matches IpAddress::V4(a) ==> r@ == dotted_quad(a),
{
    match *ip {
        IpAddress::V4(a) => core::net::Ipv4Addr::from(a).to_string(),
        IpAddress::V6(a) => core::net::Ipv6Addr::from(a).to_string(),
    }
}

/// `ipnet::IpNet`'s `Display`, which writes `"{addr}/{prefix_len}"`.
#[verifier::external_body]
pub(crate) fn network_to_string(net: &IpNetwork) -> (r: String)
    requires
        net.valid(),
    ensures
        r@ == network_text(*net),
{
    let addr = match net.addr {
        IpAddress::V4(a) => core::net::IpAddr::V4(core::net::Ipv4Addr::from(a)),
        IpAddress::V6(a) => core::net::IpAddr::V6(core::net::Ipv6Addr::from(a)),
    };
    match ipnet::IpNet::new(addr, net.prefix_len) {
        Ok(n) => n.to_string(),
        Err(_) => String::new(),
    }
}

/// `ipnet::IpNet`'s `FromStr`: the network written in `s`, if `ipnet`
/// accepts the text, named `cidr_parse` here. `ipnet` rejects a prefix longer
/// than the family allows, so what it returns is always valid.
#[verifier::external_body]
pub(crate) fn parse_cidr(s: &str) -> (r: Option<IpNetwork>)
    ensures
        r == cidr_parse(s@),
        r matches Some(n) ==> n.valid(),
{
    match s.parse::<ipnet::IpNet>() {
        Ok(ipnet::IpNet::V4(n)) => Some(
            IpNetwork { addr: IpAddress::V4(u32::from(n.addr())), prefix_len: n.prefix_len() },
        ),
        Ok(ipnet::IpNet::V6(n)) => Some(
            IpNetwork { addr: IpAddress::V6(u128::from(n.addr())), prefix_len: n.prefix_len() },
        ),
        Err(_) => None,
    }
}

/// What std's `FromStr` for `Ipv4Addr` parses from a text, as the address's
/// 32-bit value, if it accepts the text.
pub uninterp spec fn ipv4_text_value(s: Seq<char>) -> Option<u32>;

/// What std's `FromStr` for `Ipv6Addr` parses from a text, as the address's
/// 128-bit value, if it accepts the text.
pub uninterp spec fn ipv6_text_value(s: Seq<char>) -> Option<u128>;

/// std's `FromStr` for `Ipv4Addr`, named `ipv4_text_value` here.
#[verifier::external_body]
pub(crate) fn parse_ipv4(s: &str) -> (r: Option<u32>)
    ensures
        r == ipv4_text_value(s@),
{
    s.parse::<core::net::Ipv4Addr>().ok().map(u32::from)
}

/// std's `FromStr` for `Ipv6Addr`, named `ipv6_text_value` here.
#[verifier::external_body]
pub(crate) fn parse_ipv6(s: &str) -> (r: Option<u128>)
    ensures
        r == ipv6_text_value(s@),
{
    s.parse::<core::net::Ipv6Addr>().ok().map(u128::from)
}

/// A new `String` holding the characters of `s`.
pub(crate) fn owned(s: &str) -> (r: String)
    ensures
        r@ == s@,
{
    s.to_owned()
}

/// The pieces of `s` between the occurrences of `sep`, empty pieces
/// included; a text without `sep` is one piece.
pub open spec fn split_text(s: Seq<char>, sep: char) -> Seq<Seq<char>>
    decreases s.len(),
{
    if s.len() == 0 {
        seq![Seq::<char>::empty()]
    } else {
        let rest = split_text(s.drop_first(), sep);
        if s[0] == sep {
            seq![Seq::<char>::empty()] + rest
        } else {
            rest.update(0, seq![s[0]] + rest[0])
        }
    }
}

/// A splitting always yields at least one piece.
pub proof fn lemma_split_nonempty(s: Seq<char>, sep: char)
    ensures
        split_text(s, sep).len() >= 1,
    decreases s.len(),
{
    if s.len() > 0 {
        lemma_split_nonempty(s.drop_first(), sep);
    }
}

/// Whether `c` is an ASCII decimal digit.
pub open spec fn is_digit(c: char) -> bool {
    '0' <= c && c <= '9'
}

/// The value of a sequence of decimal digits.
pub open spec fn digits_value(s: Seq<char>) -> nat
    decreases s.len(),
{
    if s.len() == 0 {
        0
    } else {
        digits_value(s.drop_last()) * 10 + ((s.last() as nat) - 48) as nat
    }
}

/// What `u32`'s `FromStr` accepts: an optional `+`, then one or more ASCII
/// digits whose value fits in 32 bits.
pub open spec fn u32_text_value(s: Seq<char>) -> Option<u32> {
    let d = if s.len() > 0 && s[0] == '+' {
        s.drop_first()
    } else {
        s
    };
    if d.len() > 0 && (forall|i: int| 0 <= i < d.len() ==> is_digit(#[trigger] d[i]))
        && digits_value(d) <= u32::MAX {
        Some(digits_value(d) as u32)
    } else {
        None
    }
}

/// What `str::trim` leaves of a text: without leading and trailing Unicode
/// white space.
pub uninterp spec fn trim_text(s: Seq<char>) -> Seq<char>;

/// The lines of a text as `str::lines` yields them.
pub uninterp spec fn lines_text(s: Seq<char>) -> Seq<Seq<char>>;

/// The words of a text as `str::split_whitespace` yields them.
pub uninterp spec fn words_text(s: Seq<char>) -> Seq<Seq<char>>;

/// `str::trim` (std), named `trim_text` here.
#[verifier::external_body]
pub(crate) fn trim(s: &str) -> (r: &str)
    ensures
        r@ == trim_text(s@),
{
    s.trim()
}

/// `str::split` (std) by one character: the pieces between its occurrences.
#[verifier::external_body]
pub(crate) fn split_char(s: &str, sep: char) -> (r: Vec<String>)
    ensures
        r@.map_values(|p: String| p@) == split_text(s@, sep),
{
    s.split(sep).map(|p| p.to_string()).collect()
}

/// `str::lines` (std), named `lines_text` here.
#[verifier::external_body]
pub(crate) fn lines(s: &str) -> (r: Vec<String>)
    ensures
        r@.map_values(|p: String| p@) == lines_text(s@),
{
    s.lines().map(|p| p.to_string()).collect()
}

/// `str::split_whitespace` (std), named `words_text` here.
#[verifier::external_body]
pub(crate) fn words(s: &str) -> (r: Vec<String>)
    ensures
        r@.map_values(|p: String| p@) == words_text(s@),
{
    s.split_whitespace().map(|p| p.to_string()).collect()
}

/// `u32`'s `FromStr` (std): an optional `+` and decimal digits.
#[verifier::external_body]
pub(crate) fn parse_u32(s: &str) -> (r: Option<u32>)
    ensures
        r == u32_text_value(s@),
{
    s.parse::<u32>().ok()
}

/// `str::starts_with` (std) with a text pattern: whether `s` begins with `p`.
#[verifier::external_body]
pub(crate) fn starts_with(s: &str, p: &str) -> (r: bool)
    ensures
        r == (p@.len() <= s@.len() && s@.subrange(0, p@.len() as int) == p@),
{
    s.starts_with(p)
}

/// `str::contains` (std) with a text pattern: whether `p` occurs in `s`.
#[verifier::external_body]
pub(crate) fn contains_text(s: &str, p: &str) -> (r: bool)
    ensures
        r == (exists|i: int|
            0 <= i && i + p@.len() <= s@.len() && #[trigger] s@.subrange(i, i + p@.len()) == p@),
{
    s.contains(p)
}

} // verus!

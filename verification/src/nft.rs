//! The bookkeeping of the nftables bans: which addresses and networks are
//! banned and for how long, the sets they go in, and what each answer of
//! nftables means. The nftables calls themselves are made by the program.
use crate::clock::{nanos_between, nanos_from, now};
use crate::net::{IpAddress, IpNetwork};
use crate::text::{
    cidr_parse, contains_text, ipv4_text_value, ipv6_text_value, parse_cidr, parse_ipv4,
    parse_ipv6, text_eq,
};
use std::time::Instant;
use vstd::prelude::*;

verus! {

/// Why an nftables operation failed.
#[derive(Debug)]
pub enum Error {
    Client(String),
    InvalidIp,
    IpAlreadyExists,
    IpCidrConflict,
    TableCreationFailed,
    SetCreationFailed,
    ChainCreationFailed,
    AddElementFailed(String),
    RemoveElementFailed(String),
}

/// A banned address or network.
#[derive(Debug, Clone, Copy, PartialEq, Eq, Hash, Structural)]
pub enum BanEntry {
    Ip(IpAddress),
    Cidr(IpNetwork),
}

/// The bans as the contracts speak of them: each entry with its duration,
/// in the order they were first banned.
pub type CacheView = Seq<(BanEntry, u32)>;

/// No entry occurs twice, and every banned network is valid.
pub open spec fn cache_wf(s: CacheView) -> bool {
    &&& forall|i: int, j: int| 0 <= i < s.len() && 0 <= j < s.len() && i != j ==> s[i].0 != s[j].0
    &&& forall|i: int| 0 <= i < s.len() ==> (#[trigger] s[i].0 matches BanEntry::Cidr(n) ==> n.valid())
}

/// Whether the entry is banned.
pub open spec fn cache_has(s: CacheView, e: BanEntry) -> bool {
    exists|i: int| 0 <= i < s.len() && #[trigger] s[i].0 == e
}

/// A position at which `e` is banned, when it is banned.
pub open spec fn entry_index(s: CacheView, e: BanEntry) -> int {
    choose|i: int| 0 <= i < s.len() && s[i].0 == e
}

/// The duration a ban of `e` was recorded with, if `e` is banned.
pub open spec fn cache_duration(s: CacheView, e: BanEntry) -> Option<u32> {
    if cache_has(s, e) {
        Some(s[entry_index(s, e)].1)
    } else {
        None
    }
}

/// The bans after banning `e` for `d`: its duration replaced where it is
/// banned already, else added last.
pub open spec fn cache_inserted(s: CacheView, e: BanEntry, d: u32) -> CacheView {
    if cache_has(s, e) {
        let i = entry_index(s, e);
        s.update(i, (e, d))
    } else {
        s.push((e, d))
    }
}

/// The bans after lifting the ban of `e`.
pub open spec fn cache_removed(s: CacheView, e: BanEntry) -> CacheView {
    if cache_has(s, e) {
        let i = entry_index(s, e);
        s.remove(i)
    } else {
        s
    }
}

/// Some banned network contains the address.
pub open spec fn cache_covers(s: CacheView, ip: IpAddress) -> bool {
    exists|i: int|
        0 <= i < s.len() && (#[trigger] s[i].0 matches BanEntry::Cidr(n) && n.spec_contains(ip))
}

/// A ban that a ban of `net` makes redundant: an address in the network, or
/// a network whose network address is in it and whose prefix is no shorter.
pub open spec fn covered_by(net: IpNetwork, e: BanEntry) -> bool {
    match e {
        BanEntry::Ip(a) => net.spec_contains(a),
        BanEntry::Cidr(n) => net.spec_contains(n.spec_network()) && n.prefix_len >= net.prefix_len,
    }
}

/// The address reported for a ban: the address, or the network's address.
pub open spec fn reported(e: BanEntry) -> IpAddress {
    match e {
        BanEntry::Ip(a) => a,
        BanEntry::Cidr(n) => n.spec_network(),
    }
}

/// Selects the banned addresses that a ban of `net` makes redundant.
pub open spec fn ip_covered(net: IpNetwork) -> spec_fn((BanEntry, u32)) -> bool {
    |x: (BanEntry, u32)| x.0 is Ip && covered_by(net, x.0)
}

/// Selects the banned networks that a ban of `net` makes redundant.
pub open spec fn cidr_covered(net: IpNetwork) -> spec_fn((BanEntry, u32)) -> bool {
    |x: (BanEntry, u32)| x.0 is Cidr && covered_by(net, x.0)
}

/// The address a ban reports.
pub open spec fn entry_address() -> spec_fn((BanEntry, u32)) -> IpAddress {
    |x: (BanEntry, u32)| reported(x.0)
}

/// The network of a network ban.
pub open spec fn entry_network() -> spec_fn((BanEntry, u32)) -> IpNetwork {
    |x: (BanEntry, u32)| x.0->Cidr_0
}

/// The seconds left of a ban of `duration` seconds after `elapsed`
/// nanoseconds: whole seconds elapsed are taken off, down to zero.
pub open spec fn remaining_secs(duration: u32, elapsed: u128) -> u32 {
    let secs = elapsed / 1_000_000_000;
    if secs >= duration {
        0
    } else {
        (duration - secs) as u32
    }
}

/// The clock readings of the bans after banning `e` at `at`: the reading of
/// a ban of `e` replaced where it is banned already, else added last.
pub open spec fn times_inserted(s: CacheView, t: Seq<Instant>, e: BanEntry, at: Instant) -> Seq<Instant> {
    if cache_has(s, e) {
        t.update(entry_index(s, e), at)
    } else {
        t.push(at)
    }
}

/// The clock readings of the bans after lifting the ban of `e`.
pub open spec fn times_removed(s: CacheView, t: Seq<Instant>, e: BanEntry) -> Seq<Instant> {
    if cache_has(s, e) {
        t.remove(entry_index(s, e))
    } else {
        t
    }
}

/// Each ban as the address it reports and the seconds left of it at `at`,
/// for bans made at the readings `t`.
pub open spec fn report_at(s: CacheView, t: Seq<Instant>, at: Instant) -> Seq<(IpAddress, u32)> {
    Seq::new(s.len(), |i: int| (reported(s[i].0), remaining_secs(s[i].1, nanos_from(at, t[i]))))
}

/// What to do to ban an address.
#[derive(Debug, Clone, Copy, PartialEq, Eq, Structural)]
pub enum IpBanPlan {
    /// A banned network contains it: refuse with `IpCidrConflict`.
    Conflict,
    /// It is banned already: remove it, then add it with the new duration.
    Replace,
    /// Add it.
    Add,
}

/// How an nftables answer to an add is handled by the controller.
#[derive(Debug, Clone, Copy, PartialEq, Eq, Structural)]
pub enum AddFollowup {
    /// Done: the ban is in place (or, for a conflict, not needed).
    Done,
    /// The element exists already: remove it, then add it again.
    Readd,
    /// The add failed: report the error.
    Fail,
}

/// Filtering then mapping a prefix one element longer adds that element's
/// image exactly when it passes the filter.
proof fn lemma_filter_map_step<A, B>(s: Seq<A>, i: int, p: spec_fn(A) -> bool, f: spec_fn(A) -> B)
    requires
        0 <= i < s.len(),
    ensures
        s.take(i + 1).filter(p).map_values(f) == (if p(s[i]) {
            s.take(i).filter(p).map_values(f).push(f(s[i]))
        } else {
            s.take(i).filter(p).map_values(f)
        }),
{
    reveal_with_fuel(Seq::filter, 1);
    assert(s.take(i + 1).drop_last() =~= s.take(i));
    let t = s.take(i).filter(p);
    assert(t.push(s[i]).map_values(f) =~= t.map_values(f).push(f(s[i])));
}

/// After banning `e`, exactly the entries banned before and `e` are banned.
pub proof fn lemma_inserted_has(s: CacheView, e: BanEntry, d: u32, q: BanEntry)
    ensures
        cache_has(cache_inserted(s, e, d), q) == (cache_has(s, q) || q == e),
{
    let t = cache_inserted(s, e, d);
    if cache_has(s, e) {
        let i = choose|i: int| 0 <= i < s.len() && s[i].0 == e;
        assert(t[i].0 == e);
        if cache_has(t, q) {
            let k = choose|k: int| 0 <= k < t.len() && t[k].0 == q;
            if k != i {
                assert(s[k].0 == q);
            }
        }
        if cache_has(s, q) {
            let k = choose|k: int| 0 <= k < s.len() && s[k].0 == q;
            if k != i {
                assert(t[k].0 == q);
            }
        }
    } else {
        assert(t[s.len() as int].0 == e);
        if cache_has(t, q) {
            let k = choose|k: int| 0 <= k < t.len() && t[k].0 == q;
            if k < s.len() {
                assert(s[k].0 == q);
            }
        }
        if cache_has(s, q) {
            let k = choose|k: int| 0 <= k < s.len() && s[k].0 == q;
            assert(t[k].0 == q);
        }
    }
}

/// After lifting the ban of `e`, exactly the entries banned before but `e`
/// are banned.
pub proof fn lemma_removed_has(s: CacheView, e: BanEntry, q: BanEntry)
    requires
        cache_wf(s),
    ensures
        cache_has(cache_removed(s, e), q) == (cache_has(s, q) && q != e),
{
    let t = cache_removed(s, e);
    if cache_has(s, e) {
        let i = choose|i: int| 0 <= i < s.len() && s[i].0 == e;
        if cache_has(t, q) {
            let k = choose|k: int| 0 <= k < t.len() && t[k].0 == q;
            if k < i {
                assert(s[k].0 == q);
            } else {
                assert(s[k + 1].0 == q);
            }
        }
        if cache_has(s, q) && q != e {
            let k = choose|k: int| 0 <= k < s.len() && s[k].0 == q;
            if k < i {
                assert(t[k].0 == q);
            } else {
                assert(t[k - 1].0 == q);
            }
        }
    }
}

/// Recording a ban of `e` for `d` makes `d` the duration of `e`, and leaves
/// the duration of every other entry as it was.
pub proof fn lemma_inserted_duration(s: CacheView, e: BanEntry, d: u32, q: BanEntry)
    requires
        cache_wf(s),
    ensures
        cache_duration(cache_inserted(s, e, d), q) == if q == e {
            Some(d)
        } else {
            cache_duration(s, q)
        },
{
    let t = cache_inserted(s, e, d);
    lemma_inserted_has(s, e, d, q);
    if cache_has(s, e) {
        let i0 = choose|i: int| 0 <= i < s.len() && s[i].0 == e;
        assert(t[i0].0 == e);
        if cache_has(t, q) {
            let kt = choose|k: int| 0 <= k < t.len() && t[k].0 == q;
            if q == e {
                if kt != i0 {
                    assert(s[kt].0 == e);
                }
            } else {
                let ks = choose|k: int| 0 <= k < s.len() && s[k].0 == q;
                assert(kt != i0);
                assert(s[kt].0 == q);
                assert(t[kt] == s[kt]);
            }
        }
    } else {
        assert(t[s.len() as int].0 == e);
        if cache_has(t, q) {
            let kt = choose|k: int| 0 <= k < t.len() && t[k].0 == q;
            if kt < s.len() {
                assert(s[kt].0 == q);
                assert(t[kt] == s[kt]);
                if q != e {
                    let ks = choose|k: int| 0 <= k < s.len() && s[k].0 == q;
                }
            }
        }
    }
}

/// Lifting the ban of `e` leaves `e` without a duration, and the duration
/// of every other entry as it was.
pub proof fn lemma_removed_duration(s: CacheView, e: BanEntry, q: BanEntry)
    requires
        cache_wf(s),
    ensures
        cache_duration(cache_removed(s, e), q) == if q == e {
            None
        } else {
            cache_duration(s, q)
        },
{
    let t = cache_removed(s, e);
    lemma_removed_has(s, e, q);
    if cache_has(s, e) && q != e && cache_has(t, q) {
        let i0 = choose|i: int| 0 <= i < s.len() && s[i].0 == e;
        let kt = choose|k: int| 0 <= k < t.len() && t[k].0 == q;
        let ks = choose|k: int| 0 <= k < s.len() && s[k].0 == q;
        if kt < i0 {
            assert(t[kt] == s[kt]);
        } else {
            assert(t[kt] == s[kt + 1]);
        }
    }
}

/// Lifting the ban of an entry keeps the bans well formed.
proof fn lemma_removed_wf(s: CacheView, e: BanEntry)
    requires
        cache_wf(s),
    ensures
        cache_wf(cache_removed(s, e)),
{
    if cache_has(s, e) {
        let i = choose|i: int| 0 <= i < s.len() && s[i].0 == e;
        let t = s.remove(i);
        assert forall|a: int, b: int| 0 <= a < t.len() && 0 <= b < t.len() && a != b implies t[a].0
            != t[b].0 by {
            let a2 = if a < i { a } else { a + 1 };
            let b2 = if b < i { b } else { b + 1 };
            assert(t[a] == s[a2]);
            assert(t[b] == s[b2]);
        }
        assert forall|a: int| 0 <= a < t.len() implies (#[trigger] t[a].0 matches BanEntry::Cidr(n)
            ==> n.valid()) by {
            let a2 = if a < i { a } else { a + 1 };
            assert(t[a] == s[a2]);
        }
    }
}

/// The bans after lifting the ban of each of `es`, in order.
pub open spec fn removed_all(s: CacheView, es: Seq<BanEntry>) -> CacheView
    decreases es.len(),
{
    if es.len() == 0 {
        s
    } else {
        cache_removed(removed_all(s, es.drop_last()), es.last())
    }
}

/// After lifting the bans of `es`, exactly the entries banned before and
/// not among `es` are banned.
pub proof fn lemma_removed_all_has(s: CacheView, es: Seq<BanEntry>, q: BanEntry)
    requires
        cache_wf(s),
    ensures
        cache_wf(removed_all(s, es)),
        cache_has(removed_all(s, es), q) == (cache_has(s, q) && !es.contains(q)),
    decreases es.len(),
{
    if es.len() > 0 {
        let d = es.drop_last();
        lemma_removed_all_has(s, d, q);
        lemma_removed_wf(removed_all(s, d), es.last());
        lemma_removed_has(removed_all(s, d), es.last(), q);
        if es.contains(q) {
            let k = choose|k: int| 0 <= k < es.len() && es[k] == q;
            if k < es.len() - 1 {
                assert(d[k] == q);
            }
        }
        if d.contains(q) {
            let k = choose|k: int| 0 <= k < d.len() && d[k] == q;
            assert(es[k] == q);
        }
    }
}

/// What a ban of `net` lifts first, in order: the addresses it covers, then
/// the networks it covers (see `covered_by`).
pub open spec fn cidr_ban_removals(s: CacheView, net: IpNetwork) -> Seq<BanEntry> {
    s.filter(ip_covered(net)).map_values(|x: (BanEntry, u32)| x.0) + s.filter(cidr_covered(net)).map_values(
        |x: (BanEntry, u32)| x.0,
    )
}

/// The bans that `plan_cidr_ban` lists, as entries (its addresses, then its
/// networks), are the ones `cidr_ban_removals` lifts.
pub proof fn lemma_plan_lists_the_removals(s: CacheView, net: IpNetwork)
    ensures
        s.filter(ip_covered(net)).map_values(entry_address()).map_values(|a: IpAddress| BanEntry::Ip(a))
            + s.filter(cidr_covered(net)).map_values(entry_network()).map_values(
            |n: IpNetwork| BanEntry::Cidr(n),
        ) == cidr_ban_removals(s, net),
{
    let fi = s.filter(ip_covered(net));
    let fc = s.filter(cidr_covered(net));
    let a = fi.map_values(entry_address()).map_values(|a: IpAddress| BanEntry::Ip(a));
    let b = fc.map_values(entry_network()).map_values(|n: IpNetwork| BanEntry::Cidr(n));
    assert forall|k: int| 0 <= k < a.len() implies a[k] == fi.map_values(|x: (BanEntry, u32)| x.0)[k] by {
        s.lemma_filter_pred(ip_covered(net), k);
    }
    assert forall|k: int| 0 <= k < b.len() implies b[k] == fc.map_values(|x: (BanEntry, u32)| x.0)[k] by {
        s.lemma_filter_pred(cidr_covered(net), k);
    }
    assert(a =~= fi.map_values(|x: (BanEntry, u32)| x.0));
    assert(b =~= fc.map_values(|x: (BanEntry, u32)| x.0));
}

/// A valid network covers itself: its network address lies in it.
proof fn lemma_network_covers_itself(net: IpNetwork)
    requires
        net.valid(),
    ensures
        covered_by(net, BanEntry::Cidr(net)),
{
    match net.addr {
        IpAddress::V4(a) => {
            let m = crate::net::mask_v4(net.prefix_len);
            assert((a & m) & m == a & m) by (bit_vector);
        },
        IpAddress::V6(a) => {
            let m = crate::net::mask_v6(net.prefix_len);
            assert((a & m) & m == a & m) by (bit_vector);
        },
    }
}

/// A ban of a network, once the bans it makes redundant are lifted, leaves
/// no other ban inside the network: the network is banned for its
/// duration, every entry still banned that the network covers is the
/// network itself, and every entry it does not cover is banned exactly when
/// it was before.
pub proof fn lemma_cidr_ban_leaves_nothing_inside(s: CacheView, net: IpNetwork, d: u32, e: BanEntry)
    requires
        cache_wf(s),
        net.valid(),
    ensures
        cache_duration(
            cache_inserted(removed_all(s, cidr_ban_removals(s, net)), BanEntry::Cidr(net), d),
            BanEntry::Cidr(net),
        ) == Some(d),
        cache_has(
            cache_inserted(removed_all(s, cidr_ban_removals(s, net)), BanEntry::Cidr(net), d),
            e,
        ) && covered_by(net, e) ==> e == BanEntry::Cidr(net),
        !covered_by(net, e) ==> cache_has(
            cache_inserted(removed_all(s, cidr_ban_removals(s, net)), BanEntry::Cidr(net), d),
            e,
        ) == cache_has(s, e),
{
    let rs = cidr_ban_removals(s, net);
    let pi = ip_covered(net);
    let pc = cidr_covered(net);
    let fi = s.filter(pi).map_values(|x: (BanEntry, u32)| x.0);
    let fc = s.filter(pc).map_values(|x: (BanEntry, u32)| x.0);
    lemma_removed_all_has(s, rs, e);
    let r = removed_all(s, rs);
    lemma_inserted_has(r, BanEntry::Cidr(net), d, e);
    lemma_inserted_duration(r, BanEntry::Cidr(net), d, BanEntry::Cidr(net));
    lemma_network_covers_itself(net);
    if cache_has(s, e) && covered_by(net, e) {
        let i = choose|i: int| 0 <= i < s.len() && s[i].0 == e;
        match e {
            BanEntry::Ip(a) => {
                s.lemma_filter_contains(pi, i);
                let j = choose|j: int| 0 <= j < s.filter(pi).len() && s.filter(pi)[j] == s[i];
                assert(fi[j] == e);
                assert(rs[j] == e);
            },
            BanEntry::Cidr(n) => {
                s.lemma_filter_contains(pc, i);
                let j = choose|j: int| 0 <= j < s.filter(pc).len() && s.filter(pc)[j] == s[i];
                assert(fc[j] == e);
                assert(rs[fi.len() + j] == e);
            },
        }
    }
    if !covered_by(net, e) && rs.contains(e) {
        let k = choose|k: int| 0 <= k < rs.len() && rs[k] == e;
        if k < fi.len() {
            s.lemma_filter_pred(pi, k);
        } else {
            s.lemma_filter_pred(pc, k - fi.len());
        }
    }
}

/// After a ban of `e` for `d` seconds is recorded at the reading `t0`, the
/// report at any reading `at` lists the address of `e` with the seconds left
/// of that ban: `d` less the whole seconds from `t0` to `at`, down to zero.
pub proof fn lemma_recorded_ban_reports_time_left(
    s: CacheView,
    t: Seq<Instant>,
    e: BanEntry,
    d: u32,
    t0: Instant,
    at: Instant,
)
    requires
        t.len() == s.len(),
    ensures
        ({
            let r = report_at(cache_inserted(s, e, d), times_inserted(s, t, e, t0), at);
            exists|i: int|
                0 <= i < r.len() && #[trigger] r[i] == (reported(e), remaining_secs(
                    d,
                    nanos_from(at, t0),
                ))
        }),
{
    let s2 = cache_inserted(s, e, d);
    let t2 = times_inserted(s, t, e, t0);
    let r = report_at(s2, t2, at);
    if cache_has(s, e) {
        let i = entry_index(s, e);
        assert(s2[i] == (e, d));
        assert(t2[i] == t0);
        assert(r[i] == (reported(e), remaining_secs(d, nanos_from(at, t0))));
    } else {
        let i = s.len() as int;
        assert(s2[i] == (e, d));
        assert(t2[i] == t0);
        assert(r[i] == (reported(e), remaining_secs(d, nanos_from(at, t0))));
    }
}

/// The bans held by the controller, in the order they were first made,
/// each with the clock reading at which it was made.
pub struct BanCache {
    entries: Vec<(BanEntry, u32)>,
    since: Vec<Instant>,
}

impl BanCache {
    pub closed spec fn view(&self) -> CacheView {
        self.entries@
    }

    /// The clock reading at which each ban was made, in the order of `view`.
    pub closed spec fn times(&self) -> Seq<Instant> {
        self.since@
    }

    pub open spec fn wf(&self) -> bool {
        &&& cache_wf(self.view())
        &&& self.times().len() == self.view().len()
    }

    /// No bans.
    pub fn new() -> (c: Self)
        ensures
            c.view() == Seq::<(BanEntry, u32)>::empty(),
            c.wf(),
    {
        BanCache { entries: Vec::new(), since: Vec::new() }
    }

    /// Forgets every ban.
    pub fn clear(&mut self)
        ensures
            final(self).view() == Seq::<(BanEntry, u32)>::empty(),
            final(self).wf(),
    {
        self.entries.clear();
        self.since.clear();
    }

    /// The position of the entry, if banned.
    fn position(&self, e: &BanEntry) -> (r: Option<usize>)
        requires
            self.wf(),
        ensures
            match r {
                Some(i) => i < self.view().len() && self.view()[i as int].0 == *e,
                None => !cache_has(self.view(), *e),
            },
    {
        let mut i: usize = 0;
        while i < self.entries.len()
            invariant
                i <= self.entries@.len(),
                forall|j: int| 0 <= j < i ==> self.entries@[j].0 != *e,
            decreases self.entries@.len() - i,
        {
            if self.entries[i].0 == *e {
                return Some(i);
            }
            i = i + 1;
        }
        None
    }

    /// Whether the entry is banned.
    pub fn contains(&self, e: &BanEntry) -> (r: bool)
        requires
            self.wf(),
        ensures
            r == cache_has(self.view(), *e),
    {
        self.position(e).is_some()
    }

    /// The number of bans.
    pub fn len(&self) -> (r: usize)
        ensures
            r == self.view().len(),
    {
        self.entries.len()
    }

    /// Bans `e` for `duration` seconds from the clock reading `at` (replacing
    /// the duration and reading of a ban of `e`).
    pub fn insert(&mut self, e: BanEntry, duration: u32, at: Instant)
        requires
            old(self).wf(),
            e matches BanEntry::Cidr(n) ==> n.valid(),
        ensures
            final(self).view() == cache_inserted(old(self).view(), e, duration),
            final(self).times() == times_inserted(old(self).view(), old(self).times(), e, at),
            final(self).wf(),
    {
        match self.position(&e) {
            Some(i) => {
                proof {
                    let c = choose|j: int| 0 <= j < self.view().len() && self.view()[j].0 == e;
                    assert(c == i);
                }
                self.entries.set(i, (e, duration));
                self.since.set(i, at);
                assert(self.wf()) by {
                    let s = self.view();
                    assert forall|a: int, b: int| 0 <= a < s.len() && 0 <= b < s.len() && a != b implies s[a].0 != s[b].0 by {
                        assert(s[a].0 == old(self).view()[a].0);
                        assert(s[b].0 == old(self).view()[b].0);
                    }
                }
            },
            None => {
                self.entries.push((e, duration));
                self.since.push(at);
            },
        }
    }

    /// Lifts the ban of `e`, if any.
    pub fn remove(&mut self, e: &BanEntry)
        requires
            old(self).wf(),
        ensures
            final(self).view() == cache_removed(old(self).view(), *e),
            final(self).times() == times_removed(old(self).view(), old(self).times(), *e),
            final(self).wf(),
    {
        match self.position(e) {
            Some(i) => {
                proof {
                    let c = choose|j: int| 0 <= j < self.view().len() && self.view()[j].0 == *e;
                    assert(c == i);
                }
                let _ = self.entries.remove(i);
                let _ = self.since.remove(i);
                assert(self.wf()) by {
                    let s = self.view();
                    let o = old(self).view();
                    assert forall|a: int, b: int| 0 <= a < s.len() && 0 <= b < s.len() && a != b implies s[a].0 != s[b].0 by {
                        let a2 = if a < i { a } else { a + 1 };
                        let b2 = if b < i { b } else { b + 1 };
                        assert(s[a] == o[a2]);
                        assert(s[b] == o[b2]);
                    }
                    assert forall|a: int| 0 <= a < s.len() implies (#[trigger] s[a].0 matches BanEntry::Cidr(n) ==> n.valid()) by {
                        let a2 = if a < i { a } else { a + 1 };
                        assert(s[a] == o[a2]);
                    }
                }
            },
            None => {},
        }
    }

    /// Whether a banned network contains `ip`.
    pub fn covers(&self, ip: &IpAddress) -> (r: bool)
        requires
            self.wf(),
        ensures
            r == cache_covers(self.view(), *ip),
    {
        let mut i: usize = 0;
        while i < self.entries.len()
            invariant
                i <= self.entries@.len(),
                cache_wf(self.entries@),
                forall|j: int|
                    0 <= j < i ==> !(#[trigger] self.entries@[j].0 matches BanEntry::Cidr(n)
                        && n.spec_contains(*ip)),
            decreases self.entries@.len() - i,
        {
            match self.entries[i].0 {
                BanEntry::Cidr(n) => {
                    assert(self.entries@[i as int].0 matches BanEntry::Cidr(m) ==> m.valid());
                    if n.contains(ip) {
                        return true;
                    }
                },
                BanEntry::Ip(_) => {},
            }
            i = i + 1;
        }
        false
    }

    /// The bans that a ban of `net` makes redundant, in order: the addresses,
    /// and the networks.
    pub fn covered_by(&self, net: &IpNetwork) -> (r: (Vec<IpAddress>, Vec<IpNetwork>))
        requires
            self.wf(),
            net.valid(),
        ensures
            r.0@ == self.view().filter(ip_covered(*net)).map_values(entry_address()),
            r.1@ == self.view().filter(cidr_covered(*net)).map_values(entry_network()),
            forall|i: int| 0 <= i < r.1@.len() ==> (#[trigger] r.1@[i]).valid(),
    {
        let ghost s = self.view();
        let ghost pi = ip_covered(*net);
        let ghost pc = cidr_covered(*net);
        let mut ips: Vec<IpAddress> = Vec::new();
        let mut nets: Vec<IpNetwork> = Vec::new();
        let mut i: usize = 0;
        while i < self.entries.len()
            invariant
                s == self.view(),
                cache_wf(s),
                i <= s.len(),
                net.valid(),
                pi == ip_covered(*net),
                pc == cidr_covered(*net),
                ips@ == s.take(i as int).filter(pi).map_values(entry_address()),
                nets@ == s.take(i as int).filter(pc).map_values(entry_network()),
                forall|j: int| 0 <= j < nets@.len() ==> (#[trigger] nets@[j]).valid(),
            decreases s.len() - i,
        {
            proof {
                lemma_filter_map_step(s, i as int, pi, entry_address());
                lemma_filter_map_step(s, i as int, pc, entry_network());
            }
            let x = self.entries[i];
            match x.0 {
                BanEntry::Ip(a) => {
                    if net.contains(&a) {
                        ips.push(a);
                    }
                },
                BanEntry::Cidr(n) => {
                    assert(s[i as int].0 matches BanEntry::Cidr(m) ==> m.valid());
                    let na = n.network();
                    if net.contains(&na) && n.prefix_len >= net.prefix_len {
                        nets.push(n);
                    }
                },
            }
            i = i + 1;
        }
        assert(s.take(s.len() as int) =~= s);
        (ips, nets)
    }

    /// Every ban as the address it concerns (a network's address for a
    /// network) and the whole seconds left of it at the clock reading `at`,
    /// in order.
    pub fn banned_list(&self, at: &Instant) -> (r: Vec<(IpAddress, u32)>)
        requires
            self.wf(),
        ensures
            r@ == report_at(self.view(), self.times(), *at),
    {
        let ghost s = self.view();
        let ghost t = self.times();
        let mut r: Vec<(IpAddress, u32)> = Vec::new();
        let mut i: usize = 0;
        while i < self.entries.len()
            invariant
                s == self.view(),
                t == self.times(),
                cache_wf(s),
                t.len() == s.len(),
                i <= s.len(),
                r@ == report_at(s, t, *at).take(i as int),
            decreases s.len() - i,
        {
            let x = self.entries[i];
            let a = match x.0 {
                BanEntry::Ip(a) => a,
                BanEntry::Cidr(n) => {
                    assert(s[i as int].0 matches BanEntry::Cidr(m) ==> m.valid());
                    n.network()
                },
            };
            let elapsed = nanos_between(at, &self.since[i]);
            let secs = elapsed / 1_000_000_000;
            let left: u32 = if secs >= x.1 as u128 {
                0
            } else {
                (x.1 as u128 - secs) as u32
            };
            r.push((a, left));
            assert(r@ =~= report_at(s, t, *at).take(i + 1));
            i = i + 1;
        }
        assert(report_at(s, t, *at).take(s.len() as int) =~= report_at(s, t, *at));
        r
    }
}

/// The bookkeeping of the nftables controller: the table, its two sets
/// (`<table>_ipv4`, `<table>_ipv6`), and the bans made through it.
pub struct NftRawController {
    table: String,
    ipv4_set: String,
    ipv6_set: String,
    banned_entries: BanCache,
}

impl NftRawController {
    pub closed spec fn spec_table(&self) -> Seq<char> {
        self.table@
    }

    pub closed spec fn spec_ipv4_set(&self) -> Seq<char> {
        self.ipv4_set@
    }

    pub closed spec fn spec_ipv6_set(&self) -> Seq<char> {
        self.ipv6_set@
    }

    pub closed spec fn bans(&self) -> CacheView {
        self.banned_entries.view()
    }

    /// The clock reading at which each ban was made, in the order of `bans`.
    pub closed spec fn ban_times(&self) -> Seq<Instant> {
        self.banned_entries.times()
    }

    pub open spec fn wf(&self) -> bool {
        &&& cache_wf(self.bans())
        &&& self.ban_times().len() == self.bans().len()
    }

    /// The bookkeeping for `table`, with no bans.
    pub fn new(table: &str) -> (c: Self)
        ensures
            c.spec_table() == table@,
            c.spec_ipv4_set() == table@ + "_ipv4"@,
            c.spec_ipv6_set() == table@ + "_ipv6"@,
            c.bans() == Seq::<(BanEntry, u32)>::empty(),
            c.wf(),
    {
        let mut v4 = table.to_owned();
        v4.append("_ipv4");
        let mut v6 = table.to_owned();
        v6.append("_ipv6");
        NftRawController {
            table: table.to_owned(),
            ipv4_set: v4,
            ipv6_set: v6,
            banned_entries: BanCache::new(),
        }
    }

    /// The table's name.
    pub fn table(&self) -> (r: &str)
        ensures
            r@ == self.spec_table(),
    {
        self.table.as_str()
    }

    /// Whether a set of `table` named `set` is one of the controller's two.
    pub fn owns_set(&self, table: &str, set: &str) -> (r: bool)
        ensures
            r == (table@ == self.spec_table() && (set@ == self.spec_ipv4_set() || set@
                == self.spec_ipv6_set())),
    {
        text_eq(table, self.table.as_str()) && (text_eq(set, self.ipv4_set.as_str()) || text_eq(
            set,
            self.ipv6_set.as_str(),
        ))
    }

    /// The set an address of this family goes in.
    pub fn set_for(&self, ip: &IpAddress) -> (r: &str)
        ensures
            r@ == (match ip {
                IpAddress::V4(_) => self.spec_ipv4_set(),
                IpAddress::V6(_) => self.spec_ipv6_set(),
            }),
    {
        match ip {
            IpAddress::V4(_) => self.ipv4_set.as_str(),
            IpAddress::V6(_) => self.ipv6_set.as_str(),
        }
    }

    /// What to do to ban `ip`: refuse when a banned network contains it,
    /// replace it when it is banned already, else add it.
    pub fn plan_ip_ban(&self, ip: &IpAddress) -> (p: IpBanPlan)
        requires
            self.wf(),
        ensures
            p == (if cache_covers(self.bans(), *ip) {
                IpBanPlan::Conflict
            } else if cache_has(self.bans(), BanEntry::Ip(*ip)) {
                IpBanPlan::Replace
            } else {
                IpBanPlan::Add
            }),
    {
        if self.banned_entries.covers(ip) {
            IpBanPlan::Conflict
        } else if self.banned_entries.contains(&BanEntry::Ip(*ip)) {
            IpBanPlan::Replace
        } else {
            IpBanPlan::Add
        }
    }

    /// The bans that must go before `cidr` is banned: the addresses and the
    /// networks it covers.
    pub fn plan_cidr_ban(&self, cidr: &IpNetwork) -> (r: (Vec<IpAddress>, Vec<IpNetwork>))
        requires
            self.wf(),
            cidr.valid(),
        ensures
            r.0@ == self.bans().filter(ip_covered(*cidr)).map_values(entry_address()),
            r.1@ == self.bans().filter(cidr_covered(*cidr)).map_values(entry_network()),
            forall|i: int| 0 <= i < r.1@.len() ==> (#[trigger] r.1@[i]).valid(),
    {
        self.banned_entries.covered_by(cidr)
    }

    /// nftables added the element at the clock reading `at`: it is banned
    /// for `duration` seconds from then.
    pub fn record_added(&mut self, e: BanEntry, duration: u32, at: Instant)
        requires
            old(self).wf(),
            e matches BanEntry::Cidr(n) ==> n.valid(),
        ensures
            final(self).bans() == cache_inserted(old(self).bans(), e, duration),
            final(self).ban_times() == times_inserted(old(self).bans(), old(self).ban_times(), e, at),
            final(self).spec_table() == old(self).spec_table(),
            final(self).spec_ipv4_set() == old(self).spec_ipv4_set(),
            final(self).spec_ipv6_set() == old(self).spec_ipv6_set(),
            final(self).wf(),
    {
        self.banned_entries.insert(e, duration, at);
    }

    /// nftables removed the element: its ban is lifted.
    pub fn record_removed(&mut self, e: &BanEntry)
        requires
            old(self).wf(),
        ensures
            final(self).bans() == cache_removed(old(self).bans(), *e),
            final(self).ban_times() == times_removed(old(self).bans(), old(self).ban_times(), *e),
            final(self).spec_table() == old(self).spec_table(),
            final(self).spec_ipv4_set() == old(self).spec_ipv4_set(),
            final(self).spec_ipv6_set() == old(self).spec_ipv6_set(),
            final(self).wf(),
    {
        self.banned_entries.remove(e);
    }

    /// The bans found in nftables at the clock reading `at` replace the
    /// bookkeeping: each address is banned with a duration of zero.
    pub fn sync_from(&mut self, elements: &Vec<IpAddress>, at: Instant)
        requires
            old(self).wf(),
        ensures
            final(self).wf(),
            final(self).spec_table() == old(self).spec_table(),
            final(self).spec_ipv4_set() == old(self).spec_ipv4_set(),
            final(self).spec_ipv6_set() == old(self).spec_ipv6_set(),
            forall|e: BanEntry|
                cache_has(final(self).bans(), e) <==> (e matches BanEntry::Ip(a) && elements@.contains(a)),
            forall|i: int| 0 <= i < final(self).bans().len() ==> (#[trigger] final(self).bans()[i]).1 == 0,
            forall|i: int| 0 <= i < final(self).ban_times().len() ==> #[trigger] final(self).ban_times()[i] == at,
    {
        self.banned_entries.clear();
        let mut i: usize = 0;
        while i < elements.len()
            invariant
                i <= elements@.len(),
                self.wf(),
                self.spec_table() == old(self).spec_table(),
                self.spec_ipv4_set() == old(self).spec_ipv4_set(),
                self.spec_ipv6_set() == old(self).spec_ipv6_set(),
                forall|e: BanEntry|
                    cache_has(self.bans(), e) <==> (e matches BanEntry::Ip(a) && elements@.take(i as int).contains(a)),
                forall|k: int| 0 <= k < self.bans().len() ==> (#[trigger] self.bans()[k]).1 == 0,
                forall|k: int| 0 <= k < self.ban_times().len() ==> #[trigger] self.ban_times()[k] == at,
            decreases elements@.len() - i,
        {
            let ghost before = self.bans();
            let ghost before_times = self.ban_times();
            self.banned_entries.insert(BanEntry::Ip(elements[i]), 0, at);
            proof {
                let s = self.bans();
                let x = elements@[i as int];
                let pre = elements@.take(i as int);
                let post = elements@.take(i + 1);
                assert forall|a: IpAddress| post.contains(a) <==> (pre.contains(a) || a == x) by {
                    if post.contains(a) {
                        let k = choose|k: int| 0 <= k < post.len() && post[k] == a;
                        if k < i {
                            assert(pre[k] == a);
                        }
                    }
                    if pre.contains(a) {
                        let k = choose|k: int| 0 <= k < pre.len() && pre[k] == a;
                        assert(post[k] == a);
                    }
                    if a == x {
                        assert(post[i as int] == a);
                    }
                }
                assert forall|e: BanEntry|
                    cache_has(s, e) <==> (e matches BanEntry::Ip(a) && post.contains(a)) by {
                    lemma_inserted_has(before, BanEntry::Ip(x), 0, e);
                }
                let t = self.ban_times();
                assert forall|k: int| 0 <= k < t.len() implies #[trigger] t[k] == at by {
                    if cache_has(before, BanEntry::Ip(elements@[i as int])) {
                        let j = choose|j: int| 0 <= j < before.len() && before[j].0 == BanEntry::Ip(elements@[i as int]);
                        if k != j {
                            assert(t[k] == before_times[k]);
                        }
                    } else if k < before.len() {
                        assert(t[k] == before_times[k]);
                    }
                }
                assert forall|k: int| 0 <= k < s.len() implies (#[trigger] s[k]).1 == 0 by {
                    if cache_has(before, BanEntry::Ip(elements@[i as int])) {
                        let j = choose|j: int| 0 <= j < before.len() && before[j].0 == BanEntry::Ip(elements@[i as int]);
                        if k != j {
                            assert(s[k] == before[k]);
                        }
                    } else if k < before.len() {
                        assert(s[k] == before[k]);
                    }
                }
            }
            i = i + 1;
        }
        assert(elements@.take(elements@.len() as int) =~= elements@);
    }

    /// Every ban as the address it concerns and the whole seconds left of it
    /// at the clock reading `at`, in order.
    pub fn get_banned_ips_at(&self, at: &Instant) -> (r: Vec<(IpAddress, u32)>)
        requires
            self.wf(),
        ensures
            r@ == report_at(self.bans(), self.ban_times(), *at),
    {
        self.banned_entries.banned_list(at)
    }

    /// Every ban as the address it concerns and the whole seconds left of it
    /// now, in order. Which reading of the clock is "now" is not stated.
    pub fn get_banned_ips(&self) -> (r: Vec<(IpAddress, u32)>)
        requires
            self.wf(),
        ensures
            exists|at: Instant| r@ == report_at(self.bans(), self.ban_times(), at),
    {
        let at = now();
        self.get_banned_ips_at(&at)
    }
}

/// The address an element of a set stands for: the IPv4 or IPv6 address it
/// writes, else the network address of the network it writes; none when it
/// is none of these.
pub open spec fn element_address_of(s: Seq<char>) -> Option<IpAddress> {
    match ipv4_text_value(s) {
        Some(a) => Some(IpAddress::V4(a)),
        None => match ipv6_text_value(s) {
            Some(a) => Some(IpAddress::V6(a)),
            None => match cidr_parse(s) {
                Some(n) => Some(n.spec_network()),
                None => None,
            },
        },
    }
}

/// Reads an element found in a set (see `element_address_of`).
pub fn element_address(text: &str) -> (r: Option<IpAddress>)
    ensures
        r == element_address_of(text@),
{
    if let Some(a) = parse_ipv4(text) {
        Some(IpAddress::V4(a))
    } else if let Some(a) = parse_ipv6(text) {
        Some(IpAddress::V6(a))
    } else if let Some(n) = parse_cidr(text) {
        Some(n.network())
    } else {
        None
    }
}

/// What a failed add means: `file exists` in nftables' answer is an element
/// banned already; anything else is a failure with that answer.
pub fn classify_add_failure(message: String) -> (e: Error)
    ensures
        (exists|i: int| 0 <= i && i + "file exists"@.len() <= message@.len() && #[trigger] message@.subrange(i, i + "file exists"@.len()) == "file exists"@)
            ==> e is IpAlreadyExists,
        !(exists|i: int| 0 <= i && i + "file exists"@.len() <= message@.len() && #[trigger] message@.subrange(i, i + "file exists"@.len()) == "file exists"@)
            ==> (e matches Error::AddElementFailed(m) && m@ == message@),
{
    if contains_text(message.as_str(), "file exists") {
        Error::IpAlreadyExists
    } else {
        Error::AddElementFailed(message)
    }
}

/// What a failed removal means: `no such file or directory` in nftables'
/// answer is an element that was not there, which is no failure.
pub fn classify_remove_failure(message: String) -> (r: Result<(), Error>)
    ensures
        (exists|i: int| 0 <= i && i + "no such file or directory"@.len() <= message@.len() && #[trigger] message@.subrange(i, i + "no such file or directory"@.len()) == "no such file or directory"@)
            ==> r is Ok,
        !(exists|i: int| 0 <= i && i + "no such file or directory"@.len() <= message@.len() && #[trigger] message@.subrange(i, i + "no such file or directory"@.len()) == "no such file or directory"@)
            ==> (r matches Err(Error::RemoveElementFailed(m)) && m@ == message@),
{
    if contains_text(message.as_str(), "no such file or directory") {
        Ok(())
    } else {
        Err(Error::RemoveElementFailed(message))
    }
}

/// What a failed creation means: `file exists` is something created before,
/// which is no failure; else the creation failed with `failure`.
pub fn classify_create_failure(message: &str, failure: Error) -> (r: Result<(), Error>)
    ensures
        (exists|i: int| 0 <= i && i + "file exists"@.len() <= message@.len() && #[trigger] message@.subrange(i, i + "file exists"@.len()) == "file exists"@)
            ==> r is Ok,
        !(exists|i: int| 0 <= i && i + "file exists"@.len() <= message@.len() && #[trigger] message@.subrange(i, i + "file exists"@.len()) == "file exists"@)
            ==> r == Err::<(), Error>(failure),
{
    if contains_text(message, "file exists") {
        Ok(())
    } else {
        Err(failure)
    }
}

/// How the controller handles the answer to banning an address: done when
/// it was added or a banned network covers it, re-added when it exists
/// already, failed otherwise.
pub fn ip_ban_followup(result: &Result<(), Error>) -> (f: AddFollowup)
    ensures
        f == (match result {
            Ok(()) => AddFollowup::Done,
            Err(Error::IpCidrConflict) => AddFollowup::Done,
            Err(Error::IpAlreadyExists) => AddFollowup::Readd,
            Err(_) => AddFollowup::Fail,
        }),
{
    match result {
        Ok(()) => AddFollowup::Done,
        Err(Error::IpCidrConflict) => AddFollowup::Done,
        Err(Error::IpAlreadyExists) => AddFollowup::Readd,
        Err(_) => AddFollowup::Fail,
    }
}

/// How the controller handles the answer to banning a network: done when it
/// was added, re-added when it exists already, failed otherwise.
pub fn cidr_ban_followup(result: &Result<(), Error>) -> (f: AddFollowup)
    ensures
        f == (match result {
            Ok(()) => AddFollowup::Done,
            Err(Error::IpAlreadyExists) => AddFollowup::Readd,
            Err(_) => AddFollowup::Fail,
        }),
{
    match result {
        Ok(()) => AddFollowup::Done,
        Err(Error::IpAlreadyExists) => AddFollowup::Readd,
        Err(_) => AddFollowup::Fail,
    }
}

} // verus!

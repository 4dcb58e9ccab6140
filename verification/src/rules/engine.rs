//! The rule engine: per rule name and key, a counting state; events are
//! counted against every rule they match, and reaching a threshold bans.
use super::state::{burst, decided, decided_at, fresh_state, lemma_burst_reaches_threshold, lemma_burst_shape, state_wf, RuleState, StateView};
use super::{
    cidr_of, cidr_prefix_ok, key_of, key_ok, prefix_for, rule_matches, Error, Rule, RuleKey, RuleType, RuleView,
};
use crate::channel::{try_send, Offer};
use crate::clock::{self, nanos_from};
use crate::event::{BanAction, BanView, NetworkEvent};
use crate::net::IpAddress;
use crate::text::{ip_text, ip_to_string, network_text, network_to_string};
use std::time::Instant;
use tokio::sync::mpsc::Sender;
use vstd::prelude::*;

verus! {

/// One key's state.
#[derive(Debug, Clone, Copy)]
struct StateEntry {
    key: RuleKey,
    state: RuleState,
}

/// The states of all keys of the rules of one name.
#[derive(Debug)]
struct RuleGroup {
    name: String,
    entries: Vec<StateEntry>,
}

/// The states of one rule name as the contracts speak of them: the name,
/// and each key with its state, oldest first.
pub type GroupView = (Seq<char>, Seq<(RuleKey, StateView)>);

/// The clock readings one rule's evaluation of an event made: when a new
/// state was made, and when the event was counted.
pub struct Observation {
    pub created: Instant,
    pub now: Instant,
}

/// Nanoseconds after its last update that a state may be dropped by a
/// cleanup unless it is banned.
pub const IDLE_NANOS: u128 = 60_000_000_000;

/// The position of the group of `name`, or -1.
pub open spec fn find_group(gs: Seq<GroupView>, name: Seq<char>) -> int {
    if exists|i: int| 0 <= i < gs.len() && gs[i].0 == name {
        choose|i: int| 0 <= i < gs.len() && gs[i].0 == name
    } else {
        -1
    }
}

/// The position of the entry of `key`, or -1.
pub open spec fn find_entry(es: Seq<(RuleKey, StateView)>, key: RuleKey) -> int {
    if exists|i: int| 0 <= i < es.len() && es[i].0 == key {
        choose|i: int| 0 <= i < es.len() && es[i].0 == key
    } else {
        -1
    }
}

/// No two groups share a name.
pub open spec fn names_unique(gs: Seq<GroupView>) -> bool {
    forall|i: int, j: int| 0 <= i < gs.len() && 0 <= j < gs.len() && i != j ==> gs[i].0 != gs[j].0
}

/// No two entries share a key.
pub open spec fn keys_unique(es: Seq<(RuleKey, StateView)>) -> bool {
    forall|i: int, j: int| 0 <= i < es.len() && 0 <= j < es.len() && i != j ==> es[i].0 != es[j].0
}

/// Every state is well formed.
pub open spec fn entries_wf(es: Seq<(RuleKey, StateView)>) -> bool {
    forall|i: int| 0 <= i < es.len() ==> state_wf(#[trigger] es[i].1)
}

/// Names are unique, keys are unique within a group, states are well formed,
/// and every group belongs to a rule of that name.
pub open spec fn groups_wf(gs: Seq<GroupView>, rules: Seq<RuleView>) -> bool {
    &&& names_unique(gs)
    &&& forall|g: int|
        0 <= g < gs.len() ==> keys_unique(#[trigger] gs[g].1) && entries_wf(gs[g].1) && exists|
            r: int,
        |
            0 <= r < rules.len() && rules[r].name == gs[g].0
}

/// The number of states kept.
pub open spec fn total_entries(gs: Seq<GroupView>) -> nat
    decreases gs.len(),
{
    if gs.len() == 0 {
        0
    } else {
        total_entries(gs.drop_last()) + gs.last().1.len()
    }
}

/// The ban a rule issues for an event: the address for a per-address rule,
/// the network around it for a per-network rule, with the reason text.
pub open spec fn ban_for(r: RuleView, ev: NetworkEvent) -> BanView {
    match r.rule_type {
        RuleType::Ip => BanView {
            src_ip: ev.src_ip,
            rule_name: r.name,
            duration: r.block_duration,
            reason: "Rule "@ + r.name + " triggered for "@ + ip_text(ev.src_ip),
            cidr: None,
        },
        RuleType::Cidr => BanView {
            src_ip: ev.src_ip,
            rule_name: r.name,
            duration: r.block_duration,
            reason: "Rule "@ + r.name + " triggered for CIDR "@ + network_text(cidr_of(r, ev.src_ip)),
            cidr: Some(cidr_of(r, ev.src_ip)),
        },
    }
}

/// One rule's evaluation of an event. A rule that does not match changes
/// nothing. One that matches finds (or makes, last in order) the group of its
/// name and the entry of the event's key (a new entry is a fresh state made
/// at `o.created`), counts the event there, and bans when the state says so.
pub open spec fn step(gs: Seq<GroupView>, r: RuleView, ev: NetworkEvent, o: Observation) -> (Seq<
    GroupView,
>, Option<BanView>) {
    if !rule_matches(r, ev) {
        (gs, None)
    } else {
        let key = key_of(r, ev.src_ip);
        let gi = find_group(gs, r.name);
        let gs1 = if gi < 0 {
            gs.push((r.name, Seq::<(RuleKey, StateView)>::empty()))
        } else {
            gs
        };
        let g = if gi < 0 {
            gs.len() as int
        } else {
            gi
        };
        let es = gs1[g].1;
        let ei = find_entry(es, key);
        let es1 = if ei < 0 {
            es.push((key, fresh_state(r.window_secs, o.created)))
        } else {
            es
        };
        let e = if ei < 0 {
            es.len() as int
        } else {
            ei
        };
        let d = decided_at(es1[e].1, r.threshold, r.block_duration, o.now);
        let gs2 = gs1.update(g, (gs1[g].0, es1.update(e, (key, d.0))));
        (gs2, if d.1 {
            Some(ban_for(r, ev))
        } else {
            None
        })
    }
}

/// The first `n` rules' evaluation of an event, in order, with one
/// observation per rule: the groups after, and the bans issued in order.
pub open spec fn evaluated(
    gs: Seq<GroupView>,
    rules: Seq<RuleView>,
    ev: NetworkEvent,
    obs: Seq<Observation>,
    n: nat,
) -> (Seq<GroupView>, Seq<BanView>)
    decreases n,
{
    if n == 0 {
        (gs, Seq::empty())
    } else {
        let prev = evaluated(gs, rules, ev, obs, (n - 1) as nat);
        let s = step(prev.0, rules[n - 1], ev, obs[n - 1]);
        (s.0, match s.1 {
            Some(b) => prev.1.push(b),
            None => prev.1,
        })
    }
}

/// Every rule that matches the event can be applied to it: its window is
/// longer than zero seconds and, for a per-network rule, its prefix for the
/// event's family is usable.
pub open spec fn rules_apply(rules: Seq<RuleView>, ev: NetworkEvent) -> bool {
    forall|i: int|
        0 <= i < rules.len() && rule_matches(#[trigger] rules[i], ev) ==> rules[i].window_secs > 0
            && key_ok(rules[i], ev.src_ip)
}

/// The entries whose mask bit is set, in order.
pub open spec fn filter_mask<E>(es: Seq<E>, mask: Seq<bool>) -> Seq<E>
    decreases es.len(),
{
    if es.len() == 0 {
        Seq::empty()
    } else {
        let prev = filter_mask(es.drop_last(), mask.take(es.len() - 1));
        if mask[es.len() - 1] {
            prev.push(es.last())
        } else {
            prev
        }
    }
}

/// The number of entries that are not banned.
pub open spec fn unbanned_count(es: Seq<(RuleKey, StateView)>) -> nat
    decreases es.len(),
{
    if es.len() == 0 {
        0
    } else {
        unbanned_count(es.drop_last()) + if es.last().1.banned {
            0nat
        } else {
            1nat
        }
    }
}

/// Which entries a size limit keeps: the banned ones, and the unbanned ones
/// after the first `to_remove` unbanned ones.
pub open spec fn limit_mask(es: Seq<(RuleKey, StateView)>, to_remove: nat) -> Seq<bool> {
    Seq::new(es.len(), |i: int| es[i].1.banned || unbanned_count(es.take(i)) >= to_remove)
}

/// How many unbanned entries of a group a size limit removes: those above
/// `quota`.
pub open spec fn limit_removal(es: Seq<(RuleKey, StateView)>, quota: nat) -> nat {
    if unbanned_count(es) > quota {
        (unbanned_count(es) - quota) as nat
    } else {
        0
    }
}

/// The groups after the size limit: when more than `max_entries` states are
/// kept (counted up to `usize::MAX`), each group keeps at most
/// `max_entries / rule_count` unbanned states, dropping its oldest unbanned
/// ones; banned states are always kept.
pub open spec fn pruned(gs: Seq<GroupView>, max_entries: usize, rule_count: nat) -> Seq<GroupView> {
    if min_count(total_entries(gs)) > max_entries {
        let quota = max_entries as nat / rule_count;
        Seq::new(
            gs.len(),
            |g: int|
                (
                    gs[g].0,
                    filter_mask(gs[g].1, limit_mask(gs[g].1, limit_removal(gs[g].1, quota))),
                ),
        )
    } else {
        gs
    }
}

/// A count as a `usize`, saturating.
pub open spec fn min_count(n: nat) -> nat {
    if n > usize::MAX {
        usize::MAX as nat
    } else {
        n
    }
}

/// A mask for every group keeps every banned state.
pub open spec fn keeps_banned(gs: Seq<GroupView>, keep: Seq<Seq<bool>>) -> bool {
    &&& keep.len() == gs.len()
    &&& forall|g: int|
        0 <= g < gs.len() ==> (#[trigger] keep[g]).len() == gs[g].1.len() && forall|e: int|
            0 <= e < gs[g].1.len() && gs[g].1[e].1.banned ==> keep[g][e]
}

/// The idle times as the contracts speak of them.
pub open spec fn idle_view(idle: &Vec<Vec<u128>>) -> Seq<Seq<u128>> {
    idle@.map_values(|v: Vec<u128>| v@)
}

/// One idle time per state, group by group.
pub open spec fn idle_shaped(gs: Seq<GroupView>, idle: Seq<Seq<u128>>) -> bool {
    &&& idle.len() == gs.len()
    &&& forall|g: int| 0 <= g < gs.len() ==> (#[trigger] idle[g]).len() == gs[g].1.len()
}

/// Each state's idle time as read at `now`: the time since its window's
/// last update.
pub open spec fn idle_at(gs: Seq<GroupView>, now: Instant) -> Seq<Seq<u128>> {
    Seq::new(
        gs.len(),
        |g: int| Seq::new(gs[g].1.len(), |e: int| nanos_from(now, gs[g].1[e].1.window.last_update)),
    )
}

/// Which states a clean-up keeps: those banned, and those idle for less
/// than a minute.
pub open spec fn idle_mask(gs: Seq<GroupView>, idle: Seq<Seq<u128>>) -> Seq<Seq<bool>> {
    Seq::new(
        gs.len(),
        |g: int| Seq::new(gs[g].1.len(), |e: int| gs[g].1[e].1.banned || idle[g][e] < IDLE_NANOS),
    )
}

/// The clean-up's mask keeps every banned state.
pub proof fn lemma_idle_mask_keeps_banned(gs: Seq<GroupView>, idle: Seq<Seq<u128>>)
    ensures
        keeps_banned(gs, idle_mask(gs, idle)),
{
}

/// The groups with only the masked states kept.
pub open spec fn retained(gs: Seq<GroupView>, keep: Seq<Seq<bool>>) -> Seq<GroupView> {
    Seq::new(gs.len(), |g: int| (gs[g].0, filter_mask(gs[g].1, keep[g])))
}

/// The rule engine: the rules in order, the states of each rule name, and
/// the channels on which bans go to the firewall and to storage.
pub struct RuleEngine {
    rules: Vec<Rule>,
    states: Vec<RuleGroup>,
    tx: Sender<BanAction>,
    storage_tx: Sender<BanAction>,
    offers: Ghost<Seq<Offer<BanAction>>>,
}

/// The offers at `at` and `at + 1` hand the ban `b` to the firewall's channel
/// `fw` and then to storage's channel `st`.
pub open spec fn offered_pair(
    o: Seq<Offer<BanAction>>,
    at: int,
    b: BanView,
    fw: Sender<BanAction>,
    st: Sender<BanAction>,
) -> bool {
    &&& o[at].message().view() == b
    &&& o[at].channel() == fw
    &&& o[at + 1].message().view() == b
    &&& o[at + 1].channel() == st
}

/// From position `start` on, the offers hand each ban of `bans`, in order, to
/// the firewall's channel and then to storage's, and there are no others.
pub open spec fn offered_in_order(
    o: Seq<Offer<BanAction>>,
    start: int,
    bans: Seq<BanView>,
    fw: Sender<BanAction>,
    st: Sender<BanAction>,
) -> bool {
    &&& o.len() == start + 2 * bans.len()
    &&& forall|j: int| 0 <= j < bans.len() ==> offered_pair(o, start + 2 * j, #[trigger] bans[j], fw, st)
}

spec fn entry_view(e: StateEntry) -> (RuleKey, StateView) {
    (e.key, e.state.view())
}

spec fn entries_view(es: Seq<StateEntry>) -> Seq<(RuleKey, StateView)> {
    es.map_values(|e: StateEntry| entry_view(e))
}

spec fn group_view(g: RuleGroup) -> GroupView {
    (g.name@, entries_view(g.entries@))
}

impl RuleEngine {
    /// The rules, in order.
    pub closed spec fn rules_view(&self) -> Seq<RuleView> {
        self.rules@.map_values(|r: Rule| r.view())
    }

    /// The states of each rule name.
    pub closed spec fn groups_view(&self) -> Seq<GroupView> {
        self.states@.map_values(|g: RuleGroup| group_view(g))
    }

    /// Every ban offered on the channels so far, in order.
    pub closed spec fn offers(&self) -> Seq<Offer<BanAction>> {
        self.offers@
    }

    /// The channel bans go to the firewall on.
    pub closed spec fn firewall_channel(&self) -> Sender<BanAction> {
        self.tx
    }

    /// The channel bans go to storage on.
    pub closed spec fn storage_channel(&self) -> Sender<BanAction> {
        self.storage_tx
    }

    /// The engine has made the offers of `before` and holds its channels.
    pub open spec fn offers_kept(&self, before: &RuleEngine) -> bool {
        &&& self.offers() == before.offers()
        &&& self.firewall_channel() == before.firewall_channel()
        &&& self.storage_channel() == before.storage_channel()
    }

    /// The engine's states are consistent with its rules.
    pub open spec fn wf(&self) -> bool {
        groups_wf(self.groups_view(), self.rules_view())
    }

    /// An engine with `rules` and no states.
    pub fn new(rules: Vec<Rule>, tx: Sender<BanAction>, storage_tx: Sender<BanAction>) -> (e: Self)
        ensures
            e.rules_view() == rules@.map_values(|r: Rule| r.view()),
            e.groups_view() == Seq::<GroupView>::empty(),
            e.offers() == Seq::<Offer<BanAction>>::empty(),
            e.firewall_channel() == tx,
            e.storage_channel() == storage_tx,
            e.wf(),
    {
        let e = RuleEngine { rules, states: Vec::new(), tx, storage_tx, offers: Ghost(Seq::empty()) };
        assert(e.groups_view() =~= Seq::<GroupView>::empty());
        e
    }

    /// The number of rules.
    pub fn rule_count(&self) -> (r: usize)
        ensures
            r == self.rules_view().len(),
    {
        self.rules.len()
    }

    /// The number of states kept, saturating at `usize::MAX`.
    pub fn state_count(&self) -> (r: usize)
        ensures
            r == min_count(total_entries(self.groups_view())),
    {
        let mut sum: usize = 0;
        let mut i: usize = 0;
        while i < self.states.len()
            invariant
                i <= self.states@.len(),
                sum == min_count(total_entries(self.groups_view().take(i as int))),
            decreases self.states@.len() - i,
        {
            proof {
                assert(self.groups_view().take(i + 1).drop_last() =~= self.groups_view().take(
                    i as int,
                ));
            }
            let n = self.states[i].entries.len();
            sum = if sum <= usize::MAX - n {
                sum + n
            } else {
                usize::MAX
            };
            i = i + 1;
        }
        assert(self.groups_view().take(i as int) =~= self.groups_view());
        sum
    }
}


/// The position of the entry of `key`, if any.
fn entry_position(entries: &Vec<StateEntry>, key: &RuleKey) -> (r: Option<usize>)
    requires
        keys_unique(entries_view(entries@)),
    ensures
        match r {
            Some(i) => i < entries@.len() && find_entry(entries_view(entries@), *key) == i,
            None => find_entry(entries_view(entries@), *key) == -1,
        },
{
    let ghost ev = entries_view(entries@);
    let mut i: usize = 0;
    while i < entries.len()
        invariant
            i <= entries@.len(),
            ev == entries_view(entries@),
            keys_unique(ev),
            forall|j: int| 0 <= j < i ==> ev[j].0 != *key,
        decreases entries@.len() - i,
    {
        if entries[i].key == *key {
            proof {
                assert(ev[i as int].0 == *key);
                let c = choose|j: int| 0 <= j < ev.len() && ev[j].0 == *key;
                assert(c == i);
            }
            return Some(i);
        }
        i = i + 1;
    }
    None
}

/// The ban a rule issues for an event.
fn make_ban(rule: &Rule, event: &NetworkEvent) -> (b: BanAction)
    requires
        key_ok(rule.view(), event.src_ip),
    ensures
        b.view() == ban_for(rule.view(), *event),
        b.cidr matches Some(n) ==> n.valid(),
{
    let mut reason = "Rule ".to_owned();
    reason.append(rule.name.as_str());
    match rule.rule_type {
        RuleType::Ip => {
            reason.append(" triggered for ");
            let t = ip_to_string(&event.src_ip);
            reason.append(t.as_str());
            BanAction::new(event.src_ip, rule.name.clone(), rule.block_duration, reason)
        },
        RuleType::Cidr => {
            let cidr = rule.get_cidr(&event.src_ip);
            reason.append(" triggered for CIDR ");
            let t = network_to_string(&cidr);
            reason.append(t.as_str());
            BanAction::new_cidr(event.src_ip, rule.name.clone(), rule.block_duration, reason, cidr)
        },
    }
}

impl RuleEngine {
    /// The position of the group of `name`, if any.
    fn group_position(&self, name: &String) -> (r: Option<usize>)
        requires
            names_unique(self.groups_view()),
        ensures
            match r {
                Some(i) => i < self.states@.len() && find_group(self.groups_view(), name@) == i,
                None => find_group(self.groups_view(), name@) == -1,
            },
    {
        let ghost gv = self.groups_view();
        let mut i: usize = 0;
        while i < self.states.len()
            invariant
                i <= self.states@.len(),
                gv == self.groups_view(),
                names_unique(gv),
                forall|j: int| 0 <= j < i ==> gv[j].0 != name@,
            decreases self.states@.len() - i,
        {
            if self.states[i].name == *name {
                proof {
                    assert(gv[i as int].0 == name@);
                    let c = choose|j: int| 0 <= j < gv.len() && gv[j].0 == name@;
                    assert(c == i);
                }
                return Some(i);
            }
            i = i + 1;
        }
        None
    }

    /// Counts the event against every rule it matches, in order, and returns
    /// the bans this issues, in order.
    pub fn decide(&mut self, event: &NetworkEvent) -> (bans: Vec<BanAction>)
        requires
            old(self).wf(),
            rules_apply(old(self).rules_view(), *event),
        ensures
            final(self).wf(),
            final(self).rules_view() == old(self).rules_view(),
            final(self).offers_kept(&*old(self)),
            exists|obs: Seq<Observation>|
                obs.len() == old(self).rules_view().len() && #[trigger] evaluated(
                    old(self).groups_view(),
                    old(self).rules_view(),
                    *event,
                    obs,
                    old(self).rules_view().len(),
                ) == (final(self).groups_view(), bans@.map_values(|b: BanAction| b.view())),
            forall|i: int| 0 <= i < bans@.len() ==> ((#[trigger] bans@[i]).cidr matches Some(n) ==> n.valid()),
    {
        let mut bans: Vec<BanAction> = Vec::new();
        let ghost mut obs: Seq<Observation> = Seq::empty();
        let ghost rv = self.rules_view();
        let ghost gv0 = self.groups_view();
        let ghost start = *self;
        let n = self.rules.len();
        let mut i: usize = 0;
        while i < n
            invariant
                n == self.rules@.len(),
                i <= n,
                rv == self.rules_view(),
                self.offers_kept(&start),
                rules_apply(rv, *event),
                groups_wf(self.groups_view(), rv),
                obs.len() == i,
                evaluated(gv0, rv, *event, obs, i as nat) == (self.groups_view(), bans@.map_values(|b: BanAction| b.view())),
                forall|k: int| 0 <= k < bans@.len() ==> ((#[trigger] bans@[k]).cidr matches Some(c) ==> c.valid()),
            decreases n - i,
        {
            assert(self.rules_view()[i as int] == self.rules@[i as int].view());
            let ghost gv = self.groups_view();
            let ghost bv = bans@.map_values(|b: BanAction| b.view());
            if self.rules[i].matches(event) {
                let key = self.rules[i].get_key(&event.src_ip);
                let ghost r = rv[i as int];
                let ghost gi = find_group(gv, r.name);
                let g = match self.group_position(&self.rules[i].name) {
                    Some(g) => g,
                    None => {
                        let name = self.rules[i].name.clone();
                        self.states.push(RuleGroup { name, entries: Vec::new() });
                        proof {
                            assert(entries_view(Seq::<StateEntry>::empty()) =~= Seq::<(RuleKey, StateView)>::empty());
                            assert(self.groups_view() =~= gv.push((r.name, Seq::<(RuleKey, StateView)>::empty())));
                        }
                        self.states.len() - 1
                    },
                };
                let ghost gs1 = self.groups_view();
                assert(gs1 == (if gi < 0 { gv.push((r.name, Seq::<(RuleKey, StateView)>::empty())) } else { gv }));
                assert(g == (if gi < 0 { gv.len() as int } else { gi }));
                proof {
                    lemma_group_added_wf(gv, gs1, rv, i as int, gi);
                }
                let ghost es = gs1[g as int].1;
                let ghost ei = find_entry(es, key);
                let ghost mut created: Instant = arbitrary();
                let e = match entry_position(&self.states[g].entries, &key) {
                    Some(e) => e,
                    None => {
                        let st = RuleState::new(self.rules[i].window_secs);
                        proof {
                            created = choose|t: Instant| st.view() == fresh_state(r.window_secs, t);
                        }
                        let ghost before = self.states@;
                        self.states[g].entries.push(StateEntry { key, state: st });
                        proof {
                            assert(entries_view(self.states@[g as int].entries@) =~= es.push((key, fresh_state(r.window_secs, created))));
                            assert(self.groups_view() =~= gs1.update(g as int, (r.name, es.push((key, fresh_state(r.window_secs, created))))));
                        }
                        self.states[g].entries.len() - 1
                    },
                };
                let ghost es1 = if ei < 0 { es.push((key, fresh_state(r.window_secs, created))) } else { es };
                assert(e == (if ei < 0 { es.len() as int } else { ei }));
                proof {
                    if ei >= 0 {
                        assert(self.groups_view() =~= gs1.update(g as int, (r.name, es1)));
                    }
                    assert(rule_matches(r, *event));
                    assert(r.window_secs > 0);
                    lemma_fresh_wf(r.window_secs, created);
                    lemma_entry_added_wf(gs1, g as int, es, key, ei, fresh_state(r.window_secs, created), rv);
                }
                assert(self.groups_view() == gs1.update(g as int, (r.name, es1)));
                assert(entries_view(self.states@[g as int].entries@) == es1);
                let mut entry = self.states[g].entries[e];
                assert(entry_view(entry) == es1[e as int]);
                proof {
                    let gs2 = gs1.update(g as int, (r.name, es1));
                    assert(gs2[g as int].1 == es1);
                    assert(entries_wf(gs2[g as int].1));
                    assert(state_wf(es1[e as int].1));
                }
                let fired = entry.state.should_ban(self.rules[i].threshold, self.rules[i].block_duration);
                let ghost now = choose|t: Instant|
                    (entry.state.view(), fired) == #[trigger] decided_at(es1[e as int].1, r.threshold, r.block_duration, t);
                let ghost d = decided_at(es1[e as int].1, r.threshold, r.block_duration, now);
                self.states[g].entries.set(e, entry);
                proof {
                    assert(entries_view(self.states@[g as int].entries@) =~= es1.update(e as int, (key, d.0)));
                    assert(self.groups_view() =~= gs1.update(g as int, (r.name, es1.update(e as int, (key, d.0)))));
                    lemma_state_updated_wf(gs1, g as int, es1, e as int, key, d.0, rv);
                }
                let ghost bans_before = bans@;
                if fired {
                    let b = make_ban(&self.rules[i], event);
                    bans.push(b);
                }
                proof {
                    let o = Observation { created, now };
                    let obs2 = obs.push(o);
                    lemma_evaluated_prefix(gv0, rv, *event, obs, obs2, i as nat);
                    obs = obs2;
                    if fired {
                        assert(bans@.map_values(|b: BanAction| b.view()) =~= bv.push(ban_for(r, *event)));
                    } else {
                        assert(bans@ == bans_before);
                    }
                }
            } else {
                proof {
                    let o = Observation { created: arbitrary(), now: arbitrary() };
                    let obs2 = obs.push(o);
                    lemma_evaluated_prefix(gv0, rv, *event, obs, obs2, i as nat);
                    obs = obs2;
                }
            }
            i = i + 1;
        }
        bans
    }
}


/// `evaluated` reads only the observations of the rules it has evaluated.
/// An event that no rule matches changes no state and issues no ban.
pub proof fn lemma_unmatched_event_changes_nothing(
    gs: Seq<GroupView>,
    rules: Seq<RuleView>,
    ev: NetworkEvent,
    obs: Seq<Observation>,
    n: nat,
)
    requires
        n <= rules.len(),
        forall|i: int| 0 <= i < n ==> !rule_matches(#[trigger] rules[i], ev),
    ensures
        evaluated(gs, rules, ev, obs, n) == (gs, Seq::<BanView>::empty()),
    decreases n,
{
    if n > 0 {
        lemma_unmatched_event_changes_nothing(gs, rules, ev, obs, (n - 1) as nat);
    }
}

/// The bans an evaluation issues are at most one per rule, and each is the
/// ban of a rule that matches the event.
pub proof fn lemma_bans_come_from_matching_rules(
    gs: Seq<GroupView>,
    rules: Seq<RuleView>,
    ev: NetworkEvent,
    obs: Seq<Observation>,
    n: nat,
)
    requires
        n <= rules.len(),
    ensures
        evaluated(gs, rules, ev, obs, n).1.len() <= n,
        forall|k: int|
            #![trigger evaluated(gs, rules, ev, obs, n).1[k]]
            0 <= k < evaluated(gs, rules, ev, obs, n).1.len() ==> exists|i: int|
                0 <= i < n && rule_matches(#[trigger] rules[i], ev) && evaluated(gs, rules, ev, obs, n).1[k]
                    == ban_for(rules[i], ev),
    decreases n,
{
    if n > 0 {
        lemma_bans_come_from_matching_rules(gs, rules, ev, obs, (n - 1) as nat);
        let prev = evaluated(gs, rules, ev, obs, (n - 1) as nat);
        let st = step(prev.0, rules[n - 1], ev, obs[n - 1]);
        let cur = evaluated(gs, rules, ev, obs, n);
        assert forall|k: int| #![trigger cur.1[k]] 0 <= k < cur.1.len() implies exists|i: int|
            0 <= i < n && rule_matches(#[trigger] rules[i], ev) && cur.1[k] == ban_for(rules[i], ev) by {
            if k < prev.1.len() {
                assert(cur.1[k] == prev.1[k]);
                let i = choose|i: int|
                    0 <= i < n - 1 && rule_matches(#[trigger] rules[i], ev) && prev.1[k] == ban_for(rules[i], ev);
                assert(0 <= i < n && rule_matches(rules[i], ev) && cur.1[k] == ban_for(rules[i], ev));
            } else {
                assert(rule_matches(rules[n - 1], ev));
                assert(cur.1[k] == ban_for(rules[n - 1], ev));
            }
        }
    }
}

/// Every ban an evaluation issues comes from a rule that matches the event:
/// it names that rule, lasts the rule's `block_duration`, is for the event's
/// source, and bans no network for a per-address rule, or, for a
/// per-network rule, a network of the rule's prefix that contains the source.
pub proof fn lemma_ban_contents(
    gs: Seq<GroupView>,
    rules: Seq<RuleView>,
    ev: NetworkEvent,
    obs: Seq<Observation>,
    n: nat,
    k: int,
)
    requires
        n <= rules.len(),
        rules_apply(rules, ev),
        0 <= k < evaluated(gs, rules, ev, obs, n).1.len(),
    ensures
        exists|i: int|
            #![trigger rules[i]]
            0 <= i < n && rule_matches(rules[i], ev) && {
                let b = evaluated(gs, rules, ev, obs, n).1[k];
                &&& b.rule_name == rules[i].name
                &&& b.duration == rules[i].block_duration
                &&& b.src_ip == ev.src_ip
                &&& rules[i].rule_type == RuleType::Ip ==> b.cidr is None
                &&& rules[i].rule_type == RuleType::Cidr ==> (b.cidr matches Some(net)
                    && net.spec_contains(ev.src_ip) && net.prefix_len == prefix_for(rules[i], ev.src_ip))
            },
{
    lemma_bans_come_from_matching_rules(gs, rules, ev, obs, n);
    let b = evaluated(gs, rules, ev, obs, n).1[k];
    let i = choose|i: int|
        0 <= i < n && rule_matches(#[trigger] rules[i], ev) && b == ban_for(rules[i], ev);
    assert(rule_matches(rules[i], ev));
    if rules[i].rule_type == RuleType::Cidr {
        assert(key_ok(rules[i], ev.src_ip));
        super::lemma_cidr_key_groups(rules[i], ev.src_ip, ev.src_ip);
    }
}

proof fn lemma_evaluated_prefix(
    gs: Seq<GroupView>,
    rules: Seq<RuleView>,
    ev: NetworkEvent,
    obs1: Seq<Observation>,
    obs2: Seq<Observation>,
    n: nat,
)
    requires
        n <= obs1.len(),
        n <= obs2.len(),
        forall|j: int| 0 <= j < n ==> obs1[j] == obs2[j],
    ensures
        evaluated(gs, rules, ev, obs1, n) == evaluated(gs, rules, ev, obs2, n),
    decreases n,
{
    if n > 0 {
        lemma_evaluated_prefix(gs, rules, ev, obs1, obs2, (n - 1) as nat);
    }
}

/// A fresh state of a window longer than zero seconds is well formed.
proof fn lemma_fresh_wf(window_secs: u32, t: Instant)
    requires
        window_secs > 0,
    ensures
        state_wf(fresh_state(window_secs, t)),
{
    assert((window_secs as nat * 1_000_000_000) / 4 > 0) by (nonlinear_arith)
        requires
            window_secs > 0,
    ;
    assert((window_secs as nat * 1_000_000_000) / 4 <= u64::MAX) by (nonlinear_arith)
        requires
            window_secs <= u32::MAX,
    ;
}

/// Finding or adding the group of rule `i`'s name keeps the groups well formed.
proof fn lemma_group_added_wf(gv: Seq<GroupView>, gs1: Seq<GroupView>, rv: Seq<RuleView>, i: int, gi: int)
    requires
        groups_wf(gv, rv),
        0 <= i < rv.len(),
        gi == find_group(gv, rv[i].name),
        gs1 == (if gi < 0 {
            gv.push((rv[i].name, Seq::<(RuleKey, StateView)>::empty()))
        } else {
            gv
        }),
    ensures
        groups_wf(gs1, rv),
        gi >= 0 ==> 0 <= gi < gv.len() && gv[gi].0 == rv[i].name,
        gi < 0 ==> gs1[gv.len() as int].0 == rv[i].name,
{
    if gi < 0 {
        assert(!exists|j: int| 0 <= j < gv.len() && gv[j].0 == rv[i].name);
        assert forall|g: int| 0 <= g < gs1.len() implies keys_unique(#[trigger] gs1[g].1) && entries_wf(gs1[g].1)
            && exists|r: int| 0 <= r < rv.len() && rv[r].name == gs1[g].0 by {
            if g < gv.len() {
                assert(gs1[g] == gv[g]);
            } else {
                assert(rv[i].name == gs1[g].0);
            }
        }
    }
}

/// Finding or adding the entry of `key` in group `g` keeps the groups well
/// formed.
proof fn lemma_entry_added_wf(
    gs1: Seq<GroupView>,
    g: int,
    es: Seq<(RuleKey, StateView)>,
    key: RuleKey,
    ei: int,
    fresh: StateView,
    rv: Seq<RuleView>,
)
    requires
        groups_wf(gs1, rv),
        0 <= g < gs1.len(),
        es == gs1[g].1,
        ei == find_entry(es, key),
        ei < 0 ==> state_wf(fresh),
    ensures
        groups_wf(
            gs1.update(
                g,
                (gs1[g].0, if ei < 0 {
                    es.push((key, fresh))
                } else {
                    es
                }),
            ),
            rv,
        ),
        ei >= 0 ==> 0 <= ei < es.len() && es[ei].0 == key,
{
    let es1 = if ei < 0 {
        es.push((key, fresh))
    } else {
        es
    };
    let gs2 = gs1.update(g, (gs1[g].0, es1));
    assert(keys_unique(gs1[g].1));
    if ei < 0 {
        assert(!exists|j: int| 0 <= j < es.len() && es[j].0 == key);
        assert(keys_unique(es1));
        assert(entries_wf(es1)) by {
            assert forall|j: int| 0 <= j < es1.len() implies state_wf(#[trigger] es1[j].1) by {
                if j < es.len() {
                    assert(es1[j] == es[j]);
                }
            }
        }
    }
    assert forall|h: int| 0 <= h < gs2.len() implies keys_unique(#[trigger] gs2[h].1) && entries_wf(gs2[h].1)
        && exists|r: int| 0 <= r < rv.len() && rv[r].name == gs2[h].0 by {
        if h != g {
            assert(gs2[h] == gs1[h]);
        }
    }
}

/// Replacing the state of one entry by a well-formed one keeps the groups
/// well formed.
proof fn lemma_state_updated_wf(
    gs1: Seq<GroupView>,
    g: int,
    es1: Seq<(RuleKey, StateView)>,
    e: int,
    key: RuleKey,
    st: StateView,
    rv: Seq<RuleView>,
)
    requires
        0 <= g < gs1.len(),
        groups_wf(gs1.update(g, (gs1[g].0, es1)), rv),
        0 <= e < es1.len(),
        es1[e].0 == key,
        state_wf(st),
    ensures
        groups_wf(gs1.update(g, (gs1[g].0, es1.update(e, (key, st)))), rv),
{
    let gsa = gs1.update(g, (gs1[g].0, es1));
    let gsb = gs1.update(g, (gs1[g].0, es1.update(e, (key, st))));
    assert(keys_unique(gsa[g].1) && entries_wf(gsa[g].1));
    let es2 = es1.update(e, (key, st));
    assert(keys_unique(es2)) by {
        assert forall|a: int, b: int| 0 <= a < es2.len() && 0 <= b < es2.len() && a != b implies es2[a].0 != es2[b].0 by {
            assert(es2[a].0 == es1[a].0);
            assert(es2[b].0 == es1[b].0);
        }
    }
    assert(entries_wf(es2)) by {
        assert forall|j: int| 0 <= j < es2.len() implies state_wf(#[trigger] es2[j].1) by {
            if j != e {
                assert(es2[j] == es1[j]);
            }
        }
    }
    assert forall|h: int| 0 <= h < gsb.len() implies keys_unique(#[trigger] gsb[h].1) && entries_wf(gsb[h].1)
        && exists|r: int| 0 <= r < rv.len() && rv[r].name == gsb[h].0 by {
        if h != g {
            assert(gsb[h] == gsa[h]);
        } else {
            assert(gsb[h].0 == gsa[h].0);
        }
    }
    assert(names_unique(gsb)) by {
        assert forall|a: int, b: int| 0 <= a < gsb.len() && 0 <= b < gsb.len() && a != b implies gsb[a].0 != gsb[b].0 by {
            assert(gsb[a].0 == gsa[a].0);
            assert(gsb[b].0 == gsa[b].0);
        }
    }
}


impl RuleEngine {
    /// Counts the event against every rule it matches, in order, and offers
    /// each ban this issues to the firewall's channel and then to storage's.
    /// A full or closed channel drops the ban there; the evaluation still
    /// succeeds.
    pub fn evaluate(&mut self, event: &NetworkEvent) -> (r: Result<(), Error>)
        requires
            old(self).wf(),
            rules_apply(old(self).rules_view(), *event),
        ensures
            r is Ok,
            final(self).wf(),
            final(self).rules_view() == old(self).rules_view(),
            final(self).firewall_channel() == old(self).firewall_channel(),
            final(self).storage_channel() == old(self).storage_channel(),
            final(self).offers().take(old(self).offers().len() as int) == old(self).offers(),
            exists|obs: Seq<Observation>|
                obs.len() == old(self).rules_view().len() && (#[trigger] evaluated(
                    old(self).groups_view(),
                    old(self).rules_view(),
                    *event,
                    obs,
                    old(self).rules_view().len(),
                )).0 == final(self).groups_view() && offered_in_order(
                    final(self).offers(),
                    old(self).offers().len() as int,
                    evaluated(
                        old(self).groups_view(),
                        old(self).rules_view(),
                        *event,
                        obs,
                        old(self).rules_view().len(),
                    ).1,
                    old(self).firewall_channel(),
                    old(self).storage_channel(),
                ),
    {
        let ghost o0 = self.offers();
        let bans = self.decide(event);
        let ghost decided_self = *self;
        let ghost bv = bans@.map_values(|b: BanAction| b.view());
        let mut j: usize = 0;
        while j < bans.len()
            invariant
                j <= bans@.len(),
                self.wf(),
                self.rules_view() == decided_self.rules_view(),
                self.groups_view() == decided_self.groups_view(),
                self.firewall_channel() == decided_self.firewall_channel(),
                self.storage_channel() == decided_self.storage_channel(),
                bv == bans@.map_values(|b: BanAction| b.view()),
                self.offers().len() == o0.len() + 2 * j,
                self.offers().take(o0.len() as int) == o0,
                forall|k: int|
                    0 <= k < j ==> offered_pair(
                        self.offers(),
                        o0.len() + 2 * k,
                        #[trigger] bv[k],
                        self.tx,
                        self.storage_tx,
                    ),
            decreases bans@.len() - j,
        {
            let ghost before = self.offers();
            let to_firewall = bans[j].duplicate();
            let first = try_send(&self.tx, to_firewall);
            let to_storage = bans[j].duplicate();
            let second = try_send(&self.storage_tx, to_storage);
            proof {
                self.offers@ = self.offers@.push(first).push(second);
                assert(self.offers().take(o0.len() as int) =~= before.take(o0.len() as int));
                assert forall|k: int| 0 <= k < j + 1 implies offered_pair(
                    self.offers(),
                    o0.len() + 2 * k,
                    #[trigger] bv[k],
                    self.tx,
                    self.storage_tx,
                ) by {
                    if k < j {
                        assert(self.offers()[o0.len() + 2 * k] == before[o0.len() + 2 * k]);
                        assert(self.offers()[o0.len() + 2 * k + 1] == before[o0.len() + 2 * k + 1]);
                    }
                }
            }
            j = j + 1;
        }
        Ok(())
    }

    /// Whether `evaluate` can take the event: every rule it matches has a
    /// window longer than zero seconds and, per network, a usable prefix.
    pub fn accepts(&self, event: &NetworkEvent) -> (r: bool)
        ensures
            r == rules_apply(self.rules_view(), *event),
    {
        let mut i: usize = 0;
        while i < self.rules.len()
            invariant
                i <= self.rules@.len(),
                forall|j: int|
                    0 <= j < i && rule_matches(#[trigger] self.rules_view()[j], *event)
                        ==> self.rules_view()[j].window_secs > 0 && key_ok(
                        self.rules_view()[j],
                        event.src_ip,
                    ),
            decreases self.rules@.len() - i,
        {
            assert(self.rules_view()[i as int] == self.rules@[i as int].view());
            let rule = &self.rules[i];
            if rule.matches(event) {
                if rule.window_secs == 0 {
                    return false;
                }
                match rule.rule_type {
                    RuleType::Ip => {},
                    RuleType::Cidr => {
                        let ok = match event.src_ip {
                            IpAddress::V4(_) => 1 <= rule.ipv4_prefix && rule.ipv4_prefix <= 32,
                            IpAddress::V6(_) => rule.ipv6_prefix <= 128,
                        };
                        if !ok {
                            return false;
                        }
                    },
                }
            }
            i = i + 1;
        }
        true
    }

    /// Drops the states that have been idle for a minute as of `now` and
    /// are not banned, then applies the size limit of `max_entries`: as
    /// `cleanup_given` does with each state's time since its window's last
    /// update, read from the clock.
    pub fn cleanup(&mut self, now: Instant, max_entries: usize)
        requires
            old(self).wf(),
        ensures
            final(self).wf(),
            final(self).rules_view() == old(self).rules_view(),
            final(self).offers_kept(&*old(self)),
            final(self).groups_view() == pruned(
                retained(
                    old(self).groups_view(),
                    idle_mask(old(self).groups_view(), idle_at(old(self).groups_view(), now)),
                ),
                max_entries,
                old(self).rules_view().len(),
            ),
    {
        let idle = self.idle_times(now);
        assert(idle_view(&idle) =~= idle_at(self.groups_view(), now));
        self.cleanup_given(&idle, max_entries);
    }

    /// Drops the states whose idle time (in nanoseconds, `idle[g][e]` for
    /// state `e` of group `g`) is a minute or more and that are not banned,
    /// then applies the size limit of `max_entries`.
    pub fn cleanup_given(&mut self, idle: &Vec<Vec<u128>>, max_entries: usize)
        requires
            old(self).wf(),
            idle_shaped(old(self).groups_view(), idle_view(idle)),
        ensures
            final(self).wf(),
            final(self).rules_view() == old(self).rules_view(),
            final(self).offers_kept(&*old(self)),
            final(self).groups_view() == pruned(
                retained(old(self).groups_view(), idle_mask(old(self).groups_view(), idle_view(idle))),
                max_entries,
                old(self).rules_view().len(),
            ),
    {
        self.drop_idle(idle);
        self.prune(max_entries);
    }

    /// The time since each state's window was last updated, as of `now`.
    pub fn idle_times(&self, now: Instant) -> (r: Vec<Vec<u128>>)
        requires
            self.wf(),
        ensures
            idle_view(&r) == idle_at(self.groups_view(), now),
    {
        let ghost gv = self.groups_view();
        let mut r: Vec<Vec<u128>> = Vec::new();
        let mut g: usize = 0;
        while g < self.states.len()
            invariant
                g <= self.states@.len(),
                gv == self.groups_view(),
                r@.len() == g,
                forall|h: int| 0 <= h < g ==> (#[trigger] r@[h])@ == idle_at(gv, now)[h],
            decreases self.states@.len() - g,
        {
            let ghost es = gv[g as int].1;
            assert(es == entries_view(self.states@[g as int].entries@));
            let mut times: Vec<u128> = Vec::new();
            let mut e: usize = 0;
            while e < self.states[g].entries.len()
                invariant
                    g < self.states@.len(),
                    es == entries_view(self.states@[g as int].entries@),
                    e <= es.len(),
                    times@.len() == e,
                    forall|j: int| 0 <= j < e ==> #[trigger] times@[j] == nanos_from(now, es[j].1.window.last_update),
                decreases es.len() - e,
            {
                let entry = self.states[g].entries[e];
                assert(entry_view(entry) == es[e as int]);
                let last = entry.state.last_update();
                times.push(clock::nanos_between(&now, &last));
                e = e + 1;
            }
            assert(times@ =~= idle_at(gv, now)[g as int]);
            r.push(times);
            g = g + 1;
        }
        assert(idle_view(&r) =~= idle_at(gv, now));
        r
    }

    /// Drops every state that is not banned and whose idle time is a minute
    /// or more.
    fn drop_idle(&mut self, idle: &Vec<Vec<u128>>)
        requires
            old(self).wf(),
            idle_shaped(old(self).groups_view(), idle_view(idle)),
        ensures
            final(self).wf(),
            final(self).rules_view() == old(self).rules_view(),
            final(self).offers_kept(&*old(self)),
            final(self).groups_view() == retained(
                old(self).groups_view(),
                idle_mask(old(self).groups_view(), idle_view(idle)),
            ),
    {
        let ghost gv = self.groups_view();
        let ghost rv = self.rules_view();
        let ghost iv = idle_view(idle);
        let ghost keep = idle_mask(gv, iv);
        let mut new_states: Vec<RuleGroup> = Vec::new();
        let mut g: usize = 0;
        while g < self.states.len()
            invariant
                g <= self.states@.len(),
                gv == self.groups_view(),
                rv == self.rules_view(),
                groups_wf(gv, rv),
                iv == idle_view(idle),
                idle_shaped(gv, iv),
                keep == idle_mask(gv, iv),
                new_states@.len() == g,
                forall|h: int|
                    0 <= h < g ==> #[trigger] group_view(new_states@[h]) == (
                        gv[h].0,
                        filter_mask(gv[h].1, keep[h]),
                    ),
            decreases self.states@.len() - g,
        {
            let ghost es = gv[g as int].1;
            assert(es == entries_view(self.states@[g as int].entries@));
            let times = &idle[g];
            assert(times@ == iv[g as int]);
            let mut kept: Vec<StateEntry> = Vec::new();
            let ghost mut mask: Seq<bool> = Seq::empty();
            let mut e: usize = 0;
            while e < self.states[g].entries.len()
                invariant
                    g < self.states@.len(),
                    es == entries_view(self.states@[g as int].entries@),
                    times@.len() == es.len(),
                    e <= es.len(),
                    mask.len() == e,
                    forall|j: int| 0 <= j < e ==> #[trigger] mask[j] == (es[j].1.banned || times@[j] < IDLE_NANOS),
                    entries_view(kept@) == filter_mask(es.take(e as int), mask),
                decreases es.len() - e,
            {
                let entry = self.states[g].entries[e];
                assert(entry_view(entry) == es[e as int]);
                let k = times[e] < IDLE_NANOS || entry.state.is_banned();
                let ghost before = kept@;
                if k {
                    kept.push(entry);
                }
                proof {
                    lemma_filter_step(es, mask, e as int, k);
                    if k {
                        assert(entries_view(kept@) =~= entries_view(before).push(entry_view(entry)));
                    }
                    mask = mask.push(k);
                }
                e = e + 1;
            }
            assert(es.take(e as int) =~= es);
            assert(mask =~= keep[g as int]);
            let name = self.states[g].name.clone();
            let ghost kv = entries_view(kept@);
            new_states.push(RuleGroup { name, entries: kept });
            proof {
                assert(group_view(new_states@[g as int]) == (gv[g as int].0, kv));
            }
            g = g + 1;
        }
        proof {
            assert(new_states@.map_values(|x: RuleGroup| group_view(x)) =~= retained(gv, keep));
            lemma_retained_wf(gv, keep, rv);
        }
        self.states = new_states;
    }

    /// When more than `max_entries` states are kept, keeps at most
    /// `max_entries / rule_count` unbanned states per rule name, dropping the
    /// oldest unbanned ones first; banned states are always kept.
    pub fn prune(&mut self, max_entries: usize)
        requires
            old(self).wf(),
        ensures
            final(self).wf(),
            final(self).rules_view() == old(self).rules_view(),
            final(self).offers_kept(&*old(self)),
            final(self).groups_view() == pruned(
                old(self).groups_view(),
                max_entries,
                old(self).rules_view().len(),
            ),
    {
        let ghost gv = self.groups_view();
        let ghost rv = self.rules_view();
        let total = self.state_count();
        if total <= max_entries {
            return;
        }
        proof {
            lemma_some_rule(gv, rv);
        }
        let quota = max_entries / self.rules.len();
        let mut new_states: Vec<RuleGroup> = Vec::new();
        let mut g: usize = 0;
        while g < self.states.len()
            invariant
                g <= self.states@.len(),
                gv == self.groups_view(),
                rv == self.rules_view(),
                groups_wf(gv, rv),
                rv.len() > 0,
                quota == max_entries as nat / rv.len(),
                new_states@.len() == g,
                forall|h: int|
                    0 <= h < g ==> #[trigger] group_view(new_states@[h]) == (
                        gv[h].0,
                        filter_mask(gv[h].1, limit_mask(gv[h].1, limit_removal(gv[h].1, quota as nat))),
                    ),
            decreases self.states@.len() - g,
        {
            let ghost es = gv[g as int].1;
            assert(es == entries_view(self.states@[g as int].entries@));
            let n = self.states[g].entries.len();
            let mut unbanned: usize = 0;
            let mut j: usize = 0;
            while j < n
                invariant
                    g < self.states@.len(),
                    es == entries_view(self.states@[g as int].entries@),
                    n == es.len(),
                    j <= n,
                    unbanned == unbanned_count(es.take(j as int)),
                    unbanned <= j,
                decreases n - j,
            {
                assert(es.take(j + 1).drop_last() =~= es.take(j as int));
                assert(entry_view(self.states@[g as int].entries@[j as int]) == es[j as int]);
                if !self.states[g].entries[j].state.is_banned() {
                    unbanned = unbanned + 1;
                }
                j = j + 1;
            }
            assert(es.take(n as int) =~= es);
            let to_remove: usize = if unbanned > quota {
                unbanned - quota
            } else {
                0
            };
            let ghost lm = limit_mask(es, to_remove as nat);
            let mut kept: Vec<StateEntry> = Vec::new();
            let mut seen: usize = 0;
            let mut e: usize = 0;
            while e < n
                invariant
                    g < self.states@.len(),
                    es == entries_view(self.states@[g as int].entries@),
                    n == es.len(),
                    e <= n,
                    lm == limit_mask(es, to_remove as nat),
                    seen == unbanned_count(es.take(e as int)),
                    seen <= e,
                    entries_view(kept@) == filter_mask(es.take(e as int), lm.take(e as int)),
                decreases n - e,
            {
                let entry = self.states[g].entries[e];
                assert(entry_view(entry) == es[e as int]);
                let banned = entry.state.is_banned();
                let k = banned || seen >= to_remove;
                assert(k == lm[e as int]);
                let ghost before = kept@;
                if k {
                    kept.push(entry);
                }
                proof {
                    lemma_filter_step(es, lm.take(e as int), e as int, k);
                    assert(lm.take(e as int).push(k) =~= lm.take(e + 1));
                    if k {
                        assert(entries_view(kept@) =~= entries_view(before).push(entry_view(entry)));
                    }
                    assert(es.take(e + 1).drop_last() =~= es.take(e as int));
                }
                if !banned {
                    seen = seen + 1;
                }
                e = e + 1;
            }
            assert(es.take(n as int) =~= es);
            assert(lm.take(n as int) =~= lm);
            let name = self.states[g].name.clone();
            new_states.push(RuleGroup { name, entries: kept });
            g = g + 1;
        }
        proof {
            assert(new_states@.map_values(|x: RuleGroup| group_view(x)) =~= pruned(gv, max_entries, rv.len()));
            lemma_pruned_wf(gv, max_entries, rv);
        }
        self.states = new_states;
    }
}

/// Taking one more entry under the mask extends the filtered sequence by it
/// exactly when its bit is set.
proof fn lemma_filter_step<E>(es: Seq<E>, mask: Seq<bool>, e: int, k: bool)
    requires
        0 <= e < es.len(),
        mask.len() == e,
    ensures
        filter_mask(es.take(e + 1), mask.push(k)) == if k {
            filter_mask(es.take(e), mask).push(es[e])
        } else {
            filter_mask(es.take(e), mask)
        },
{
    assert(es.take(e + 1).drop_last() =~= es.take(e));
    assert(mask.push(k).take(e) =~= mask);
}

/// Every element of a filtered sequence is an element of the sequence, and
/// the filtered sequence is no longer.
#[verifier::spinoff_prover]
#[verifier::rlimit(30)]
proof fn lemma_filter_from<E>(es: Seq<E>, mask: Seq<bool>)
    ensures
        filter_mask(es, mask).len() <= es.len(),
        forall|k: int|
            0 <= k < filter_mask(es, mask).len() ==> exists|j: int|
                0 <= j < es.len() && #[trigger] filter_mask(es, mask)[k] == es[j],
    decreases es.len(),
{
    if es.len() > 0 {
        let prev = filter_mask(es.drop_last(), mask.take(es.len() - 1));
        lemma_filter_from(es.drop_last(), mask.take(es.len() - 1));
        let f = filter_mask(es, mask);
        assert forall|k: int| 0 <= k < f.len() implies exists|j: int| 0 <= j < es.len() && #[trigger] f[k] == es[j] by {
            if k < prev.len() {
                let j = choose|j: int| 0 <= j < es.drop_last().len() && prev[k] == es.drop_last()[j];
                assert(f[k] == es[j]);
            } else {
                assert(f[k] == es[es.len() - 1]);
            }
        }
    }
}

/// Filtering keeps keys unique.
proof fn lemma_filter_unique(es: Seq<(RuleKey, StateView)>, mask: Seq<bool>)
    requires
        keys_unique(es),
    ensures
        keys_unique(filter_mask(es, mask)),
        entries_wf(es) ==> entries_wf(filter_mask(es, mask)),
    decreases es.len(),
{
    lemma_filter_from(es, mask);
    if es.len() > 0 {
        let d = es.drop_last();
        let prev = filter_mask(d, mask.take(es.len() - 1));
        assert(keys_unique(d));
        lemma_filter_unique(d, mask.take(es.len() - 1));
        lemma_filter_from(d, mask.take(es.len() - 1));
        let f = filter_mask(es, mask);
        if mask[es.len() - 1] {
            assert forall|a: int, b: int| 0 <= a < f.len() && 0 <= b < f.len() && a != b implies f[a].0 != f[b].0 by {
                if a < prev.len() && b < prev.len() {
                } else if a < prev.len() {
                    let j = choose|j: int| 0 <= j < d.len() && #[trigger] prev[a] == d[j];
                    assert(f[a] == es[j]);
                    assert(f[b] == es[es.len() - 1]);
                } else {
                    let j = choose|j: int| 0 <= j < d.len() && #[trigger] prev[b] == d[j];
                    assert(f[b] == es[j]);
                    assert(f[a] == es[es.len() - 1]);
                }
            }
        }
        if entries_wf(es) {
            assert forall|k: int| 0 <= k < f.len() implies state_wf(#[trigger] f[k].1) by {
                let j = choose|j: int| 0 <= j < es.len() && #[trigger] f[k] == es[j];
            }
        }
    }
}

/// Groups with filtered entries, under the same names, stay well formed.
proof fn lemma_filtered_groups_wf(gv: Seq<GroupView>, out: Seq<GroupView>, rv: Seq<RuleView>)
    requires
        groups_wf(gv, rv),
        out.len() == gv.len(),
        forall|g: int|
            0 <= g < gv.len() ==> #[trigger] out[g].0 == gv[g].0 && exists|m: Seq<bool>|
                out[g].1 == filter_mask(gv[g].1, m),
    ensures
        groups_wf(out, rv),
{
    assert forall|g: int| 0 <= g < out.len() implies keys_unique(#[trigger] out[g].1) && entries_wf(out[g].1)
        && exists|r: int| 0 <= r < rv.len() && rv[r].name == out[g].0 by {
        assert(out[g].0 == gv[g].0);
        let m = choose|m: Seq<bool>| out[g].1 == filter_mask(gv[g].1, m);
        assert(keys_unique(gv[g].1));
        lemma_filter_unique(gv[g].1, m);
    }
    assert forall|a: int, b: int| 0 <= a < out.len() && 0 <= b < out.len() && a != b implies out[a].0 != out[b].0 by {
        assert(out[a].0 == gv[a].0);
        assert(out[b].0 == gv[b].0);
    }
}

proof fn lemma_retained_wf(gv: Seq<GroupView>, keep: Seq<Seq<bool>>, rv: Seq<RuleView>)
    requires
        groups_wf(gv, rv),
        keep.len() == gv.len(),
    ensures
        groups_wf(retained(gv, keep), rv),
{
    let out = retained(gv, keep);
    assert forall|g: int| 0 <= g < gv.len() implies #[trigger] out[g].0 == gv[g].0 && exists|m: Seq<bool>|
        out[g].1 == filter_mask(gv[g].1, m) by {
        assert(out[g].1 == filter_mask(gv[g].1, keep[g]));
    }
    lemma_filtered_groups_wf(gv, out, rv);
}

proof fn lemma_pruned_wf(gv: Seq<GroupView>, max_entries: usize, rv: Seq<RuleView>)
    requires
        groups_wf(gv, rv),
        rv.len() > 0,
    ensures
        groups_wf(pruned(gv, max_entries, rv.len()), rv),
{
    let out = pruned(gv, max_entries, rv.len());
    if min_count(total_entries(gv)) > max_entries {
        let quota = max_entries as nat / rv.len();
        assert forall|g: int| 0 <= g < gv.len() implies #[trigger] out[g].0 == gv[g].0 && exists|m: Seq<bool>|
            out[g].1 == filter_mask(gv[g].1, m) by {
            assert(out[g].1 == filter_mask(gv[g].1, limit_mask(gv[g].1, limit_removal(gv[g].1, quota))));
        }
        lemma_filtered_groups_wf(gv, out, rv);
    }
}

/// States are kept only for groups of existing rules, so keeping any state
/// means there is a rule.
proof fn lemma_some_rule(gv: Seq<GroupView>, rv: Seq<RuleView>)
    requires
        groups_wf(gv, rv),
        total_entries(gv) > 0,
    ensures
        rv.len() > 0,
{
    assert(gv.len() > 0);
    assert(0 <= 0 < gv.len());
    let g0 = gv[0];
    assert(keys_unique(gv[0].1));
}

/// A filtered sequence holds every element whose mask bit is set.
proof fn lemma_filter_keeps<E>(es: Seq<E>, mask: Seq<bool>, e: int)
    requires
        mask.len() == es.len(),
        0 <= e < es.len(),
        mask[e],
    ensures
        filter_mask(es, mask).contains(es[e]),
    decreases es.len(),
{
    let n = es.len();
    let prev = filter_mask(es.drop_last(), mask.take(n - 1));
    if e == n - 1 {
        assert(filter_mask(es, mask)[prev.len() as int] == es[e]);
    } else {
        lemma_filter_keeps(es.drop_last(), mask.take(n - 1), e);
        let k = choose|k: int| 0 <= k < prev.len() && prev[k] == es.drop_last()[e];
        assert(filter_mask(es, mask)[k] == es[e]);
    }
}

/// The size limit's mask of a sequence, but for its last entry, is the mask
/// of the sequence without its last entry.
proof fn lemma_limit_mask_prefix(es: Seq<(RuleKey, StateView)>, r: nat)
    requires
        es.len() > 0,
    ensures
        limit_mask(es, r).take(es.len() - 1) == limit_mask(es.drop_last(), r),
{
    let d = es.drop_last();
    assert forall|i: int| 0 <= i < es.len() - 1 implies limit_mask(es, r).take(es.len() - 1)[i]
        == limit_mask(d, r)[i] by {
        assert(es.take(i) =~= d.take(i));
    }
    assert(limit_mask(es, r).take(es.len() - 1) =~= limit_mask(d, r));
}

/// The size limit removing `r` unbanned entries leaves the unbanned count
/// reduced by `r`, or none when there were no more.
proof fn lemma_limit_count(es: Seq<(RuleKey, StateView)>, r: nat)
    ensures
        unbanned_count(filter_mask(es, limit_mask(es, r))) == if unbanned_count(es) >= r {
            (unbanned_count(es) - r) as nat
        } else {
            0nat
        },
    decreases es.len(),
{
    if es.len() > 0 {
        let n = es.len();
        let d = es.drop_last();
        lemma_limit_mask_prefix(es, r);
        lemma_limit_count(d, r);
        let prev = filter_mask(d, limit_mask(d, r));
        assert(es.take(n - 1) =~= d);
        if limit_mask(es, r)[n - 1] {
            assert(filter_mask(es, limit_mask(es, r)).drop_last() =~= prev);
        }
    } else {
        assert(filter_mask(es, limit_mask(es, r)) =~= Seq::<(RuleKey, StateView)>::empty());
    }
}

/// Pruning keeps every banned state of every rule; and when it prunes,
/// each rule keeps at most `max_entries / rule_count` unbanned states, or
/// all of them when it had no more.
pub proof fn lemma_pruned_keeps_banned_within_quota(
    gs: Seq<GroupView>,
    max_entries: usize,
    rule_count: nat,
    g: int,
)
    requires
        rule_count > 0,
        0 <= g < gs.len(),
    ensures
        pruned(gs, max_entries, rule_count).len() == gs.len(),
        pruned(gs, max_entries, rule_count)[g].0 == gs[g].0,
        forall|e: int|
            0 <= e < gs[g].1.len() && (#[trigger] gs[g].1[e]).1.banned ==> pruned(
                gs,
                max_entries,
                rule_count,
            )[g].1.contains(gs[g].1[e]),
        min_count(total_entries(gs)) > max_entries ==> unbanned_count(
            pruned(gs, max_entries, rule_count)[g].1,
        ) == if unbanned_count(gs[g].1) <= max_entries as nat / rule_count {
            unbanned_count(gs[g].1)
        } else {
            max_entries as nat / rule_count
        },
{
    if min_count(total_entries(gs)) > max_entries {
        let es = gs[g].1;
        let quota = max_entries as nat / rule_count;
        let r = limit_removal(es, quota);
        assert forall|e: int| 0 <= e < es.len() && (#[trigger] es[e]).1.banned implies filter_mask(
            es,
            limit_mask(es, r),
        ).contains(es[e]) by {
            lemma_filter_keeps(es, limit_mask(es, r), e);
        }
        lemma_limit_count(es, r);
    }
}

/// A clean-up keeps every state that was banned before it.
pub proof fn lemma_cleanup_keeps_banned(
    gs: Seq<GroupView>,
    keep: Seq<Seq<bool>>,
    max_entries: usize,
    rule_count: nat,
    g: int,
    e: int,
)
    requires
        keeps_banned(gs, keep),
        rule_count > 0,
        0 <= g < gs.len(),
        0 <= e < gs[g].1.len(),
        gs[g].1[e].1.banned,
    ensures
        pruned(retained(gs, keep), max_entries, rule_count)[g].0 == gs[g].0,
        pruned(retained(gs, keep), max_entries, rule_count)[g].1.contains(gs[g].1[e]),
{
    let rs = retained(gs, keep);
    assert(keep[g].len() == gs[g].1.len());
    lemma_filter_keeps(gs[g].1, keep[g], e);
    let k = choose|k: int| 0 <= k < rs[g].1.len() && rs[g].1[k] == gs[g].1[e];
    lemma_pruned_keeps_banned_within_quota(rs, max_entries, rule_count, g);
    assert(rs[g].1[k].1.banned);
}

/// A filtered sequence of states with unique keys lacks every state whose
/// mask bit is clear.
proof fn lemma_filter_drops(es: Seq<(RuleKey, StateView)>, mask: Seq<bool>, e: int)
    requires
        mask.len() == es.len(),
        0 <= e < es.len(),
        !mask[e],
        keys_unique(es),
    ensures
        !filter_mask(es, mask).contains(es[e]),
    decreases es.len(),
{
    let n = es.len();
    let d = es.drop_last();
    let mt = mask.take(n - 1);
    let prev = filter_mask(d, mt);
    let f = filter_mask(es, mask);
    lemma_filter_from(d, mt);
    if e == n - 1 {
        assert(f == prev);
        if prev.contains(es[e]) {
            let k = choose|k: int| 0 <= k < prev.len() && prev[k] == es[e];
            let j = choose|j: int| 0 <= j < d.len() && #[trigger] prev[k] == d[j];
            assert(d[j] == es[j]);
            assert(es[j].0 != es[e].0);
        }
    } else {
        assert(keys_unique(d));
        assert(d[e] == es[e]);
        lemma_filter_drops(d, mt, e);
        if f.contains(es[e]) {
            let k = choose|k: int| 0 <= k < f.len() && f[k] == es[e];
            if k < prev.len() {
                assert(prev[k] == es[e]);
            } else {
                assert(f[k] == es[n - 1]);
                assert(es[n - 1].0 != es[e].0);
            }
        }
    }
}

/// A clean-up at `now` that ends within `max_entries` states keeps a state
/// exactly when its key is banned or that state's own window was last
/// updated less than a minute before `now` by the clock.
pub proof fn lemma_cleanup_keeps_recent_or_banned(
    gs: Seq<GroupView>,
    rules: Seq<RuleView>,
    now: Instant,
    max_entries: usize,
    g: int,
    e: int,
)
    requires
        groups_wf(gs, rules),
        0 <= g < gs.len(),
        0 <= e < gs[g].1.len(),
        min_count(total_entries(retained(gs, idle_mask(gs, idle_at(gs, now))))) <= max_entries,
    ensures
        pruned(retained(gs, idle_mask(gs, idle_at(gs, now))), max_entries, rules.len())[g].1.contains(
            gs[g].1[e],
        ) <==> (gs[g].1[e].1.banned || nanos_from(now, gs[g].1[e].1.window.last_update)
            < 60_000_000_000),
{
    let mask = idle_mask(gs, idle_at(gs, now));
    let rs = retained(gs, mask);
    assert(pruned(rs, max_entries, rules.len()) == rs);
    assert(rs[g].1 == filter_mask(gs[g].1, mask[g]));
    assert(mask[g][e] == (gs[g].1[e].1.banned || nanos_from(now, gs[g].1[e].1.window.last_update)
        < 60_000_000_000));
    assert(keys_unique(gs[g].1));
    if mask[g][e] {
        lemma_filter_keeps(gs[g].1, mask[g], e);
    } else {
        lemma_filter_drops(gs[g].1, mask[g], e);
    }
}

/// The observation of an event that arrives at `t`, the instant its state
/// was made.
pub open spec fn instant_observation(t: Instant) -> Observation {
    Observation { created: t, now: t }
}

/// The groups after `k` arrivals of the event `ev`, each evaluated by
/// every rule with observation `o`, and the bans issued by the last one.
pub open spec fn repeated(
    gs: Seq<GroupView>,
    rules: Seq<RuleView>,
    ev: NetworkEvent,
    o: Observation,
    k: nat,
) -> (Seq<GroupView>, Seq<BanView>)
    decreases k,
{
    if k == 0 {
        (gs, Seq::empty())
    } else {
        evaluated(
            repeated(gs, rules, ev, o, (k - 1) as nat).0,
            rules,
            ev,
            Seq::new(rules.len(), |i: int| o),
            rules.len(),
        )
    }
}

/// An engine with the one rule `r` and no states, fed `k` arrivals at one
/// instant of an event that `r` matches, keeps one state for the event's
/// key, counting them; the arrival that brings the count to the threshold
/// issues the rule's ban, and none before it does. (From an instant to
/// itself the clock reads no time, as std's `Instant` documents.)
pub proof fn lemma_engine_bans_at_threshold(r: RuleView, ev: NetworkEvent, t: Instant, k: nat)
    requires
        nanos_from(t, t) == 0,
        rule_matches(r, ev),
        r.window_secs > 0,
        1 <= r.threshold,
        k < r.threshold,
    ensures
        repeated(Seq::empty(), seq![r], ev, instant_observation(t), k + 1).0 == seq![
            (
                r.name,
                seq![
                    (
                        key_of(r, ev.src_ip),
                        burst(
                            fresh_state(r.window_secs, t),
                            k + 1,
                            r.threshold,
                            r.block_duration,
                            t,
                        ),
                    ),
                ],
            ),
        ],
        repeated(Seq::empty(), seq![r], ev, instant_observation(t), k + 1).1 == if k + 1
            == r.threshold {
            seq![ban_for(r, ev)]
        } else {
            Seq::<BanView>::empty()
        },
    decreases k,
{
    let o = instant_observation(t);
    let rules = seq![r];
    let obs = Seq::new(rules.len(), |i: int| o);
    let key = key_of(r, ev.src_ip);
    let f = fresh_state(r.window_secs, t);
    lemma_burst_reaches_threshold(r.window_secs, t, r.threshold, r.block_duration, k);
    lemma_burst_shape(r.window_secs, t, r.threshold, r.block_duration, k);
    let prev = repeated(Seq::empty(), rules, ev, o, k);
    let b = burst(f, k, r.threshold, r.block_duration, t);
    let d = decided(b, r.threshold, r.block_duration, t, 0, 0);
    assert(d == decided_at(b, r.threshold, r.block_duration, t));
    assert(d.0 == burst(f, k + 1, r.threshold, r.block_duration, t));
    let target = seq![(r.name, seq![(key, d.0)])];
    let st = step(prev.0, r, ev, o);
    if k == 0 {
        assert(prev.0 == Seq::<GroupView>::empty());
        assert(find_group(prev.0, r.name) == -1);
        let gs1 = prev.0.push((r.name, Seq::<(RuleKey, StateView)>::empty()));
        assert(find_entry(gs1[0].1, key) == -1);
        let es1 = gs1[0].1.push((key, f));
        assert(es1.update(0, (key, d.0)) =~= seq![(key, d.0)]);
        assert(gs1.update(0, (gs1[0].0, es1.update(0, (key, d.0)))) =~= target);
    } else {
        lemma_engine_bans_at_threshold(r, ev, t, (k - 1) as nat);
        let gs = prev.0;
        assert(gs[0].0 == r.name);
        assert(find_group(gs, r.name) == 0);
        assert(gs[0].1[0].0 == key);
        assert(find_entry(gs[0].1, key) == 0);
        let es1 = gs[0].1;
        assert(es1.update(0, (key, d.0)) =~= seq![(key, d.0)]);
        assert(gs.update(0, (gs[0].0, es1.update(0, (key, d.0)))) =~= target);
    }
    assert(st.0 == target);
    assert(obs[0] == o);
    reveal_with_fuel(evaluated, 2);
    assert(repeated(Seq::empty(), rules, ev, o, k + 1) == evaluated(prev.0, rules, ev, obs, 1));
}

} // verus!

//! The counting and ban state that a rule keeps for one key.
use super::sliding_window::{bucket_nanos, fresh_window, recorded, rotated, SlidingWindow, WindowView};
use crate::clock::{self, nanos_from};
use std::time::Instant;
use vstd::prelude::*;

verus! {

/// The state a rule keeps for one key: its event window, and whether (and
/// since when) the key is banned.
#[derive(Debug, Clone, Copy)]
pub struct RuleState {
    window: SlidingWindow,
    last_banned: Option<Instant>,
    banned: bool,
}

/// A rule state as the contracts speak of it.
pub struct StateView {
    pub window: WindowView,
    pub last_banned: Option<Instant>,
    pub banned: bool,
}

/// A new state: an empty window of `window_secs` seconds made at `now`,
/// not banned.
pub open spec fn fresh_state(window_secs: u32, now: Instant) -> StateView {
    StateView { window: fresh_window(window_secs, now), last_banned: None, banned: false }
}

/// The state is well formed: its window's buckets sum to its count and a
/// bucket lasts a positive time.
pub open spec fn state_wf(s: StateView) -> bool {
    s.window.wf() && s.window.bucket_time > 0
}

/// A ban is still in force: the key is banned, and less than
/// `block_duration` seconds (`since_ban` nanoseconds) have passed.
pub open spec fn ban_in_force(s: StateView, block_duration: u32, since_ban: u128) -> bool {
    &&& s.banned
    &&& s.last_banned is Some
    &&& since_ban < block_duration as u128 * 1_000_000_000
}

/// The count a decision compares to the threshold: the count after
/// recording, or `u32::MAX` when the window cannot count one more event.
pub open spec fn decided_count(s: StateView, now: Instant, since_update: u64) -> u32 {
    let r = rotated(s.window, now, since_update);
    if r.total < u32::MAX {
        (r.total + 1) as u32
    } else {
        u32::MAX
    }
}

/// The state after one event, at `now`, `since_ban` nanoseconds after the
/// last ban and `since_update` nanoseconds after the window's last update,
/// and whether the event bans. While a ban is in force nothing changes and
/// nothing bans; otherwise the event is counted, and reaching `threshold`
/// bans as of `now`.
pub open spec fn decided(
    s: StateView,
    threshold: u32,
    block_duration: u32,
    now: Instant,
    since_ban: u128,
    since_update: u64,
) -> (StateView, bool) {
    if ban_in_force(s, block_duration, since_ban) {
        (s, false)
    } else {
        let r = rotated(s.window, now, since_update);
        let w = if r.total < u32::MAX {
            recorded(s.window, now, since_update)
        } else {
            r
        };
        if decided_count(s, now, since_update) >= threshold {
            (StateView { window: w, last_banned: Some(now), banned: true }, true)
        } else {
            (StateView { window: w, last_banned: s.last_banned, banned: false }, false)
        }
    }
}

/// The time since the last ban as read at `now` (zero when there was none).
pub open spec fn since_ban_at(s: StateView, now: Instant) -> u128 {
    match s.last_banned {
        Some(last) => nanos_from(now, last),
        None => 0,
    }
}

/// The time since the window's last update as read at `now`, in the 64
/// bits the window counts in.
pub open spec fn since_update_at(s: StateView, now: Instant) -> u64 {
    nanos_from(now, s.window.last_update) as u64
}

/// The state after one event read at `now`, and whether it bans: `decided`
/// with the times since the last ban and since the window's last update
/// both read at `now`.
pub open spec fn decided_at(s: StateView, threshold: u32, block_duration: u32, now: Instant) -> (
    StateView,
    bool,
) {
    decided(s, threshold, block_duration, now, since_ban_at(s, now), since_update_at(s, now))
}

/// The state after `n` events read at `now`, the instant of the window's
/// last update, with no time passed since the last ban.
pub open spec fn burst(s: StateView, n: nat, threshold: u32, block_duration: u32, now: Instant) -> StateView
    decreases n,
{
    if n == 0 {
        s
    } else {
        decided(burst(s, (n - 1) as nat, threshold, block_duration, now), threshold, block_duration, now, 0, 0).0
    }
}

/// While a ban is in force, an event changes nothing and bans nothing.
pub proof fn lemma_ban_in_force_is_quiet(
    s: StateView,
    threshold: u32,
    block_duration: u32,
    now: Instant,
    since_ban: u128,
    since_update: u64,
)
    requires
        ban_in_force(s, block_duration, since_ban),
    ensures
        decided(s, threshold, block_duration, now, since_ban, since_update) == (s, false),
{
}

/// An event bans exactly when no ban is in force and the count with it
/// reaches the threshold; the key is then banned as of the event.
pub proof fn lemma_ban_at_threshold(
    s: StateView,
    threshold: u32,
    block_duration: u32,
    now: Instant,
    since_ban: u128,
    since_update: u64,
)
    ensures
        decided(s, threshold, block_duration, now, since_ban, since_update).1 == (!ban_in_force(
            s,
            block_duration,
            since_ban,
        ) && decided_count(s, now, since_update) >= threshold),
        decided(s, threshold, block_duration, now, since_ban, since_update).1 ==> (decided(
            s,
            threshold,
            block_duration,
            now,
            since_ban,
            since_update,
        ).0.banned && decided(s, threshold, block_duration, now, since_ban, since_update).0.last_banned
            == Some(now)),
{
}

/// A ban holds by the clock: while less than `block_duration` seconds have
/// passed from the ban at `t` to the reading `now`, an event read at `now`
/// changes nothing and bans nothing.
pub proof fn lemma_ban_holds_within_duration(
    s: StateView,
    threshold: u32,
    block_duration: u32,
    t: Instant,
    now: Instant,
)
    requires
        s.banned,
        s.last_banned == Some(t),
        nanos_from(now, t) < block_duration as u128 * 1_000_000_000,
    ensures
        decided_at(s, threshold, block_duration, now) == (s, false),
{
}

/// A ban lapses by the clock: once `block_duration` seconds or more have
/// passed from the ban at `t` to the reading `now`, an event read at `now`
/// is counted again, and it bans exactly when the count with it reaches the
/// threshold.
pub proof fn lemma_ban_lapses_after_duration(
    s: StateView,
    threshold: u32,
    block_duration: u32,
    t: Instant,
    now: Instant,
)
    requires
        state_wf(s),
        s.last_banned == Some(t),
        nanos_from(now, t) >= block_duration as u128 * 1_000_000_000,
        s.window.total < u32::MAX,
    ensures
        decided_at(s, threshold, block_duration, now).0.window.total == rotated(
            s.window,
            now,
            nanos_from(now, s.window.last_update) as u64,
        ).total + 1,
        decided_at(s, threshold, block_duration, now).1 == (rotated(
            s.window,
            now,
            nanos_from(now, s.window.last_update) as u64,
        ).total + 1 >= threshold),
{
    super::sliding_window::lemma_rotated_total_bounded(
        s.window,
        now,
        nanos_from(now, s.window.last_update) as u64,
    );
}

/// The window's time is read from its own last update to the event: an event
/// read within one bucket time of the last update by the clock, with no ban
/// in force, raises the count by exactly one; one read a whole window or
/// more after it is counted alone.
pub proof fn lemma_event_counted_by_clock(
    s: StateView,
    threshold: u32,
    block_duration: u32,
    now: Instant,
)
    requires
        state_wf(s),
        !s.banned,
        s.window.total < u32::MAX,
    ensures
        nanos_from(now, s.window.last_update) < s.window.bucket_time ==> decided_at(
            s,
            threshold,
            block_duration,
            now,
        ).0.window.total == s.window.total + 1,
        4 * s.window.bucket_time <= nanos_from(now, s.window.last_update) <= u64::MAX ==> decided_at(
            s,
            threshold,
            block_duration,
            now,
        ).0.window.total == 1,
{
    let e = nanos_from(now, s.window.last_update) as u64;
    super::sliding_window::lemma_rotated_total_bounded(s.window, now, e);
    if nanos_from(now, s.window.last_update) < s.window.bucket_time {
        super::sliding_window::lemma_record_within_bucket(s.window, now, e);
    }
    if 4 * s.window.bucket_time <= nanos_from(now, s.window.last_update) <= u64::MAX {
        super::sliding_window::lemma_window_expires(s.window, now, e);
    }
}

/// With a threshold of `t`, events that reach a fresh state at the instant
/// it was made are counted one by one: after `k < t` of them the count is
/// `k` and the key is not banned, and the next one bans exactly when it is
/// the `t`-th.
pub proof fn lemma_burst_reaches_threshold(
    window_secs: u32,
    created: Instant,
    threshold: u32,
    block_duration: u32,
    k: nat,
)
    requires
        window_secs > 0,
        1 <= threshold,
        k < threshold,
    ensures
        burst(fresh_state(window_secs, created), k, threshold, block_duration, created).window.total
            == k,
        !burst(fresh_state(window_secs, created), k, threshold, block_duration, created).banned,
        decided(
            burst(fresh_state(window_secs, created), k, threshold, block_duration, created),
            threshold,
            block_duration,
            created,
            0,
            0,
        ).1 == (k + 1 == threshold),
    decreases k,
{
    let f = fresh_state(window_secs, created);
    assert(bucket_nanos(window_secs) > 0) by {
        assert(window_secs as nat * 1_000_000_000 >= 1_000_000_000) by (nonlinear_arith)
            requires
                window_secs > 0,
        ;
        assert(window_secs as nat * 1_000_000_000 <= 0xffff_ffff * 1_000_000_000) by (nonlinear_arith)
            requires
                window_secs <= 0xffff_ffff,
        ;
    }
    if k > 0 {
        lemma_burst_reaches_threshold(window_secs, created, threshold, block_duration, (k - 1) as nat);
    }
    let b = burst(f, k, threshold, block_duration, created);
    lemma_burst_shape(window_secs, created, threshold, block_duration, k);
    assert(rotated(b.window, created, 0) == b.window);
}

/// Every state of a burst from a fresh state keeps the fresh window's
/// bucket length and last update, and its buckets sum to its count.
pub(crate) proof fn lemma_burst_shape(
    window_secs: u32,
    created: Instant,
    threshold: u32,
    block_duration: u32,
    k: nat,
)
    requires
        bucket_nanos(window_secs) > 0,
        k < threshold,
    ensures
        burst(fresh_state(window_secs, created), k, threshold, block_duration, created).window.wf(),
        burst(fresh_state(window_secs, created), k, threshold, block_duration, created).window.bucket_time
            == bucket_nanos(window_secs),
        burst(fresh_state(window_secs, created), k, threshold, block_duration, created).window.last_update
            == created,
        burst(fresh_state(window_secs, created), k, threshold, block_duration, created).window.total
            == k,
        !burst(fresh_state(window_secs, created), k, threshold, block_duration, created).banned,
        burst(fresh_state(window_secs, created), k, threshold, block_duration, created).last_banned
            is None,
    decreases k,
{
    if k > 0 {
        lemma_burst_shape(window_secs, created, threshold, block_duration, (k - 1) as nat);
    }
}

impl RuleState {
    pub closed spec fn view(&self) -> StateView {
        StateView {
            window: self.window.view(),
            last_banned: self.last_banned,
            banned: self.banned,
        }
    }

    /// A new state for a rule of `window_secs` seconds, made at `now`.
    pub fn new_at(window_secs: u32, now: Instant) -> (s: Self)
        ensures
            s.view() == fresh_state(window_secs, now),
    {
        RuleState { window: SlidingWindow::new_at(window_secs, now), last_banned: None, banned: false }
    }

    /// A new state for a rule of `window_secs` seconds, made now.
    pub fn new(window_secs: u32) -> (s: Self)
        ensures
            exists|now: Instant| s.view() == fresh_state(window_secs, now),
    {
        let now = clock::now();
        Self::new_at(window_secs, now)
    }

    /// Whether the key is banned.
    pub fn is_banned(&self) -> (r: bool)
        ensures
            r == self.view().banned,
    {
        self.banned
    }

    /// The window's last update.
    pub fn last_update(&self) -> (r: Instant)
        ensures
            r == self.view().window.last_update,
    {
        self.window.last_update()
    }

    /// Counts one event read at `now`, `since_ban` nanoseconds after the last
    /// ban and `since_update` nanoseconds after the window's last update, and
    /// says whether the key is to be banned.
    pub fn should_ban_at(
        &mut self,
        threshold: u32,
        block_duration: u32,
        now: Instant,
        since_ban: u128,
        since_update: u64,
    ) -> (ban: bool)
        requires
            state_wf(old(self).view()),
        ensures
            (final(self).view(), ban) == decided(
                old(self).view(),
                threshold,
                block_duration,
                now,
                since_ban,
                since_update,
            ),
            state_wf(final(self).view()),
    {
        if self.banned {
            if self.last_banned.is_some() {
                if since_ban < (block_duration as u128) * 1_000_000_000 {
                    return false;
                }
            }
            self.banned = false;
        }
        proof {
            super::sliding_window::lemma_rotated_total_bounded(self.window.view(), now, since_update);
        }
        let count = if self.window.count_at(since_update) < u32::MAX {
            self.window.record_at(now, since_update)
        } else {
            self.window.rotate(now, since_update);
            u32::MAX
        };
        if count >= threshold {
            self.banned = true;
            self.last_banned = Some(now);
            true
        } else {
            false
        }
    }

    /// Counts one event now and says whether the key is to be banned.
    pub fn should_ban(&mut self, threshold: u32, block_duration: u32) -> (ban: bool)
        requires
            state_wf(old(self).view()),
        ensures
            exists|now: Instant|
                (final(self).view(), ban) == #[trigger] decided_at(
                    old(self).view(),
                    threshold,
                    block_duration,
                    now,
                ),
            state_wf(final(self).view()),
    {
        let now = clock::now();
        let since_ban = match self.last_banned {
            Some(last) => clock::nanos_between(&now, &last),
            None => 0,
        };
        let last_update = self.window.last_update();
        let elapsed = clock::nanos_between(&now, &last_update);
        #[verifier::truncate]
        let since_update = elapsed as u64;
        assert(since_ban == since_ban_at(self.view(), now));
        assert(since_update == since_update_at(self.view(), now));
        let ghost before = self.view();
        let ban = self.should_ban_at(threshold, block_duration, now, since_ban, since_update);
        assert((self.view(), ban) == decided_at(before, threshold, block_duration, now));
        ban
    }
}

} // verus!

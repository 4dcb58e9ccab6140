//! A counter of events over a sliding window of time, kept in four buckets.
use crate::clock::{self, nanos_from};
use std::time::Instant;
use vstd::prelude::*;

verus! {

pub const BUCKET_COUNT: usize = 4;

/// An event counter over the last `window_secs` seconds, kept as four
/// buckets of a quarter window each; the newest bucket is the last.
#[derive(Debug, Clone, Copy)]
pub struct SlidingWindow {
    buckets: [u32; BUCKET_COUNT],
    bucket_time: u64,
    total: u32,
    last_update: Instant,
}

/// The state of a window as the contracts speak of it.
pub struct WindowView {
    pub buckets: Seq<u32>,
    pub total: u32,
    pub bucket_time: u64,
    pub last_update: Instant,
}

/// The sum of the four buckets.
pub open spec fn sum4(b: Seq<u32>) -> int {
    b[0] + b[1] + b[2] + b[3]
}

/// The buckets moved `s` places towards the front, emptied buckets at the back.
pub open spec fn shifted(b: Seq<u32>, s: nat) -> Seq<u32> {
    Seq::new(4, |i: int| if i + s < 4 { b[i + s] } else { 0u32 })
}

/// How many buckets a rotation moves after `elapsed` nanoseconds: none
/// before a whole bucket has passed, at most all four.
pub open spec fn rotation_steps(elapsed: u64, bucket_time: u64) -> nat {
    if elapsed < bucket_time {
        0
    } else if elapsed / bucket_time >= 4 {
        4
    } else {
        (elapsed / bucket_time) as nat
    }
}

/// The length of one bucket in nanoseconds for a window of `window_secs`.
pub open spec fn bucket_nanos(window_secs: u32) -> u64 {
    ((window_secs as nat * 1_000_000_000) / 4) as u64
}

/// A new window: empty buckets, last updated at `now`.
pub open spec fn fresh_window(window_secs: u32, now: Instant) -> WindowView {
    WindowView {
        buckets: seq![0u32, 0u32, 0u32, 0u32],
        total: 0,
        bucket_time: bucket_nanos(window_secs),
        last_update: now,
    }
}

/// The window after `elapsed` nanoseconds since its last update, read at `now`.
/// Before a whole bucket has passed it is unchanged (its last update too).
pub open spec fn rotated(w: WindowView, now: Instant, elapsed: u64) -> WindowView {
    let s = rotation_steps(elapsed, w.bucket_time);
    if s == 0 {
        w
    } else {
        WindowView {
            buckets: shifted(w.buckets, s),
            total: sum4(shifted(w.buckets, s)) as u32,
            bucket_time: w.bucket_time,
            last_update: now,
        }
    }
}

/// The window after rotating and counting one event in the newest bucket.
pub open spec fn recorded(w: WindowView, now: Instant, elapsed: u64) -> WindowView {
    let r = rotated(w, now, elapsed);
    WindowView {
        buckets: r.buckets.update(3, (r.buckets[3] + 1) as u32),
        total: (r.total + 1) as u32,
        bucket_time: r.bucket_time,
        last_update: r.last_update,
    }
}

impl WindowView {
    /// Four buckets whose sum is the total.
    pub open spec fn wf(self) -> bool {
        &&& self.buckets.len() == 4
        &&& self.total == sum4(self.buckets)
    }
}

impl SlidingWindow {
    pub closed spec fn view(&self) -> WindowView {
        WindowView {
            buckets: self.buckets@,
            total: self.total,
            bucket_time: self.bucket_time,
            last_update: self.last_update,
        }
    }

    /// The buckets sum to the total.
    pub open spec fn wf(&self) -> bool {
        self.view().wf()
    }

    /// A new, empty window of `window_secs` seconds, last updated at `now`.
    pub fn new_at(window_secs: u32, now: Instant) -> (w: Self)
        ensures
            w.view() == fresh_window(window_secs, now),
            w.wf(),
    {
        let w = SlidingWindow {
            buckets: [0u32; BUCKET_COUNT],
            bucket_time: (window_secs as u64 * 1_000_000_000) / BUCKET_COUNT as u64,
            total: 0,
            last_update: now,
        };
        assert(w.buckets@ =~= seq![0u32, 0u32, 0u32, 0u32]);
        w
    }

    /// A new, empty window of `window_secs` seconds, last updated now.
    pub fn new(window_secs: u32) -> (w: Self)
        ensures
            exists|now: Instant| w.view() == fresh_window(window_secs, now),
            w.wf(),
    {
        let now = clock::now();
        Self::new_at(window_secs, now)
    }

    /// Moves the buckets for `elapsed_ns` nanoseconds since the last update,
    /// read at `now`: one bucket per whole bucket time, at most four.
    pub fn rotate(&mut self, now: Instant, elapsed_ns: u64)
        requires
            old(self).wf(),
            old(self).view().bucket_time > 0,
        ensures
            final(self).view() == rotated(old(self).view(), now, elapsed_ns),
            final(self).wf(),
    {
        if elapsed_ns < self.bucket_time {
            return;
        }
        let q = elapsed_ns / self.bucket_time;
        assert(q >= 1) by (nonlinear_arith)
            requires
                elapsed_ns >= self.bucket_time,
                self.bucket_time > 0,
                q == elapsed_ns / self.bucket_time,
        ;
        let steps: usize = if q >= BUCKET_COUNT as u64 {
            BUCKET_COUNT
        } else {
            q as usize
        };
        let ghost orig = self.buckets@;
        let mut k: usize = 0;
        while k < steps
            invariant
                steps <= 4,
                k <= steps,
                self.buckets@ == shifted(orig, k as nat),
                self.total == sum4(self.buckets@),
                self.bucket_time == old(self).bucket_time,
                self.last_update == old(self).last_update,
                orig == old(self).buckets@,
                sum4(orig) <= u32::MAX,
            decreases steps - k,
        {
            proof {
                lemma_shifted_sum_bounded(orig, k as nat);
            }
            let ghost before = self.buckets@;
            let mut sum: u32 = 0;
            let mut i: usize = 1;
            while i < BUCKET_COUNT
                invariant
                    1 <= i <= 4,
                    self.buckets@.len() == 4,
                    forall|j: int| 0 <= j < i - 1 ==> self.buckets@[j] == before[j + 1],
                    forall|j: int| i - 1 <= j < 4 ==> self.buckets@[j] == before[j],
                    sum == (if i >= 2 { before[1] as int } else { 0 }) + (if i >= 3 {
                        before[2] as int
                    } else {
                        0
                    }) + (if i >= 4 { before[3] as int } else { 0 }),
                    before.len() == 4,
                    self.bucket_time == old(self).bucket_time,
                    self.last_update == old(self).last_update,
                    sum4(before) <= u32::MAX,
                decreases 4 - i,
            {
                let v = self.buckets[i];
                self.buckets[i - 1] = v;
                sum = sum + v;
                i = i + 1;
            }
            self.buckets[BUCKET_COUNT - 1] = 0;
            self.total = sum;
            proof {
                assert(self.buckets@ =~= shifted(orig, (k + 1) as nat));
            }
            k = k + 1;
        }
        self.last_update = now;
        proof {
            assert(steps == rotation_steps(elapsed_ns, self.bucket_time));
        }
    }

    /// Counts one event `elapsed_ns` nanoseconds after the last update, read
    /// at `now`, and returns the count over the window.
    pub fn record_at(&mut self, now: Instant, elapsed_ns: u64) -> (count: u32)
        requires
            old(self).wf(),
            old(self).view().bucket_time > 0,
            rotated(old(self).view(), now, elapsed_ns).total < u32::MAX,
        ensures
            final(self).view() == recorded(old(self).view(), now, elapsed_ns),
            final(self).wf(),
            count == final(self).view().total,
    {
        self.rotate(now, elapsed_ns);
        self.buckets[BUCKET_COUNT - 1] = self.buckets[BUCKET_COUNT - 1] + 1;
        self.total = self.total + 1;
        assert(self.buckets@ =~= recorded(old(self).view(), now, elapsed_ns).buckets);
        self.total
    }

    /// Counts one event now and returns the count over the window.
    pub fn record(&mut self) -> (count: u32)
        requires
            old(self).wf(),
            old(self).view().bucket_time > 0,
            old(self).view().total < u32::MAX,
        ensures
            exists|now: Instant|
                final(self).view() == recorded(
                    old(self).view(),
                    now,
                    nanos_from(now, old(self).view().last_update) as u64,
                ),
            final(self).wf(),
            count == final(self).view().total,
    {
        let now = clock::now();
        let elapsed = clock::nanos_between(&now, &self.last_update);
        #[verifier::truncate]
        let e = elapsed as u64;
        assert(e == nanos_from(now, self.view().last_update) as u64);
        proof {
            lemma_rotated_total_bounded(self.view(), now, e);
        }
        self.record_at(now, e)
    }

    /// The count over the window `elapsed_ns` nanoseconds after the last update.
    pub fn count_at(&self, elapsed_ns: u64) -> (count: u32)
        requires
            self.wf(),
            self.view().bucket_time > 0,
        ensures
            forall|now: Instant| count == #[trigger] rotated(self.view(), now, elapsed_ns).total,
    {
        let mut w = SlidingWindow {
            buckets: self.buckets,
            bucket_time: self.bucket_time,
            total: self.total,
            last_update: self.last_update,
        };
        let now = self.last_update;
        w.rotate(now, elapsed_ns);
        proof {
            assert forall|t: Instant| w.total == #[trigger] rotated(self.view(), t, elapsed_ns).total by {
                lemma_rotated_total_ignores_now(self.view(), t, now, elapsed_ns);
            }
        }
        w.total
    }

    /// The count over the window now.
    pub fn count(&self) -> (count: u32)
        requires
            self.wf(),
            self.view().bucket_time > 0,
        ensures
            exists|now: Instant|
                count == #[trigger] rotated(
                    self.view(),
                    now,
                    nanos_from(now, self.view().last_update) as u64,
                ).total,
    {
        let now = clock::now();
        let elapsed = clock::nanos_between(&now, &self.last_update);
        #[verifier::truncate]
        let e = elapsed as u64;
        assert(e == nanos_from(now, self.view().last_update) as u64);
        let c = self.count_at(e);
        assert(c == rotated(self.view(), now, nanos_from(now, self.view().last_update) as u64).total);
        c
    }

    /// Empties the window; it is last updated now.
    pub fn reset(&mut self)
        ensures
            final(self).view().buckets == seq![0u32, 0u32, 0u32, 0u32],
            final(self).view().total == 0,
            final(self).view().bucket_time == old(self).view().bucket_time,
            final(self).wf(),
    {
        self.buckets = [0u32; BUCKET_COUNT];
        self.total = 0;
        self.last_update = clock::now();
        assert(self.buckets@ =~= seq![0u32, 0u32, 0u32, 0u32]);
    }

    /// When the window was last rotated or reset.
    pub fn last_update(&self) -> (r: Instant)
        ensures
            r == self.view().last_update,
    {
        self.last_update
    }

    /// The current total, without reading the clock.
    pub fn total(&self) -> (r: u32)
        ensures
            r == self.view().total,
    {
        self.total
    }
}

/// The count after a rotation does not depend on when it was read.
proof fn lemma_rotated_total_ignores_now(w: WindowView, a: Instant, b: Instant, elapsed: u64)
    ensures
        rotated(w, a, elapsed).total == rotated(w, b, elapsed).total,
        rotated(w, a, elapsed).buckets == rotated(w, b, elapsed).buckets,
{
}

/// Moving buckets never raises their sum.
pub proof fn lemma_shifted_sum_bounded(b: Seq<u32>, s: nat)
    requires
        b.len() == 4,
    ensures
        sum4(shifted(b, s)) <= sum4(b),
        shifted(b, s).len() == 4,
{
}

/// A rotation never raises the count.
pub proof fn lemma_rotated_total_bounded(w: WindowView, now: Instant, elapsed: u64)
    requires
        w.wf(),
    ensures
        rotated(w, now, elapsed).total <= w.total,
        rotated(w, now, elapsed).wf(),
{
    lemma_shifted_sum_bounded(w.buckets, rotation_steps(elapsed, w.bucket_time));
}

/// A whole window after the last update every event has left the window:
/// once `elapsed` covers four bucket times, the count is zero.
pub proof fn lemma_window_expires(w: WindowView, now: Instant, elapsed: u64)
    requires
        w.wf(),
        w.bucket_time > 0,
        elapsed >= 4 * w.bucket_time,
    ensures
        rotated(w, now, elapsed).total == 0,
{
    assert(elapsed / w.bucket_time >= 4) by (nonlinear_arith)
        requires
            elapsed >= 4 * w.bucket_time,
            w.bucket_time > 0,
    ;
}

/// Within one bucket time of the last update nothing leaves the window, so
/// `n` events recorded in that time raise the count by exactly `n`.
pub proof fn lemma_record_within_bucket(w: WindowView, now: Instant, elapsed: u64)
    requires
        w.wf(),
        elapsed < w.bucket_time,
        w.total < u32::MAX,
    ensures
        recorded(w, now, elapsed).total == w.total + 1,
        recorded(w, now, elapsed).wf(),
        recorded(w, now, elapsed).last_update == w.last_update,
{
}

} // verus!

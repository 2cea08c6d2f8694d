//! The limit on stack dumps: each dump pauses the target for a moment, so a
//! monitor asks for at most one per suppression interval, whatever the
//! number of stalls and of slots.
//!
//! Times are nanoseconds on the caller's monotonic clock.

use vstd::prelude::*;

verus! {

/// The limit on stack dumps: at most one per suppression interval, over all
/// slots.
#[derive(Clone, Copy, Debug, PartialEq, Eq, Structural)]
pub struct RateLimiter {
    /// The time from which the next dump is allowed; `None` once that time
    /// lies beyond what the clock can show.
    pub next_traceback_at: Option<u64>,
}

impl RateLimiter {
    /// Whether a dump is allowed at `now`.
    pub open spec fn allows(self, now: u64) -> bool {
        self.next_traceback_at matches Some(t) && now >= t
    }

    /// The limiter after a stall at `now`: where the dump is allowed, the
    /// next one is put off by `traceback_suppress`; where it is not, nothing
    /// changes.
    pub open spec fn after(self, now: u64, traceback_suppress: u64) -> RateLimiter {
        if self.allows(now) {
            RateLimiter {
                next_traceback_at: if now + traceback_suppress <= u64::MAX {
                    Some((now + traceback_suppress) as u64)
                } else {
                    None
                },
            }
        } else {
            self
        }
    }

    /// A limiter that allows the first dump from `start` on.
    pub fn new(start: u64) -> (r: RateLimiter)
        ensures
            r.next_traceback_at == Some(start),
    {
        RateLimiter { next_traceback_at: Some(start) }
    }

    /// Decides whether the stall seen at `now` gets a stack dump, and counts
    /// the dump against the limit if it does.
    pub fn request(&mut self, now: u64, traceback_suppress: u64) -> (r: bool)
        ensures
            r == old(self).allows(now),
            *final(self) == old(self).after(now, traceback_suppress),
    {
        match self.next_traceback_at {
            Some(t) => {
                if now < t {
                    return false;
                }
                self.next_traceback_at = now.checked_add(traceback_suppress);
                true
            },
            None => false,
        }
    }
}

/// The limiter after stalls at each of `times`, in order.
pub open spec fn limiter_after(limiter: RateLimiter, times: Seq<u64>, traceback_suppress: u64) -> RateLimiter
    decreases times.len(),
{
    if times.len() == 0 {
        limiter
    } else {
        limiter_after(limiter, times.drop_last(), traceback_suppress).after(
            times.last(),
            traceback_suppress,
        )
    }
}

/// The number of stack dumps that stalls at each of `times`, in order, get.
pub open spec fn dumps(limiter: RateLimiter, times: Seq<u64>, traceback_suppress: u64) -> nat
    decreases times.len(),
{
    if times.len() == 0 {
        0
    } else {
        dumps(limiter, times.drop_last(), traceback_suppress) + if limiter_after(
            limiter,
            times.drop_last(),
            traceback_suppress,
        ).allows(times.last()) {
            1nat
        } else {
            0nat
        }
    }
}

/// After `d` dumps in a window that starts at `window_start`, the next dump
/// is put off to at least `d` suppression intervals behind the window's
/// start, and the last dump lay at least `d - 1` intervals behind it.
proof fn lemma_dumps_spread(
    limiter: RateLimiter,
    times: Seq<u64>,
    traceback_suppress: u64,
    window_start: u64,
    window: nat,
)
    requires
        forall|i: int| 0 <= i < times.len() ==> window_start <= #[trigger] times[i] <= window_start + window,
    ensures
        ({
            let d = dumps(limiter, times, traceback_suppress);
            let end = limiter_after(limiter, times, traceback_suppress);
            d >= 1 ==> {
                &&& (d - 1) * traceback_suppress <= window
                &&& end.next_traceback_at matches Some(t) ==> t >= window_start + d * traceback_suppress
            }
        }),
    decreases times.len(),
{
    if times.len() > 0 {
        let before = times.drop_last();
        assert forall|i: int| 0 <= i < before.len() implies window_start <= #[trigger] before[i]
            <= window_start + window by {
            assert(before[i] == times[i]);
        }
        lemma_dumps_spread(limiter, before, traceback_suppress, window_start, window);
        let d0 = dumps(limiter, before, traceback_suppress);
        let mid = limiter_after(limiter, before, traceback_suppress);
        let now = times.last();
        let s = traceback_suppress as int;
        if mid.allows(now) {
            let d = d0 + 1;
            assert(d0 * s + s == d * s) by (nonlinear_arith)
                requires
                    d == d0 + 1,
            ;
            assert((d - 1) * s == d0 * s);
            if d0 == 0 {
                assert(d0 * s == 0) by (nonlinear_arith)
                    requires
                        d0 == 0,
                ;
            }
        }
    }
}

/// Across any window of length `window`, the stalls get at most
/// `1 + window / traceback_suppress` stack dumps, whatever the limiter held
/// before and however many stalls there are.
pub proof fn lemma_rate_limit_cap(
    limiter: RateLimiter,
    times: Seq<u64>,
    traceback_suppress: u64,
    window_start: u64,
    window: nat,
)
    requires
        traceback_suppress > 0,
        forall|i: int| 0 <= i < times.len() ==> window_start <= #[trigger] times[i] <= window_start + window,
    ensures
        dumps(limiter, times, traceback_suppress) <= 1 + window / (traceback_suppress as nat),
{
    lemma_dumps_spread(limiter, times, traceback_suppress, window_start, window);
    let d = dumps(limiter, times, traceback_suppress) as int;
    let s = traceback_suppress as int;
    let w = window as int;
    if d >= 1 {
        assert(d - 1 <= w / s) by (nonlinear_arith)
            requires
                (d - 1) * s <= w,
                s > 0,
                d >= 1,
        ;
    }
}

} // verus!

//! Pacing of probe launches.
//!
//! New probe tasks must not be launched in a burst: a fixed minimum delay
//! separates consecutive launches, regardless of how many earlier probes are
//! still in flight. The scheduler below decides, from the current clock
//! reading, whether a launch is allowed and how long the driver has to wait;
//! the driver performs the actual sleeping.

use vstd::prelude::*;

verus! {

/// The default minimum delay between two consecutive probe launches, in
/// nanoseconds (50 milliseconds). An empirical constant, kept as a default
/// only; callers may construct a scheduler with any other interval.
pub const DEFAULT_LAUNCH_INTERVAL_NANOS: u64 = 50_000_000;

/// Throttle on the rate at which new probe tasks may be launched.
///
/// Time is a monotonic clock value in nanoseconds that the caller passes in.
/// The throttle remembers the earliest instant at which the next launch is
/// allowed; recording a launch pushes that instant one interval past the
/// launch time.
pub struct PacingScheduler {
    /// Minimum number of nanoseconds between two consecutive launches.
    pub interval_nanos: u64,
    /// Earliest clock reading at which the next launch is allowed.
    pub next_allowed: u64,
}

impl PacingScheduler {
    /// True when a launch at clock value `now` respects the pacing delay.
    pub open spec fn may_launch(&self, now: u64) -> bool {
        now >= self.next_allowed
    }

    /// A fresh scheduler permits an immediate first launch.
    pub fn new(interval_nanos: u64) -> (s: Self)
        ensures
            s.interval_nanos == interval_nanos,
            s.next_allowed == 0,
    {
        PacingScheduler { interval_nanos, next_allowed: 0 }
    }

    /// How much longer the driver must wait, at clock value `now`, before
    /// the next launch is allowed. Zero when the throttle is already open,
    /// and waiting out the returned duration always opens it.
    pub fn wait_before_launch(&self, now: u64) -> (wait: u64)
        ensures
            wait == if self.may_launch(now) {
                0u64
            } else {
                (self.next_allowed - now) as u64
            },
            self.may_launch((now + wait) as u64),
    {
        if now >= self.next_allowed {
            0
        } else {
            self.next_allowed - now
        }
    }

    /// Record that a probe was launched at clock reading `now`; the next
    /// launch is then allowed no earlier than one interval later.
    pub fn record_launch(&mut self, now: u64)
        requires
            old(self).may_launch(now),
            now + old(self).interval_nanos <= u64::MAX,
        ensures
            final(self).interval_nanos == old(self).interval_nanos,
            final(self).next_allowed == now + old(self).interval_nanos,
    {
        self.next_allowed = now + self.interval_nanos;
    }
}

/// True when successive launch times are at least `interval` apart.
/// Launch instants admitted by a `PacingScheduler` always satisfy this:
/// `record_launch` moves the bound one interval past each admitted launch.
pub open spec fn paced(times: Seq<u64>, interval: u64) -> bool {
    forall|i: int| 0 <= i < times.len() - 1 ==> #[trigger] times[i + 1] >= times[i] + interval
}

/// Law: under a minimum inter-launch delay, the time from the first launch
/// to the last launch of `n` probes is at least `(n - 1)` intervals, however
/// long the individual probes themselves run.
pub proof fn lemma_pacing_lower_bound(times: Seq<u64>, interval: u64)
    requires
        paced(times, interval),
        times.len() >= 1,
    ensures
        times.last() >= times[0] + (times.len() - 1) * interval,
    decreases times.len(),
{
    if times.len() > 1 {
        let prefix = times.drop_last();
        assert(paced(prefix, interval)) by {
            assert(forall|i: int|
                0 <= i < prefix.len() - 1 ==> #[trigger] prefix[i + 1] == times[i + 1] && prefix[i]
                    == times[i]);
        }
        lemma_pacing_lower_bound(prefix, interval);
        assert(times[times.len() - 2 + 1] >= times[times.len() - 2] + interval);
        assert(times.last() == times[times.len() - 2 + 1]);
        assert(prefix.last() == times[times.len() - 2]);
        assert(prefix[0] == times[0]);
        assert(prefix.last() >= prefix[0] + (prefix.len() - 1) * interval);
        let k = times.len() - 2;
        assert((k + 1) * interval == k * interval + interval) by (nonlinear_arith);
        assert(times.len() - 1 == k + 1);
    } else {
        let k = times.len() - 1;
        assert(k * interval == 0) by (nonlinear_arith)
            requires
                k == 0,
        ;
    }
}

} // verus!

//! Restart backoff for the supervisor loop.
//!
//! The daemon restarts itself whenever a task fails. Failures that cluster
//! within a minute of the previous restart raise a pile-on counter, and the
//! supervisor sleeps its square in seconds before trying again; isolated
//! failures restart at once.

use vstd::prelude::*;

verus! {

/// How close together two failures must be to count as piling on, in
/// milliseconds.
pub const PILEON_WINDOW_MS: i64 = 60000;

/// The supervisor's memory across restarts.
#[derive(Copy, Clone, PartialEq, Eq, Structural, Debug)]
pub struct RestartTracker {
    /// How many clustered failures have been seen.
    pub pileon_fails: u32,
    /// When the last restart happened, in monotonic milliseconds.
    pub last_restart_ms: Option<i64>,
}

/// Whether a failure at `now_ms` piles on the previous restart.
pub open spec fn spec_piles_on(t: RestartTracker, now_ms: i64) -> bool {
    match t.last_restart_ms {
        Some(last) => now_ms - last < PILEON_WINDOW_MS,
        None => false,
    }
}

/// The tracker after a restart at `now_ms`.
pub open spec fn spec_mark_restart(t: RestartTracker, now_ms: i64) -> RestartTracker {
    RestartTracker { pileon_fails: t.pileon_fails, last_restart_ms: Some(now_ms) }
}

/// The tracker after a failure at `now_ms`, and the seconds to sleep: a
/// clustered failure raises the pile-on counter and sleeps its square; any
/// other failure restarts at once.
pub open spec fn spec_observe_failure(t: RestartTracker, now_ms: i64) -> (RestartTracker, u64) {
    if spec_piles_on(t, now_ms) {
        let p: u32 = if t.pileon_fails < 0xffffffffu32 {
            (t.pileon_fails + 1) as u32
        } else {
            t.pileon_fails
        };
        (
            RestartTracker { pileon_fails: p, last_restart_ms: t.last_restart_ms },
            (p * p) as u64,
        )
    } else {
        (t, 0)
    }
}

impl RestartTracker {
    /// Before the first run: no restarts, no pile-on.
    pub fn new() -> (r: RestartTracker)
        ensures
            r.pileon_fails == 0,
            r.last_restart_ms is None,
    {
        RestartTracker { pileon_fails: 0, last_restart_ms: None }
    }

    /// Observe a failure and return how many seconds to sleep before the
    /// restart. The clock is monotonic: no restart lies in the future.
    pub fn observe_failure(&mut self, now_ms: i64) -> (sleep_secs: u64)
        requires
            old(self).last_restart_ms matches Some(last) ==> 0 <= last <= now_ms,
        ensures
            (*final(self), sleep_secs) == spec_observe_failure(*old(self), now_ms),
    {
        let piles_on = match self.last_restart_ms {
            Some(last) => now_ms - last < PILEON_WINDOW_MS,
            None => false,
        };
        if piles_on {
            if self.pileon_fails < 0xffffffffu32 {
                self.pileon_fails = self.pileon_fails + 1;
            }
            proof {
                let p = self.pileon_fails as int;
                assert(p * p <= 0xffffffff * 0xffffffff) by (nonlinear_arith)
                    requires
                        0 <= p <= 0xffffffff,
                ;
            }
            (self.pileon_fails as u64) * (self.pileon_fails as u64)
        } else {
            0
        }
    }

    /// Record that the daemon restarted at `now_ms`.
    pub fn mark_restart(&mut self, now_ms: i64)
        ensures
            *final(self) == spec_mark_restart(*old(self), now_ms),
    {
        self.last_restart_ms = Some(now_ms);
    }
}

/// Restart backoff: a second failure within a minute of the last restart
/// sleeps the square of the raised pile-on count before retrying.
pub proof fn law_restart_backoff(t: RestartTracker, restart_ms: i64, failure_ms: i64)
    requires
        failure_ms - restart_ms < PILEON_WINDOW_MS,
        t.pileon_fails < 0xffffffffu32,
    ensures
        ({
            let after = spec_observe_failure(spec_mark_restart(t, restart_ms), failure_ms);
            &&& after.0.pileon_fails == t.pileon_fails + 1
            &&& after.1 == (t.pileon_fails + 1) * (t.pileon_fails + 1)
        }),
{
    let p = t.pileon_fails + 1;
    assert(p * p <= 0xffffffff * 0xffffffff) by (nonlinear_arith)
        requires
            0 <= p <= 0xffffffff,
    ;
}

} // verus!

use vstd::prelude::*;

verus! {

/// The longest duration the timer can be set to: one hour.
pub const MAXIMUM_DURATION_MS: u128 = 3_600_000;

/// Step by which a duration is raised or lowered: one minute.
pub const MINUTE_MS: u128 = 60_000;

/// The countdown timer: whether it runs, when it runs out, and for how long
/// it was set.
#[derive(Debug)]
pub struct HourglassState {
    pub ticking: bool,
    pub finalize: bool,
    pub target_time_ms: u128,
    pub duration_ms: u128,
}

/// The smaller of a duration and the maximum.
pub open spec fn capped(d: int) -> int {
    if d <= MAXIMUM_DURATION_MS {
        d
    } else {
        MAXIMUM_DURATION_MS as int
    }
}

impl HourglassState {
    /// A stopped timer set to nothing.
    pub fn new() -> (r: HourglassState)
        ensures
            !r.ticking,
            !r.finalize,
            r.target_time_ms == 0,
            r.duration_ms == 0,
    {
        HourglassState { ticking: false, finalize: false, target_time_ms: 0, duration_ms: 0 }
    }

    /// Starts the countdown at `now_ms` for the set duration; the target
    /// saturates at the largest time.
    pub fn start(&mut self, now_ms: u128)
        ensures
            final(self).ticking,
            final(self).target_time_ms == if now_ms + old(self).duration_ms <= u128::MAX {
                now_ms + old(self).duration_ms
            } else {
                u128::MAX as int
            },
            final(self).duration_ms == old(self).duration_ms,
            final(self).finalize == old(self).finalize,
    {
        self.target_time_ms = now_ms.saturating_add(self.duration_ms);
        self.ticking = true;
    }

    /// Stops the countdown at `now_ms` and clears the duration.
    pub fn stop(&mut self, now_ms: u128)
        ensures
            !final(self).ticking,
            final(self).target_time_ms == now_ms,
            final(self).duration_ms == 0,
            final(self).finalize == old(self).finalize,
    {
        self.target_time_ms = now_ms;
        self.duration_ms = 0;
        self.ticking = false;
    }

    /// Adds a minute to the duration, up to the maximum, and starts the
    /// countdown at `now_ms`.
    pub fn plus_minute(&mut self, now_ms: u128)
        ensures
            final(self).duration_ms == capped(old(self).duration_ms + MINUTE_MS),
            final(self).ticking,
            final(self).target_time_ms == if now_ms + final(self).duration_ms <= u128::MAX {
                now_ms + final(self).duration_ms
            } else {
                u128::MAX as int
            },
            final(self).finalize == old(self).finalize,
    {
        let raised = match self.duration_ms.checked_add(MINUTE_MS) {
            Some(d) => d,
            None => MAXIMUM_DURATION_MS,
        };
        self.duration_ms = if raised <= MAXIMUM_DURATION_MS {
            raised
        } else {
            MAXIMUM_DURATION_MS
        };
        self.start(now_ms);
    }

    /// Takes a minute off the duration, not below zero; a running countdown
    /// ends that much earlier, not before time zero.
    pub fn minus_minute(&mut self)
        ensures
            final(self).duration_ms == if old(self).duration_ms >= MINUTE_MS {
                old(self).duration_ms - MINUTE_MS
            } else {
                0
            },
            final(self).target_time_ms == if old(self).ticking {
                let cut = old(self).duration_ms - final(self).duration_ms;
                if old(self).target_time_ms >= cut {
                    old(self).target_time_ms - cut
                } else {
                    0
                }
            } else {
                old(self).target_time_ms as int
            },
            final(self).ticking == old(self).ticking,
            final(self).finalize == old(self).finalize,
    {
        let lowered = self.duration_ms.saturating_sub(MINUTE_MS);
        if self.ticking {
            let cut = self.duration_ms - lowered;
            self.target_time_ms = self.target_time_ms.saturating_sub(cut);
        }
        self.duration_ms = lowered;
    }

    /// Sets the duration, capped at the maximum.
    pub fn set_duration_ms(&mut self, duration_ms: u128)
        ensures
            final(self).duration_ms == capped(duration_ms as int),
            final(self).ticking == old(self).ticking,
            final(self).target_time_ms == old(self).target_time_ms,
            final(self).finalize == old(self).finalize,
    {
        self.duration_ms = if duration_ms <= MAXIMUM_DURATION_MS {
            duration_ms
        } else {
            MAXIMUM_DURATION_MS
        };
    }
}

} // verus!

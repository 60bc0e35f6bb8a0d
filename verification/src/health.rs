//! The liveness beacon: the pipeline stamps its last activity in minutes, and
//! the probe answers available only while that stamp is recent enough.

use vstd::prelude::*;

verus! {

/// Minutes of silence after which the probe reports the pipeline unavailable.
pub const STALE_AFTER_MINUTES: i64 = 10;

/// The last-activity stamp shared between the pipeline loop and the probe.
#[derive(Debug, Clone, Copy, PartialEq, Eq, Structural)]
pub struct HealthBeacon {
    pub last_update_minutes: i64,
}

impl HealthBeacon {
    /// A beacon stamped with the present moment.
    pub fn new(now_minutes: i64) -> (b: HealthBeacon)
        ensures
            b.last_update_minutes == now_minutes,
    {
        HealthBeacon { last_update_minutes: now_minutes }
    }

    /// Stamps fresh activity.
    pub fn record_activity(&mut self, now_minutes: i64)
        ensures
            final(self).last_update_minutes == now_minutes,
    {
        self.last_update_minutes = now_minutes;
    }

    /// Answers the probe: the minutes since the last activity, and whether
    /// the pipeline still counts as alive (no more than the stale limit).
    pub fn probe(&self, now_minutes: i64) -> (r: (bool, i64))
        requires
            0 <= self.last_update_minutes,
            0 <= now_minutes,
        ensures
            r.1 == now_minutes - self.last_update_minutes,
            r.0 == (r.1 <= STALE_AFTER_MINUTES),
    {
        let elapsed: i64 = now_minutes - self.last_update_minutes;
        (elapsed <= STALE_AFTER_MINUTES, elapsed)
    }
}

} // verus!

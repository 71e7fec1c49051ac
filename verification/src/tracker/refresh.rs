//! Asking for a poll out of turn.
use vstd::prelude::*;

use crate::tracker::linear::{since, within_cadence};

verus! {

/// What came of a nudge.
#[derive(Debug, Clone, Copy, PartialEq, Eq, Structural)]
pub enum NudgeResult {
    Accepted,
    /// One was accepted a moment ago.
    Throttled,
    /// The tracker asks to wait.
    BackoffActive,
}

/// Takes nudges. Every accepted one raises the counter that the poller watches.
#[derive(Debug, Clone, Copy, PartialEq, Eq, Structural)]
pub struct LinearTrackerHandle {
    pub counter: u64,
    pub last_accepted: Option<u128>,
    pub cadence_floor: u128,
}

/// What a nudge at `now` comes to. `next_allowed` is when the tracker may be
/// asked again, where that can be told.
pub open spec fn nudge_result(
    h: LinearTrackerHandle,
    now: u128,
    next_allowed: Option<u128>,
) -> NudgeResult {
    if h.last_accepted matches Some(t) && since(now, t) < h.cadence_floor {
        NudgeResult::Throttled
    } else if next_allowed matches Some(t) && t <= now {
        NudgeResult::Accepted
    } else {
        NudgeResult::BackoffActive
    }
}

impl LinearTrackerHandle {
    pub fn new(cadence_floor: u128) -> (h: LinearTrackerHandle)
        ensures
            h == (LinearTrackerHandle { counter: 0, last_accepted: None, cadence_floor }),
    {
        LinearTrackerHandle { counter: 0, last_accepted: None, cadence_floor }
    }

    /// Takes a nudge. An accepted one leaves the counter to be announced.
    pub fn nudge(&mut self, now: u128, next_allowed: Option<u128>) -> (r: NudgeResult)
        requires
            old(self).counter < u64::MAX,
        ensures
            r == nudge_result(*old(self), now, next_allowed),
            *final(self) == if r is Accepted {
                LinearTrackerHandle {
                    counter: (old(self).counter + 1) as u64,
                    last_accepted: Some(now),
                    ..*old(self)
                }
            } else {
                *old(self)
            },
    {
        if within_cadence(now, self.last_accepted, self.cadence_floor) {
            return NudgeResult::Throttled;
        }
        match next_allowed {
            Some(t) => if t > now {
                return NudgeResult::BackoffActive;
            },
            None => {
                return NudgeResult::BackoffActive;
            },
        }
        self.last_accepted = Some(now);
        self.counter += 1;
        NudgeResult::Accepted
    }
}

/// Within the cadence of an accepted nudge, every other one is throttled.
pub proof fn law_one_nudge_per_cadence(
    h: LinearTrackerHandle,
    after: LinearTrackerHandle,
    first: u128,
    second: u128,
    next_allowed: Option<u128>,
    later_allowed: Option<u128>,
)
    requires
        nudge_result(h, first, next_allowed) is Accepted,
        after.last_accepted == Some(first),
        after.cadence_floor == h.cadence_floor,
        first <= second < first + h.cadence_floor,
    ensures
        nudge_result(after, second, later_allowed) is Throttled,
{
}

/// A nudge is accepted exactly where the cadence since the last accepted one is
/// over and it is known that the tracker may be asked by now; within the cadence
/// it is throttled, whatever the tracker allows.
pub proof fn law_nudges_are_judged(
    h: LinearTrackerHandle,
    now: u128,
    next_allowed: Option<u128>,
)
    ensures
        ({
            let early = h.last_accepted is Some && h.cadence_floor > 0 && now < h.last_accepted->0
                + h.cadence_floor;
            let allowed = next_allowed is Some && next_allowed->0 <= now;
            &&& nudge_result(h, now, next_allowed) is Throttled <==> early
            &&& nudge_result(h, now, next_allowed) is Accepted <==> !early && allowed
            &&& nudge_result(h, now, next_allowed) is BackoffActive <==> !early && !allowed
        }),
{
}

} // verus!

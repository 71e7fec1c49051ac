//! How many transition events went unseen.
use vstd::prelude::*;

verus! {

/// How many events a subscriber may fall behind.
pub const DEFAULT_EVENT_BUS_CAPACITY: usize = 1024;

/// Counts the events that nobody saw. The count wraps.
#[derive(Debug, Clone, Copy, PartialEq, Eq, Structural)]
pub struct DropCounter {
    pub count: u64,
}

/// `n` after `more` have been added, modulo two to the 64th.
pub open spec fn wrapped(n: u64, more: u64) -> int {
    if n + more > u64::MAX {
        n + more - 0x1_0000_0000_0000_0000
    } else {
        n + more
    }
}

impl DropCounter {
    pub fn new() -> (c: DropCounter)
        ensures
            c.count == 0,
    {
        DropCounter { count: 0 }
    }

    /// Takes note of a publication; without a subscriber it counts as unseen.
    pub fn published(&mut self, delivered: bool)
        ensures
            final(self).count == if delivered {
                old(self).count as int
            } else {
                wrapped(old(self).count, 1)
            },
    {
        if !delivered {
            self.count = self.count.wrapping_add(1);
        }
    }

    /// Takes note that a subscriber missed events.
    pub fn record_subscriber_lag(&mut self, missed: u64)
        ensures
            final(self).count == wrapped(old(self).count, missed),
    {
        self.count = self.count.wrapping_add(missed);
    }

    pub fn drop_count(&self) -> (n: u64)
        ensures
            n == self.count,
    {
        self.count
    }
}

/// What went unseen adds up, and where the count is full it starts over.
pub proof fn law_unseen_events_add_up(n: u64, more: u64)
    ensures
        n + more <= u64::MAX ==> wrapped(n, more) == n + more,
        n + more > u64::MAX ==> wrapped(n, more) == n + more - u64::MAX - 1,
        0 <= wrapped(n, more) <= u64::MAX,
{
}

} // verus!

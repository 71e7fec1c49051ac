//! Winding down within a bounded time.
use vstd::multiset::Multiset;
use vstd::prelude::*;

use crate::text::views;

verus! {

/// How long the daemon may take to wind down, in seconds.
pub const SHUTDOWN_WINDOW_SECONDS: u64 = 30;

/// Which workers ended in time, in the order in which they ended, and which
/// did not.
#[derive(Debug, PartialEq, Eq)]
pub struct AwaitOutcome {
    pub completed: Vec<String>,
    pub timed_out: Vec<String>,
}

/// The workers that are still awaited, and what is known of the others.
#[derive(Debug)]
pub struct WindDown {
    pub pending: Vec<String>,
    pub outcome: AwaitOutcome,
}

impl WindDown {
    /// Every worker, wherever it is listed.
    pub open spec fn everyone(&self) -> Multiset<Seq<char>> {
        views(self.pending@).to_multiset().add(
            views(self.outcome.completed@).to_multiset(),
        ).add(views(self.outcome.timed_out@).to_multiset())
    }

    pub fn new(workers: Vec<String>) -> (w: WindDown)
        ensures
            w.pending == workers,
            w.outcome.completed@.len() == 0,
            w.outcome.timed_out@.len() == 0,
    {
        WindDown {
            pending: workers,
            outcome: AwaitOutcome { completed: Vec::new(), timed_out: Vec::new() },
        }
    }

    /// Whether nobody is awaited any more.
    pub fn is_over(&self) -> (r: bool)
        ensures
            r == (self.pending@.len() == 0),
    {
        self.pending.len() == 0
    }

    /// A worker has ended; how does not matter.
    pub fn ended(&mut self, i: usize)
        requires
            i < old(self).pending@.len(),
        ensures
            final(self).pending@ == old(self).pending@.remove(i as int),
            final(self).outcome.completed@ == old(self).outcome.completed@.push(
                old(self).pending@[i as int],
            ),
            final(self).outcome.timed_out@ == old(self).outcome.timed_out@,
            final(self).everyone() == old(self).everyone(),
    {
        let tag = self.pending.remove(i);
        self.outcome.completed.push(tag);
        proof {
            let before = views(old(self).pending@);
            assert(views(self.pending@) =~= before.remove(i as int));
            assert(views(self.outcome.completed@) =~= views(old(self).outcome.completed@).push(
                before[i as int],
            ));
            before.to_multiset_ensures();
            views(old(self).outcome.completed@).to_multiset_ensures();
            vstd::seq_lib::to_multiset_remove(before, i as int);
            assert(before.to_multiset().count(before[i as int]) > 0) by {
                assert(before.contains(before[i as int]));
            }
            assert(self.everyone() =~= old(self).everyone());
        }
    }

    /// The time is over: who has not ended is given up.
    pub fn expire(&mut self)
        ensures
            final(self).pending@.len() == 0,
            final(self).outcome.completed@ == old(self).outcome.completed@,
            final(self).outcome.timed_out@ == old(self).outcome.timed_out@ + old(self).pending@,
            final(self).everyone() == old(self).everyone(),
    {
        let ghost all = self.pending@;
        let ghost given_up = self.outcome.timed_out@;
        while self.pending.len() > 0
            invariant
                self.outcome.completed@ == old(self).outcome.completed@,
                self.pending@.len() <= all.len(),
                self.pending@ == all.skip(all.len() - self.pending@.len()),
                self.outcome.timed_out@ == given_up + all.take(all.len() - self.pending@.len()),
            decreases self.pending@.len(),
        {
            let ghost k = all.len() - self.pending@.len();
            let tag = self.pending.remove(0);
            self.outcome.timed_out.push(tag);
            proof {
                assert(self.pending@ =~= all.skip(k + 1));
                assert(all.take(k + 1) =~= all.take(k).push(all[k]));
                assert(self.outcome.timed_out@ =~= given_up + all.take(k + 1));
            }
        }
        proof {
            assert(all.take(all.len() as int) =~= all);
            assert(views(given_up + all) =~= views(given_up) + views(all));
            vstd::seq_lib::lemma_multiset_commutative(views(given_up), views(all));
            assert(views(self.pending@) =~= Seq::<Seq<char>>::empty());
            views(self.pending@).to_multiset_ensures();
            assert(self.everyone() =~= old(self).everyone());
        }
    }
}

} // verus!

//! Who is told of transitions.
//!
//! A subscription lasts as long as its subscriber does: the handle that is
//! handed out keeps the subscriber alive. Whether a subscriber is still alive
//! is seen from outside, so each call is told of it, entry by entry.
//! Subscribers are told in the order in which they came, and what one of them
//! does with an event changes nothing for the others.
use vstd::prelude::*;

verus! {

/// The subscribers, each of them kept as a `T`.
#[derive(Debug)]
pub struct SubscriberHooks<T> {
    pub subs: Vec<T>,
}

/// Those of the first `n` subscribers that are alive, in order.
pub open spec fn alive<T>(subs: Seq<T>, live: Seq<bool>, n: nat) -> Seq<T>
    decreases n,
{
    if n == 0 {
        Seq::empty()
    } else if live[n - 1] {
        alive(subs, live, (n - 1) as nat).push(subs[n - 1])
    } else {
        alive(subs, live, (n - 1) as nat)
    }
}

impl<T> SubscriberHooks<T> {
    pub fn new() -> (h: SubscriberHooks<T>)
        ensures
            h.subs@.len() == 0,
    {
        SubscriberHooks { subs: Vec::new() }
    }

    /// Adds a subscriber behind the others.
    pub fn subscribe(&mut self, subscriber: T)
        ensures
            final(self).subs@ == old(self).subs@.push(subscriber),
    {
        self.subs.push(subscriber);
    }

    /// Those who are told of an event, in order.
    pub fn targets(&self, live: &Vec<bool>) -> (out: Vec<&T>)
        requires
            live.len() == self.subs.len(),
        ensures
            out.len() == alive(self.subs@, live@, live@.len()).len(),
            forall|i: int|
                0 <= i < out.len() ==> *(#[trigger] out@[i]) == alive(
                    self.subs@,
                    live@,
                    live@.len(),
                )[i],
    {
        let mut out: Vec<&T> = Vec::new();
        let mut i: usize = 0;
        while i < live.len()
            invariant
                i <= live.len() == self.subs.len(),
                out.len() == alive(self.subs@, live@, i as nat).len(),
                forall|k: int|
                    0 <= k < out.len() ==> *(#[trigger] out@[k]) == alive(
                        self.subs@,
                        live@,
                        i as nat,
                    )[k],
            decreases live.len() - i,
        {
            if live[i] {
                out.push(&self.subs[i]);
            }
            i += 1;
        }
        out
    }

    /// Drops the entries of subscribers that are gone.
    pub fn compact(&mut self, live: &Vec<bool>)
        requires
            live.len() == old(self).subs.len(),
        ensures
            final(self).subs@ == alive(old(self).subs@, live@, live@.len()),
    {
        let ghost all = self.subs@;
        let mut kept: usize = 0;
        let mut i: usize = 0;
        while i < live.len()
            invariant
                live.len() == all.len(),
                kept <= i <= live.len(),
                self.subs@ == alive(all, live@, i as nat) + all.subrange(i as int, all.len() as int),
                kept == alive(all, live@, i as nat).len(),
            decreases live.len() - i,
        {
            let ghost head = alive(all, live@, i as nat);
            let ghost tail = all.subrange(i as int, all.len() as int);
            assert((head + tail)[kept as int] == all[i as int]);
            if live[i] {
                kept += 1;
                assert(head.push(all[i as int]) + all.subrange(i + 1, all.len() as int) =~= head
                    + tail);
            } else {
                self.subs.remove(kept);
                assert((head + tail).remove(kept as int) =~= head + all.subrange(
                    i + 1,
                    all.len() as int,
                ));
            }
            i += 1;
        }
        assert(self.subs@ =~= alive(all, live@, live@.len()));
    }

    /// How many subscribers are alive.
    pub fn live_count(&self, live: &Vec<bool>) -> (n: usize)
        requires
            live.len() == self.subs.len(),
        ensures
            n == alive(self.subs@, live@, live@.len()).len(),
    {
        let mut n: usize = 0;
        let mut i: usize = 0;
        while i < live.len()
            invariant
                n <= i <= live.len(),
                n == alive(self.subs@, live@, i as nat).len(),
            decreases live.len() - i,
        {
            if live[i] {
                n += 1;
            }
            i += 1;
        }
        n
    }
}

// ---------------------------------------------------------------------------
// Laws
// ---------------------------------------------------------------------------

/// Whoever is alive is told, whatever became of the others.
pub proof fn law_every_live_subscriber_is_told<T>(subs: Seq<T>, live: Seq<bool>, n: nat, i: int)
    requires
        0 <= i < n,
        live[i],
    ensures
        alive(subs, live, n).contains(subs[i]),
    decreases n,
{
    let told = alive(subs, live, n);
    let before = alive(subs, live, (n - 1) as nat);
    if i == n - 1 {
        assert(told[told.len() - 1] == subs[i]);
    } else {
        law_every_live_subscriber_is_told(subs, live, (n - 1) as nat, i);
        let k = choose|k: int| 0 <= k < before.len() && before[k] == subs[i];
        assert(told[k] == subs[i]);
    }
}

/// A new subscriber is told last; the others are told as before.
pub proof fn law_new_subscriber_is_told_last<T>(subs: Seq<T>, live: Seq<bool>, subscriber: T)
    requires
        live.len() == subs.len(),
    ensures
        alive(subs.push(subscriber), live.push(true), subs.len() + 1) == alive(
            subs,
            live,
            subs.len(),
        ).push(subscriber),
{
    lemma_alive_prefix(subs, live, subscriber, subs.len());
}

proof fn lemma_alive_prefix<T>(subs: Seq<T>, live: Seq<bool>, subscriber: T, n: nat)
    requires
        live.len() == subs.len(),
        n <= subs.len(),
    ensures
        alive(subs.push(subscriber), live.push(true), n) == alive(subs, live, n),
    decreases n,
{
    if n > 0 {
        lemma_alive_prefix(subs, live, subscriber, (n - 1) as nat);
    }
}

/// Dropping the entries of those who are gone changes nothing for the rest:
/// they are told as before, as long as they live.
pub proof fn law_compaction_is_not_noticed<T>(subs: Seq<T>, live: Seq<bool>, n: nat)
    ensures
        ({
            let rest = alive(subs, live, n);
            alive(rest, Seq::new(rest.len(), |i: int| true), rest.len()) == rest
        }),
{
    let rest = alive(subs, live, n);
    lemma_alive_all(rest, rest.len());
}

proof fn lemma_alive_all<T>(subs: Seq<T>, n: nat)
    requires
        n <= subs.len(),
    ensures
        alive(subs, Seq::new(subs.len(), |i: int| true), n) == subs.take(n as int),
    decreases n,
{
    if n > 0 {
        lemma_alive_all(subs, (n - 1) as nat);
        assert(subs.take(n - 1).push(subs[n - 1]) =~= subs.take(n as int));
    } else {
        assert(subs.take(0) =~= Seq::empty());
    }
    if n == subs.len() {
        assert(subs.take(n as int) =~= subs);
    }
}

} // verus!

//! The recent events, numbered.
//!
//! The ring keeps the last events up to its capacity. Events are numbered from
//! 1 without gaps, so a reader that names the last number it saw learns whether
//! it missed any.
use std::collections::VecDeque;

use vstd::prelude::*;

use crate::json::{Json, JsonView};
use crate::text::{clone_opt, opt_view, str_eq};

verus! {

/// An event of the ring. `ts` counts nanoseconds since the epoch; `cycle_id` is
/// the number of a cycle's unique identifier.
#[derive(Debug, PartialEq, Eq)]
pub struct ApiEvent {
    pub seq: u64,
    pub ts: i128,
    pub event: String,
    pub ticket_id: Option<String>,
    pub cycle_id: Option<u128>,
    pub payload: Json,
}

#[verifier::ext_equal]
pub struct EventView {
    pub seq: u64,
    pub ts: i128,
    pub event: Seq<char>,
    pub ticket_id: Option<Seq<char>>,
    pub cycle_id: Option<u128>,
    pub payload: JsonView,
}

impl View for ApiEvent {
    type V = EventView;

    open spec fn view(&self) -> EventView {
        EventView {
            seq: self.seq,
            ts: self.ts,
            event: self.event@,
            ticket_id: opt_view(self.ticket_id),
            cycle_id: self.cycle_id,
            payload: self.payload@,
        }
    }
}

impl Clone for ApiEvent {
    fn clone(&self) -> (r: Self)
        ensures
            r@ == self@,
    {
        ApiEvent {
            seq: self.seq,
            ts: self.ts,
            event: self.event.clone(),
            ticket_id: clone_opt(&self.ticket_id),
            cycle_id: self.cycle_id,
            payload: self.payload.duplicate(),
        }
    }
}

pub open spec fn event_views(v: Seq<ApiEvent>) -> Seq<EventView> {
    Seq::new(v.len(), |i: int| v[i]@)
}

/// One answer to a reader.
#[derive(Debug, PartialEq, Eq)]
pub struct EventsPage {
    pub events: Vec<ApiEvent>,
    /// Events behind the reader's position have been dropped.
    pub gap: bool,
    /// The number of the last event of this page.
    pub next_since: Option<u64>,
}

/// What a reader asks for: the events behind `since`, and of those only the
/// ones of the kind, ticket and cycle that are given.
#[verifier::ext_equal]
pub struct Query {
    pub since: Option<u64>,
    pub kind: Option<Seq<char>>,
    pub ticket: Option<Seq<char>>,
    pub cycle: Option<u128>,
}

pub open spec fn start_after(since: Option<u64>) -> u64 {
    match since {
        Some(s) => s,
        None => 0,
    }
}

pub open spec fn selects(q: Query, e: EventView) -> bool {
    &&& e.seq > start_after(q.since)
    &&& q.kind matches Some(k) ==> e.event == k
    &&& q.ticket matches Some(t) ==> e.ticket_id == Some(t)
    &&& q.cycle matches Some(c) ==> e.cycle_id == Some(c)
}

/// The selected ones of the first `n` events.
pub open spec fn selected(events: Seq<EventView>, q: Query, n: nat) -> Seq<EventView>
    decreases n,
{
    if n == 0 {
        Seq::empty()
    } else if selects(q, events[n - 1]) {
        selected(events, q, (n - 1) as nat).push(events[n - 1])
    } else {
        selected(events, q, (n - 1) as nat)
    }
}

/// A page holds at least one event where any is selected.
pub open spec fn page_len(found: nat, limit: nat) -> nat {
    let most = if limit == 0 {
        1nat
    } else {
        limit
    };
    if found < most {
        found
    } else {
        most
    }
}

/// The events of a page.
pub open spec fn page_events(events: Seq<EventView>, q: Query, limit: nat) -> Seq<EventView> {
    let all = selected(events, q, events.len());
    all.take(page_len(all.len(), limit) as int)
}

/// Events that the reader has not seen are gone.
pub open spec fn gap_before(events: Seq<EventView>, since: Option<u64>) -> bool {
    match since {
        Some(s) => events.len() == 0 || s + 1 < events[0].seq,
        None => false,
    }
}

/// The numbers go up without gaps and end before `next`.
pub open spec fn numbered(events: Seq<EventView>, next: int) -> bool {
    &&& next >= events.len() + 1
    &&& forall|i: int|
        0 <= i < events.len() ==> (#[trigger] events[i]).seq == next - events.len() + i
}

/// A bounded list of the last events.
pub struct EventRing {
    capacity: usize,
    next_seq: u64,
    buf: VecDeque<ApiEvent>,
}

impl EventRing {
    pub closed spec fn capacity(&self) -> nat {
        self.capacity as nat
    }

    /// The number of the next event.
    pub closed spec fn next(&self) -> u64 {
        self.next_seq
    }

    /// The events, oldest first.
    pub closed spec fn events(&self) -> Seq<EventView> {
        event_views(self.buf@)
    }

    #[verifier::type_invariant]
    spec fn inv(self) -> bool {
        &&& self.buf@.len() <= self.capacity
        &&& numbered(event_views(self.buf@), self.next_seq as int)
    }

    /// An empty ring that keeps up to `capacity` events.
    pub fn new(capacity: usize) -> (r: EventRing)
        ensures
            r.capacity() == capacity,
            r.next() == 1,
            r.events() == Seq::<EventView>::empty(),
    {
        let r = EventRing { capacity, next_seq: 1, buf: VecDeque::new() };
        assert(r.events() =~= Seq::<EventView>::empty());
        r
    }

    /// Adds an event and says its number. A full ring drops its oldest event;
    /// a ring without capacity keeps none.
    pub fn record(
        &mut self,
        ts: i128,
        event: &str,
        ticket_id: Option<&str>,
        cycle_id: Option<u128>,
        payload: Json,
    ) -> (seq: u64)
        requires
            old(self).next() < u64::MAX,
        ensures
            seq == old(self).next(),
            final(self).next() == old(self).next() + 1,
            final(self).capacity() == old(self).capacity(),
            numbered(final(self).events(), final(self).next() as int),
            final(self).events().len() <= final(self).capacity(),
            final(self).events() == kept(
                old(self).events(),
                (EventView {
                    seq,
                    ts,
                    event: event@,
                    ticket_id: match ticket_id {
                        Some(t) => Some(t@),
                        None => None,
                    },
                    cycle_id,
                    payload: payload@,
                }),
                old(self).capacity(),
            ),
    {
        proof {
            use_type_invariant(&*self);
        }
        let seq: u64 = self.next_seq;
        let ticket_id = match ticket_id {
            Some(t) => Some(t.to_owned()),
            None => None,
        };
        let entry = ApiEvent { seq, ts, event: event.to_owned(), ticket_id, cycle_id, payload };
        let ghost view = entry@;
        let ghost before = self.events();
        let mut buf: VecDeque<ApiEvent> = VecDeque::new();
        std::mem::swap(&mut buf, &mut self.buf);
        assert(event_views(self.buf@) =~= Seq::<EventView>::empty());
        if self.capacity > 0 {
            if buf.len() == self.capacity {
                buf.pop_front();
            }
            let ghost middle = event_views(buf@);
            assert(middle =~= if before.len() == self.capacity {
                before.skip(1)
            } else {
                before
            });
            buf.push_back(entry);
            assert(event_views(buf@) =~= middle.push(view));
        }
        assert(numbered(event_views(buf@), seq + 1));
        self.next_seq = seq + 1;
        self.buf = buf;
        seq
    }

    /// The events behind `since` that pass the filters, up to `limit` of them.
    pub fn page(
        &self,
        since: Option<u64>,
        kind: Option<&str>,
        ticket: Option<&str>,
        cycle: Option<u128>,
        limit: usize,
    ) -> (p: EventsPage)
        requires
            since == Some(u64::MAX) ==> self.events().len() == 0,
        ensures
            numbered(self.events(), self.next() as int),
            event_views(p.events@) == page_events(
                self.events(),
                query(since, kind, ticket, cycle),
                limit as nat,
            ),
            p.gap == gap_before(self.events(), since),
            p.next_since == last_seq(event_views(p.events@)),
    {
        proof {
            use_type_invariant(self);
        }
        let ghost q = query(since, kind, ticket, cycle);
        let ghost all = self.events();
        let gap = match since {
            Some(s) => if self.buf.len() == 0 {
                true
            } else {
                s + 1 < self.buf[0].seq
            },
            None => false,
        };
        let after: u64 = match since {
            Some(s) => s,
            None => 0,
        };
        let mut out: Vec<ApiEvent> = Vec::new();
        let mut i: usize = 0;
        let ghost total = selected(all, q, all.len());
        assert(event_views(out@) =~= selected(all, q, 0));
        while i < self.buf.len()
            invariant_except_break
                out.len() == 0 || out.len() < limit,
            invariant
                i <= self.buf.len(),
                all == self.events(),
                all.len() == self.buf@.len(),
                q == query(since, kind, ticket, cycle),
                after == start_after(since),
                total == selected(all, q, all.len()),
                event_views(out@) == selected(all, q, i as nat),
            ensures
                event_views(out@) == total.take(page_len(total.len(), limit as nat) as int),
            decreases self.buf.len() - i,
        {
            let e = &self.buf[i];
            assert(all[i as int] == e@);
            let hit = e.seq > after && (match kind {
                Some(k) => str_eq(e.event.as_str(), k),
                None => true,
            }) && (match ticket {
                Some(t) => match &e.ticket_id {
                    Some(id) => str_eq(id.as_str(), t),
                    None => false,
                },
                None => true,
            }) && (match cycle {
                Some(c) => match e.cycle_id {
                    Some(id) => id == c,
                    None => false,
                },
                None => true,
            });
            assert(hit == selects(q, all[i as int]));
            i += 1;
            if hit {
                let copy = e.clone();
                let ghost before = event_views(out@);
                let ghost view = copy@;
                out.push(copy);
                proof {
                    assert(event_views(out@) =~= before.push(view));
                    lemma_selected_prefix(all, q, i as nat, all.len());
                }
                if out.len() >= limit {
                    assert(event_views(out@) =~= total.take(out.len() as int));
                    break;
                }
            }
            if i == self.buf.len() {
                assert(event_views(out@) =~= total);
                assert(total.take(total.len() as int) =~= total);
            }
        }
        let next_since = if out.len() == 0 {
            None
        } else {
            Some(out[out.len() - 1].seq)
        };
        EventsPage { events: out, gap, next_since }
    }

    pub fn oldest_seq(&self) -> (r: Option<u64>)
        ensures
            r == if self.events().len() == 0 {
                None
            } else {
                Some(self.events()[0].seq)
            },
    {
        if self.buf.len() == 0 {
            None
        } else {
            assert(self.events()[0] == self.buf@[0]@);
            Some(self.buf[0].seq)
        }
    }

    pub fn newest_seq(&self) -> (r: Option<u64>)
        ensures
            r == last_seq(self.events()),
    {
        if self.buf.len() == 0 {
            None
        } else {
            assert(self.events()[self.buf@.len() - 1] == self.buf@[self.buf@.len() - 1]@);
            Some(self.buf[self.buf.len() - 1].seq)
        }
    }
}

pub open spec fn query(
    since: Option<u64>,
    kind: Option<&str>,
    ticket: Option<&str>,
    cycle: Option<u128>,
) -> Query {
    Query {
        since,
        kind: match kind {
            Some(k) => Some(k@),
            None => None,
        },
        ticket: match ticket {
            Some(t) => Some(t@),
            None => None,
        },
        cycle,
    }
}

/// The number of the last event.
pub open spec fn last_seq(events: Seq<EventView>) -> Option<u64> {
    if events.len() == 0 {
        None
    } else {
        Some(events[events.len() - 1].seq)
    }
}

/// The events once `e` has been added to a ring of `capacity`.
pub open spec fn kept(events: Seq<EventView>, e: EventView, capacity: nat) -> Seq<EventView> {
    if capacity == 0 {
        Seq::empty()
    } else if events.len() == capacity {
        events.skip(1).push(e)
    } else {
        events.push(e)
    }
}

proof fn lemma_selected_prefix(events: Seq<EventView>, q: Query, n: nat, m: nat)
    requires
        n <= m,
    ensures
        selected(events, q, n).len() <= selected(events, q, m).len(),
        selected(events, q, m).take(selected(events, q, n).len() as int) == selected(events, q, n),
    decreases m,
{
    if n < m {
        lemma_selected_prefix(events, q, n, (m - 1) as nat);
        let a = selected(events, q, n);
        let b = selected(events, q, (m - 1) as nat);
        assert(selected(events, q, m).take(a.len() as int) =~= b.take(a.len() as int));
    } else {
        assert(selected(events, q, m).take(selected(events, q, n).len() as int) =~= selected(
            events,
            q,
            n,
        ));
    }
}

/// Each selected event is one of the first `n` events, at a known place.
proof fn lemma_selected_rising(events: Seq<EventView>, q: Query, n: nat, next: int)
    requires
        numbered(events, next),
        n <= events.len(),
    ensures
        forall|i: int|
            0 <= i < selected(events, q, n).len() ==> selects(
                q,
                #[trigger] selected(events, q, n)[i],
            ) && selected(events, q, n)[i].seq < next - events.len() + n,
        forall|i: int, j: int|
            0 <= i < j < selected(events, q, n).len() ==> (#[trigger] selected(
                events,
                q,
                n,
            )[i]).seq < (#[trigger] selected(events, q, n)[j]).seq,
    decreases n,
{
    if n > 0 {
        lemma_selected_rising(events, q, (n - 1) as nat, next);
        assert(events[n - 1].seq == next - events.len() + n - 1);
    }
}

/// The events of a page are rising in number, all of them behind the reader's
/// position.
pub proof fn law_page_is_rising(events: Seq<EventView>, next: int, q: Query, limit: nat)
    requires
        numbered(events, next),
    ensures
        forall|i: int|
            0 <= i < page_events(events, q, limit).len() ==> selects(
                q,
                #[trigger] page_events(events, q, limit)[i],
            ),
        forall|i: int, j: int|
            0 <= i < j < page_events(events, q, limit).len() ==> (#[trigger] page_events(
                events,
                q,
                limit,
            )[i]).seq < (#[trigger] page_events(events, q, limit)[j]).seq,
{
    lemma_selected_rising(events, q, events.len(), next);
    let all = selected(events, q, events.len());
    let p = page_events(events, q, limit);
    assert forall|i: int| 0 <= i < p.len() implies selects(q, #[trigger] p[i]) by {
        assert(p[i] == all[i]);
    }
    assert forall|i: int, j: int| 0 <= i < j < p.len() implies (#[trigger] p[i]).seq < (
    #[trigger] p[j]).seq by {
        assert(p[i] == all[i] && p[j] == all[j]);
    }
}

proof fn lemma_rest(events: Seq<EventView>, next: int, q: Query, k: int, n: nat)
    requires
        numbered(events, next),
        n <= events.len(),
        0 < k <= selected(events, q, events.len()).len(),
    ensures
        ({
            let t = selected(events, q, events.len())[k - 1].seq;
            let front = selected(events, q, n);
            selected(events, (Query { since: Some(t), ..q }), n) == if front.len() <= k {
                Seq::empty()
            } else {
                front.skip(k)
            }
        }),
    decreases n,
{
    let all = selected(events, q, events.len());
    let t = all[k - 1].seq;
    let q2 = Query { since: Some(t), ..q };
    lemma_selected_rising(events, q, events.len(), next);
    assert(selects(q, all[k - 1]));
    if n > 0 {
        lemma_rest(events, next, q, k, (n - 1) as nat);
        lemma_selected_prefix(events, q, n, events.len());
        let a = selected(events, q, (n - 1) as nat);
        let b = selected(events, q, n);
        let e = events[n - 1];
        if selects(q, e) {
            assert(b == a.push(e));
            assert(all.take(b.len() as int)[a.len() as int] == e);
            assert(all[a.len() as int] == e);
            if a.len() < k {
                if a.len() < k - 1 {
                    assert(all[a.len() as int].seq < all[k - 1].seq);
                }
                assert(!selects(q2, e));
            } else {
                assert(all[k - 1].seq < all[a.len() as int].seq);
                assert(selects(q2, e));
                if a.len() == k {
                    assert(b.skip(k) =~= Seq::<EventView>::empty().push(e));
                } else {
                    assert(b.skip(k) =~= a.skip(k).push(e));
                }
            }
        } else {
            assert(!selects(q2, e));
        }
    }
}

/// A reader that goes on behind the last event of a page misses nothing and
/// sees nothing twice: the rest is what the page left out.
pub proof fn law_next_page_goes_on(events: Seq<EventView>, next: int, q: Query, limit: nat)
    requires
        numbered(events, next),
        page_events(events, q, limit).len() > 0,
    ensures
        ({
            let p = page_events(events, q, limit);
            let q2 = Query { since: last_seq(p), ..q };
            p + selected(events, q2, events.len()) == selected(events, q, events.len())
        }),
{
    let all = selected(events, q, events.len());
    let p = page_events(events, q, limit);
    let k = p.len() as int;
    assert(p[k - 1] == all[k - 1]);
    lemma_rest(events, next, q, k, events.len());
    let q2 = Query { since: last_seq(p), ..q };
    if all.len() <= k {
        assert(p + Seq::<EventView>::empty() =~= all);
    } else {
        assert(p + all.skip(k) =~= all);
    }
}

proof fn lemma_selected(events: Seq<EventView>, q: Query, n: nat, e: EventView)
    requires
        n <= events.len(),
    ensures
        selected(events, q, n).contains(e) <==> selects(q, e) && exists|i: int|
            0 <= i < n && #[trigger] events[i] == e,
    decreases n,
{
    if n > 0 {
        let m = (n - 1) as nat;
        lemma_selected(events, q, m, e);
        let before = selected(events, q, m);
        let now = selected(events, q, n);
        if now.contains(e) {
            let k = choose|k: int| 0 <= k < now.len() && now[k] == e;
            if k < before.len() {
                assert(before[k] == e);
                assert(before.contains(e));
            } else {
                assert(events[n - 1] == e);
            }
        }
        if selects(q, e) && exists|i: int| 0 <= i < n && #[trigger] events[i] == e {
            let i = choose|i: int| 0 <= i < n && #[trigger] events[i] == e;
            if i == n - 1 {
                assert(now[now.len() - 1] == e);
            } else {
                assert(before.contains(e));
                let k = choose|k: int| 0 <= k < before.len() && before[k] == e;
                assert(now[k] == e);
            }
        }
    }
}

/// A reader is given the events behind the position that it names, or all of
/// them, that are of the kind, the ticket and the cycle that it names: every one
/// of them where the page has room, and no other; of more than the page holds,
/// the first ones.
pub proof fn law_pages_hold_what_is_asked_for(
    events: Seq<EventView>,
    next: int,
    q: Query,
    limit: nat,
    e: EventView,
)
    requires
        numbered(events, next),
    ensures
        ({
            let all = selected(events, q, events.len());
            let p = page_events(events, q, limit);
            &&& all.contains(e) <==> {
                &&& exists|i: int| 0 <= i < events.len() && #[trigger] events[i] == e
                &&& q.since is Some ==> e.seq > q.since->0
                &&& q.kind is Some ==> e.event == q.kind->0
                &&& q.ticket is Some ==> e.ticket_id is Some && e.ticket_id->0 == q.ticket->0
                &&& q.cycle is Some ==> e.cycle_id is Some && e.cycle_id->0 == q.cycle->0
            }
            &&& all.len() <= limit ==> p == all
            &&& all.len() > limit && limit > 0 ==> p == all.take(limit as int)
            &&& limit == 0 && all.len() > 0 ==> p == all.take(1)
        }),
{
    let all = selected(events, q, events.len());
    lemma_selected(events, q, events.len(), e);
    if exists|i: int| 0 <= i < events.len() && #[trigger] events[i] == e {
        let i = choose|i: int| 0 <= i < events.len() && #[trigger] events[i] == e;
        assert(events[i].seq > 0);
    }
    assert(all.take(all.len() as int) =~= all);
}

/// A reader is told of a gap exactly where it names a position and the event
/// right behind it is not there any more, or nothing is there at all.
pub proof fn law_gaps_are_told(events: Seq<EventView>, next: int, since: Option<u64>)
    requires
        numbered(events, next),
    ensures
        since is None ==> !gap_before(events, since),
        since is Some && events.len() == 0 ==> gap_before(events, since),
        since is Some && events.len() > 0 ==> (gap_before(events, since) <==> since->0 < next
            - events.len() - 1),
{
    if events.len() > 0 {
        assert(events[0].seq == next - events.len());
    }
}

/// A ring keeps the newest events, in order: the one that is added is the last,
/// and the oldest goes only where there is no room for both.
pub proof fn law_rings_keep_the_newest(events: Seq<EventView>, e: EventView, capacity: nat)
    requires
        events.len() <= capacity,
    ensures
        ({
            let k = kept(events, e, capacity);
            let all = events.push(e);
            &&& all.len() <= capacity ==> k == all
            &&& all.len() > capacity && capacity > 0 ==> k == all.skip(1) && k.len() == capacity
            &&& capacity == 0 ==> k.len() == 0
        }),
{
    assert(events.push(e).skip(1) =~= events.skip(1).push(e) || events.len() == 0);
}

} // verus!

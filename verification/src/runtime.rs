//! The life of the daemon, stage by stage.
//!
//! What the daemon cannot start without comes first; a failure there ends it
//! before it is ready. The webhook's door opens only once the cold start is
//! over, and the daemon calls itself ready only behind the open door.
use vstd::prelude::*;

use crate::text::{str_eq, views};

verus! {

/// What the daemon is doing.
#[derive(Debug, Clone, Copy, PartialEq, Eq, Structural)]
pub enum Stage {
    LoadConfig,
    LoadWorkflow,
    /// Ask the tracker who `me` is.
    ResolveViewer,
    OpenEventLog,
    AnnounceStarted,
    /// Listen for webhooks, with the door closed.
    BindListener,
    AnnounceColdStart,
    ColdStart,
    AnnounceColdStartDone,
    OpenDoor,
    AnnounceReady,
    StartPolling,
    ServeApi,
    AnnounceApiDisabled,
    StartDispatcher,
    TrapSignals,
    AwaitShutdown,
    StopListener,
    DrainTickets,
    AnnounceDrained,
    AnnounceWindowExceeded,
    /// The end, and whether it is a good one.
    Exited(bool),
}

/// What the course of the daemon depends on.
#[derive(Debug, Clone, Copy, PartialEq, Eq, Structural)]
pub struct Facts {
    /// The workflow admits the issues of whoever asks.
    pub assignee_is_me: bool,
    /// A port for the HTTP API is set.
    pub api_port_set: bool,
    /// A ticket did not end in time.
    pub some_aborted: bool,
}

/// The daemon cannot go on where the stage fails.
pub open spec fn essential(stage: Stage) -> bool {
    ||| stage is LoadConfig
    ||| stage is LoadWorkflow
    ||| stage is ResolveViewer
    ||| stage is OpenEventLog
    ||| stage is BindListener
}

/// The stage that follows one that went well.
pub open spec fn following(stage: Stage, facts: Facts) -> Stage {
    match stage {
        Stage::LoadConfig => Stage::LoadWorkflow,
        Stage::LoadWorkflow => if facts.assignee_is_me {
            Stage::ResolveViewer
        } else {
            Stage::OpenEventLog
        },
        Stage::ResolveViewer => Stage::OpenEventLog,
        Stage::OpenEventLog => Stage::AnnounceStarted,
        Stage::AnnounceStarted => Stage::BindListener,
        Stage::BindListener => Stage::AnnounceColdStart,
        Stage::AnnounceColdStart => Stage::ColdStart,
        Stage::ColdStart => Stage::AnnounceColdStartDone,
        Stage::AnnounceColdStartDone => Stage::OpenDoor,
        Stage::OpenDoor => Stage::AnnounceReady,
        Stage::AnnounceReady => Stage::StartPolling,
        Stage::StartPolling => if facts.api_port_set {
            Stage::ServeApi
        } else {
            Stage::AnnounceApiDisabled
        },
        Stage::ServeApi => Stage::StartDispatcher,
        Stage::AnnounceApiDisabled => Stage::StartDispatcher,
        Stage::StartDispatcher => Stage::TrapSignals,
        Stage::TrapSignals => Stage::AwaitShutdown,
        Stage::AwaitShutdown => Stage::StopListener,
        Stage::StopListener => Stage::DrainTickets,
        Stage::DrainTickets => Stage::AnnounceDrained,
        Stage::AnnounceDrained => if facts.some_aborted {
            Stage::AnnounceWindowExceeded
        } else {
            Stage::Exited(true)
        },
        Stage::AnnounceWindowExceeded => Stage::Exited(false),
        Stage::Exited(good) => Stage::Exited(good),
    }
}

/// The stage that follows. Where an essential one fails the daemon ends; what
/// else fails does not stop it.
pub open spec fn next_stage(stage: Stage, facts: Facts, ok: bool) -> Stage {
    if !ok && essential(stage) {
        Stage::Exited(false)
    } else {
        following(stage, facts)
    }
}

/// The stage that follows.
pub fn advance(stage: Stage, facts: Facts, ok: bool) -> (next: Stage)
    ensures
        next == next_stage(stage, facts, ok),
{
    match stage {
        Stage::LoadConfig => if ok {
            Stage::LoadWorkflow
        } else {
            Stage::Exited(false)
        },
        Stage::LoadWorkflow => if !ok {
            Stage::Exited(false)
        } else if facts.assignee_is_me {
            Stage::ResolveViewer
        } else {
            Stage::OpenEventLog
        },
        Stage::ResolveViewer => if ok {
            Stage::OpenEventLog
        } else {
            Stage::Exited(false)
        },
        Stage::OpenEventLog => if ok {
            Stage::AnnounceStarted
        } else {
            Stage::Exited(false)
        },
        Stage::AnnounceStarted => Stage::BindListener,
        Stage::BindListener => if ok {
            Stage::AnnounceColdStart
        } else {
            Stage::Exited(false)
        },
        Stage::AnnounceColdStart => Stage::ColdStart,
        Stage::ColdStart => Stage::AnnounceColdStartDone,
        Stage::AnnounceColdStartDone => Stage::OpenDoor,
        Stage::OpenDoor => Stage::AnnounceReady,
        Stage::AnnounceReady => Stage::StartPolling,
        Stage::StartPolling => if facts.api_port_set {
            Stage::ServeApi
        } else {
            Stage::AnnounceApiDisabled
        },
        Stage::ServeApi => Stage::StartDispatcher,
        Stage::AnnounceApiDisabled => Stage::StartDispatcher,
        Stage::StartDispatcher => Stage::TrapSignals,
        Stage::TrapSignals => Stage::AwaitShutdown,
        Stage::AwaitShutdown => Stage::StopListener,
        Stage::StopListener => Stage::DrainTickets,
        Stage::DrainTickets => Stage::AnnounceDrained,
        Stage::AnnounceDrained => if facts.some_aborted {
            Stage::AnnounceWindowExceeded
        } else {
            Stage::Exited(true)
        },
        Stage::AnnounceWindowExceeded => Stage::Exited(false),
        Stage::Exited(good) => Stage::Exited(good),
    }
}

/// Whether the workflow admits the issues of whoever asks; any other assignee
/// is taken as it is written.
pub fn asks_for_viewer(assignee: &str) -> (r: bool)
    ensures
        r == (assignee@ == "me"@),
{
    str_eq(assignee, "me")
}

/// How many events the ring keeps.
pub fn ring_capacity(configured: Option<u32>) -> (n: usize)
    ensures
        n == match configured {
            Some(c) => c as int,
            None => 1000,
        },
{
    match configured {
        Some(c) => c as usize,
        None => 1000,
    }
}

/// Why the tracker was polled.
#[derive(Debug, Clone, Copy, PartialEq, Eq, Structural)]
pub enum TickReason {
    Outage,
    Nudge,
}

/// The name of the reason on the wire.
pub fn tick_trigger(reason: TickReason) -> (s: &'static str)
    ensures
        s@ == match reason {
            TickReason::Outage => "outage"@,
            TickReason::Nudge => "nudge"@,
        },
{
    match reason {
        TickReason::Outage => "outage",
        TickReason::Nudge => "nudge",
    }
}

/// How a ticket's task ended.
#[derive(Debug, Clone, Copy, PartialEq, Eq, Structural)]
pub enum DrainOutcome {
    Clean,
    Panicked,
    TimedOut,
}

/// How many tickets ended well, and which did not.
#[derive(Debug)]
pub struct DrainTally {
    pub drained: usize,
    pub aborted_ticket_ids: Vec<String>,
}

#[verifier::ext_equal]
pub struct TallyView {
    pub drained: nat,
    pub aborted: Seq<Seq<char>>,
}

impl View for DrainTally {
    type V = TallyView;

    open spec fn view(&self) -> TallyView {
        TallyView { drained: self.drained as nat, aborted: views(self.aborted_ticket_ids@) }
    }
}

/// The tally once a ticket has ended.
pub open spec fn recorded(t: TallyView, ticket: Seq<char>, outcome: DrainOutcome) -> TallyView {
    if outcome is Clean {
        TallyView { drained: t.drained + 1, ..t }
    } else {
        TallyView { aborted: t.aborted.push(ticket), ..t }
    }
}

/// The tally of a whole drain: the tickets in the order in which they ended, and
/// how each did.
pub open spec fn tallied(drain: Seq<(Seq<char>, DrainOutcome)>) -> TallyView
    decreases drain.len(),
{
    if drain.len() == 0 {
        TallyView { drained: 0, aborted: Seq::empty() }
    } else {
        recorded(tallied(drain.drop_last()), drain.last().0, drain.last().1)
    }
}

impl DrainTally {
    pub fn new() -> (t: DrainTally)
        ensures
            t@ == tallied(Seq::empty()),
    {
        let t = DrainTally { drained: 0, aborted_ticket_ids: Vec::new() };
        assert(views(t.aborted_ticket_ids@) =~= Seq::empty());
        t
    }

    /// Takes note of how a ticket ended.
    pub fn record(&mut self, ticket_id: String, outcome: DrainOutcome)
        requires
            old(self).drained < usize::MAX,
        ensures
            final(self)@ == recorded(old(self)@, ticket_id@, outcome),
    {
        match outcome {
            DrainOutcome::Clean => {
                self.drained += 1;
            },
            _ => {
                let ghost before = views(self.aborted_ticket_ids@);
                let ghost text = ticket_id@;
                self.aborted_ticket_ids.push(ticket_id);
                assert(views(self.aborted_ticket_ids@) =~= before.push(text));
            },
        }
    }

    /// How many tickets did not end well.
    pub fn aborted(&self) -> (n: usize)
        ensures
            n == self@.aborted.len(),
    {
        self.aborted_ticket_ids.len()
    }
}

/// What the course of the daemon depends on behind a drain.
pub open spec fn facts_after(facts: Facts, tally: TallyView) -> Facts {
    Facts { some_aborted: tally.aborted.len() > 0, ..facts }
}

/// What the course of the daemon depends on behind a drain.
pub fn after_drain(facts: Facts, tally: &DrainTally) -> (f: Facts)
    ensures
        f == facts_after(facts, tally@),
{
    Facts {
        assignee_is_me: facts.assignee_is_me,
        api_port_set: facts.api_port_set,
        some_aborted: tally.aborted() > 0,
    }
}

/// How much of the window is left, in nanoseconds.
pub fn window_left(deadline: u128, now: u128) -> (d: u128)
    ensures
        d == if deadline > now {
            deadline - now
        } else {
            0
        },
{
    if deadline > now {
        deadline - now
    } else {
        0
    }
}

// ---------------------------------------------------------------------------
// Laws
// ---------------------------------------------------------------------------

/// The door opens only behind a cold start, and the daemon is ready only behind
/// the door.
pub proof fn law_ready_only_behind_cold_start(stage: Stage, facts: Facts, ok: bool)
    ensures
        next_stage(stage, facts, ok) is AnnounceReady ==> stage is OpenDoor,
        next_stage(stage, facts, ok) is OpenDoor ==> stage is AnnounceColdStartDone,
        next_stage(stage, facts, ok) is AnnounceColdStartDone ==> stage is ColdStart,
{
}

/// The end is good only behind a drain that left no ticket behind.
pub proof fn law_good_end_means_clean_drain(stage: Stage, facts: Facts, ok: bool)
    requires
        next_stage(stage, facts, ok) == Stage::Exited(true),
        !(stage is Exited),
    ensures
        stage is AnnounceDrained,
        !facts.some_aborted,
{
}

/// Every ticket is accounted for: behind any drain, those that ended well and
/// those that did not are as many as ended.
pub proof fn law_every_ticket_is_tallied(drain: Seq<(Seq<char>, DrainOutcome)>)
    ensures
        tallied(drain).drained + tallied(drain).aborted.len() == drain.len(),
    decreases drain.len(),
{
    if drain.len() > 0 {
        law_every_ticket_is_tallied(drain.drop_last());
    }
}

/// Behind a drain the end is good exactly where every ticket ended well.
pub proof fn law_end_is_good_where_all_tickets_ended_well(
    drain: Seq<(Seq<char>, DrainOutcome)>,
    facts: Facts,
    ok: bool,
)
    ensures
        next_stage(Stage::AnnounceDrained, facts_after(facts, tallied(drain)), ok) == Stage::Exited(
            true,
        ) <==> forall|i: int| 0 <= i < drain.len() ==> (#[trigger] drain[i]).1 is Clean,
    decreases drain.len(),
{
    if drain.len() > 0 {
        let before = drain.drop_last();
        law_end_is_good_where_all_tickets_ended_well(before, facts, ok);
        assert(forall|i: int| 0 <= i < before.len() ==> before[i] == #[trigger] drain[i]);
        assert(drain.last() == drain[drain.len() - 1]);
        if forall|i: int| 0 <= i < drain.len() ==> (#[trigger] drain[i]).1 is Clean {
            assert forall|i: int| 0 <= i < before.len() implies (#[trigger] before[i]).1 is Clean by {
                assert(before[i] == drain[i]);
            }
        }
    }
}

/// How many stages can still come.
pub open spec fn stages_left(stage: Stage) -> nat {
    match stage {
        Stage::LoadConfig => 21,
        Stage::LoadWorkflow => 20,
        Stage::ResolveViewer => 19,
        Stage::OpenEventLog => 18,
        Stage::AnnounceStarted => 17,
        Stage::BindListener => 16,
        Stage::AnnounceColdStart => 15,
        Stage::ColdStart => 14,
        Stage::AnnounceColdStartDone => 13,
        Stage::OpenDoor => 12,
        Stage::AnnounceReady => 11,
        Stage::StartPolling => 10,
        Stage::ServeApi => 9,
        Stage::AnnounceApiDisabled => 8,
        Stage::StartDispatcher => 7,
        Stage::TrapSignals => 6,
        Stage::AwaitShutdown => 5,
        Stage::StopListener => 4,
        Stage::DrainTickets => 3,
        Stage::AnnounceDrained => 2,
        Stage::AnnounceWindowExceeded => 1,
        Stage::Exited(_) => 0,
    }
}

/// The daemon comes to an end: no stage comes twice.
pub proof fn law_stages_do_not_repeat(stage: Stage, facts: Facts, ok: bool)
    requires
        !(stage is Exited),
    ensures
        stages_left(next_stage(stage, facts, ok)) < stages_left(stage),
{
}

/// What the daemon goes through, from the start on, as long as `n` stages go
/// well.
pub open spec fn stage_after(facts: Facts, n: nat) -> Stage
    decreases n,
{
    if n == 0 {
        Stage::LoadConfig
    } else {
        next_stage(stage_after(facts, (n - 1) as nat), facts, true)
    }
}

/// Where everything goes well the daemon is ready behind a fixed number of
/// stages, one more where it has to ask who `me` is, and then serves, waits,
/// drains and ends, well only if no ticket was left behind.
pub proof fn law_course_of_the_daemon(facts: Facts)
    ensures
        ({
            let k: nat = if facts.assignee_is_me {
                1
            } else {
                0
            };
            &&& stage_after(facts, 1) is LoadWorkflow
            &&& facts.assignee_is_me ==> stage_after(facts, 2) is ResolveViewer
            &&& stage_after(facts, 2 + k) is OpenEventLog
            &&& stage_after(facts, 3 + k) is AnnounceStarted
            &&& stage_after(facts, 4 + k) is BindListener
            &&& stage_after(facts, 5 + k) is AnnounceColdStart
            &&& stage_after(facts, 6 + k) is ColdStart
            &&& stage_after(facts, 7 + k) is AnnounceColdStartDone
            &&& stage_after(facts, 8 + k) is OpenDoor
            &&& stage_after(facts, 9 + k) is AnnounceReady
            &&& stage_after(facts, 10 + k) is StartPolling
            &&& stage_after(facts, 11 + k) is ServeApi <==> facts.api_port_set
            &&& stage_after(facts, 11 + k) is AnnounceApiDisabled <==> !facts.api_port_set
            &&& stage_after(facts, 12 + k) is StartDispatcher
            &&& stage_after(facts, 13 + k) is TrapSignals
            &&& stage_after(facts, 14 + k) is AwaitShutdown
            &&& stage_after(facts, 15 + k) is StopListener
            &&& stage_after(facts, 16 + k) is DrainTickets
            &&& stage_after(facts, 17 + k) is AnnounceDrained
            &&& !facts.some_aborted ==> stage_after(facts, 18 + k) == Stage::Exited(true)
            &&& facts.some_aborted ==> stage_after(facts, 18 + k) is AnnounceWindowExceeded
                && stage_after(facts, 19 + k) == Stage::Exited(false)
        }),
{
    reveal_with_fuel(stage_after, 22);
}

/// A failure ends the daemon exactly where it cannot do without what failed: the
/// configuration, the workflow, who `me` is, the event log, the listener. Any
/// other failure does not change its course.
pub proof fn law_failures_that_end_the_daemon(stage: Stage, facts: Facts)
    requires
        !(stage is Exited),
    ensures
        stage is LoadConfig || stage is LoadWorkflow || stage is ResolveViewer
            || stage is OpenEventLog || stage is BindListener ==> next_stage(stage, facts, false)
            == Stage::Exited(false),
        !(stage is LoadConfig || stage is LoadWorkflow || stage is ResolveViewer
            || stage is OpenEventLog || stage is BindListener) ==> next_stage(stage, facts, false)
            == next_stage(stage, facts, true),
{
}

/// A ticket is named as left behind exactly where one of that name did not end
/// well.
pub proof fn law_tickets_left_behind_are_named(
    drain: Seq<(Seq<char>, DrainOutcome)>,
    ticket: Seq<char>,
)
    ensures
        tallied(drain).aborted.contains(ticket) <==> exists|i: int|
            0 <= i < drain.len() && (#[trigger] drain[i]).0 == ticket && !(drain[i].1 is Clean),
    decreases drain.len(),
{
    if drain.len() > 0 {
        let before = drain.drop_last();
        law_tickets_left_behind_are_named(before, ticket);
        let a = tallied(before).aborted;
        let b = tallied(drain).aborted;
        if b.contains(ticket) {
            let k = choose|k: int| 0 <= k < b.len() && b[k] == ticket;
            if k < a.len() {
                assert(a[k] == ticket);
                assert(a.contains(ticket));
                let i = choose|i: int|
                    0 <= i < before.len() && (#[trigger] before[i]).0 == ticket && !(
                    before[i].1 is Clean);
                assert(drain[i] == before[i]);
            } else {
                assert(drain[drain.len() - 1].0 == ticket);
            }
        }
        if exists|i: int|
            0 <= i < drain.len() && (#[trigger] drain[i]).0 == ticket && !(drain[i].1 is Clean) {
            let i = choose|i: int|
                0 <= i < drain.len() && (#[trigger] drain[i]).0 == ticket && !(drain[i].1 is Clean);
            if i == drain.len() - 1 {
                assert(b[b.len() - 1] == ticket);
            } else {
                assert(before[i] == drain[i]);
                assert(a.contains(ticket));
                let k = choose|k: int| 0 <= k < a.len() && a[k] == ticket;
                assert(b[k] == ticket);
            }
        }
    }
}

} // verus!

//! One entry per issue: duplicate observations do not launch work twice.
use vstd::prelude::*;

use crate::orchestrator::state::{IssueId, Mode, WorkerState};
use crate::strmap::StrMap;
use crate::tracker::model::{IssueView, NormalizedIssue};
use crate::tracker::pre_admission::{assignment_lost, lost_assignment, lost_ready, roki_ready_removed, AdmissionDecision, DecisionView};

verus! {

/// What is known of an issue that was observed before.
#[derive(Debug)]
pub struct DedupEntry {
    pub state: WorkerState,
    pub mode: Option<Mode>,
    pub latest_normalized: NormalizedIssue,
    pub in_flight_orch: Option<u64>,
    pub in_flight_phase: Option<u64>,
}

#[verifier::ext_equal]
pub struct EntryView {
    pub state: WorkerState,
    pub mode: Option<Mode>,
    pub latest: IssueView,
    pub in_flight_orch: Option<u64>,
    pub in_flight_phase: Option<u64>,
}

impl View for DedupEntry {
    type V = EntryView;

    open spec fn view(&self) -> EntryView {
        EntryView {
            state: self.state,
            mode: self.mode,
            latest: self.latest_normalized@,
            in_flight_orch: self.in_flight_orch,
            in_flight_phase: self.in_flight_phase,
        }
    }
}

/// Work is going on.
pub open spec fn working(state: WorkerState) -> bool {
    state is Pending || state is Active || state is Backoff
}

impl Clone for DedupEntry {
    fn clone(&self) -> (r: Self)
        ensures
            r@ == self@,
    {
        DedupEntry {
            state: self.state,
            mode: self.mode,
            latest_normalized: self.latest_normalized.clone(),
            in_flight_orch: self.in_flight_orch,
            in_flight_phase: self.in_flight_phase,
        }
    }
}

/// An entry without handles.
pub open spec fn fresh_entry(state: WorkerState, mode: Option<Mode>, issue: IssueView) -> EntryView {
    EntryView { state, mode, latest: issue, in_flight_orch: None, in_flight_phase: None }
}

impl DedupEntry {
    pub fn new(state: WorkerState, mode: Option<Mode>, issue: NormalizedIssue) -> (e: DedupEntry)
        ensures
            e@ == fresh_entry(state, mode, issue@),
    {
        DedupEntry {
            state,
            mode,
            latest_normalized: issue,
            in_flight_orch: None,
            in_flight_phase: None,
        }
    }

    pub fn is_in_flight(&self) -> (r: bool)
        ensures
            r == working(self.state),
    {
        matches!(self.state, WorkerState::Pending | WorkerState::Active | WorkerState::Backoff)
    }
}

#[derive(Debug, Clone, Copy, PartialEq, Eq, Structural)]
pub enum TerminationReason {
    AssignmentLost,
    RokiReadyRemoved,
}

/// What an observation asks for.
#[derive(Debug, PartialEq, Eq)]
pub enum ObserveOutcome {
    LaunchFresh { issue: NormalizedIssue, mode: Mode },
    UpdateInPlace,
    Drop,
    TerminateInFlight { reason: TerminationReason },
}

#[verifier::ext_equal]
pub enum OutcomeView {
    LaunchFresh(IssueView, Mode),
    UpdateInPlace,
    Drop,
    TerminateInFlight(TerminationReason),
}

impl View for ObserveOutcome {
    type V = OutcomeView;

    open spec fn view(&self) -> OutcomeView {
        match self {
            ObserveOutcome::LaunchFresh { issue, mode } => OutcomeView::LaunchFresh(issue@, *mode),
            ObserveOutcome::UpdateInPlace => OutcomeView::UpdateInPlace,
            ObserveOutcome::Drop => OutcomeView::Drop,
            ObserveOutcome::TerminateInFlight { reason } => OutcomeView::TerminateInFlight(*reason),
        }
    }
}

/// The outcome of observing `issue` where `prior` is known of it.
pub open spec fn outcome_of(
    prior: Option<EntryView>,
    issue: IssueView,
    decision: DecisionView,
) -> OutcomeView {
    let in_flight = prior is Some && working(prior->0.state);
    if in_flight && lost_assignment(prior->0.latest, issue) {
        OutcomeView::TerminateInFlight(TerminationReason::AssignmentLost)
    } else if in_flight && lost_ready(prior->0.latest, issue) {
        OutcomeView::TerminateInFlight(TerminationReason::RokiReadyRemoved)
    } else {
        match decision {
            DecisionView::Skip(_) => OutcomeView::Drop,
            DecisionView::Admit(admitted, mode) => if in_flight || (prior is Some
                && prior->0.state is Cleaning) {
                OutcomeView::UpdateInPlace
            } else {
                OutcomeView::LaunchFresh(admitted, mode)
            },
        }
    }
}

/// What is known of the issue afterwards.
pub open spec fn entry_after(
    prior: Option<EntryView>,
    issue: IssueView,
    decision: DecisionView,
) -> Option<EntryView> {
    match outcome_of(prior, issue, decision) {
        OutcomeView::LaunchFresh(admitted, mode) => Some(
            fresh_entry(WorkerState::Pending, Some(mode), admitted),
        ),
        OutcomeView::UpdateInPlace => Some(
            EntryView { latest: decision->Admit_0, ..prior->0 },
        ),
        _ => match prior {
            Some(e) => Some(EntryView { latest: issue, ..e }),
            None => None,
        },
    }
}

/// What a map holds under a key.
pub open spec fn lookup<V>(m: Map<Seq<char>, V>, k: Seq<char>) -> Option<V> {
    if m.dom().contains(k) {
        Some(m[k])
    } else {
        None
    }
}

/// All issues that were observed.
#[derive(Debug)]
pub struct DedupIndex {
    entries: StrMap<DedupEntry>,
}

impl View for DedupIndex {
    type V = Map<Seq<char>, EntryView>;

    closed spec fn view(&self) -> Map<Seq<char>, EntryView> {
        self.entries@.map_values(|e: DedupEntry| e@)
    }
}

impl DedupIndex {
    pub fn new() -> (i: DedupIndex)
        ensures
            i@ == Map::<Seq<char>, EntryView>::empty(),
    {
        let i = DedupIndex { entries: StrMap::new() };
        assert(i@ =~= Map::<Seq<char>, EntryView>::empty());
        i
    }

    /// What is known of `id`.
    pub fn snapshot(&self, id: &IssueId) -> (r: Option<DedupEntry>)
        ensures
            r is Some == self@.dom().contains(id@),
            r matches Some(e) ==> e@ == self@[id@],
    {
        match self.entries.get(id.as_str()) {
            Some(e) => Some(e.clone()),
            None => None,
        }
    }

    fn put(&mut self, id: IssueId, entry: DedupEntry)
        ensures
            final(self)@ == old(self)@.insert(id@, entry@),
    {
        self.entries.insert(id.0, entry);
        assert(self@ =~= old(self)@.insert(id@, entry@));
    }

    pub fn seed(&mut self, issue: NormalizedIssue, entry: DedupEntry)
        ensures
            final(self)@ == old(self)@.insert(issue@.issue, entry@),
    {
        self.put(issue.issue, entry);
    }

    /// Notes the session that works on `id`, if the issue is known.
    pub fn bind_orchestrator(&mut self, id: &IssueId, handle: u64)
        ensures
            final(self)@ == (if old(self)@.dom().contains(id@) {
                old(self)@.insert(
                    id@,
                    EntryView { in_flight_orch: Some(handle), ..old(self)@[id@] },
                )
            } else {
                old(self)@
            }),
    {
        match self.snapshot(id) {
            Some(e) => {
                let mut entry = e;
                entry.in_flight_orch = Some(handle);
                self.put(id.clone(), entry);
            },
            None => {},
        }
    }

    /// Takes in an observation. Signals that stop work in flight come before
    /// the admission decision.
    pub fn observe(&mut self, issue: NormalizedIssue, decision: AdmissionDecision) -> (outcome:
        ObserveOutcome)
        ensures
            outcome@ == outcome_of(lookup(old(self)@, issue@.issue), issue@, decision@),
            match entry_after(lookup(old(self)@, issue@.issue), issue@, decision@) {
                Some(e) => final(self)@ == old(self)@.insert(issue@.issue, e),
                None => final(self)@ == old(self)@,
            },
    {
        let key = issue.issue.clone();
        let prior = self.snapshot(&key);
        match &prior {
            Some(entry) => {
                if entry.is_in_flight() {
                    if assignment_lost(&entry.latest_normalized, &issue) {
                        let mut updated = entry.clone();
                        updated.latest_normalized = issue;
                        self.put(key, updated);
                        return ObserveOutcome::TerminateInFlight {
                            reason: TerminationReason::AssignmentLost,
                        };
                    }
                    if roki_ready_removed(&entry.latest_normalized, &issue) {
                        let mut updated = entry.clone();
                        updated.latest_normalized = issue;
                        self.put(key, updated);
                        return ObserveOutcome::TerminateInFlight {
                            reason: TerminationReason::RokiReadyRemoved,
                        };
                    }
                }
            },
            None => {},
        }
        match decision {
            AdmissionDecision::Skip { .. } => {
                if let Some(e) = prior {
                    let mut entry = e;
                    entry.latest_normalized = issue;
                    self.put(key, entry);
                }
                ObserveOutcome::Drop
            },
            AdmissionDecision::Admit { issue: admitted, mode } => {
                if let Some(e) = prior {
                    if e.is_in_flight() || matches!(e.state, WorkerState::Cleaning) {
                        let mut updated = e;
                        updated.latest_normalized = admitted;
                        self.put(key, updated);
                        return ObserveOutcome::UpdateInPlace;
                    }
                }
                let entry = DedupEntry::new(WorkerState::Pending, Some(mode), admitted.clone());
                self.put(key, entry);
                ObserveOutcome::LaunchFresh { issue: admitted, mode }
            },
        }
    }
}

/// Work that is going on, or is being wound down, is never launched a second
/// time.
pub proof fn law_no_second_launch(prior: EntryView, issue: IssueView, decision: DecisionView)
    requires
        working(prior.state) || prior.state is Cleaning,
    ensures
        !(outcome_of(Some(prior), issue, decision) is LaunchFresh),
{
}

/// After a launch, observing the same issue again only updates it.
pub proof fn law_repeat_after_launch_updates(
    prior: Option<EntryView>,
    issue: IssueView,
    mode: Mode,
)
    requires
        outcome_of(prior, issue, DecisionView::Admit(issue, mode)) is LaunchFresh,
    ensures
        ({
            let next = entry_after(prior, issue, DecisionView::Admit(issue, mode));
            &&& outcome_of(next, issue, DecisionView::Admit(issue, mode)) is UpdateInPlace
            &&& entry_after(next, issue, DecisionView::Admit(issue, mode)) == next
        }),
{
}

/// An inactive issue that is admitted again is launched, in the mode of the new
/// decision.
pub proof fn law_readmission_recomputes_mode(
    prior: EntryView,
    issue: IssueView,
    admitted: IssueView,
    mode: Mode,
)
    requires
        prior.state is Inactive,
    ensures
        outcome_of(Some(prior), issue, DecisionView::Admit(admitted, mode))
            == OutcomeView::LaunchFresh(admitted, mode),
        entry_after(Some(prior), issue, DecisionView::Admit(admitted, mode))->0.mode == Some(mode),
{
}

/// A stop signal for work in flight wins over every admission decision, and
/// leaves the entry's state and handles alone.
pub proof fn law_stop_signal_wins(prior: EntryView, issue: IssueView, decision: DecisionView)
    requires
        working(prior.state),
        lost_assignment(prior.latest, issue) || lost_ready(prior.latest, issue),
    ensures
        outcome_of(Some(prior), issue, decision) is TerminateInFlight,
        entry_after(Some(prior), issue, decision) == Some(EntryView { latest: issue, ..prior }),
{
}

/// What an observation asks for, by what was known and what is seen: work in
/// flight ends where its assignee is gone or changed, or else where it is no
/// longer marked ready; otherwise what is not admitted is dropped, what is in
/// flight or being wound down is updated, and anything else is launched as
/// admitted.
pub proof fn law_observations_are_judged(
    prior: Option<EntryView>,
    issue: IssueView,
    decision: DecisionView,
)
    ensures
        ({
            let at_work = prior is Some && (prior->0.state is Pending || prior->0.state is Active
                || prior->0.state is Backoff);
            let taken_away = at_work && prior->0.latest.assignee is Some && issue.assignee
                != prior->0.latest.assignee;
            let unmarked = at_work && prior->0.latest.labels.contains("roki:ready"@)
                && !issue.labels.contains("roki:ready"@);
            let o = outcome_of(prior, issue, decision);
            &&& o == OutcomeView::TerminateInFlight(TerminationReason::AssignmentLost)
                <==> taken_away
            &&& o == OutcomeView::TerminateInFlight(TerminationReason::RokiReadyRemoved)
                <==> !taken_away && unmarked
            &&& o is Drop <==> !taken_away && !unmarked && decision is Skip
            &&& o is UpdateInPlace <==> !taken_away && !unmarked && decision is Admit && (at_work
                || (prior is Some && prior->0.state is Cleaning))
            &&& o is LaunchFresh <==> !taken_away && !unmarked && !at_work && !(prior is Some
                && prior->0.state is Cleaning) && decision is Admit
            &&& o matches OutcomeView::LaunchFresh(i, mode) ==> decision == DecisionView::Admit(
                i,
                mode,
            )
        }),
{
}

/// What is known afterwards: a launched issue is pending in its mode, as
/// admitted, with nothing in flight; a known one keeps its state, its mode and
/// what is in flight, and takes the newest observation; nothing is noted of an
/// unknown one that is not launched.
pub proof fn law_observations_are_noted(
    prior: Option<EntryView>,
    issue: IssueView,
    decision: DecisionView,
)
    ensures
        ({
            let e = entry_after(prior, issue, decision);
            &&& outcome_of(prior, issue, decision) matches OutcomeView::LaunchFresh(i, mode) ==> {
                &&& e is Some
                &&& e->0.state is Pending
                &&& e->0.mode == Some(mode)
                &&& e->0.latest == i
                &&& e->0.in_flight_orch is None
                &&& e->0.in_flight_phase is None
            }
            &&& !(outcome_of(prior, issue, decision) is LaunchFresh) ==> {
                &&& e is Some <==> prior is Some
                &&& prior is Some ==> e->0.state == prior->0.state && e->0.mode == prior->0.mode
                    && e->0.in_flight_orch == prior->0.in_flight_orch && e->0.in_flight_phase
                    == prior->0.in_flight_phase
                &&& prior is Some && outcome_of(prior, issue, decision) is UpdateInPlace
                    ==> DecisionView::Admit(e->0.latest, decision->Admit_1) == decision
                &&& prior is Some && !(outcome_of(prior, issue, decision) is UpdateInPlace)
                    ==> e->0.latest == issue
            }
        }),
{
}

} // verus!

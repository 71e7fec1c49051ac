//! Per-issue states and the table of legal transitions.
use vstd::prelude::*;
use vstd::std_specs::convert::FromSpecImpl;

verus! {

/// Where an issue stands.
#[derive(Debug, Clone, Copy, PartialEq, Eq, Hash, Structural)]
pub enum WorkerState {
    Pending,
    Active,
    Backoff,
    Inactive(InactiveReason),
    Cleaning,
}

/// Why an issue is inactive.
#[derive(Debug, Clone, Copy, PartialEq, Eq, Hash, Structural)]
pub enum InactiveReason {
    AwaitingLinear,
    NeedsOperator,
    SpecIncomplete,
    NeedsSplit,
    AllowlistRejected,
    OrchestratorCrash,
    OrchestratorUnparseable,
    OrchestratorBudgetExhausted,
    Stall,
    RetryExhausted,
    FsPoison,
    Orphan,
}

/// How an admitted issue is worked on.
#[derive(Debug, Clone, Copy, PartialEq, Eq, Hash, Structural)]
pub enum Mode {
    SpecDriven,
    NeedsClassify,
}

/// What causes a transition.
#[derive(Debug, Clone, Copy, PartialEq, Eq, Hash, Structural)]
pub enum TransitionTrigger {
    TrackerEvent,
    AssignmentLost,
    RokiReadyRemoved,
    OrchestratorAction,
    PhaseEvent,
    DaemonDirective,
    OrchestratorDead,
    RecoveryScan,
    OperatorShutdown,
}

/// The stable identifier of an issue.
#[derive(Debug, PartialEq, Eq, Hash, PartialOrd, Ord)]
pub struct IssueId(pub String);

impl View for IssueId {
    type V = Seq<char>;

    open spec fn view(&self) -> Seq<char> {
        self.0@
    }
}

impl Clone for IssueId {
    fn clone(&self) -> (r: Self)
        ensures
            r == *self,
    {
        IssueId(self.0.clone())
    }
}

impl IssueId {
    pub fn new(id: &str) -> (r: IssueId)
        ensures
            r@ == id@,
    {
        IssueId(id.to_owned())
    }

    pub fn as_str(&self) -> (s: &str)
        ensures
            s@ == self@,
    {
        self.0.as_str()
    }

    pub fn to_string(&self) -> (s: String)
        ensures
            s@ == self@,
    {
        self.0.clone()
    }
}

impl From<&str> for IssueId {
    fn from(value: &str) -> (r: Self)
        ensures
            r@ == value@,
    {
        IssueId(value.to_owned())
    }
}

impl FromSpecImpl<&str> for IssueId {
    open spec fn obeys_from_spec() -> bool {
        false
    }

    open spec fn from_spec(v: &str) -> Self {
        arbitrary()
    }
}

impl From<String> for IssueId {
    fn from(value: String) -> (r: Self)
        ensures
            r == IssueId(value),
    {
        IssueId(value)
    }
}

impl FromSpecImpl<String> for IssueId {
    open spec fn obeys_from_spec() -> bool {
        true
    }

    open spec fn from_spec(v: String) -> Self {
        IssueId(v)
    }
}

/// A transition as it is published.
#[derive(Debug, Clone, PartialEq, Eq)]
pub struct TransitionEvent {
    pub issue: IssueId,
    pub repo: Option<String>,
    pub previous: WorkerState,
    pub next: WorkerState,
    pub trigger: TransitionTrigger,
    pub mode: Option<Mode>,
    pub inactive_reason: Option<InactiveReason>,
    pub correlation_id: String,
}

#[derive(Debug, Clone, Copy, PartialEq, Eq, Structural)]
pub enum TransitionError {
    IllegalTransition { previous: WorkerState, next: WorkerState, trigger: TransitionTrigger },
}

/// The table of legal transitions.
pub open spec fn legal(previous: WorkerState, next: WorkerState, trigger: TransitionTrigger) -> bool {
    match (previous, next) {
        // The orchestrator nominated a phase.
        (WorkerState::Pending, WorkerState::Active) => trigger is OrchestratorAction,
        // A phase event was delivered.
        (WorkerState::Active, WorkerState::Pending) => trigger is PhaseEvent,
        // A phase failed with retries left.
        (WorkerState::Active, WorkerState::Backoff) => trigger is PhaseEvent,
        // The wait is over.
        (WorkerState::Backoff, WorkerState::Active) => trigger is DaemonDirective
            || trigger is OrchestratorAction,
        // The orchestrator stopped or died.
        (WorkerState::Pending, WorkerState::Inactive(_)) => trigger is OrchestratorAction
            || trigger is OrchestratorDead,
        // A phase stalled.
        (WorkerState::Active, WorkerState::Inactive(reason)) => reason is Stall && (
        trigger is DaemonDirective || trigger is OrchestratorDead),
        // The retry budget is spent.
        (WorkerState::Backoff, WorkerState::Inactive(reason)) => reason is RetryExhausted && (
        trigger is OrchestratorAction || trigger is DaemonDirective),
        // The tracker ends the work.
        (_, WorkerState::Cleaning) => !(previous is Cleaning) && ends_work(trigger),
        _ => false,
    }
}

/// The stop conditions, which alone lead to `Cleaning` in the table. An actor
/// that is shut down with the process cleans up as well and announces so; that
/// is no step of the ticket's life, and the table does not hold it.
pub open spec fn ends_work(trigger: TransitionTrigger) -> bool {
    ||| trigger is TrackerEvent
    ||| trigger is AssignmentLost
    ||| trigger is RokiReadyRemoved
}

/// Whether the transition stands in the table.
pub fn validate_transition(
    previous: &WorkerState,
    next: &WorkerState,
    trigger: &TransitionTrigger,
) -> (r: Result<(), TransitionError>)
    ensures
        r == (if legal(*previous, *next, *trigger) {
            Ok::<(), TransitionError>(())
        } else {
            Err(
                TransitionError::IllegalTransition {
                    previous: *previous,
                    next: *next,
                    trigger: *trigger,
                },
            )
        }),
{
    let ok = match (previous, next) {
        (WorkerState::Pending, WorkerState::Active) => *trigger
            == TransitionTrigger::OrchestratorAction,
        (WorkerState::Active, WorkerState::Pending) => *trigger == TransitionTrigger::PhaseEvent,
        (WorkerState::Active, WorkerState::Backoff) => *trigger == TransitionTrigger::PhaseEvent,
        (WorkerState::Backoff, WorkerState::Active) => *trigger
            == TransitionTrigger::DaemonDirective || *trigger
            == TransitionTrigger::OrchestratorAction,
        (WorkerState::Pending, WorkerState::Inactive(_)) => *trigger
            == TransitionTrigger::OrchestratorAction || *trigger
            == TransitionTrigger::OrchestratorDead,
        (WorkerState::Active, WorkerState::Inactive(reason)) => *reason == InactiveReason::Stall
            && (*trigger == TransitionTrigger::DaemonDirective || *trigger
            == TransitionTrigger::OrchestratorDead),
        (WorkerState::Backoff, WorkerState::Inactive(reason)) => *reason
            == InactiveReason::RetryExhausted && (*trigger == TransitionTrigger::OrchestratorAction
            || *trigger == TransitionTrigger::DaemonDirective),
        (WorkerState::Cleaning, WorkerState::Cleaning) => false,
        (_, WorkerState::Cleaning) => matches!(
            trigger,
            TransitionTrigger::TrackerEvent | TransitionTrigger::AssignmentLost
                | TransitionTrigger::RokiReadyRemoved
        ),
        _ => false,
    };
    if ok {
        Ok(())
    } else {
        Err(
            TransitionError::IllegalTransition {
                previous: *previous,
                next: *next,
                trigger: *trigger,
            },
        )
    }
}

/// No phase event ends the work on an issue: the exit of a phase alone never
/// leads to `Cleaning`.
pub proof fn law_phase_exit_never_cleans(previous: WorkerState)
    ensures
        !legal(previous, WorkerState::Cleaning, TransitionTrigger::PhaseEvent),
{
}

/// `Cleaning` is final: no transition leaves it.
pub proof fn law_cleaning_is_final(next: WorkerState, trigger: TransitionTrigger)
    ensures
        !legal(WorkerState::Cleaning, next, trigger),
{
}

/// From every state but `Cleaning`, each of the stop conditions leads to
/// `Cleaning`, and nothing else does.
pub proof fn law_stop_conditions_always_clean(previous: WorkerState, trigger: TransitionTrigger)
    requires
        !(previous is Cleaning),
    ensures
        legal(previous, WorkerState::Cleaning, trigger) == ends_work(trigger),
{
}

/// An inactive state is left for `Cleaning` alone.
pub proof fn law_inactive_only_cleans(
    reason: InactiveReason,
    next: WorkerState,
    trigger: TransitionTrigger,
)
    requires
        legal(WorkerState::Inactive(reason), next, trigger),
    ensures
        next is Cleaning,
{
}

/// No transition leads from a state to itself.
pub proof fn law_no_transition_stays(state: WorkerState, trigger: TransitionTrigger)
    ensures
        !legal(state, state, trigger),
{
}

/// The steps of an issue's life, one by one: a wait leads on to a phase, a phase
/// to a wait or a pause, a pause to a phase; each may end, for the reasons and on
/// the causes that belong to it; and whatever is not being wound down may be.
pub proof fn law_steps_of_a_life(
    previous: WorkerState,
    next: WorkerState,
    trigger: TransitionTrigger,
)
    ensures
        legal(previous, next, trigger) <==> {
            ||| previous is Pending && next is Active && trigger is OrchestratorAction
            ||| previous is Active && (next is Pending || next is Backoff) && trigger is PhaseEvent
            ||| previous is Backoff && next is Active && (trigger is DaemonDirective
                || trigger is OrchestratorAction)
            ||| previous is Pending && next is Inactive && (trigger is OrchestratorAction
                || trigger is OrchestratorDead)
            ||| previous is Active && next == WorkerState::Inactive(InactiveReason::Stall) && (
            trigger is DaemonDirective || trigger is OrchestratorDead)
            ||| previous is Backoff && next == WorkerState::Inactive(
                InactiveReason::RetryExhausted,
            ) && (trigger is OrchestratorAction || trigger is DaemonDirective)
            ||| !(previous is Cleaning) && next is Cleaning && (trigger is TrackerEvent
                || trigger is AssignmentLost || trigger is RokiReadyRemoved)
        },
{
}

} // verus!

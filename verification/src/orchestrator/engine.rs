//! The vocabulary between the daemon and an orchestrator session.
use vstd::prelude::*;

use crate::orchestrator::state::Mode;

verus! {

/// The phases that an orchestrator may nominate.
#[derive(Debug, Clone, Copy, PartialEq, Eq, Hash, Structural)]
pub enum PhaseName {
    Classify,
    Implement,
    Review,
    Validate,
    OpenPr,
    CiFix,
    FinalizeReview,
}

/// What an orchestrator asks for.
#[derive(Debug, Clone, Copy, PartialEq, Eq, Structural)]
pub enum ActionKind {
    RunPhase,
    LinearUpdateDone,
    Stop,
}

/// How an orchestrator ends its work.
#[derive(Debug, Clone, Copy, PartialEq, Eq, Structural)]
pub enum Outcome {
    Success,
    Cancelled,
    Failure,
    NeedsOperator,
    SpecIncomplete,
    NeedsSplit,
    AllowlistRejected,
}

/// An action as it was parsed from a session's output.
#[derive(Debug, PartialEq, Eq)]
pub struct OrchestratorAction {
    pub action: ActionKind,
    pub phase: Option<PhaseName>,
    pub additional_context: Option<String>,
    pub outcome: Option<Outcome>,
}

/// Why the tracker ended the work, as a session is told.
#[derive(Debug, Clone, Copy, PartialEq, Eq, Structural)]
pub enum TrackerTerminalState {
    AssignmentLost,
    RokiReadyRemoved,
    Done,
    Canceled,
}

/// The phase catalog refuses classification where the mode is settled.
pub open spec fn mode_illegal(phase: PhaseName, mode: Mode) -> bool {
    phase is Classify && mode is SpecDriven
}

/// Whether the phase catalog refuses `phase` in `mode`.
pub fn is_mode_illegal(phase: PhaseName, mode: Mode) -> (r: bool)
    ensures
        r == mode_illegal(phase, mode),
{
    phase == PhaseName::Classify && mode == Mode::SpecDriven
}

} // verus!

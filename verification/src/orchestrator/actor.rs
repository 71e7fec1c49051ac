//! The decisions of a per-issue actor.
//!
//! The actor performs one request at a time and hands the reply back. Each
//! handler says what the actor's state becomes, which effects are carried out
//! at once and in which order, and what is asked for next.
use vstd::prelude::*;

use crate::json::{entries_view, Json, JsonView};
use crate::orchestrator::engine::{is_mode_illegal, mode_illegal, ActionKind, OrchestratorAction, Outcome, PhaseName, TrackerTerminalState};
use crate::orchestrator::escalation::{build_directive_payload, directive_of, DaemonDirectivePayload, DirectiveView, EscalationKind};
use crate::orchestrator::read::ActorSnapshot;
use crate::orchestrator::state::{ends_work, legal, InactiveReason, IssueId, Mode, TransitionEvent, TransitionTrigger, WorkerState};
use crate::orchestrator::tracker_bridge::working;
use crate::text::{decimal, decimal_text, join2, join3, opt_view};
use crate::tracker::model::{LinearStateName, RepoId};

verus! {

/// What a session says.
#[derive(Debug, PartialEq, Eq)]
pub enum OrchestratorActionEvent {
    Action(OrchestratorAction),
    ProcessExit { success: bool },
    TerminalDrift,
}

#[derive(Debug, Clone, Copy, PartialEq, Eq, Structural)]
pub enum DeliveryError {
    Closed,
}

/// How a phase run ended.
#[derive(Debug, Clone, Copy, PartialEq, Eq, Structural)]
pub enum PhaseRunOutcome {
    /// It ended with an event for the session, which the caller holds.
    Translated,
    /// The tracker ended the work meanwhile; the result is discarded.
    TrackerTerminalDiscarded,
}

#[derive(Debug, PartialEq, Eq)]
pub enum WorktreeOpError {
    AllowlistRejected(String),
    FsPoison(String),
    Other(String),
}

#[derive(Debug, PartialEq, Eq)]
pub enum SessionDirError {
    Other(String),
}

impl SessionDirError {
    pub open spec fn text(&self) -> Seq<char> {
        match self {
            SessionDirError::Other(m) => "session dir error: "@ + m@,
        }
    }

    /// The error as it is shown.
    pub fn message(&self) -> (s: String)
        ensures
            s@ == self.text(),
    {
        match self {
            SessionDirError::Other(m) => join2("session dir error: ", m.as_str()),
        }
    }
}

#[derive(Debug, PartialEq, Eq)]
pub enum EngineError {
    LaunchFailed(String),
    Internal(String),
}

/// What an actor is told.
#[derive(Debug)]
pub enum ActorMessage {
    TrackerAdmit { mode: Mode, repo: Option<RepoId> },
    TrackerAssignmentLost,
    TrackerRokiReadyRemoved,
    TrackerTerminalState { state: LinearStateName },
    Shutdown,
    DaemonEscalation { kind: EscalationKind, fields: Json, correlation_id: String },
    FsPoisonDetected { offending_path: String, cause: String },
}

/// How an issue was admitted.
#[derive(Debug)]
pub struct AdmissionContext {
    pub mode: Mode,
    pub repo: Option<RepoId>,
}

/// The state of an actor.
#[derive(Debug)]
pub struct ActorState {
    pub issue: IssueId,
    pub state: WorkerState,
    pub admission: Option<AdmissionContext>,
    /// A session is there.
    pub has_session: bool,
    pub session_tempdir: Option<String>,
    pub latest_linear_state: Option<LinearStateName>,
    pub refused_for_fs_poison: bool,
}

/// What is carried out at once.
#[derive(Debug)]
pub enum Effect {
    /// A transition is published.
    Publish {
        repo: Option<String>,
        previous: WorkerState,
        next: WorkerState,
        trigger: TransitionTrigger,
        mode: Option<Mode>,
        inactive_reason: Option<InactiveReason>,
    },
    /// An escalation is recorded.
    Enqueue { repo: Option<String>, kind: EscalationKind, correlation_id: String, fields: Json },
    /// The session is told that the tracker ended the work.
    DeliverTerminal { terminal_state: TrackerTerminalState, correlation_id: String },
    /// The session is told of an escalation; a failure is of no account.
    DeliverDirective { payload: DaemonDirectivePayload },
    /// The session is given the event of the phase that just ended.
    DeliverPhaseEvent,
    /// The session is shut down.
    ShutdownSession,
    /// The issue's worktrees are removed.
    CleanupWorktrees,
    /// The issue's session directory is removed.
    RemoveSessionDir,
}

/// What is asked for next.
#[derive(Debug)]
pub enum Request {
    /// The next message.
    Message,
    /// Nothing more: the actor ends.
    Exit,
    /// The issue's session directory.
    EnsureSessionDir { mode: Mode, repo: Option<RepoId> },
    /// A session.
    Launch { mode: Mode, prompt: String },
    /// What the session says next.
    NextAction,
    /// A worktree for the phase.
    EnsureWorktree {
        repo: RepoId,
        phase: PhaseName,
        mode: Mode,
        additional_context: Option<String>,
    },
    /// A phase run.
    RunPhase {
        phase: PhaseName,
        mode: Mode,
        worktree_path: Option<String>,
        additional_context: Option<String>,
        session_tempdir: String,
    },
    /// The delivery of a directive, whose success matters.
    SendDirective { payload: DaemonDirectivePayload },
}

/// The outcome of a handler.
#[derive(Debug)]
pub struct Step {
    pub effects: Vec<Effect>,
    pub next: Request,
}

// ---------------------------------------------------------------------------
// Views
// ---------------------------------------------------------------------------

#[verifier::ext_equal]
pub struct AdmissionView {
    pub mode: Mode,
    pub repo: Option<Seq<char>>,
}

#[verifier::ext_equal]
pub struct ActorView {
    pub issue: Seq<char>,
    pub state: WorkerState,
    pub admission: Option<AdmissionView>,
    pub has_session: bool,
    pub tempdir: Option<Seq<char>>,
    pub linear_state: Option<Seq<char>>,
    pub refused: bool,
}

#[verifier::ext_equal]
pub enum EffectView {
    Publish {
        repo: Option<Seq<char>>,
        previous: WorkerState,
        next: WorkerState,
        trigger: TransitionTrigger,
        mode: Option<Mode>,
        inactive_reason: Option<InactiveReason>,
    },
    Enqueue {
        repo: Option<Seq<char>>,
        kind: EscalationKind,
        correlation_id: Seq<char>,
        fields: JsonView,
    },
    DeliverTerminal { terminal_state: TrackerTerminalState, correlation_id: Seq<char> },
    DeliverDirective { payload: DirectiveView },
    DeliverPhaseEvent,
    ShutdownSession,
    CleanupWorktrees,
    RemoveSessionDir,
}

#[verifier::ext_equal]
pub enum RequestView {
    Message,
    Exit,
    EnsureSessionDir { mode: Mode, repo: Option<Seq<char>> },
    Launch { mode: Mode, prompt: Seq<char> },
    NextAction,
    EnsureWorktree {
        repo: Seq<char>,
        phase: PhaseName,
        mode: Mode,
        additional_context: Option<Seq<char>>,
    },
    RunPhase {
        phase: PhaseName,
        mode: Mode,
        worktree_path: Option<Seq<char>>,
        additional_context: Option<Seq<char>>,
        session_tempdir: Seq<char>,
    },
    SendDirective { payload: DirectiveView },
}

/// What a handler leaves behind.
#[verifier::ext_equal]
pub struct StepView {
    pub actor: ActorView,
    pub effects: Seq<EffectView>,
    pub next: RequestView,
}

pub open spec fn opt_repo_view(o: Option<RepoId>) -> Option<Seq<char>> {
    match o {
        Some(r) => Some(r@),
        None => None,
    }
}

pub open spec fn opt_state_view(o: Option<LinearStateName>) -> Option<Seq<char>> {
    match o {
        Some(s) => Some(s@),
        None => None,
    }
}

pub open spec fn opt_admission_view(o: Option<AdmissionContext>) -> Option<AdmissionView> {
    match o {
        Some(a) => Some(AdmissionView { mode: a.mode, repo: opt_repo_view(a.repo) }),
        None => None,
    }
}

impl View for ActorState {
    type V = ActorView;

    open spec fn view(&self) -> ActorView {
        ActorView {
            issue: self.issue@,
            state: self.state,
            admission: opt_admission_view(self.admission),
            has_session: self.has_session,
            tempdir: opt_view(self.session_tempdir),
            linear_state: opt_state_view(self.latest_linear_state),
            refused: self.refused_for_fs_poison,
        }
    }
}

impl View for Effect {
    type V = EffectView;

    open spec fn view(&self) -> EffectView {
        match self {
            Effect::Publish { repo, previous, next, trigger, mode, inactive_reason } => EffectView::Publish {
                repo: opt_view(*repo),
                previous: *previous,
                next: *next,
                trigger: *trigger,
                mode: *mode,
                inactive_reason: *inactive_reason,
            },
            Effect::Enqueue { repo, kind, correlation_id, fields } => EffectView::Enqueue {
                repo: opt_view(*repo),
                kind: *kind,
                correlation_id: correlation_id@,
                fields: fields@,
            },
            Effect::DeliverTerminal { terminal_state, correlation_id } => EffectView::DeliverTerminal {
                terminal_state: *terminal_state,
                correlation_id: correlation_id@,
            },
            Effect::DeliverDirective { payload } => EffectView::DeliverDirective {
                payload: payload@,
            },
            Effect::DeliverPhaseEvent => EffectView::DeliverPhaseEvent,
            Effect::ShutdownSession => EffectView::ShutdownSession,
            Effect::CleanupWorktrees => EffectView::CleanupWorktrees,
            Effect::RemoveSessionDir => EffectView::RemoveSessionDir,
        }
    }
}

impl View for Request {
    type V = RequestView;

    open spec fn view(&self) -> RequestView {
        match self {
            Request::Message => RequestView::Message,
            Request::Exit => RequestView::Exit,
            Request::EnsureSessionDir { mode, repo } => RequestView::EnsureSessionDir {
                mode: *mode,
                repo: opt_repo_view(*repo),
            },
            Request::Launch { mode, prompt } => RequestView::Launch { mode: *mode, prompt: prompt@ },
            Request::NextAction => RequestView::NextAction,
            Request::EnsureWorktree { repo, phase, mode, additional_context } => RequestView::EnsureWorktree {
                repo: repo@,
                phase: *phase,
                mode: *mode,
                additional_context: opt_view(*additional_context),
            },
            Request::RunPhase { phase, mode, worktree_path, additional_context, session_tempdir } => RequestView::RunPhase {
                phase: *phase,
                mode: *mode,
                worktree_path: opt_view(*worktree_path),
                additional_context: opt_view(*additional_context),
                session_tempdir: session_tempdir@,
            },
            Request::SendDirective { payload } => RequestView::SendDirective { payload: payload@ },
        }
    }
}

/// The views of a list of effects.
pub open spec fn effect_views(v: Seq<Effect>) -> Seq<EffectView> {
    v.map_values(|e: Effect| e@)
}

/// What a handler on `actor` left behind.
pub open spec fn step_view(actor: ActorState, step: Step) -> StepView {
    StepView { actor: actor@, effects: effect_views(step.effects@), next: step.next@ }
}

// ---------------------------------------------------------------------------
// What the handlers do
// ---------------------------------------------------------------------------

impl ActorView {
    pub open spec fn mode(self) -> Option<Mode> {
        match self.admission {
            Some(a) => Some(a.mode),
            None => None,
        }
    }

    pub open spec fn repo(self) -> Option<Seq<char>> {
        match self.admission {
            Some(a) => a.repo,
            None => None,
        }
    }

    /// The actor once it is in `next`.
    pub open spec fn moved(self, next: WorkerState) -> ActorView {
        ActorView { state: next, ..self }
    }

    /// The announcement of a transition of this actor.
    pub open spec fn announced(
        self,
        next: WorkerState,
        trigger: TransitionTrigger,
        reason: Option<InactiveReason>,
    ) -> EffectView {
        EffectView::Publish {
            repo: self.repo(),
            previous: self.state,
            next,
            trigger,
            mode: self.mode(),
            inactive_reason: reason,
        }
    }

    /// The record of an escalation of this actor.
    pub open spec fn recorded(
        self,
        kind: EscalationKind,
        correlation_id: Seq<char>,
        fields: JsonView,
    ) -> EffectView {
        EffectView::Enqueue { repo: self.repo(), kind, correlation_id, fields }
    }

    /// The session is asked on, if there is one.
    pub open spec fn resumed(self, effects: Seq<EffectView>) -> StepView {
        StepView {
            actor: self,
            effects,
            next: if self.has_session {
                RequestView::NextAction
            } else {
                RequestView::Message
            },
        }
    }

    /// The next message is awaited.
    pub open spec fn rests(self, effects: Seq<EffectView>) -> StepView {
        StepView { actor: self, effects, next: RequestView::Message }
    }
}

/// The actor of an issue that nothing is known of.
pub open spec fn new_actor(issue: Seq<char>) -> ActorView {
    ActorView {
        issue,
        state: WorkerState::Pending,
        admission: None,
        has_session: false,
        tempdir: None,
        linear_state: None,
        refused: false,
    }
}

/// The actor goes inactive.
pub open spec fn deactivated(
    a: ActorView,
    reason: InactiveReason,
    trigger: TransitionTrigger,
) -> (ActorView, EffectView) {
    let next = WorkerState::Inactive(reason);
    (a.moved(next), a.announced(next, trigger, Some(reason)))
}

/// The fields of a filesystem escalation.
pub open spec fn poison_fields(path: Seq<char>, cause: Seq<char>) -> JsonView {
    JsonView::Object(
        seq![("cause"@, JsonView::Text(cause)), ("offending_path"@, JsonView::Text(path))],
    )
}

/// The filesystem cannot be relied on: the actor refuses further admissions,
/// escalates, tells a live session, and goes inactive.
pub open spec fn poisoned(a: ActorView, path: Seq<char>, cause: Seq<char>) -> (
    ActorView,
    Seq<EffectView>,
) {
    let fields = poison_fields(path, cause);
    let id = "fspoison-"@ + a.issue;
    let refused = ActorView { refused: true, ..a };
    let told = if a.has_session {
        seq![
            a.recorded(EscalationKind::FsPoison, id, fields),
            EffectView::DeliverDirective {
                payload: directive_of(fields, EscalationKind::FsPoison, id),
            },
        ]
    } else {
        seq![a.recorded(EscalationKind::FsPoison, id, fields)]
    };
    if a.state == WorkerState::Inactive(InactiveReason::FsPoison) {
        (refused, told)
    } else {
        let trigger = if a.has_session {
            TransitionTrigger::DaemonDirective
        } else {
            TransitionTrigger::OrchestratorDead
        };
        let (gone, announced) = deactivated(refused, InactiveReason::FsPoison, trigger);
        (gone, told.push(announced))
    }
}

/// What a session is told for a trigger.
pub open spec fn terminal_state_of(trigger: TransitionTrigger) -> TrackerTerminalState {
    match trigger {
        TransitionTrigger::AssignmentLost => TrackerTerminalState::AssignmentLost,
        TransitionTrigger::RokiReadyRemoved => TrackerTerminalState::RokiReadyRemoved,
        TransitionTrigger::TrackerEvent => TrackerTerminalState::Done,
        _ => TrackerTerminalState::Canceled,
    }
}

/// The work ends: a live session is told and shut down, the worktrees are
/// removed, and last the session directory.
pub open spec fn cleaned(a: ActorView, trigger: TransitionTrigger) -> StepView {
    let told = if a.has_session {
        seq![
            EffectView::DeliverTerminal {
                terminal_state: terminal_state_of(trigger),
                correlation_id: "tracker-"@ + a.issue,
            },
        ]
    } else {
        Seq::empty()
    };
    if a.state is Cleaning {
        StepView { actor: a, effects: told, next: RequestView::Exit }
    } else {
        let announced = told.push(a.announced(WorkerState::Cleaning, trigger, None));
        let ended = if a.has_session {
            announced.push(EffectView::ShutdownSession)
        } else {
            announced
        };
        StepView {
            actor: ActorView { has_session: false, ..a.moved(WorkerState::Cleaning) },
            effects: ended.push(EffectView::CleanupWorktrees).push(EffectView::RemoveSessionDir),
            next: RequestView::Exit,
        }
    }
}

/// An admission: refused after filesystem trouble, ignored while work goes on.
pub open spec fn admitted(a: ActorView, mode: Mode, repo: Option<Seq<char>>) -> StepView {
    if a.refused || (working(a.state) && a.admission is Some) {
        a.rests(Seq::empty())
    } else {
        StepView {
            actor: a,
            effects: Seq::empty(),
            next: RequestView::EnsureSessionDir { mode, repo },
        }
    }
}

/// The name of a mode.
pub open spec fn mode_name(mode: Mode) -> Seq<char> {
    match mode {
        Mode::SpecDriven => "SpecDriven"@,
        Mode::NeedsClassify => "NeedsClassify"@,
    }
}

/// The prompt that a session starts with.
pub open spec fn launch_prompt(issue: Seq<char>, mode: Mode) -> Seq<char> {
    "Roki orchestrator session for "@ + issue + ". Mode: "@ + mode_name(mode) + "."@
}

/// The session directory is there, or could not be had.
pub open spec fn after_session_dir(
    a: ActorView,
    mode: Mode,
    repo: Option<Seq<char>>,
    dir: Result<Seq<char>, Seq<char>>,
) -> StepView {
    match dir {
        Ok(path) => StepView {
            actor: ActorView {
                tempdir: Some(path),
                admission: Some(AdmissionView { mode, repo }),
                ..a
            },
            effects: Seq::empty(),
            next: RequestView::Launch { mode, prompt: launch_prompt(a.issue, mode) },
        },
        Err(message) => {
            let (p, effects) = poisoned(a, "<session-tempdir for "@ + a.issue + ">"@, message);
            p.rests(effects)
        },
    }
}

/// The session is launched, or could not be.
pub open spec fn after_launch(a: ActorView, mode: Mode, launched: bool) -> StepView {
    if launched {
        let b = ActorView { has_session: true, ..a.moved(WorkerState::Pending) };
        let effects = if a.state is Pending {
            Seq::empty()
        } else {
            seq![
                EffectView::Publish {
                    repo: a.repo(),
                    previous: a.state,
                    next: WorkerState::Pending,
                    trigger: TransitionTrigger::TrackerEvent,
                    mode: Some(mode),
                    inactive_reason: None,
                },
            ]
        };
        StepView { actor: b, effects, next: RequestView::NextAction }
    } else {
        let (b, announced) = deactivated(
            a,
            InactiveReason::OrchestratorCrash,
            TransitionTrigger::OrchestratorDead,
        );
        b.rests(seq![announced])
    }
}

/// The orchestrator is dead: the actor escalates and goes inactive.
pub open spec fn dead(
    a: ActorView,
    kind: EscalationKind,
    reason: InactiveReason,
    fields: JsonView,
) -> StepView {
    let (b, announced) = deactivated(a, reason, TransitionTrigger::OrchestratorDead);
    b.rests(seq![a.recorded(kind, kind.wire_name() + "-"@ + a.issue, fields), announced])
}

/// Why an actor stops for an outcome.
pub open spec fn stop_reason(outcome: Outcome) -> InactiveReason {
    match outcome {
        Outcome::Success => InactiveReason::AwaitingLinear,
        Outcome::Cancelled => InactiveReason::AwaitingLinear,
        Outcome::Failure => InactiveReason::RetryExhausted,
        Outcome::NeedsOperator => InactiveReason::NeedsOperator,
        Outcome::SpecIncomplete => InactiveReason::SpecIncomplete,
        Outcome::NeedsSplit => InactiveReason::NeedsSplit,
        Outcome::AllowlistRejected => InactiveReason::AllowlistRejected,
    }
}

/// The actor goes inactive and its session is shut down.
pub open spec fn stopped(a: ActorView, reason: InactiveReason) -> (ActorView, Seq<EffectView>) {
    let (b, announced) = deactivated(a, reason, TransitionTrigger::OrchestratorAction);
    (
        ActorView { has_session: false, ..b },
        if a.has_session {
            seq![announced, EffectView::ShutdownSession]
        } else {
            seq![announced]
        },
    )
}

/// A phase is about to run in the given worktree.
pub open spec fn phase_started(
    a: ActorView,
    phase: PhaseName,
    mode: Mode,
    worktree: Option<Seq<char>>,
    context: Option<Seq<char>>,
) -> StepView {
    let b = a.moved(WorkerState::Active);
    let effects = seq![
        a.announced(WorkerState::Active, TransitionTrigger::OrchestratorAction, None),
    ];
    match a.tempdir {
        Some(dir) => StepView {
            actor: b,
            effects,
            next: RequestView::RunPhase {
                phase,
                mode,
                worktree_path: worktree,
                additional_context: context,
                session_tempdir: dir,
            },
        },
        None => b.resumed(effects),
    }
}

/// A phase was nominated: it needs a mode that allows it, and a repository
/// unless it only classifies.
pub open spec fn phase_nominated(a: ActorView, phase: PhaseName, context: Option<Seq<char>>) -> StepView {
    match a.mode() {
        None => a.resumed(Seq::empty()),
        Some(mode) => if mode_illegal(phase, mode) {
            a.resumed(Seq::empty())
        } else if phase is Classify {
            phase_started(a, phase, mode, None, context)
        } else {
            match a.repo() {
                None => {
                    let (b, effects) = stopped(a, InactiveReason::AllowlistRejected);
                    b.resumed(effects)
                },
                Some(repo) => StepView {
                    actor: a,
                    effects: Seq::empty(),
                    next: RequestView::EnsureWorktree {
                        repo,
                        phase,
                        mode,
                        additional_context: context,
                    },
                },
            }
        },
    }
}

/// What a session's event leads to. `None` is a closed channel.
pub open spec fn after_session_event(a: ActorView, event: Option<OrchestratorActionEvent>) -> StepView {
    match event {
        None => if working(a.state) {
            dead(
                a,
                EscalationKind::OrchestratorCrash,
                InactiveReason::OrchestratorCrash,
                JsonView::Object(
                    seq![
                        ("channel_closed"@, JsonView::Bool(true)),
                        ("exit_success"@, JsonView::Bool(false)),
                    ],
                ),
            )
        } else {
            a.rests(Seq::empty())
        },
        Some(OrchestratorActionEvent::ProcessExit { success }) => if working(a.state) {
            dead(
                a,
                EscalationKind::OrchestratorCrash,
                InactiveReason::OrchestratorCrash,
                JsonView::Object(seq![("exit_success"@, JsonView::Bool(success))]),
            )
        } else {
            a.rests(Seq::empty())
        },
        Some(OrchestratorActionEvent::TerminalDrift) => dead(
            a,
            EscalationKind::OrchestratorUnparseable,
            InactiveReason::OrchestratorUnparseable,
            JsonView::Object(seq![("reason"@, JsonView::Text("terminal_drift"@))]),
        ),
        Some(OrchestratorActionEvent::Action(action)) => match action.action {
            ActionKind::LinearUpdateDone => a.resumed(Seq::empty()),
            ActionKind::RunPhase => match action.phase {
                None => a.resumed(Seq::empty()),
                Some(phase) => phase_nominated(a, phase, opt_view(action.additional_context)),
            },
            ActionKind::Stop => {
                let outcome = match action.outcome {
                    Some(o) => o,
                    None => Outcome::Failure,
                };
                let (b, effects) = stopped(a, stop_reason(outcome));
                b.rests(effects)
            },
        },
    }
}

/// The worktree for a phase is there, or could not be had.
pub open spec fn after_worktree(
    a: ActorView,
    phase: PhaseName,
    mode: Mode,
    context: Option<Seq<char>>,
    worktree: Result<String, WorktreeOpError>,
) -> StepView {
    match worktree {
        Ok(path) => phase_started(a, phase, mode, Some(path@), context),
        Err(WorktreeOpError::AllowlistRejected(_)) => {
            let (b, effects) = stopped(a, InactiveReason::AllowlistRejected);
            b.resumed(effects)
        },
        Err(WorktreeOpError::FsPoison(cause)) => {
            let (b, effects) = poisoned(a, "<worktree "@ + a.issue + ">"@, cause@);
            b.resumed(effects)
        },
        Err(WorktreeOpError::Other(_)) => a.resumed(Seq::empty()),
    }
}

/// A phase run has ended, or failed to run (`None`).
pub open spec fn after_phase(a: ActorView, outcome: Option<PhaseRunOutcome>) -> StepView {
    match outcome {
        Some(PhaseRunOutcome::Translated) => {
            let announced = a.announced(
                WorkerState::Pending,
                TransitionTrigger::PhaseEvent,
                None,
            );
            a.moved(WorkerState::Pending).resumed(
                if a.has_session {
                    seq![announced, EffectView::DeliverPhaseEvent]
                } else {
                    seq![announced]
                },
            )
        },
        Some(PhaseRunOutcome::TrackerTerminalDiscarded) => a.rests(Seq::empty()),
        None => a.resumed(Seq::empty()),
    }
}

/// Why an actor goes inactive for an escalation about a dead orchestrator.
pub open spec fn dead_reason(kind: EscalationKind) -> Option<InactiveReason> {
    match kind {
        EscalationKind::OrchestratorCrash => Some(InactiveReason::OrchestratorCrash),
        EscalationKind::OrchestratorUnparseable => Some(InactiveReason::OrchestratorUnparseable),
        EscalationKind::OrchestratorBudgetExhausted => Some(
            InactiveReason::OrchestratorBudgetExhausted,
        ),
        _ => None,
    }
}

/// An escalation is always recorded. About a dead orchestrator, the actor goes
/// inactive unless it is already; otherwise a live session is told.
pub open spec fn escalated(
    a: ActorView,
    kind: EscalationKind,
    fields: JsonView,
    correlation_id: Seq<char>,
) -> StepView {
    let record = a.recorded(kind, correlation_id, fields);
    match dead_reason(kind) {
        Some(reason) => if a.state is Inactive {
            a.rests(seq![record])
        } else {
            let (b, announced) = deactivated(a, reason, TransitionTrigger::OrchestratorDead);
            b.rests(seq![record, announced])
        },
        None => if a.has_session {
            StepView {
                actor: a,
                effects: seq![record],
                next: RequestView::SendDirective {
                    payload: directive_of(fields, kind, correlation_id),
                },
            }
        } else {
            a.rests(seq![record])
        },
    }
}

/// A directive was delivered, or was not: then the orchestrator counts as
/// crashed.
pub open spec fn after_directive(a: ActorView, delivered: bool) -> StepView {
    if delivered {
        a.rests(Seq::empty())
    } else {
        let (b, announced) = deactivated(
            a,
            InactiveReason::OrchestratorCrash,
            TransitionTrigger::OrchestratorDead,
        );
        b.rests(seq![announced])
    }
}

/// What a message leads to.
pub open spec fn after_message(a: ActorView, msg: ActorMessage) -> StepView {
    match msg {
        ActorMessage::TrackerAdmit { mode, repo } => admitted(a, mode, opt_repo_view(repo)),
        ActorMessage::TrackerAssignmentLost => cleaned(a, TransitionTrigger::AssignmentLost),
        ActorMessage::TrackerRokiReadyRemoved => cleaned(a, TransitionTrigger::RokiReadyRemoved),
        ActorMessage::TrackerTerminalState { state } => cleaned(
            ActorView { linear_state: Some(state@), ..a },
            TransitionTrigger::TrackerEvent,
        ),
        ActorMessage::Shutdown => cleaned(a, TransitionTrigger::OperatorShutdown),
        ActorMessage::DaemonEscalation { kind, fields, correlation_id } => escalated(
            a,
            kind,
            fields@,
            correlation_id@,
        ),
        ActorMessage::FsPoisonDetected { offending_path, cause } => {
            let (b, effects) = poisoned(a, offending_path@, cause@);
            b.rests(effects)
        },
    }
}

// ---------------------------------------------------------------------------
// The handlers
// ---------------------------------------------------------------------------

/// Why an actor stops for an outcome.
pub fn map_stop_outcome(outcome: Outcome) -> (r: InactiveReason)
    ensures
        r == stop_reason(outcome),
{
    match outcome {
        Outcome::Success => InactiveReason::AwaitingLinear,
        Outcome::Cancelled => InactiveReason::AwaitingLinear,
        Outcome::Failure => InactiveReason::RetryExhausted,
        Outcome::NeedsOperator => InactiveReason::NeedsOperator,
        Outcome::SpecIncomplete => InactiveReason::SpecIncomplete,
        Outcome::NeedsSplit => InactiveReason::NeedsSplit,
        Outcome::AllowlistRejected => InactiveReason::AllowlistRejected,
    }
}

/// What a session is told for a trigger.
pub fn terminal_state_for_trigger(trigger: TransitionTrigger) -> (r: TrackerTerminalState)
    ensures
        r == terminal_state_of(trigger),
{
    match trigger {
        TransitionTrigger::AssignmentLost => TrackerTerminalState::AssignmentLost,
        TransitionTrigger::RokiReadyRemoved => TrackerTerminalState::RokiReadyRemoved,
        TransitionTrigger::TrackerEvent => TrackerTerminalState::Done,
        _ => TrackerTerminalState::Canceled,
    }
}

/// The transition event that is published for an announcement.
pub fn transition_event(
    issue: &IssueId,
    repo: Option<String>,
    previous: WorkerState,
    next: WorkerState,
    trigger: TransitionTrigger,
    mode: Option<Mode>,
    inactive_reason: Option<InactiveReason>,
    unix_seconds: u64,
) -> (e: TransitionEvent)
    ensures
        e.issue == *issue,
        e.repo == repo,
        e.previous == previous,
        e.next == next,
        e.trigger == trigger,
        e.mode == mode,
        e.inactive_reason == inactive_reason,
        e.correlation_id@ == "tx-"@ + issue@ + "-"@ + decimal(unix_seconds as nat),
{
    let head = join3("tx-", issue.as_str(), "-");
    TransitionEvent {
        issue: issue.clone(),
        repo,
        previous,
        next,
        trigger,
        mode,
        inactive_reason,
        correlation_id: join2(head.as_str(), decimal_text(unix_seconds).as_str()),
    }
}

fn clone_repo(o: &Option<RepoId>) -> (r: Option<RepoId>)
    ensures
        r == *o,
{
    match o {
        Some(x) => Some(x.clone()),
        None => None,
    }
}

fn no_effects() -> (v: Vec<Effect>)
    ensures
        effect_views(v@) == Seq::<EffectView>::empty(),
{
    let v: Vec<Effect> = Vec::new();
    assert(effect_views(v@) =~= Seq::<EffectView>::empty());
    v
}

fn add_effect(v: &mut Vec<Effect>, e: Effect)
    ensures
        effect_views(final(v)@) == effect_views(old(v)@).push(e@),
{
    v.push(e);
    assert(effect_views(v@) =~= effect_views(old(v)@).push(e@));
}

fn object1(k: &str, v: Json) -> (j: Json)
    ensures
        j@ == JsonView::Object(seq![(k@, v@)]),
{
    let mut entries: Vec<(String, Json)> = Vec::new();
    entries.push((k.to_owned(), v));
    assert(entries_view(entries@) =~= seq![(k@, v@)]);
    Json::Object(entries)
}

fn object2(k: &str, v: Json, l: &str, w: Json) -> (j: Json)
    ensures
        j@ == JsonView::Object(seq![(k@, v@), (l@, w@)]),
{
    let mut entries: Vec<(String, Json)> = Vec::new();
    entries.push((k.to_owned(), v));
    entries.push((l.to_owned(), w));
    assert(entries_view(entries@) =~= seq![(k@, v@), (l@, w@)]);
    Json::Object(entries)
}

impl ActorState {
    pub fn new(issue: IssueId) -> (a: ActorState)
        ensures
            a@ == new_actor(issue@),
    {
        ActorState {
            issue,
            state: WorkerState::Pending,
            admission: None,
            has_session: false,
            session_tempdir: None,
            latest_linear_state: None,
            refused_for_fs_poison: false,
        }
    }

    pub fn mode(&self) -> (r: Option<Mode>)
        ensures
            r == self@.mode(),
    {
        match &self.admission {
            Some(a) => Some(a.mode),
            None => None,
        }
    }

    pub fn repo(&self) -> (r: Option<RepoId>)
        ensures
            opt_repo_view(r) == self@.repo(),
    {
        match &self.admission {
            Some(a) => clone_repo(&a.repo),
            None => None,
        }
    }

    /// What others may see of the actor.
    pub fn snapshot(&self) -> (s: ActorSnapshot)
        ensures
            s.issue@ == self@.issue,
            s.state == self@.state,
            s.mode == self@.mode(),
            opt_state_view(s.latest_linear_state) == self@.linear_state,
    {
        ActorSnapshot {
            issue: self.issue.clone(),
            state: self.state,
            mode: self.mode(),
            latest_linear_state: match &self.latest_linear_state {
                Some(name) => Some(name.clone()),
                None => None,
            },
        }
    }

    fn repo_name(&self) -> (r: Option<String>)
        ensures
            opt_view(r) == self@.repo(),
    {
        match self.repo() {
            Some(x) => Some(x.0),
            None => None,
        }
    }

    fn is_working(&self) -> (r: bool)
        ensures
            r == working(self@.state),
    {
        matches!(self.state, WorkerState::Pending | WorkerState::Active | WorkerState::Backoff)
    }

    fn announce(
        &self,
        next: WorkerState,
        trigger: TransitionTrigger,
        reason: Option<InactiveReason>,
    ) -> (e: Effect)
        ensures
            e@ == self@.announced(next, trigger, reason),
    {
        Effect::Publish {
            repo: self.repo_name(),
            previous: self.state,
            next,
            trigger,
            mode: self.mode(),
            inactive_reason: reason,
        }
    }

    fn record(&self, kind: EscalationKind, correlation_id: String, fields: Json) -> (e: Effect)
        ensures
            e@ == self@.recorded(kind, correlation_id@, fields@),
    {
        Effect::Enqueue { repo: self.repo_name(), kind, correlation_id, fields }
    }

    fn resume(&self, effects: Vec<Effect>) -> (s: Step)
        ensures
            step_view(*self, s) == self@.resumed(effect_views(effects@)),
    {
        let next = if self.has_session {
            Request::NextAction
        } else {
            Request::Message
        };
        Step { effects, next }
    }

    fn rest(&self, effects: Vec<Effect>) -> (s: Step)
        ensures
            step_view(*self, s) == self@.rests(effect_views(effects@)),
    {
        Step { effects, next: Request::Message }
    }

    fn transition_to_inactive(&mut self, reason: InactiveReason, trigger: TransitionTrigger) -> (e:
        Effect)
        ensures
            (final(self)@, e@) == deactivated(old(self)@, reason, trigger),
    {
        let e = self.announce(WorkerState::Inactive(reason), trigger, Some(reason));
        self.state = WorkerState::Inactive(reason);
        e
    }

    fn stop(&mut self, reason: InactiveReason) -> (effects: Vec<Effect>)
        ensures
            (final(self)@, effect_views(effects@)) == stopped(old(self)@, reason),
    {
        let mut effects = no_effects();
        let e = self.transition_to_inactive(reason, TransitionTrigger::OrchestratorAction);
        let ghost ev = e@;
        add_effect(&mut effects, e);
        if self.has_session {
            add_effect(&mut effects, Effect::ShutdownSession);
            self.has_session = false;
            assert(effect_views(effects@) =~= seq![ev, EffectView::ShutdownSession]);
        } else {
            assert(effect_views(effects@) =~= seq![ev]);
        }
        effects
    }

    fn handle_fs_poison(&mut self, offending_path: String, cause: String) -> (effects: Vec<Effect>)
        ensures
            (final(self)@, effect_views(effects@)) == poisoned(
                old(self)@,
                offending_path@,
                cause@,
            ),
    {
        let ghost a = self@;
        let mut effects = no_effects();
        let id = join2("fspoison-", self.issue.as_str());
        let fields = object2(
            "cause",
            Json::Text(cause),
            "offending_path",
            Json::Text(offending_path),
        );
        assert(fields@ == poison_fields(offending_path@, cause@));
        let payload = build_directive_payload(&fields, EscalationKind::FsPoison, id.as_str());
        let ghost pv = payload@;
        let record = self.record(EscalationKind::FsPoison, id, fields);
        let ghost rv = record@;
        add_effect(&mut effects, record);
        if self.has_session {
            add_effect(&mut effects, Effect::DeliverDirective { payload });
            assert(effect_views(effects@) =~= seq![
                rv,
                EffectView::DeliverDirective { payload: pv },
            ]);
        } else {
            assert(effect_views(effects@) =~= seq![rv]);
        }
        self.refused_for_fs_poison = true;
        if self.state != WorkerState::Inactive(InactiveReason::FsPoison) {
            let trigger = if self.has_session {
                TransitionTrigger::DaemonDirective
            } else {
                TransitionTrigger::OrchestratorDead
            };
            let e = self.transition_to_inactive(InactiveReason::FsPoison, trigger);
            add_effect(&mut effects, e);
        }
        effects
    }

    fn enter_cleaning(&mut self, trigger: TransitionTrigger) -> (s: Step)
        ensures
            step_view(*final(self), s) == cleaned(old(self)@, trigger),
    {
        let mut effects = no_effects();
        if self.has_session {
            let e = Effect::DeliverTerminal {
                terminal_state: terminal_state_for_trigger(trigger),
                correlation_id: join2("tracker-", self.issue.as_str()),
            };
            let ghost ev = e@;
            add_effect(&mut effects, e);
            assert(effect_views(effects@) =~= seq![ev]);
        }
        if self.state == WorkerState::Cleaning {
            return Step { effects, next: Request::Exit };
        }
        let e = self.announce(WorkerState::Cleaning, trigger, None);
        add_effect(&mut effects, e);
        self.state = WorkerState::Cleaning;
        if self.has_session {
            add_effect(&mut effects, Effect::ShutdownSession);
            self.has_session = false;
        }
        add_effect(&mut effects, Effect::CleanupWorktrees);
        add_effect(&mut effects, Effect::RemoveSessionDir);
        Step { effects, next: Request::Exit }
    }

    fn handle_admit(&mut self, mode: Mode, repo: Option<RepoId>) -> (s: Step)
        ensures
            step_view(*final(self), s) == admitted(old(self)@, mode, opt_repo_view(repo)),
    {
        if self.refused_for_fs_poison || (self.is_working() && self.admission.is_some()) {
            return self.rest(no_effects());
        }
        Step { effects: no_effects(), next: Request::EnsureSessionDir { mode, repo } }
    }

    /// Takes in the session directory that was asked for on admission.
    pub fn on_session_dir(
        &mut self,
        mode: Mode,
        repo: Option<RepoId>,
        dir: Result<String, SessionDirError>,
    ) -> (s: Step)
        ensures
            step_view(*final(self), s) == after_session_dir(
                old(self)@,
                mode,
                opt_repo_view(repo),
                match dir {
                    Ok(p) => Ok(p@),
                    Err(e) => Err(e.text()),
                },
            ),
    {
        match dir {
            Ok(path) => {
                self.session_tempdir = Some(path);
                self.admission = Some(AdmissionContext { mode, repo });
                let name = match mode {
                    Mode::SpecDriven => "SpecDriven",
                    Mode::NeedsClassify => "NeedsClassify",
                };
                let head = join3("Roki orchestrator session for ", self.issue.as_str(), ". Mode: ");
                let prompt = join3(head.as_str(), name, ".");
                Step { effects: no_effects(), next: Request::Launch { mode, prompt } }
            },
            Err(err) => {
                let path = join3("<session-tempdir for ", self.issue.as_str(), ">");
                let effects = self.handle_fs_poison(path, err.message());
                self.rest(effects)
            },
        }
    }

    /// Takes in the launch of a session.
    pub fn on_launch(&mut self, mode: Mode, launched: bool) -> (s: Step)
        ensures
            step_view(*final(self), s) == after_launch(old(self)@, mode, launched),
    {
        let mut effects = no_effects();
        if launched {
            let prev = self.state;
            self.has_session = true;
            self.state = WorkerState::Pending;
            if prev != WorkerState::Pending {
                let e = Effect::Publish {
                    repo: self.repo_name(),
                    previous: prev,
                    next: WorkerState::Pending,
                    trigger: TransitionTrigger::TrackerEvent,
                    mode: Some(mode),
                    inactive_reason: None,
                };
                let ghost ev = e@;
                add_effect(&mut effects, e);
                assert(effect_views(effects@) =~= seq![ev]);
            }
            Step { effects, next: Request::NextAction }
        } else {
            let e = self.transition_to_inactive(
                InactiveReason::OrchestratorCrash,
                TransitionTrigger::OrchestratorDead,
            );
            let ghost ev = e@;
            add_effect(&mut effects, e);
            assert(effect_views(effects@) =~= seq![ev]);
            self.rest(effects)
        }
    }

    fn route_orchestrator_dead(
        &mut self,
        kind: EscalationKind,
        reason: InactiveReason,
        fields: Json,
    ) -> (s: Step)
        ensures
            step_view(*final(self), s) == dead(old(self)@, kind, reason, fields@),
    {
        let mut effects = no_effects();
        let id = join3(kind.wire(), "-", self.issue.as_str());
        let record = self.record(kind, id, fields);
        let ghost rv = record@;
        add_effect(&mut effects, record);
        let e = self.transition_to_inactive(reason, TransitionTrigger::OrchestratorDead);
        let ghost ev = e@;
        add_effect(&mut effects, e);
        assert(effect_views(effects@) =~= seq![rv, ev]);
        self.rest(effects)
    }

    fn start_phase(
        &mut self,
        phase: PhaseName,
        mode: Mode,
        worktree_path: Option<String>,
        additional_context: Option<String>,
    ) -> (s: Step)
        ensures
            step_view(*final(self), s) == phase_started(
                old(self)@,
                phase,
                mode,
                opt_view(worktree_path),
                opt_view(additional_context),
            ),
    {
        let mut effects = no_effects();
        let e = self.announce(WorkerState::Active, TransitionTrigger::OrchestratorAction, None);
        let ghost ev = e@;
        add_effect(&mut effects, e);
        assert(effect_views(effects@) =~= seq![ev]);
        self.state = WorkerState::Active;
        match &self.session_tempdir {
            Some(dir) => Step {
                effects,
                next: Request::RunPhase {
                    phase,
                    mode,
                    worktree_path,
                    additional_context,
                    session_tempdir: dir.clone(),
                },
            },
            None => self.resume(effects),
        }
    }

    fn run_phase_for_action(&mut self, phase: PhaseName, additional_context: Option<String>) -> (s:
        Step)
        ensures
            step_view(*final(self), s) == phase_nominated(
                old(self)@,
                phase,
                opt_view(additional_context),
            ),
    {
        let mode = match self.mode() {
            Some(m) => m,
            None => {
                return self.resume(no_effects());
            },
        };
        if is_mode_illegal(phase, mode) {
            return self.resume(no_effects());
        }
        if phase == PhaseName::Classify {
            return self.start_phase(phase, mode, None, additional_context);
        }
        match self.repo() {
            Some(repo) => Step {
                effects: no_effects(),
                next: Request::EnsureWorktree { repo, phase, mode, additional_context },
            },
            None => {
                let effects = self.stop(InactiveReason::AllowlistRejected);
                self.resume(effects)
            },
        }
    }

    fn handle_action(&mut self, action: OrchestratorAction) -> (s: Step)
        ensures
            step_view(*final(self), s) == after_session_event(
                old(self)@,
                Some(OrchestratorActionEvent::Action(action)),
            ),
    {
        match action.action {
            ActionKind::LinearUpdateDone => self.resume(no_effects()),
            ActionKind::RunPhase => match action.phase {
                Some(phase) => self.run_phase_for_action(phase, action.additional_context),
                None => self.resume(no_effects()),
            },
            ActionKind::Stop => {
                let outcome = match action.outcome {
                    Some(o) => o,
                    None => Outcome::Failure,
                };
                let effects = self.stop(map_stop_outcome(outcome));
                self.rest(effects)
            },
        }
    }

    /// Takes in what the session says; `None` is a closed channel.
    pub fn on_session_event(&mut self, event: Option<OrchestratorActionEvent>) -> (s: Step)
        ensures
            step_view(*final(self), s) == after_session_event(old(self)@, event),
    {
        match event {
            None => {
                if self.is_working() {
                    self.route_orchestrator_dead(
                        EscalationKind::OrchestratorCrash,
                        InactiveReason::OrchestratorCrash,
                        object2(
                            "channel_closed",
                            Json::Bool(true),
                            "exit_success",
                            Json::Bool(false),
                        ),
                    )
                } else {
                    self.rest(no_effects())
                }
            },
            Some(OrchestratorActionEvent::Action(action)) => self.handle_action(action),
            Some(OrchestratorActionEvent::ProcessExit { success }) => {
                if self.is_working() {
                    self.route_orchestrator_dead(
                        EscalationKind::OrchestratorCrash,
                        InactiveReason::OrchestratorCrash,
                        object1("exit_success", Json::Bool(success)),
                    )
                } else {
                    self.rest(no_effects())
                }
            },
            Some(OrchestratorActionEvent::TerminalDrift) => self.route_orchestrator_dead(
                EscalationKind::OrchestratorUnparseable,
                InactiveReason::OrchestratorUnparseable,
                object1("reason", Json::Text("terminal_drift".to_owned())),
            ),
        }
    }

    /// Takes in the worktree that was asked for on a nomination.
    pub fn on_worktree(
        &mut self,
        phase: PhaseName,
        mode: Mode,
        additional_context: Option<String>,
        worktree: Result<String, WorktreeOpError>,
    ) -> (s: Step)
        ensures
            step_view(*final(self), s) == after_worktree(
                old(self)@,
                phase,
                mode,
                opt_view(additional_context),
                worktree,
            ),
    {
        match worktree {
            Ok(path) => self.start_phase(phase, mode, Some(path), additional_context),
            Err(WorktreeOpError::AllowlistRejected(_)) => {
                let effects = self.stop(InactiveReason::AllowlistRejected);
                self.resume(effects)
            },
            Err(WorktreeOpError::FsPoison(cause)) => {
                let path = join3("<worktree ", self.issue.as_str(), ">");
                let effects = self.handle_fs_poison(path, cause);
                self.resume(effects)
            },
            Err(WorktreeOpError::Other(_)) => self.resume(no_effects()),
        }
    }

    /// Takes in the end of a phase run; `None` if it failed to run.
    pub fn on_phase(&mut self, outcome: Option<PhaseRunOutcome>) -> (s: Step)
        ensures
            step_view(*final(self), s) == after_phase(old(self)@, outcome),
    {
        match outcome {
            Some(PhaseRunOutcome::Translated) => {
                let mut effects = no_effects();
                let e = self.announce(WorkerState::Pending, TransitionTrigger::PhaseEvent, None);
                let ghost ev = e@;
                add_effect(&mut effects, e);
                if self.has_session {
                    add_effect(&mut effects, Effect::DeliverPhaseEvent);
                    assert(effect_views(effects@) =~= seq![ev, EffectView::DeliverPhaseEvent]);
                } else {
                    assert(effect_views(effects@) =~= seq![ev]);
                }
                self.state = WorkerState::Pending;
                self.resume(effects)
            },
            Some(PhaseRunOutcome::TrackerTerminalDiscarded) => self.rest(no_effects()),
            None => self.resume(no_effects()),
        }
    }

    fn handle_daemon_escalation(
        &mut self,
        kind: EscalationKind,
        fields: Json,
        correlation_id: String,
    ) -> (s: Step)
        ensures
            step_view(*final(self), s) == escalated(old(self)@, kind, fields@, correlation_id@),
    {
        let mut effects = no_effects();
        let payload = build_directive_payload(&fields, kind, correlation_id.as_str());
        let record = self.record(kind, correlation_id, fields);
        let ghost rv = record@;
        add_effect(&mut effects, record);
        assert(effect_views(effects@) =~= seq![rv]);
        if kind.is_orchestrator_dead() {
            let reason = match kind {
                EscalationKind::OrchestratorUnparseable => InactiveReason::OrchestratorUnparseable,
                EscalationKind::OrchestratorBudgetExhausted => InactiveReason::OrchestratorBudgetExhausted,
                _ => InactiveReason::OrchestratorCrash,
            };
            let inactive = matches!(self.state, WorkerState::Inactive(_));
            if !inactive {
                let e = self.transition_to_inactive(reason, TransitionTrigger::OrchestratorDead);
                let ghost ev = e@;
                add_effect(&mut effects, e);
                assert(effect_views(effects@) =~= seq![rv, ev]);
            }
            return self.rest(effects);
        }
        if !self.has_session {
            return self.rest(effects);
        }
        Step { effects, next: Request::SendDirective { payload } }
    }

    /// Takes in the delivery of a directive.
    pub fn on_directive(&mut self, delivered: Result<(), DeliveryError>) -> (s: Step)
        ensures
            step_view(*final(self), s) == after_directive(old(self)@, delivered is Ok),
    {
        match delivered {
            Ok(_) => self.rest(no_effects()),
            Err(_) => {
                let mut effects = no_effects();
                let e = self.transition_to_inactive(
                    InactiveReason::OrchestratorCrash,
                    TransitionTrigger::OrchestratorDead,
                );
                let ghost ev = e@;
                add_effect(&mut effects, e);
                assert(effect_views(effects@) =~= seq![ev]);
                self.rest(effects)
            },
        }
    }

    /// Takes in a message.
    pub fn handle_message(&mut self, msg: ActorMessage) -> (s: Step)
        ensures
            step_view(*final(self), s) == after_message(old(self)@, msg),
    {
        match msg {
            ActorMessage::TrackerAdmit { mode, repo } => self.handle_admit(mode, repo),
            ActorMessage::TrackerAssignmentLost => self.enter_cleaning(
                TransitionTrigger::AssignmentLost,
            ),
            ActorMessage::TrackerRokiReadyRemoved => self.enter_cleaning(
                TransitionTrigger::RokiReadyRemoved,
            ),
            ActorMessage::TrackerTerminalState { state } => {
                self.latest_linear_state = Some(state);
                self.enter_cleaning(TransitionTrigger::TrackerEvent)
            },
            ActorMessage::Shutdown => self.enter_cleaning(TransitionTrigger::OperatorShutdown),
            ActorMessage::DaemonEscalation { kind, fields, correlation_id } => {
                self.handle_daemon_escalation(kind, fields, correlation_id)
            },
            ActorMessage::FsPoisonDetected { offending_path, cause } => {
                let effects = self.handle_fs_poison(offending_path, cause);
                self.rest(effects)
            },
        }
    }
}


// ---------------------------------------------------------------------------
// Laws
// ---------------------------------------------------------------------------

/// What is announced is what happened: every announcement leads from the state
/// before the step to the state behind it, and no change of state goes
/// unannounced.
pub open spec fn faithful(a: ActorView, s: StepView) -> bool {
    &&& forall|i: int|
        0 <= i < s.effects.len() && #[trigger] s.effects[i] is Publish ==> s.effects[i]->previous
            == a.state && s.effects[i]->Publish_next == s.actor.state
    &&& s.actor.state != a.state ==> exists|i: int|
        0 <= i < s.effects.len() && #[trigger] s.effects[i] is Publish
}

proof fn lemma_poison_faithful(a: ActorView, path: Seq<char>, cause: Seq<char>, next: RequestView)
    ensures
        ({
            let (b, effects) = poisoned(a, path, cause);
            faithful(a, StepView { actor: b, effects, next }) && b.refused
        }),
{
    let (b, effects) = poisoned(a, path, cause);
    if a.state != WorkerState::Inactive(InactiveReason::FsPoison) {
        assert(effects[effects.len() - 1] is Publish);
    }
}

proof fn lemma_stop_faithful(a: ActorView, reason: InactiveReason, next: RequestView)
    ensures
        ({
            let (b, effects) = stopped(a, reason);
            faithful(a, StepView { actor: b, effects, next })
        }),
{
    let (b, effects) = stopped(a, reason);
    assert(effects[0] is Publish);
}

proof fn lemma_dead_faithful(
    a: ActorView,
    kind: EscalationKind,
    reason: InactiveReason,
    fields: JsonView,
)
    ensures
        faithful(a, dead(a, kind, reason, fields)),
{
    assert(dead(a, kind, reason, fields).effects[1] is Publish);
}

proof fn lemma_phase_faithful(
    a: ActorView,
    phase: PhaseName,
    mode: Mode,
    worktree: Option<Seq<char>>,
    context: Option<Seq<char>>,
)
    ensures
        faithful(a, phase_started(a, phase, mode, worktree, context)),
{
    assert(phase_started(a, phase, mode, worktree, context).effects[0] is Publish);
}

proof fn lemma_nomination_faithful(a: ActorView, phase: PhaseName, context: Option<Seq<char>>)
    ensures
        faithful(a, phase_nominated(a, phase, context)),
{
    if let Some(mode) = a.mode() {
        lemma_phase_faithful(a, phase, mode, None, context);
        lemma_stop_faithful(a, InactiveReason::AllowlistRejected, RequestView::Message);
        let (b, effects) = stopped(a, InactiveReason::AllowlistRejected);
        assert(b.resumed(effects).effects == effects);
    }
}

/// Announcements are faithful in every handler of a message.
pub proof fn law_message_announcements_are_faithful(a: ActorView, msg: ActorMessage)
    ensures
        faithful(a, after_message(a, msg)),
{
    match msg {
        ActorMessage::FsPoisonDetected { offending_path, cause } => {
            lemma_poison_faithful(a, offending_path@, cause@, RequestView::Message);
        },
        ActorMessage::DaemonEscalation { kind, fields, correlation_id } => {
            let s = escalated(a, kind, fields@, correlation_id@);
            if dead_reason(kind) is Some && !(a.state is Inactive) {
                assert(s.effects[1] is Publish);
            }
        },
        ActorMessage::TrackerAdmit { .. } => {},
        _ => {
            let s = after_message(a, msg);
            if !(a.state is Cleaning) {
                let at = if a.has_session { 1int } else { 0int };
                assert(s.effects[at] is Publish);
            }
        },
    }
}

/// Announcements are faithful in every handler of a reply.
pub proof fn law_reply_announcements_are_faithful(
    a: ActorView,
    mode: Mode,
    repo: Option<Seq<char>>,
    dir: Result<Seq<char>, Seq<char>>,
    launched: bool,
    event: Option<OrchestratorActionEvent>,
    phase: PhaseName,
    context: Option<Seq<char>>,
    worktree: Result<String, WorktreeOpError>,
    outcome: Option<PhaseRunOutcome>,
    delivered: bool,
)
    ensures
        faithful(a, after_session_dir(a, mode, repo, dir)),
        faithful(a, after_launch(a, mode, launched)),
        faithful(a, after_session_event(a, event)),
        faithful(a, after_worktree(a, phase, mode, context, worktree)),
        faithful(a, after_phase(a, outcome)),
        faithful(a, after_directive(a, delivered)),
{
    if let Err(message) = dir {
        lemma_poison_faithful(a, "<session-tempdir for "@ + a.issue + ">"@, message, RequestView::Message);
    }
    if !launched {
        assert(after_launch(a, mode, launched).effects[0] is Publish);
    } else if !(a.state is Pending) {
        assert(after_launch(a, mode, launched).effects[0] is Publish);
    }
    if let Some(e) = event {
        if let OrchestratorActionEvent::Action(action) = e {
            if let Some(p) = action.phase {
                lemma_nomination_faithful(a, p, opt_view(action.additional_context));
            }
            let o = match action.outcome {
                Some(o) => o,
                None => Outcome::Failure,
            };
            lemma_stop_faithful(a, stop_reason(o), RequestView::Message);
        }
        if let OrchestratorActionEvent::ProcessExit { success } = e {
            lemma_dead_faithful(a, EscalationKind::OrchestratorCrash, InactiveReason::OrchestratorCrash, JsonView::Object(seq![("exit_success"@, JsonView::Bool(success))]));
        }
        if e is TerminalDrift {
            lemma_dead_faithful(a, EscalationKind::OrchestratorUnparseable, InactiveReason::OrchestratorUnparseable, JsonView::Object(seq![("reason"@, JsonView::Text("terminal_drift"@))]));
        }
    } else {
        lemma_dead_faithful(a, EscalationKind::OrchestratorCrash, InactiveReason::OrchestratorCrash, JsonView::Object(seq![("channel_closed"@, JsonView::Bool(true)), ("exit_success"@, JsonView::Bool(false))]));
    }
    match worktree {
        Ok(path) => {
            lemma_phase_faithful(a, phase, mode, Some(path@), context);
        },
        Err(WorktreeOpError::FsPoison(cause)) => {
            let (b, effects) = poisoned(a, "<worktree "@ + a.issue + ">"@, cause@);
            lemma_poison_faithful(a, "<worktree "@ + a.issue + ">"@, cause@, b.resumed(effects).next);
        },
        Err(WorktreeOpError::AllowlistRejected(_)) => {
            let (b, effects) = stopped(a, InactiveReason::AllowlistRejected);
            lemma_stop_faithful(a, InactiveReason::AllowlistRejected, b.resumed(effects).next);
        },
        Err(WorktreeOpError::Other(_)) => {},
    }
    if outcome == Some(PhaseRunOutcome::Translated) {
        assert(after_phase(a, outcome).effects[0] is Publish);
    }
    if !delivered {
        assert(after_directive(a, delivered).effects[0] is Publish);
    }
}

/// The message ends the work.
pub open spec fn ends(msg: ActorMessage) -> bool {
    ||| msg is TrackerAssignmentLost
    ||| msg is TrackerRokiReadyRemoved
    ||| msg is TrackerTerminalState
    ||| msg is Shutdown
}

/// Only the tracker and the operator end the work: those messages, and no
/// others, lead to `Cleaning` and end the actor.
pub proof fn law_only_stop_messages_clean(a: ActorView, msg: ActorMessage)
    requires
        !(a.state is Cleaning),
    ensures
        after_message(a, msg).actor.state is Cleaning <==> ends(msg),
        after_message(a, msg).next is Exit <==> ends(msg),
{
}

/// No reply leads to `Cleaning`: neither the exit of a phase nor anything that
/// a session says.
pub proof fn law_replies_never_clean(
    a: ActorView,
    mode: Mode,
    repo: Option<Seq<char>>,
    dir: Result<Seq<char>, Seq<char>>,
    launched: bool,
    event: Option<OrchestratorActionEvent>,
    phase: PhaseName,
    context: Option<Seq<char>>,
    worktree: Result<String, WorktreeOpError>,
    outcome: Option<PhaseRunOutcome>,
    delivered: bool,
)
    requires
        !(a.state is Cleaning),
    ensures
        !(after_session_dir(a, mode, repo, dir).actor.state is Cleaning),
        !(after_launch(a, mode, launched).actor.state is Cleaning),
        !(after_session_event(a, event).actor.state is Cleaning),
        !(after_worktree(a, phase, mode, context, worktree).actor.state is Cleaning),
        !(after_phase(a, outcome).actor.state is Cleaning),
        !(after_directive(a, delivered).actor.state is Cleaning),
{
}

/// The end of the work is announced, by a stop condition as a legal transition
/// and by a shutdown outside the table; the worktrees are removed before the
/// session directory, which goes last; and no session is left.
pub proof fn law_cleaning_is_orderly(a: ActorView, trigger: TransitionTrigger)
    requires
        !(a.state is Cleaning),
    ensures
        ({
            let s = cleaned(a, trigger);
            let n = s.effects.len() as int;
            &&& legal(a.state, WorkerState::Cleaning, trigger) == ends_work(trigger)
            &&& s.effects.contains(a.announced(WorkerState::Cleaning, trigger, None))
            &&& s.effects[n - 1] is RemoveSessionDir
            &&& s.effects[n - 2] is CleanupWorktrees
            &&& a.has_session ==> s.effects.contains(EffectView::ShutdownSession)
            &&& !s.actor.has_session
        }),
{
    let s = cleaned(a, trigger);
    if a.has_session {
        assert(s.effects[1] == a.announced(WorkerState::Cleaning, trigger, None));
        assert(s.effects[2] is ShutdownSession);
    } else {
        assert(s.effects[0] == a.announced(WorkerState::Cleaning, trigger, None));
    }
}

/// An actor that has cleaned up does so only once.
pub proof fn law_cleaning_happens_once(
    a: ActorView,
    first: TransitionTrigger,
    second: TransitionTrigger,
)
    requires
        !(a.state is Cleaning),
    ensures
        ({
            let again = cleaned(cleaned(a, first).actor, second);
            again.effects =~= Seq::empty() && again.actor == cleaned(a, first).actor
        }),
{
}

/// After filesystem trouble the actor never again asks for a session directory
/// on a message, and never forgets the refusal.
pub proof fn law_poisoned_actor_refuses(
    a: ActorView,
    msg: ActorMessage,
    event: Option<OrchestratorActionEvent>,
    phase: PhaseName,
    mode: Mode,
    context: Option<Seq<char>>,
    worktree: Result<String, WorktreeOpError>,
    outcome: Option<PhaseRunOutcome>,
    delivered: bool,
)
    requires
        a.refused,
    ensures
        !(after_message(a, msg).next is EnsureSessionDir),
        after_message(a, msg).actor.refused,
        after_session_event(a, event).actor.refused,
        after_worktree(a, phase, mode, context, worktree).actor.refused,
        after_phase(a, outcome).actor.refused,
        after_directive(a, delivered).actor.refused,
{
}

/// While work goes on, a second admission changes nothing.
pub proof fn law_second_admission_is_ignored(a: ActorView, mode: Mode, repo: Option<Seq<char>>)
    requires
        working(a.state),
        a.admission is Some,
    ensures
        admitted(a, mode, repo) == a.rests(Seq::empty()),
{
}

/// Every escalation is recorded first; one about a dead orchestrator is not
/// sent to it.
pub proof fn law_escalations_are_recorded(
    a: ActorView,
    kind: EscalationKind,
    fields: JsonView,
    correlation_id: Seq<char>,
)
    ensures
        escalated(a, kind, fields, correlation_id).effects[0] == a.recorded(
            kind,
            correlation_id,
            fields,
        ),
        kind.dead() ==> !(escalated(a, kind, fields, correlation_id).next is SendDirective),
        kind.dead() ==> escalated(a, kind, fields, correlation_id).actor.state is Inactive,
{
}

/// Classification is refused where the mode is settled: nothing changes and the
/// session is asked on.
pub proof fn law_classify_refused_when_spec_driven(a: ActorView, context: Option<Seq<char>>)
    requires
        a.mode() == Some(Mode::SpecDriven),
        a.has_session,
    ensures
        phase_nominated(a, PhaseName::Classify, context) == (StepView {
            actor: a,
            effects: Seq::empty(),
            next: RequestView::NextAction,
        }),
{
}

/// The mode and the repository of an admission stand while the work goes on:
/// neither a message nor a reply to a request of the running work changes them.
pub proof fn law_admission_stands_while_work_goes_on(
    a: ActorView,
    msg: ActorMessage,
    mode: Mode,
    launched: bool,
    event: Option<OrchestratorActionEvent>,
    phase: PhaseName,
    context: Option<Seq<char>>,
    worktree: Result<String, WorktreeOpError>,
    outcome: Option<PhaseRunOutcome>,
    delivered: bool,
)
    requires
        working(a.state),
        a.admission is Some,
    ensures
        after_message(a, msg).actor.admission == a.admission,
        !(after_message(a, msg).next is EnsureSessionDir),
        after_launch(a, mode, launched).actor.admission == a.admission,
        after_session_event(a, event).actor.admission == a.admission,
        after_worktree(a, phase, mode, context, worktree).actor.admission == a.admission,
        after_phase(a, outcome).actor.admission == a.admission,
        after_directive(a, delivered).actor.admission == a.admission,
{
}

/// Only classification runs without a worktree, and it never runs in one: a
/// session's event starts no other phase at once, a worktree is asked for only
/// on behalf of another phase, and the phase then runs in that worktree.
pub proof fn law_only_classification_runs_without_a_worktree(
    a: ActorView,
    event: Option<OrchestratorActionEvent>,
    phase: PhaseName,
    mode: Mode,
    context: Option<Seq<char>>,
    worktree: Result<String, WorktreeOpError>,
)
    ensures
        after_session_event(a, event).next matches RequestView::RunPhase {
            phase: p,
            worktree_path,
            ..
        } ==> p is Classify && worktree_path is None,
        after_session_event(a, event).next matches RequestView::EnsureWorktree {
            phase: p,
            mode: m,
            ..
        } ==> !(p is Classify) && !mode_illegal(p, m),
        after_worktree(a, phase, mode, context, worktree).next matches RequestView::RunPhase {
            phase: p,
            worktree_path,
            ..
        } ==> p == phase && worktree is Ok && worktree_path == Some(worktree->Ok_0@),
{
}

} // verus!

//! What holds of an actor over a request and its reply.
//!
//! Each statement names what goes into a handler and what comes out of it: the
//! fields of the actor, of the message or reply, and of the next request.
use vstd::prelude::*;

use crate::json::JsonView;
use crate::orchestrator::actor::{after_directive, after_launch, after_message, after_phase, after_session_dir, after_session_event, after_worktree, new_actor, terminal_state_of, step_view, ActorMessage, ActorState, ActorView, EffectView, OrchestratorActionEvent, PhaseRunOutcome, Request, RequestView, Step, WorktreeOpError};
use crate::orchestrator::engine::{OrchestratorAction, Outcome, PhaseName, TrackerTerminalState};
use crate::orchestrator::escalation::EscalationKind;
use crate::orchestrator::state::{InactiveReason, Mode, TransitionTrigger, WorkerState};

verus! {

/// `v` is the text of `o`, where there is one.
pub open spec fn same_opt(o: Option<String>, v: Option<Seq<char>>) -> bool {
    match o {
        Some(s) => v == Some(s@),
        None => v is None,
    }
}

/// `e` announces that the actor `a` goes on to `next` for `trigger`.
pub open spec fn announces(
    e: EffectView,
    a: ActorView,
    next: WorkerState,
    trigger: TransitionTrigger,
) -> bool {
    e matches EffectView::Publish {
        repo,
        previous,
        next: n,
        trigger: t,
        mode,
        inactive_reason,
    } && previous == a.state && n == next && t == trigger && match a.admission {
        Some(ad) => repo == ad.repo && mode == Some(ad.mode),
        None => repo is None && mode is None,
    } && match next {
        WorkerState::Inactive(reason) => inactive_reason == Some(reason),
        _ => inactive_reason is None,
    }
}

/// `a` and `b` agree on everything but their states.
pub open spec fn but_for_state(a: ActorView, b: ActorView) -> bool {
    &&& b.issue == a.issue
    &&& b.admission == a.admission
    &&& b.has_session == a.has_session
    &&& b.tempdir == a.tempdir
    &&& b.linear_state == a.linear_state
    &&& b.refused == a.refused
}

// ---------------------------------------------------------------------------
// Phases
// ---------------------------------------------------------------------------

/// What a session's action asks for is what is run: the phase that it names, in
/// the mode of the admission, with its own additional context and in the
/// actor's session directory; or first a worktree of the admitted repository,
/// for that phase, in that mode and with that context.
pub proof fn law_phase_runs_as_the_session_asked(a: ActorView, action: OrchestratorAction)
    ensures
        after_session_event(a, Some(OrchestratorActionEvent::Action(action))).next
            matches RequestView::RunPhase {
            phase,
            mode,
            worktree_path,
            additional_context,
            session_tempdir,
        } ==> {
            &&& action.action is RunPhase
            &&& action.phase == Some(phase)
            &&& a.admission is Some && a.admission->0.mode == mode
            &&& same_opt(action.additional_context, additional_context)
            &&& a.tempdir == Some(session_tempdir)
            &&& phase is Classify && worktree_path is None
        },
        after_session_event(a, Some(OrchestratorActionEvent::Action(action))).next
            matches RequestView::EnsureWorktree { repo, phase, mode, additional_context } ==> {
            &&& action.action is RunPhase
            &&& action.phase == Some(phase)
            &&& a.admission is Some && a.admission->0.mode == mode
            &&& a.admission->0.repo == Some(repo)
            &&& same_opt(action.additional_context, additional_context)
            &&& !(phase is Classify)
        },
{
}

/// Once the worktree that an action led to is there, the run carries the phase
/// and the additional context of that action, the mode of the admission, that
/// worktree and the actor's session directory.
pub proof fn law_phase_runs_in_its_worktree_as_asked(
    a: ActorView,
    action: OrchestratorAction,
    repo: Seq<char>,
    phase: PhaseName,
    mode: Mode,
    context: Option<Seq<char>>,
    path: String,
    dir: Seq<char>,
)
    requires
        after_session_event(a, Some(OrchestratorActionEvent::Action(action))).next == (
        RequestView::EnsureWorktree { repo, phase, mode, additional_context: context }),
        a.tempdir == Some(dir),
    ensures
        ({
            let w = after_session_event(a, Some(OrchestratorActionEvent::Action(action))).actor;
            let s = after_worktree(w, phase, mode, context, Ok(path));
            &&& s.next matches RequestView::RunPhase {
                phase: p,
                mode: m,
                worktree_path,
                additional_context,
                session_tempdir,
            } && action.phase == Some(p) && a.admission->0.mode == m && worktree_path == Some(path@)
                && same_opt(action.additional_context, additional_context) && session_tempdir == dir
            &&& s.actor.state is Active
            &&& but_for_state(a, s.actor)
            &&& s.effects.len() == 1 && announces(
                s.effects[0],
                a,
                WorkerState::Active,
                TransitionTrigger::OrchestratorAction,
            )
        }),
{
}

/// A phase that is asked for is started: classification at once, where the mode
/// is not settled; another one by way of a worktree, which changes nothing yet.
pub proof fn law_asked_phases_are_started(
    a: ActorView,
    action: OrchestratorAction,
    phase: PhaseName,
    mode: Mode,
    repo: Seq<char>,
    dir: Seq<char>,
)
    requires
        action.action is RunPhase,
        action.phase == Some(phase),
        a.admission is Some,
        a.admission->0.mode == mode,
    ensures
        phase is Classify && mode is NeedsClassify && a.tempdir == Some(dir) ==> ({
            let s = after_session_event(a, Some(OrchestratorActionEvent::Action(action)));
            &&& s.next is RunPhase
            &&& s.actor.state is Active
            &&& but_for_state(a, s.actor)
            &&& s.effects.len() == 1 && announces(
                s.effects[0],
                a,
                WorkerState::Active,
                TransitionTrigger::OrchestratorAction,
            )
        }),
        !(phase is Classify) && a.admission->0.repo == Some(repo) ==> ({
            let s = after_session_event(a, Some(OrchestratorActionEvent::Action(action)));
            &&& s.next is EnsureWorktree
            &&& s.actor == a
            &&& s.effects.len() == 0
        }),
{
}

/// What cannot be run changes nothing, and the session is asked on: no phase,
/// no admission, a classification where the mode is settled, an update that is
/// done, or a worktree that failed for a passing reason.
pub proof fn law_what_cannot_run_is_passed_over(
    a: ActorView,
    action: OrchestratorAction,
    phase: PhaseName,
    mode: Mode,
    context: Option<Seq<char>>,
    message: String,
)
    ensures
        ({
            let s = after_session_event(a, Some(OrchestratorActionEvent::Action(action)));
            (action.action is LinearUpdateDone || (action.action is RunPhase && (action.phase is None
                || a.admission is None || (action.phase == Some(PhaseName::Classify)
                && a.admission->0.mode is SpecDriven)))) ==> {
                &&& s.actor == a
                &&& s.effects.len() == 0
                &&& a.has_session ==> s.next is NextAction
                &&& !a.has_session ==> s.next is Message
            }
        }),
        ({
            let s = after_worktree(a, phase, mode, context, Err(WorktreeOpError::Other(message)));
            &&& s.actor == a
            &&& s.effects.len() == 0
            &&& a.has_session ==> s.next is NextAction
            &&& !a.has_session ==> s.next is Message
        }),
{
}

/// A phase that has no repository to run in, or whose repository is not on the
/// list, stops the work for that reason, and the session goes with it.
pub proof fn law_unlisted_repositories_stop_the_work(
    a: ActorView,
    action: OrchestratorAction,
    phase: PhaseName,
    mode: Mode,
    context: Option<Seq<char>>,
    message: String,
)
    ensures
        ({
            let s = after_worktree(
                a,
                phase,
                mode,
                context,
                Err(WorktreeOpError::AllowlistRejected(message)),
            );
            &&& s.actor.state == WorkerState::Inactive(InactiveReason::AllowlistRejected)
            &&& !s.actor.has_session
            &&& s.next is Message
            &&& s.effects.len() == if a.has_session { 2int } else { 1int }
            &&& announces(
                s.effects[0],
                a,
                WorkerState::Inactive(InactiveReason::AllowlistRejected),
                TransitionTrigger::OrchestratorAction,
            )
            &&& a.has_session ==> s.effects[1] is ShutdownSession
        }),
        action.action is RunPhase && action.phase == Some(phase) && !(phase is Classify)
            && a.admission is Some && a.admission->0.repo is None ==> ({
            let s = after_session_event(a, Some(OrchestratorActionEvent::Action(action)));
            &&& s.actor.state == WorkerState::Inactive(InactiveReason::AllowlistRejected)
            &&& !s.actor.has_session
            &&& s.next is Message
            &&& announces(
                s.effects[0],
                a,
                WorkerState::Inactive(InactiveReason::AllowlistRejected),
                TransitionTrigger::OrchestratorAction,
            )
            &&& a.has_session ==> s.effects[1] is ShutdownSession
        }),
{
}

/// A phase that has ended brings the actor back to where it waits, and its
/// event to the session, which is then asked on. A result that came too late is
/// dropped, and a run that failed changes nothing.
pub proof fn law_ended_phases_are_reported(a: ActorView)
    ensures
        ({
            let s = after_phase(a, Some(PhaseRunOutcome::Translated));
            &&& s.actor.state is Pending
            &&& but_for_state(a, s.actor)
            &&& announces(s.effects[0], a, WorkerState::Pending, TransitionTrigger::PhaseEvent)
            &&& a.has_session ==> s.effects.len() == 2 && s.effects[1] is DeliverPhaseEvent
                && s.next is NextAction
            &&& !a.has_session ==> s.effects.len() == 1 && s.next is Message
        }),
        ({
            let s = after_phase(a, Some(PhaseRunOutcome::TrackerTerminalDiscarded));
            s.actor == a && s.effects.len() == 0 && s.next is Message
        }),
        ({
            let s = after_phase(a, None);
            &&& s.actor == a && s.effects.len() == 0
            &&& a.has_session ==> s.next is NextAction
            &&& !a.has_session ==> s.next is Message
        }),
{
}

// ---------------------------------------------------------------------------
// Admission and sessions
// ---------------------------------------------------------------------------

/// An admission is taken up, with its own mode and repository, unless there was
/// filesystem trouble or work is going on already; then it changes nothing.
pub proof fn law_admissions_are_taken_up(a: ActorView, msg: ActorMessage)
    ensures
        msg matches ActorMessage::TrackerAdmit { mode, repo } ==> {
            let s = after_message(a, msg);
            let busy = a.admission is Some && (a.state is Pending || a.state is Active
                || a.state is Backoff);
            &&& s.actor == a
            &&& s.effects.len() == 0
            &&& a.refused || busy ==> s.next is Message
            &&& !a.refused && !busy ==> (s.next matches RequestView::EnsureSessionDir {
                mode: m,
                repo: r,
            } && m == mode && match repo {
                Some(id) => r == Some(id@),
                None => r is None,
            })
        },
{
}

/// Once the session directory is there, the actor keeps it together with the
/// mode and the repository that it was admitted with, and a session is asked
/// for in that mode, with a prompt that names the issue and the mode.
pub proof fn law_session_directory_is_kept(
    a: ActorView,
    mode: Mode,
    repo: Option<Seq<char>>,
    path: Seq<char>,
)
    ensures
        ({
            let s = after_session_dir(a, mode, repo, Ok(path));
            &&& s.actor.tempdir == Some(path)
            &&& s.actor.admission is Some
            &&& s.actor.admission->0.mode == mode
            &&& s.actor.admission->0.repo == repo
            &&& s.actor.state == a.state
            &&& s.actor.issue == a.issue
            &&& s.actor.has_session == a.has_session
            &&& s.actor.linear_state == a.linear_state
            &&& s.actor.refused == a.refused
            &&& s.effects.len() == 0
            &&& s.next matches RequestView::Launch { mode: m, prompt } && m == mode && (
            mode is SpecDriven ==> prompt == "Roki orchestrator session for "@ + a.issue
                + ". Mode: "@ + "SpecDriven"@ + "."@) && (mode is NeedsClassify ==> prompt
                == "Roki orchestrator session for "@ + a.issue + ". Mode: "@ + "NeedsClassify"@
                + "."@)
        }),
{
}

/// A session that was launched is there, waits, and is asked on; one that could
/// not be launched leaves the actor inactive as after a crash.
pub proof fn law_launches_end_in_one_of_two_ways(a: ActorView, mode: Mode)
    ensures
        ({
            let s = after_launch(a, mode, true);
            &&& s.actor == (ActorView { state: WorkerState::Pending, has_session: true, ..a })
            &&& s.next is NextAction
            &&& a.state is Pending ==> s.effects.len() == 0
            &&& !(a.state is Pending) ==> s.effects.len() == 1 && (s.effects[0]
                matches EffectView::Publish {
                repo,
                previous,
                next,
                trigger,
                mode: m,
                inactive_reason,
            } && previous == a.state && next is Pending && trigger is TrackerEvent && m == Some(mode)
                && inactive_reason is None && match a.admission {
                Some(ad) => repo == ad.repo,
                None => repo is None,
            })
        }),
        ({
            let s = after_launch(a, mode, false);
            &&& s.actor.state == WorkerState::Inactive(InactiveReason::OrchestratorCrash)
            &&& but_for_state(a, s.actor)
            &&& s.next is Message
            &&& s.effects.len() == 1 && announces(
                s.effects[0],
                a,
                WorkerState::Inactive(InactiveReason::OrchestratorCrash),
                TransitionTrigger::OrchestratorDead,
            )
        }),
{
}

/// A session that stops leaves the actor inactive for the reason that its
/// outcome gives, as after a failure where it gives none, and is shut down.
pub proof fn law_stops_say_why(a: ActorView, action: OrchestratorAction)
    requires
        action.action is Stop,
    ensures
        ({
            let s = after_session_event(a, Some(OrchestratorActionEvent::Action(action)));
            let reason = match action.outcome {
                None => InactiveReason::RetryExhausted,
                Some(Outcome::Failure) => InactiveReason::RetryExhausted,
                Some(Outcome::Success) => InactiveReason::AwaitingLinear,
                Some(Outcome::Cancelled) => InactiveReason::AwaitingLinear,
                Some(Outcome::NeedsOperator) => InactiveReason::NeedsOperator,
                Some(Outcome::SpecIncomplete) => InactiveReason::SpecIncomplete,
                Some(Outcome::NeedsSplit) => InactiveReason::NeedsSplit,
                Some(Outcome::AllowlistRejected) => InactiveReason::AllowlistRejected,
            };
            &&& s.actor == (ActorView {
                state: WorkerState::Inactive(reason),
                has_session: false,
                ..a
            })
            &&& s.next is Message
            &&& s.effects.len() == if a.has_session { 2int } else { 1int }
            &&& announces(
                s.effects[0],
                a,
                WorkerState::Inactive(reason),
                TransitionTrigger::OrchestratorAction,
            )
            &&& a.has_session ==> s.effects[1] is ShutdownSession
        }),
{
}

/// A session that ends while work goes on has crashed: this is recorded with
/// whether its process succeeded, and the actor goes inactive. With no work
/// going on its end changes nothing. Drift that does not end is recorded
/// whatever goes on.
pub proof fn law_lost_sessions_are_recorded(a: ActorView, success: bool)
    ensures
        ({
            let at_work = a.state is Pending || a.state is Active || a.state is Backoff;
            let closed = after_session_event(a, None);
            let ended = after_session_event(
                a,
                Some(OrchestratorActionEvent::ProcessExit { success }),
            );
            let crash = WorkerState::Inactive(InactiveReason::OrchestratorCrash);
            &&& closed.next is Message && ended.next is Message
            &&& !at_work ==> closed.actor == a && closed.effects.len() == 0 && ended.actor == a
                && ended.effects.len() == 0
            &&& at_work ==> {
                &&& closed.actor == ActorView { state: crash, ..a }
                &&& ended.actor == ActorView { state: crash, ..a }
                &&& closed.effects.len() == 2 && ended.effects.len() == 2
                &&& announces(closed.effects[1], a, crash, TransitionTrigger::OrchestratorDead)
                &&& announces(ended.effects[1], a, crash, TransitionTrigger::OrchestratorDead)
                &&& records(
                    closed.effects[0],
                    a,
                    EscalationKind::OrchestratorCrash,
                    "orchestrator_crash"@ + "-"@ + a.issue,
                    JsonView::Object(
                        seq![
                            ("channel_closed"@, JsonView::Bool(true)),
                            ("exit_success"@, JsonView::Bool(false)),
                        ],
                    ),
                )
                &&& records(
                    ended.effects[0],
                    a,
                    EscalationKind::OrchestratorCrash,
                    "orchestrator_crash"@ + "-"@ + a.issue,
                    JsonView::Object(seq![("exit_success"@, JsonView::Bool(success))]),
                )
            }
        }),
        ({
            let s = after_session_event(a, Some(OrchestratorActionEvent::TerminalDrift));
            let unread = WorkerState::Inactive(InactiveReason::OrchestratorUnparseable);
            &&& s.actor == ActorView { state: unread, ..a }
            &&& s.next is Message
            &&& s.effects.len() == 2
            &&& announces(s.effects[1], a, unread, TransitionTrigger::OrchestratorDead)
            &&& records(
                s.effects[0],
                a,
                EscalationKind::OrchestratorUnparseable,
                "orchestrator_unparseable"@ + "-"@ + a.issue,
                JsonView::Object(seq![("reason"@, JsonView::Text("terminal_drift"@))]),
            )
        }),
{
}

// ---------------------------------------------------------------------------
// Escalations
// ---------------------------------------------------------------------------

/// `e` records an escalation of the actor `a`.
pub open spec fn records(
    e: EffectView,
    a: ActorView,
    kind: EscalationKind,
    id: Seq<char>,
    fields: JsonView,
) -> bool {
    e matches EffectView::Enqueue { repo, kind: k, correlation_id, fields: f } && k == kind
        && correlation_id == id && f == fields && match a.admission {
        Some(ad) => repo == ad.repo,
        None => repo is None,
    }
}

/// An escalation is recorded as it came. One about a dead orchestrator makes the
/// actor inactive for that reason, unless it is inactive already, and is not
/// sent on; any other is sent to a session that is there.
pub proof fn law_escalations_reach_those_concerned(a: ActorView, msg: ActorMessage)
    ensures
        msg matches ActorMessage::DaemonEscalation { kind, fields, correlation_id } ==> {
            let s = after_message(a, msg);
            let reason = match kind {
                EscalationKind::OrchestratorCrash => Some(InactiveReason::OrchestratorCrash),
                EscalationKind::OrchestratorUnparseable => Some(
                    InactiveReason::OrchestratorUnparseable,
                ),
                EscalationKind::OrchestratorBudgetExhausted => Some(
                    InactiveReason::OrchestratorBudgetExhausted,
                ),
                _ => None,
            };
            &&& records(s.effects[0], a, kind, correlation_id@, fields@)
            &&& reason is Some ==> s.next is Message
            &&& reason is Some && a.state is Inactive ==> s.actor == a && s.effects.len() == 1
            &&& reason is Some && !(a.state is Inactive) ==> {
                &&& s.actor == (ActorView { state: WorkerState::Inactive(reason->0), ..a })
                &&& s.effects.len() == 2 && announces(
                    s.effects[1],
                    a,
                    WorkerState::Inactive(reason->0),
                    TransitionTrigger::OrchestratorDead,
                )
            }
            &&& reason is None ==> s.actor == a && s.effects.len() == 1
            &&& reason is None && !a.has_session ==> s.next is Message
            &&& reason is None && a.has_session ==> (s.next matches RequestView::SendDirective {
                payload,
            } && payload.correlation_id == correlation_id@ && payload.kind == kind.wire_name())
        },
{
}

/// A directive that was delivered changes nothing more; one that was not counts
/// as a crash.
pub proof fn law_undelivered_directives_are_crashes(a: ActorView)
    ensures
        ({
            let s = after_directive(a, true);
            s.actor == a && s.effects.len() == 0 && s.next is Message
        }),
        ({
            let s = after_directive(a, false);
            let crash = WorkerState::Inactive(InactiveReason::OrchestratorCrash);
            &&& s.actor == (ActorView { state: crash, ..a })
            &&& s.next is Message
            &&& s.effects.len() == 1
            &&& announces(s.effects[0], a, crash, TransitionTrigger::OrchestratorDead)
        }),
{
}

/// `s` is what filesystem trouble at `path` leaves of the actor `a`: it refuses
/// from then on, the trouble is recorded with its path and cause, a session that
/// is there is told, and the actor is inactive, which is announced once.
pub open spec fn troubled(
    a: ActorView,
    b: ActorView,
    effects: Seq<EffectView>,
    path: Seq<char>,
    cause: Seq<char>,
) -> bool {
    let poison = WorkerState::Inactive(InactiveReason::FsPoison);
    let already = a.state == poison;
    let fields = JsonView::Object(
        seq![("cause"@, JsonView::Text(cause)), ("offending_path"@, JsonView::Text(path))],
    );
    &&& b == (ActorView { state: poison, refused: true, ..a })
    &&& records(effects[0], a, EscalationKind::FsPoison, "fspoison-"@ + a.issue, fields)
    &&& effects.len() == 1 + (if a.has_session { 1int } else { 0int }) + (if already {
        0int
    } else {
        1int
    })
    &&& a.has_session ==> (effects[1] matches EffectView::DeliverDirective { payload }
        && payload.kind == "fs_poison"@ && payload.correlation_id == "fspoison-"@ + a.issue)
    &&& !already ==> announces(
        effects[effects.len() - 1],
        a,
        poison,
        if a.has_session {
            TransitionTrigger::DaemonDirective
        } else {
            TransitionTrigger::OrchestratorDead
        },
    )
}

/// Filesystem trouble is dealt with in the same way wherever it is met: in a
/// message, at the session directory, or at a worktree.
pub proof fn law_filesystem_trouble_is_dealt_with(
    a: ActorView,
    msg: ActorMessage,
    mode: Mode,
    repo: Option<Seq<char>>,
    message: Seq<char>,
    phase: PhaseName,
    context: Option<Seq<char>>,
    found: String,
)
    ensures
        msg matches ActorMessage::FsPoisonDetected { offending_path, cause } ==> {
            let s = after_message(a, msg);
            s.next is Message && troubled(a, s.actor, s.effects, offending_path@, cause@)
        },
        ({
            let s = after_session_dir(a, mode, repo, Err(message));
            s.next is Message && troubled(
                a,
                s.actor,
                s.effects,
                "<session-tempdir for "@ + a.issue + ">"@,
                message,
            )
        }),
        ({
            let s = after_worktree(a, phase, mode, context, Err(WorktreeOpError::FsPoison(found)));
            &&& a.has_session ==> s.next is NextAction
            &&& !a.has_session ==> s.next is Message
            &&& troubled(a, s.actor, s.effects, "<worktree "@ + a.issue + ">"@, found@)
        }),
{
}

// ---------------------------------------------------------------------------
// The end
// ---------------------------------------------------------------------------

/// The message ends the work: this is what it is for, and what a session is
/// told of it.
pub open spec fn ending(msg: ActorMessage) -> Option<(TransitionTrigger, TrackerTerminalState)> {
    match msg {
        ActorMessage::TrackerAssignmentLost => Some(
            (TransitionTrigger::AssignmentLost, TrackerTerminalState::AssignmentLost),
        ),
        ActorMessage::TrackerRokiReadyRemoved => Some(
            (TransitionTrigger::RokiReadyRemoved, TrackerTerminalState::RokiReadyRemoved),
        ),
        ActorMessage::TrackerTerminalState { .. } => Some(
            (TransitionTrigger::TrackerEvent, TrackerTerminalState::Done),
        ),
        ActorMessage::Shutdown => Some(
            (TransitionTrigger::OperatorShutdown, TrackerTerminalState::Canceled),
        ),
        _ => None,
    }
}

/// Each message that ends the work tells a session that is there why, announces
/// it, shuts the session down, and removes the worktrees and then the session
/// directory; and the last state that the tracker named is kept.
pub proof fn law_endings_are_carried_out(a: ActorView, msg: ActorMessage)
    requires
        ending(msg) is Some,
        !(a.state is Cleaning),
    ensures
        ({
            let s = after_message(a, msg);
            let trigger = (ending(msg)->0).0;
            let at: int = if a.has_session {
                1
            } else {
                0
            };
            let n = s.effects.len();
            &&& s.next is Exit
            &&& s.actor.state is Cleaning
            &&& !s.actor.has_session
            &&& s.actor.admission == a.admission
            &&& s.actor.tempdir == a.tempdir
            &&& s.actor.refused == a.refused
            &&& s.actor.issue == a.issue
            &&& match msg {
                ActorMessage::TrackerTerminalState { state } => s.actor.linear_state == Some(state@),
                _ => s.actor.linear_state == a.linear_state,
            }
            &&& n == 3 + 2 * at
            &&& a.has_session ==> (s.effects[0] matches EffectView::DeliverTerminal {
                terminal_state,
                correlation_id,
            } && terminal_state == (ending(msg)->0).1 && correlation_id == "tracker-"@ + a.issue)
            &&& announces(s.effects[at], a, WorkerState::Cleaning, trigger)
            &&& a.has_session ==> s.effects[2] is ShutdownSession
            &&& s.effects[n - 2] is CleanupWorktrees
            &&& s.effects[n - 1] is RemoveSessionDir
        }),
{
}

/// What a session is told goes by the cause: a lost assignment and a removed mark
/// are told as such, an event of the tracker as done, and everything else as
/// canceled.
pub proof fn law_sessions_are_told_the_cause(trigger: TransitionTrigger)
    ensures
        terminal_state_of(trigger) is AssignmentLost <==> trigger is AssignmentLost,
        terminal_state_of(trigger) is RokiReadyRemoved <==> trigger is RokiReadyRemoved,
        terminal_state_of(trigger) is Done <==> trigger is TrackerEvent,
        terminal_state_of(trigger) is Canceled <==> !(trigger is AssignmentLost)
            && !(trigger is RokiReadyRemoved) && !(trigger is TrackerEvent),
{
}

/// An actor starts out waiting, with nothing known of its issue but the
/// identifier.
pub proof fn law_actors_start_out_waiting(issue: Seq<char>)
    ensures
        new_actor(issue).issue == issue,
        new_actor(issue).state is Pending,
        new_actor(issue).admission is None,
        new_actor(issue).tempdir is None,
        new_actor(issue).linear_state is None,
        !new_actor(issue).has_session,
        !new_actor(issue).refused,
{
}

/// The mode and the repository of an actor are those of its admission.
pub proof fn law_mode_and_repository_are_those_admitted(a: ActorView)
    ensures
        a.admission matches Some(ad) ==> a.mode() == Some(ad.mode) && a.repo() == ad.repo,
        a.admission is None ==> a.mode() is None && a.repo() is None,
{
}

/// An actor that is winding down already is not wound down again: a session that
/// is there is told why, the last state that the tracker named is kept, and
/// nothing else happens.
pub proof fn law_endings_do_not_repeat(a: ActorView, msg: ActorMessage)
    requires
        ending(msg) is Some,
        a.state is Cleaning,
    ensures
        ({
            let s = after_message(a, msg);
            &&& s.next is Exit
            &&& s.actor.state is Cleaning
            &&& s.actor.has_session == a.has_session
            &&& s.actor.admission == a.admission
            &&& s.actor.tempdir == a.tempdir
            &&& s.actor.refused == a.refused
            &&& s.actor.issue == a.issue
            &&& match msg {
                ActorMessage::TrackerTerminalState { state } => s.actor.linear_state == Some(state@),
                _ => s.actor.linear_state == a.linear_state,
            }
            &&& !a.has_session ==> s.effects.len() == 0
            &&& a.has_session ==> s.effects.len() == 1 && (s.effects[0]
                matches EffectView::DeliverTerminal { terminal_state, correlation_id }
                && terminal_state == (ending(msg)->0).1 && correlation_id == "tracker-"@ + a.issue)
        }),
{
}

/// The two texts are the same, or both are missing.
pub open spec fn alike(a: Option<String>, b: Option<String>) -> bool {
    match (a, b) {
        (Some(x), Some(y)) => x@ == y@,
        (None, None) => true,
        _ => false,
    }
}

/// The request that follows a session's action carries what the action and the
/// actor hold: the phase and the additional context of the action, the mode of
/// the admission, and the session directory, or the admitted repository.
pub proof fn law_requests_carry_what_was_asked(
    before: ActorState,
    after: ActorState,
    step: Step,
    action: OrchestratorAction,
)
    requires
        step_view(after, step) == after_session_event(
            before@,
            Some(OrchestratorActionEvent::Action(action)),
        ),
    ensures
        step.next matches Request::RunPhase {
            phase,
            mode,
            worktree_path,
            additional_context,
            session_tempdir,
        } ==> {
            &&& action.phase == Some(phase)
            &&& alike(additional_context, action.additional_context)
            &&& before.admission is Some && before.admission->0.mode == mode
            &&& before.session_tempdir is Some && before.session_tempdir->0@ == session_tempdir@
            &&& worktree_path is None
        },
        step.next matches Request::EnsureWorktree { repo, phase, mode, additional_context } ==> {
            &&& action.phase == Some(phase)
            &&& alike(additional_context, action.additional_context)
            &&& before.admission is Some && before.admission->0.mode == mode
            &&& before.admission->0.repo is Some && before.admission->0.repo->0@ == repo@
        },
{
    law_phase_runs_as_the_session_asked(before@, action);
}

/// Once its worktree is there, a phase is run with what was kept for it: the
/// phase, the mode and the additional context, in that worktree and in the
/// actor's session directory.
pub proof fn law_runs_carry_what_was_kept(
    before: ActorState,
    after: ActorState,
    step: Step,
    phase: PhaseName,
    mode: Mode,
    context: Option<String>,
    path: String,
)
    requires
        step_view(after, step) == after_worktree(
            before@,
            phase,
            mode,
            match context {
                Some(s) => Some(s@),
                None => None,
            },
            Ok(path),
        ),
        before.session_tempdir is Some,
    ensures
        step.next matches Request::RunPhase {
            phase: p,
            mode: m,
            worktree_path,
            additional_context,
            session_tempdir,
        } && p == phase && m == mode && alike(additional_context, context) && alike(
            worktree_path,
            Some(path),
        ) && session_tempdir@ == before.session_tempdir->0@,
        after.state is Active,
{
    let next = step.next;
    assert(after@.state is Active);
    assert(next@ is RunPhase);
}

} // verus!

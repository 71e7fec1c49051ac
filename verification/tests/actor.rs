use std::collections::VecDeque;

use roki_daemon::json::Json;
use roki_daemon::orchestrator::actor::{
    map_stop_outcome, terminal_state_for_trigger, transition_event, ActorMessage, ActorState,
    DeliveryError, Effect, OrchestratorActionEvent, PhaseRunOutcome, Request, SessionDirError,
    Step, WorktreeOpError,
};
use roki_daemon::orchestrator::engine::{
    is_mode_illegal, ActionKind, OrchestratorAction, Outcome, PhaseName, TrackerTerminalState,
};
use roki_daemon::orchestrator::escalation::{EscalationEntry, EscalationKind, EscalationQueue};
use roki_daemon::orchestrator::state::{
    InactiveReason, IssueId, Mode, TransitionTrigger, WorkerState,
};
use roki_daemon::tracker::model::{LinearStateName, RepoId};

/// An actor with the world around it: scripted replies, and a record of what
/// was asked for and carried out.
struct Rig {
    actor: ActorState,
    actions: VecDeque<OrchestratorActionEvent>,
    session_dir_error: Option<String>,
    worktree_error: Option<WorktreeOpError>,
    launches: bool,
    delivers: bool,
    escalations: EscalationQueue,
    worktrees_ensured: Vec<(IssueId, RepoId)>,
    phases: Vec<(PhaseName, Mode, Option<String>)>,
    prompts: Vec<String>,
    published: Vec<(WorkerState, WorkerState, TransitionTrigger)>,
    delivered: Vec<String>,
    shutdowns: u32,
    tidied: Vec<String>,
    exited: bool,
}

fn rig(issue: &str, actions: Vec<OrchestratorActionEvent>) -> Rig {
    Rig {
        actor: ActorState::new(IssueId::from(issue)),
        actions: VecDeque::from(actions),
        session_dir_error: None,
        worktree_error: None,
        launches: true,
        delivers: true,
        escalations: EscalationQueue::new(),
        worktrees_ensured: Vec::new(),
        phases: Vec::new(),
        prompts: Vec::new(),
        published: Vec::new(),
        delivered: Vec::new(),
        shutdowns: 0,
        tidied: Vec::new(),
        exited: false,
    }
}

impl Rig {
    fn carry_out(&mut self, effects: Vec<Effect>) {
        for effect in effects {
            match effect {
                Effect::Publish { previous, next, trigger, .. } => {
                    self.published.push((previous, next, trigger));
                }
                Effect::Enqueue { repo, kind, correlation_id, fields } => {
                    self.escalations.enqueue(EscalationEntry {
                        issue: self.actor.issue.clone(),
                        repo,
                        kind,
                        correlation_id,
                        timestamp: 0,
                        structured_fields: fields,
                    });
                }
                Effect::DeliverTerminal { correlation_id, .. } => {
                    self.delivered.push(correlation_id);
                }
                Effect::DeliverDirective { payload } => {
                    self.delivered.push(payload.correlation_id);
                }
                Effect::DeliverPhaseEvent => self.delivered.push("phase".to_owned()),
                Effect::ShutdownSession => self.shutdowns += 1,
                Effect::CleanupWorktrees => self.tidied.push("worktrees".to_owned()),
                Effect::RemoveSessionDir => self.tidied.push("session".to_owned()),
            }
        }
    }

    fn send(&mut self, msg: ActorMessage) {
        let mut step = self.actor.handle_message(msg);
        loop {
            let Step { effects, next } = step;
            self.carry_out(effects);
            step = match next {
                Request::Message => return,
                Request::Exit => {
                    self.exited = true;
                    return;
                }
                Request::EnsureSessionDir { mode, repo } => {
                    let dir = match self.session_dir_error.take() {
                        Some(m) => Err(SessionDirError::Other(m)),
                        None => Ok(format!("/tmp/sessions/{}", self.actor.issue.0)),
                    };
                    self.actor.on_session_dir(mode, repo, dir)
                }
                Request::Launch { mode, prompt } => {
                    self.prompts.push(prompt);
                    self.actor.on_launch(mode, self.launches)
                }
                Request::NextAction => {
                    let event = self.actions.pop_front();
                    self.actor.on_session_event(event)
                }
                Request::EnsureWorktree { repo, phase, mode, additional_context } => {
                    self.worktrees_ensured.push((self.actor.issue.clone(), repo));
                    let made = match self.worktree_error.take() {
                        Some(e) => Err(e),
                        None => Ok(format!("/tmp/wt/{}", self.actor.issue.0)),
                    };
                    self.actor.on_worktree(phase, mode, additional_context, made)
                }
                Request::RunPhase { phase, mode, worktree_path, .. } => {
                    self.phases.push((phase, mode, worktree_path));
                    self.actor.on_phase(Some(PhaseRunOutcome::Translated))
                }
                Request::SendDirective { payload } => {
                    let reply =
                        if self.delivers { Ok(()) } else { Err(DeliveryError::Closed) };
                    self.delivered.push(payload.correlation_id);
                    self.actor.on_directive(reply)
                }
            };
        }
    }

    fn admitted(&mut self, mode: Mode, repo: Option<&str>) {
        self.send(ActorMessage::TrackerAdmit { mode, repo: repo.map(RepoId::from) });
    }
}

fn run_phase_action(phase: PhaseName) -> OrchestratorActionEvent {
    OrchestratorActionEvent::Action(OrchestratorAction {
        action: ActionKind::RunPhase,
        phase: Some(phase),
        additional_context: None,
        outcome: None,
    })
}

fn stop_action(outcome: Outcome) -> OrchestratorActionEvent {
    OrchestratorActionEvent::Action(OrchestratorAction {
        action: ActionKind::Stop,
        phase: None,
        additional_context: None,
        outcome: Some(outcome),
    })
}

#[test]
fn admit_specdriven_then_implement_then_open_pr_then_stop_lands_in_awaiting_linear() {
    let mut rig = rig(
        "ENG-1",
        vec![
            run_phase_action(PhaseName::Implement),
            run_phase_action(PhaseName::OpenPr),
            stop_action(Outcome::Success),
        ],
    );
    let issue = IssueId::from("ENG-1");
    let repo = RepoId::from("github.com/owner/repo");
    rig.admitted(Mode::SpecDriven, Some("github.com/owner/repo"));

    assert_eq!(rig.actor.state, WorkerState::Inactive(InactiveReason::AwaitingLinear));

    // A worktree is made for each phase but classification.
    assert_eq!(rig.worktrees_ensured.len(), 2);
    assert!(rig.worktrees_ensured.iter().all(|(i, r)| i == &issue && r == &repo));

    assert_eq!(rig.phases.len(), 2);
    assert_eq!(rig.phases[0].0, PhaseName::Implement);
    assert_eq!(rig.phases[1].0, PhaseName::OpenPr);
    assert!(rig.phases[0].2.is_some());
    assert!(rig.phases[1].2.is_some());

    // Two phase events reach the session.
    assert!(rig.delivered.iter().filter(|e| *e == "phase").count() >= 2);

    // The session is shut down once.
    assert_eq!(rig.shutdowns, 1);

    // Nothing is cleaned up.
    assert!(rig.tidied.is_empty());
}

#[test]
fn classify_in_specdriven_is_rejected_by_catalog_and_does_not_run() {
    let mut rig = rig(
        "ENG-2",
        vec![run_phase_action(PhaseName::Classify), stop_action(Outcome::Success)],
    );
    rig.admitted(Mode::SpecDriven, Some("github.com/owner/repo"));
    assert_eq!(rig.actor.state, WorkerState::Inactive(InactiveReason::AwaitingLinear));
    assert!(rig.phases.is_empty());
}

#[test]
fn fs_poison_on_session_dir_routes_to_inactive_fs_poison() {
    let mut rig = rig("ENG-7", vec![]);
    rig.session_dir_error = Some("read-only fs".to_owned());
    rig.admitted(Mode::SpecDriven, None);
    assert_eq!(rig.actor.state, WorkerState::Inactive(InactiveReason::FsPoison));

    let snap = rig.escalations.snapshot();
    assert_eq!(snap.len(), 1);
    assert_eq!(snap[0].kind, EscalationKind::FsPoison);
    let path_str = snap[0].structured_fields.get_str("offending_path").unwrap_or_default();
    assert!(path_str.contains("ENG-7"), "offending path logged: {path_str}");

    // A later admission is refused.
    rig.admitted(Mode::SpecDriven, None);
    assert_eq!(rig.actor.state, WorkerState::Inactive(InactiveReason::FsPoison));
    assert!(rig.prompts.is_empty());
}

#[test]
fn tracker_terminal_mid_flight_drives_cleaning_and_cleanup() {
    let mut rig = rig("ENG-22", vec![]);
    rig.admitted(Mode::SpecDriven, None);
    rig.send(ActorMessage::TrackerAssignmentLost);
    assert!(rig.exited);

    // The worktrees go once, and the session directory after them.
    assert_eq!(rig.tidied, vec!["worktrees".to_owned(), "session".to_owned()]);
    assert_eq!(rig.actor.state, WorkerState::Cleaning);
}

#[test]
fn phase_subprocess_exit_alone_does_not_trigger_cleaning() {
    let mut rig = rig("ENG-44", vec![stop_action(Outcome::Success)]);
    rig.admitted(Mode::SpecDriven, None);
    assert_eq!(rig.actor.state, WorkerState::Inactive(InactiveReason::AwaitingLinear));
    assert!(rig.tidied.is_empty());
}

#[test]
fn daemon_directive_for_orchestrator_dead_kind_does_not_send_to_orchestrator() {
    let mut rig = rig("ENG-77", vec![]);
    rig.send(ActorMessage::DaemonEscalation {
        kind: EscalationKind::OrchestratorBudgetExhausted,
        fields: Json::Object(vec![]),
        correlation_id: "corr-bx".to_owned(),
    });
    let snap = rig.escalations.snapshot();
    assert_eq!(snap.len(), 1);
    assert_eq!(snap[0].kind, EscalationKind::OrchestratorBudgetExhausted);
    assert!(rig.delivered.is_empty());
}

#[test]
fn prompt_names_issue_and_mode() {
    let mut rig = rig("ENG-3", vec![stop_action(Outcome::Success)]);
    rig.admitted(Mode::NeedsClassify, None);
    assert_eq!(
        rig.prompts,
        vec!["Roki orchestrator session for ENG-3. Mode: NeedsClassify.".to_owned()],
    );
}

#[test]
fn transitions_are_announced_in_order() {
    let mut rig = rig(
        "ENG-4",
        vec![run_phase_action(PhaseName::Implement), stop_action(Outcome::NeedsOperator)],
    );
    rig.admitted(Mode::SpecDriven, Some("a/b"));
    assert_eq!(
        rig.published,
        vec![
            (WorkerState::Pending, WorkerState::Active, TransitionTrigger::OrchestratorAction),
            (WorkerState::Active, WorkerState::Pending, TransitionTrigger::PhaseEvent),
            (
                WorkerState::Pending,
                WorkerState::Inactive(InactiveReason::NeedsOperator),
                TransitionTrigger::OrchestratorAction,
            ),
        ],
    );
}

#[test]
fn drift_is_recorded_as_unparseable() {
    let mut rig = rig("ENG-5", vec![OrchestratorActionEvent::TerminalDrift]);
    rig.admitted(Mode::SpecDriven, None);
    assert_eq!(
        rig.actor.state,
        WorkerState::Inactive(InactiveReason::OrchestratorUnparseable),
    );
    let entry = rig.escalations.get(&IssueId::from("ENG-5")).unwrap();
    assert_eq!(entry.correlation_id, "orchestrator_unparseable-ENG-5");
    assert_eq!(entry.structured_fields.get_str("reason"), Some("terminal_drift"));
}

#[test]
fn process_exit_is_recorded_as_crash() {
    let mut rig = rig("ENG-6", vec![OrchestratorActionEvent::ProcessExit { success: true }]);
    rig.admitted(Mode::SpecDriven, None);
    assert_eq!(rig.actor.state, WorkerState::Inactive(InactiveReason::OrchestratorCrash));
    let entry = rig.escalations.get(&IssueId::from("ENG-6")).unwrap();
    assert_eq!(entry.structured_fields.get("exit_success"), Some(&Json::Bool(true)));
}

#[test]
fn failed_launch_is_a_crash() {
    let mut rig = rig("ENG-8", vec![]);
    rig.launches = false;
    rig.admitted(Mode::SpecDriven, None);
    assert_eq!(rig.actor.state, WorkerState::Inactive(InactiveReason::OrchestratorCrash));
    assert!(!rig.actor.has_session);
}

#[test]
fn nomination_without_a_repo_stops() {
    let mut rig = rig("ENG-9", vec![run_phase_action(PhaseName::Implement)]);
    rig.admitted(Mode::SpecDriven, None);
    assert_eq!(rig.actor.state, WorkerState::Inactive(InactiveReason::AllowlistRejected));
    assert!(rig.phases.is_empty());
}

#[test]
fn refused_repo_stops() {
    let mut rig = rig("ENG-10", vec![run_phase_action(PhaseName::Implement)]);
    rig.worktree_error = Some(WorktreeOpError::AllowlistRejected("a/b".to_owned()));
    rig.admitted(Mode::SpecDriven, Some("a/b"));
    assert_eq!(rig.actor.state, WorkerState::Inactive(InactiveReason::AllowlistRejected));
    assert_eq!(rig.shutdowns, 1);
}

#[test]
fn poisoned_worktree_is_escalated() {
    let mut rig = rig("ENG-11", vec![run_phase_action(PhaseName::Implement)]);
    rig.worktree_error = Some(WorktreeOpError::FsPoison("gone".to_owned()));
    rig.admitted(Mode::SpecDriven, Some("a/b"));
    let entry = rig.escalations.get(&IssueId::from("ENG-11")).unwrap();
    assert_eq!(entry.kind, EscalationKind::FsPoison);
    assert!(rig.delivered.contains(&"fspoison-ENG-11".to_owned()));
    assert!(rig.actor.refused_for_fs_poison);
}

#[test]
fn other_worktree_trouble_lets_the_session_go_on() {
    let mut rig = rig(
        "ENG-12",
        vec![run_phase_action(PhaseName::Implement), stop_action(Outcome::Success)],
    );
    rig.worktree_error = Some(WorktreeOpError::Other("busy".to_owned()));
    rig.admitted(Mode::SpecDriven, Some("a/b"));
    assert!(rig.phases.is_empty());
    assert_eq!(rig.actor.state, WorkerState::Inactive(InactiveReason::AwaitingLinear));
}

/// An actor with a live session that waits for messages.
fn live(issue: &str) -> Rig {
    let mut rig = rig(issue, vec![]);
    rig.actor.on_session_dir(Mode::SpecDriven, None, Ok("/tmp/s".to_owned()));
    rig.actor.on_launch(Mode::SpecDriven, true);
    rig
}

#[test]
fn directive_reaches_a_live_session() {
    let mut rig = live("ENG-13");
    rig.send(ActorMessage::DaemonEscalation {
        kind: EscalationKind::PhaseStall,
        fields: Json::Object(vec![]),
        correlation_id: "corr-1".to_owned(),
    });
    assert_eq!(rig.delivered, vec!["corr-1".to_owned()]);
    assert_eq!(rig.escalations.len(), 1);
    assert_eq!(rig.actor.state, WorkerState::Pending);
}

#[test]
fn lost_directive_is_a_crash() {
    let mut rig = live("ENG-14");
    rig.delivers = false;
    rig.send(ActorMessage::DaemonEscalation {
        kind: EscalationKind::RetryExhausted,
        fields: Json::Object(vec![]),
        correlation_id: "corr-2".to_owned(),
    });
    assert_eq!(rig.actor.state, WorkerState::Inactive(InactiveReason::OrchestratorCrash));
}

#[test]
fn second_admission_while_working_is_ignored() {
    let mut rig = live("ENG-15");
    // A live session is asked on; its closed channel ends the turn.
    rig.actions.push_back(stop_action(Outcome::Success));
    rig.admitted(Mode::NeedsClassify, Some("a/b"));
    assert!(rig.prompts.is_empty());
    assert_eq!(rig.actor.mode(), Some(Mode::SpecDriven));
}

#[test]
fn shutdown_cleans_a_live_session_once() {
    let mut rig = live("ENG-16");
    rig.send(ActorMessage::Shutdown);
    assert_eq!(rig.actor.state, WorkerState::Cleaning);
    assert_eq!(rig.shutdowns, 1);
    assert_eq!(rig.delivered, vec!["tracker-ENG-16".to_owned()]);
    rig.send(ActorMessage::TrackerRokiReadyRemoved);
    assert_eq!(rig.tidied.len(), 2);
    assert_eq!(rig.published.len(), 1);
}

#[test]
fn terminal_state_is_remembered() {
    let mut rig = rig("ENG-17", vec![]);
    rig.send(ActorMessage::TrackerTerminalState { state: LinearStateName::from("Done") });
    assert_eq!(rig.actor.latest_linear_state, Some(LinearStateName::from("Done")));
    assert_eq!(rig.actor.state, WorkerState::Cleaning);
}

#[test]
fn reported_poison_names_path_and_cause() {
    let mut rig = rig("ENG-18", vec![]);
    rig.send(ActorMessage::FsPoisonDetected {
        offending_path: "/mnt/x".to_owned(),
        cause: "EIO".to_owned(),
    });
    let entry = rig.escalations.get(&IssueId::from("ENG-18")).unwrap();
    assert_eq!(entry.correlation_id, "fspoison-ENG-18");
    assert_eq!(entry.structured_fields.get_str("offending_path"), Some("/mnt/x"));
    assert_eq!(entry.structured_fields.get_str("cause"), Some("EIO"));
}

#[test]
fn stop_outcomes() {
    let cases = [
        (Outcome::Success, InactiveReason::AwaitingLinear),
        (Outcome::Cancelled, InactiveReason::AwaitingLinear),
        (Outcome::Failure, InactiveReason::RetryExhausted),
        (Outcome::NeedsOperator, InactiveReason::NeedsOperator),
        (Outcome::SpecIncomplete, InactiveReason::SpecIncomplete),
        (Outcome::NeedsSplit, InactiveReason::NeedsSplit),
        (Outcome::AllowlistRejected, InactiveReason::AllowlistRejected),
    ];
    for (outcome, reason) in cases {
        assert_eq!(map_stop_outcome(outcome), reason);
    }
}

#[test]
fn terminal_states_of_triggers() {
    assert_eq!(
        terminal_state_for_trigger(TransitionTrigger::AssignmentLost),
        TrackerTerminalState::AssignmentLost,
    );
    assert_eq!(
        terminal_state_for_trigger(TransitionTrigger::RokiReadyRemoved),
        TrackerTerminalState::RokiReadyRemoved,
    );
    assert_eq!(
        terminal_state_for_trigger(TransitionTrigger::TrackerEvent),
        TrackerTerminalState::Done,
    );
}

#[test]
fn classification_is_for_unclassified_work() {
    assert!(is_mode_illegal(PhaseName::Classify, Mode::SpecDriven));
    assert!(!is_mode_illegal(PhaseName::Classify, Mode::NeedsClassify));
    assert!(!is_mode_illegal(PhaseName::Implement, Mode::SpecDriven));
}

#[test]
fn announcement_is_named_by_issue_and_second() {
    let event = transition_event(
        &IssueId::from("ENG-1"),
        Some("a/b".to_owned()),
        WorkerState::Pending,
        WorkerState::Active,
        TransitionTrigger::OrchestratorAction,
        Some(Mode::SpecDriven),
        None,
        1_767_225_600,
    );
    assert_eq!(event.correlation_id, "tx-ENG-1-1767225600");
    assert_eq!(event.repo, Some("a/b".to_owned()));
    assert_eq!(event.inactive_reason, None);
}

#[test]
fn snapshot_shows_the_actor_as_it_is() {
    let mut actor = ActorState::new(IssueId::from("ENG-1"));
    assert_eq!(actor.snapshot().state, WorkerState::Pending);
    assert_eq!(actor.snapshot().mode, None);
    actor.handle_message(ActorMessage::TrackerTerminalState {
        state: LinearStateName::from("Done"),
    });
    let seen = actor.snapshot();
    assert_eq!(seen.issue, IssueId::from("ENG-1"));
    assert_eq!(seen.state, WorkerState::Cleaning);
    assert_eq!(seen.latest_linear_state, Some(LinearStateName::from("Done")));
}

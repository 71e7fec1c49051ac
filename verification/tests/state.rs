use roki_daemon::orchestrator::state::{
    validate_transition, InactiveReason, IssueId, Mode, TransitionError, TransitionEvent,
    TransitionTrigger, WorkerState,
};

fn ok(prev: WorkerState, next: WorkerState, trigger: TransitionTrigger) {
    assert_eq!(validate_transition(&prev, &next, &trigger), Ok(()));
}

fn err(prev: WorkerState, next: WorkerState, trigger: TransitionTrigger) {
    let result = validate_transition(&prev, &next, &trigger);
    assert!(matches!(result, Err(TransitionError::IllegalTransition { .. })));
}

#[test]
fn pending_to_active_via_orchestrator_action_is_legal() {
    ok(WorkerState::Pending, WorkerState::Active, TransitionTrigger::OrchestratorAction);
}

#[test]
fn active_to_pending_via_phase_event_is_legal() {
    ok(WorkerState::Active, WorkerState::Pending, TransitionTrigger::PhaseEvent);
}

#[test]
fn active_to_backoff_via_phase_event_is_legal() {
    ok(WorkerState::Active, WorkerState::Backoff, TransitionTrigger::PhaseEvent);
}

#[test]
fn backoff_to_active_via_daemon_directive_is_legal() {
    ok(WorkerState::Backoff, WorkerState::Active, TransitionTrigger::DaemonDirective);
}

#[test]
fn pending_to_inactive_outcomes_via_orchestrator_action_are_legal() {
    for reason in [
        InactiveReason::AwaitingLinear,
        InactiveReason::NeedsOperator,
        InactiveReason::SpecIncomplete,
        InactiveReason::NeedsSplit,
        InactiveReason::AllowlistRejected,
    ] {
        ok(
            WorkerState::Pending,
            WorkerState::Inactive(reason),
            TransitionTrigger::OrchestratorAction,
        );
    }
}

#[test]
fn pending_to_inactive_orchestrator_dead_reasons_are_legal() {
    for reason in [
        InactiveReason::OrchestratorCrash,
        InactiveReason::OrchestratorUnparseable,
        InactiveReason::OrchestratorBudgetExhausted,
    ] {
        ok(
            WorkerState::Pending,
            WorkerState::Inactive(reason),
            TransitionTrigger::OrchestratorDead,
        );
    }
}

#[test]
fn active_to_inactive_stall_via_daemon_directive_is_legal() {
    ok(
        WorkerState::Active,
        WorkerState::Inactive(InactiveReason::Stall),
        TransitionTrigger::DaemonDirective,
    );
}

#[test]
fn backoff_to_inactive_retry_exhausted_via_orchestrator_action_is_legal() {
    ok(
        WorkerState::Backoff,
        WorkerState::Inactive(InactiveReason::RetryExhausted),
        TransitionTrigger::OrchestratorAction,
    );
}

#[test]
fn pending_to_cleaning_via_tracker_event_is_legal() {
    ok(WorkerState::Pending, WorkerState::Cleaning, TransitionTrigger::TrackerEvent);
}

#[test]
fn active_to_cleaning_via_assignment_lost_is_legal() {
    ok(WorkerState::Active, WorkerState::Cleaning, TransitionTrigger::AssignmentLost);
}

#[test]
fn backoff_to_cleaning_via_roki_ready_removed_is_legal() {
    ok(WorkerState::Backoff, WorkerState::Cleaning, TransitionTrigger::RokiReadyRemoved);
}

#[test]
fn inactive_to_cleaning_via_tracker_event_is_legal() {
    ok(
        WorkerState::Inactive(InactiveReason::AwaitingLinear),
        WorkerState::Cleaning,
        TransitionTrigger::TrackerEvent,
    );
}

#[test]
fn active_to_cleaning_via_phase_event_alone_is_illegal() {
    err(WorkerState::Active, WorkerState::Cleaning, TransitionTrigger::PhaseEvent);
}

#[test]
fn active_to_pending_via_orchestrator_action_alone_is_illegal() {
    err(WorkerState::Active, WorkerState::Pending, TransitionTrigger::OrchestratorAction);
}

#[test]
fn transition_event_carries_mode_and_reason() {
    let event = TransitionEvent {
        issue: IssueId::from("ENG-1"),
        repo: None,
        previous: WorkerState::Pending,
        next: WorkerState::Inactive(InactiveReason::AwaitingLinear),
        trigger: TransitionTrigger::OrchestratorAction,
        mode: Some(Mode::SpecDriven),
        inactive_reason: Some(InactiveReason::AwaitingLinear),
        correlation_id: "corr-1".to_owned(),
    };
    assert_eq!(event.mode, Some(Mode::SpecDriven));
    assert_eq!(event.inactive_reason, Some(InactiveReason::AwaitingLinear));
}

#[test]
fn issue_id_round_trips_string_and_str() {
    let from_str: IssueId = "ENG-42".into();
    let from_string: IssueId = String::from("ENG-42").into();
    assert_eq!(from_str, from_string);
    assert_eq!(from_str.to_string(), "ENG-42");
}

#[test]
fn refusal_names_the_attempted_step() {
    assert_eq!(
        validate_transition(
            &WorkerState::Cleaning,
            &WorkerState::Active,
            &TransitionTrigger::OrchestratorAction,
        ),
        Err(TransitionError::IllegalTransition {
            previous: WorkerState::Cleaning,
            next: WorkerState::Active,
            trigger: TransitionTrigger::OrchestratorAction,
        }),
    );
}

#[test]
fn nothing_leaves_cleaning() {
    let states = [
        WorkerState::Pending,
        WorkerState::Active,
        WorkerState::Backoff,
        WorkerState::Inactive(InactiveReason::Orphan),
        WorkerState::Cleaning,
    ];
    let triggers = [
        TransitionTrigger::TrackerEvent,
        TransitionTrigger::AssignmentLost,
        TransitionTrigger::RokiReadyRemoved,
        TransitionTrigger::OrchestratorAction,
        TransitionTrigger::PhaseEvent,
        TransitionTrigger::DaemonDirective,
        TransitionTrigger::OrchestratorDead,
        TransitionTrigger::RecoveryScan,
        TransitionTrigger::OperatorShutdown,
    ];
    for next in states {
        for trigger in triggers {
            err(WorkerState::Cleaning, next, trigger);
        }
    }
}

#[test]
fn only_stop_conditions_reach_cleaning() {
    for prev in [
        WorkerState::Pending,
        WorkerState::Active,
        WorkerState::Backoff,
        WorkerState::Inactive(InactiveReason::Stall),
    ] {
        for trigger in [
            TransitionTrigger::RecoveryScan,
            TransitionTrigger::OperatorShutdown,
            TransitionTrigger::OrchestratorAction,
        ] {
            assert_eq!(
                validate_transition(&prev, &WorkerState::Cleaning, &trigger),
                Err(TransitionError::IllegalTransition {
                    previous: prev,
                    next: WorkerState::Cleaning,
                    trigger,
                }),
            );
        }
    }
}

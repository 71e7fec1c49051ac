use roki_daemon::orchestrator::state::{InactiveReason, IssueId, Mode, WorkerState};
use roki_daemon::orchestrator::tracker_bridge::{
    DedupEntry, DedupIndex, ObserveOutcome, TerminationReason,
};
use roki_daemon::strmap::StrSet;
use roki_daemon::tracker::model::{
    LinearStateName, LinearUserId, NormalizedIssue, LABEL_ROKI_IMPL, LABEL_ROKI_READY,
};
use roki_daemon::tracker::pre_admission::{AdmissionDecision, SkipReason};

fn issue(id: &str, assignee: Option<&str>, labels: &[&str], state: &str) -> NormalizedIssue {
    let names: Vec<String> = labels.iter().map(|s| s.to_string()).collect();
    NormalizedIssue {
        issue: IssueId::from(id),
        title: id.to_owned(),
        body: "".to_owned(),
        current_linear_state: LinearStateName::from(state),
        labels: StrSet::from_names(&names),
        assignee: assignee.map(LinearUserId::from),
    }
}

fn admitted(issue: &NormalizedIssue, mode: Mode) -> AdmissionDecision {
    AdmissionDecision::Admit { issue: issue.clone(), mode }
}

fn drop_decision() -> AdmissionDecision {
    AdmissionDecision::Skip { reason: SkipReason::AssigneeMismatch }
}

#[test]
fn duplicate_webhook_for_in_flight_issue_updates_snapshot_only() {
    let mut index = DedupIndex::new();
    let original = issue("ENG-1", Some("u1"), &[LABEL_ROKI_READY], "Todo");
    index.seed(
        original.clone(),
        DedupEntry {
            state: WorkerState::Active,
            mode: Some(Mode::NeedsClassify),
            latest_normalized: original.clone(),
            in_flight_orch: Some(7),
            in_flight_phase: None,
        },
    );

    let mut updated = original.clone();
    updated.title = "renamed".to_owned();
    let outcome = index.observe(updated.clone(), admitted(&updated, Mode::NeedsClassify));
    assert_eq!(outcome, ObserveOutcome::UpdateInPlace);

    let snap = index.snapshot(&IssueId::from("ENG-1")).expect("entry persists");
    assert_eq!(snap.latest_normalized.title, "renamed");
    assert_eq!(snap.in_flight_orch, Some(7), "in-flight handle preserved");
}

#[test]
fn inactive_entry_re_admits_and_recomputes_mode() {
    let mut index = DedupIndex::new();
    let prior = issue("ENG-2", Some("u1"), &[LABEL_ROKI_READY], "Todo");
    index.seed(
        prior.clone(),
        DedupEntry {
            state: WorkerState::Inactive(InactiveReason::AwaitingLinear),
            mode: Some(Mode::NeedsClassify),
            latest_normalized: prior.clone(),
            in_flight_orch: None,
            in_flight_phase: None,
        },
    );

    let promoted = issue("ENG-2", Some("u1"), &[LABEL_ROKI_READY, LABEL_ROKI_IMPL], "Todo");
    let outcome = index.observe(promoted.clone(), admitted(&promoted, Mode::SpecDriven));
    assert!(matches!(outcome, ObserveOutcome::LaunchFresh { mode: Mode::SpecDriven, .. }));
    let snap = index.snapshot(&IssueId::from("ENG-2")).unwrap();
    assert_eq!(snap.state, WorkerState::Pending);
    assert_eq!(snap.mode, Some(Mode::SpecDriven));
}

#[test]
fn assignment_loss_mid_flight_returns_terminate_without_relaunch() {
    let mut index = DedupIndex::new();
    let prior = issue("ENG-3", Some("u1"), &[LABEL_ROKI_READY], "Todo");
    index.seed(
        prior.clone(),
        DedupEntry {
            state: WorkerState::Active,
            mode: Some(Mode::SpecDriven),
            latest_normalized: prior.clone(),
            in_flight_orch: Some(11),
            in_flight_phase: Some(12),
        },
    );

    let lost = issue("ENG-3", None, &[LABEL_ROKI_READY], "Todo");
    let outcome = index.observe(lost.clone(), admitted(&lost, Mode::SpecDriven));
    assert_eq!(
        outcome,
        ObserveOutcome::TerminateInFlight { reason: TerminationReason::AssignmentLost },
    );
    // The next observation is compared with this one.
    let snap = index.snapshot(&IssueId::from("ENG-3")).unwrap();
    assert!(snap.latest_normalized.assignee.is_none());
}

#[test]
fn roki_ready_removal_mid_flight_returns_terminate() {
    let mut index = DedupIndex::new();
    let prior = issue("ENG-4", Some("u1"), &[LABEL_ROKI_READY], "Todo");
    index.seed(
        prior.clone(),
        DedupEntry {
            state: WorkerState::Pending,
            mode: Some(Mode::NeedsClassify),
            latest_normalized: prior.clone(),
            in_flight_orch: Some(99),
            in_flight_phase: None,
        },
    );

    let unlabeled = issue("ENG-4", Some("u1"), &[], "Todo");
    let outcome = index.observe(unlabeled.clone(), drop_decision());
    assert_eq!(
        outcome,
        ObserveOutcome::TerminateInFlight { reason: TerminationReason::RokiReadyRemoved },
    );
}

#[test]
fn skip_decision_for_unknown_issue_drops() {
    let mut index = DedupIndex::new();
    let i = issue("ENG-5", None, &[], "Todo");
    let outcome = index.observe(i, drop_decision());
    assert_eq!(outcome, ObserveOutcome::Drop);
    assert!(
        index.snapshot(&IssueId::from("ENG-5")).is_none(),
        "no entry stored for dropped unknown issue",
    );
}

#[test]
fn first_admission_launches_fresh() {
    let mut index = DedupIndex::new();
    let i = issue("ENG-6", Some("u1"), &[LABEL_ROKI_READY], "Todo");
    let outcome = index.observe(i.clone(), admitted(&i, Mode::NeedsClassify));
    match outcome {
        ObserveOutcome::LaunchFresh { issue, mode } => {
            assert_eq!(issue.issue, IssueId::from("ENG-6"));
            assert_eq!(mode, Mode::NeedsClassify);
        }
        other => panic!("expected LaunchFresh, got {other:?}"),
    }
}

#[test]
fn label_set_round_trips_through_seed_and_snapshot() {
    let mut index = DedupIndex::new();
    let i = issue("ENG-7", Some("u1"), &[LABEL_ROKI_READY, LABEL_ROKI_IMPL], "Todo");
    index.seed(
        i.clone(),
        DedupEntry::new(WorkerState::Pending, Some(Mode::SpecDriven), i.clone()),
    );
    let snap = index.snapshot(&IssueId::from("ENG-7")).unwrap();
    let names: Vec<String> = snap.latest_normalized.labels.names();
    assert!(names.contains(&LABEL_ROKI_READY.to_owned()));
    assert!(names.contains(&LABEL_ROKI_IMPL.to_owned()));
}

#[test]
fn second_admission_only_updates() {
    let mut index = DedupIndex::new();
    let i = issue("ENG-8", Some("u1"), &[LABEL_ROKI_READY], "Todo");
    let first = index.observe(i.clone(), admitted(&i, Mode::NeedsClassify));
    assert!(matches!(first, ObserveOutcome::LaunchFresh { .. }));
    let second = index.observe(i.clone(), admitted(&i, Mode::NeedsClassify));
    assert_eq!(second, ObserveOutcome::UpdateInPlace);
}

#[test]
fn bound_handle_is_kept() {
    let mut index = DedupIndex::new();
    let i = issue("ENG-8", Some("u1"), &[LABEL_ROKI_READY], "Todo");
    index.observe(i.clone(), admitted(&i, Mode::NeedsClassify));
    index.bind_orchestrator(&IssueId::from("ENG-8"), 42);
    let entry = index.snapshot(&IssueId::from("ENG-8")).unwrap();
    assert_eq!(entry.in_flight_orch, Some(42));
    assert!(entry.is_in_flight());
    // An issue that is not known stays unknown.
    index.bind_orchestrator(&IssueId::from("ENG-9"), 1);
    assert!(index.snapshot(&IssueId::from("ENG-9")).is_none());
}

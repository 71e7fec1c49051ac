use roki_daemon::json::Json;
use roki_daemon::orchestrator::escalation::{EscalationEntry, EscalationKind, EscalationQueue};
use roki_daemon::orchestrator::events::{DropCounter, DEFAULT_EVENT_BUS_CAPACITY};
use roki_daemon::orchestrator::read::{ActorSnapshot, OrchestratorReadHandle};
use roki_daemon::orchestrator::state::{InactiveReason, IssueId, Mode, WorkerState};
use roki_daemon::strmap::StrMap;
use roki_daemon::tracker::model::LinearStateName;

/// 2026-01-01T00:00:00Z in nanoseconds since the epoch.
const NEW_YEAR: i128 = 1_767_225_600_000_000_000;

const DAY: i128 = 86_400_000_000_000;

fn snapshot_for(id: &str, state: WorkerState, mode: Option<Mode>) -> ActorSnapshot {
    ActorSnapshot {
        issue: IssueId::from(id),
        state,
        mode,
        latest_linear_state: Some(LinearStateName::from("Todo")),
    }
}

fn stall(id: &str, correlation_id: &str, timestamp: i128) -> EscalationEntry {
    EscalationEntry {
        issue: IssueId::from(id),
        repo: None,
        kind: EscalationKind::PhaseStall,
        correlation_id: correlation_id.to_owned(),
        timestamp,
        structured_fields: Json::Object(vec![]),
    }
}

#[test]
fn snapshot_returns_sorted_projection() {
    let mut q = EscalationQueue::new();
    q.enqueue(stall("ENG-1", "c1", NEW_YEAR));
    let mut handle = OrchestratorReadHandle::new(StrMap::new(), q);
    handle.record(snapshot_for("ENG-2", WorkerState::Pending, Some(Mode::SpecDriven)));
    handle.record(snapshot_for(
        "ENG-1",
        WorkerState::Inactive(InactiveReason::AwaitingLinear),
        Some(Mode::NeedsClassify),
    ));

    let snap = handle.snapshot();
    assert_eq!(snap.issues.len(), 2);
    assert_eq!(snap.issues[0].issue, IssueId::from("ENG-1"));
    assert_eq!(snap.issues[1].issue, IssueId::from("ENG-2"));
    assert_eq!(snap.escalations.len(), 1);
}

#[test]
fn issue_lookup_returns_none_for_unknown() {
    let handle = OrchestratorReadHandle::new(StrMap::new(), EscalationQueue::new());
    assert!(handle.issue(&IssueId::from("ENG-X")).is_none());
}

#[test]
fn escalation_queue_in_deterministic_order() {
    let mut q = EscalationQueue::new();
    for (i, ts) in [NEW_YEAR + 2 * DAY, NEW_YEAR, NEW_YEAR + DAY].iter().enumerate() {
        q.enqueue(stall(&format!("ENG-{i}"), &format!("c{i}"), *ts));
    }
    let handle = OrchestratorReadHandle::new(StrMap::new(), q);
    let queue = handle.escalation_queue();
    let ids: Vec<String> = queue.iter().map(|e| e.issue.0.clone()).collect();
    assert_eq!(ids, vec!["ENG-1", "ENG-2", "ENG-0"]);
}

#[test]
fn known_issue_is_projected() {
    let mut map = StrMap::new();
    map.insert("ENG-1".to_owned(), snapshot_for("ENG-1", WorkerState::Active, None));
    let handle = OrchestratorReadHandle::new(map, EscalationQueue::new());
    let state = handle.issue(&IssueId::from("ENG-1")).unwrap();
    assert_eq!(state.issue, IssueId::from("ENG-1"));
    assert_eq!(state.state, WorkerState::Active);
    assert_eq!(state.mode, None);
    assert_eq!(state.latest_linear_state, Some(LinearStateName::from("Todo")));
}

#[test]
fn publish_with_no_subscribers_increments_drop_counter() {
    let mut counter = DropCounter::new();
    counter.published(false);
    assert_eq!(counter.drop_count(), 1);
}

#[test]
fn record_subscriber_lag_accumulates_drops() {
    let mut counter = DropCounter::new();
    counter.record_subscriber_lag(5);
    counter.record_subscriber_lag(7);
    assert_eq!(counter.drop_count(), 12);
}

#[test]
fn delivered_events_are_not_dropped() {
    let mut counter = DropCounter::new();
    counter.published(true);
    assert_eq!(counter.drop_count(), 0);
    assert_eq!(DEFAULT_EVENT_BUS_CAPACITY, 1024);
}

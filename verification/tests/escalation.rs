use roki_daemon::json::{Json, JsonNumber};
use roki_daemon::orchestrator::escalation::{
    build_directive_payload, delivery_outcome, detect_partial_writes, route_daemon_directive,
    DaemonDirectivePayload, EscalationEntry, EscalationKind, EscalationQueue, RouteOutcome,
    RoutePlan,
};
use roki_daemon::orchestrator::state::IssueId;

/// 2026-01-01T00:00:00Z in nanoseconds since the epoch.
const NEW_YEAR: i128 = 1_767_225_600_000_000_000;

const DAY: i128 = 86_400_000_000_000;

fn object(fields: Vec<(&str, Json)>) -> Json {
    Json::Object(fields.into_iter().map(|(k, v)| (k.to_owned(), v)).collect())
}

fn number(n: u64) -> Json {
    Json::Number(JsonNumber::Unsigned(n))
}

fn text(s: &str) -> Json {
    Json::Text(s.to_owned())
}

fn entry(issue: &str, kind: EscalationKind, ts: i128, fields: Json) -> EscalationEntry {
    EscalationEntry {
        issue: IssueId::from(issue),
        repo: Some("github.com/owner/repo".to_owned()),
        kind,
        correlation_id: format!("corr-{issue}"),
        timestamp: ts,
        structured_fields: fields,
    }
}

const KINDS: [EscalationKind; 7] = [
    EscalationKind::PhaseStall,
    EscalationKind::RetryExhausted,
    EscalationKind::FsPoison,
    EscalationKind::Orphan,
    EscalationKind::OrchestratorCrash,
    EscalationKind::OrchestratorUnparseable,
    EscalationKind::OrchestratorBudgetExhausted,
];

#[test]
fn enqueue_each_kind_is_recorded() {
    let mut q = EscalationQueue::new();
    for (i, kind) in KINDS.iter().enumerate() {
        q.enqueue(entry(&format!("ENG-{i}"), *kind, NEW_YEAR, object(vec![])));
    }
    assert_eq!(q.len(), KINDS.len());
}

#[test]
fn latest_entry_replaces_older_for_same_issue() {
    let mut q = EscalationQueue::new();
    q.enqueue(entry(
        "ENG-9",
        EscalationKind::PhaseStall,
        NEW_YEAR,
        object(vec![("version", number(1))]),
    ));
    q.enqueue(entry(
        "ENG-9",
        EscalationKind::RetryExhausted,
        NEW_YEAR + DAY,
        object(vec![("version", number(2))]),
    ));
    assert_eq!(q.len(), 1);
    let snap = q.snapshot();
    assert_eq!(snap[0].kind, EscalationKind::RetryExhausted);
    assert_eq!(snap[0].structured_fields.get("version"), Some(&number(2)));
}

#[test]
fn snapshot_returns_deterministic_ordered_copy() {
    let mut q = EscalationQueue::new();
    q.enqueue(entry("ENG-2", EscalationKind::PhaseStall, NEW_YEAR + DAY, object(vec![])));
    q.enqueue(entry("ENG-1", EscalationKind::FsPoison, NEW_YEAR, object(vec![])));
    q.enqueue(entry("ENG-3", EscalationKind::Orphan, NEW_YEAR + 2 * DAY, object(vec![])));
    let snap = q.snapshot();
    let ids: Vec<String> = snap.iter().map(|e| e.issue.0.clone()).collect();
    assert_eq!(ids, vec!["ENG-1", "ENG-2", "ENG-3"]);

    // Changing the copy does not change the queue.
    let mut local = snap;
    local.clear();
    assert_eq!(q.len(), 3);
}

#[test]
fn route_directive_for_orchestrator_dead_skips_delivery() {
    let outcome = route_daemon_directive(
        true,
        EscalationKind::OrchestratorCrash,
        &object(vec![]),
        "corr-x",
        false,
    );
    assert_eq!(outcome, RoutePlan::Settled(RouteOutcome::OrchestratorDeadNoDelivery));
}

#[test]
fn route_directive_with_no_live_handle_returns_no_live_handle() {
    let outcome = route_daemon_directive(
        false,
        EscalationKind::PhaseStall,
        &object(vec![]),
        "corr-y",
        false,
    );
    assert_eq!(outcome, RoutePlan::Settled(RouteOutcome::NoLiveHandle));
}

#[test]
fn detect_partial_writes_returns_missing_subset() {
    let expected = vec!["label:roki:impl".to_owned(), "comment_posted:1".to_owned()];
    let actual = vec!["label:roki:impl".to_owned()];
    let missing = detect_partial_writes(&expected, &actual);
    assert_eq!(missing, vec!["comment_posted:1".to_owned()]);
}

#[test]
fn detect_partial_writes_empty_when_complete() {
    let expected = vec!["a".to_owned(), "b".to_owned()];
    let actual = vec!["b".to_owned(), "a".to_owned()];
    assert!(detect_partial_writes(&expected, &actual).is_empty());
}

#[test]
fn equal_times_are_ordered_by_issue() {
    let mut q = EscalationQueue::new();
    q.enqueue(entry("ENG-2", EscalationKind::Orphan, NEW_YEAR, object(vec![])));
    q.enqueue(entry("ENG-10", EscalationKind::Orphan, NEW_YEAR, object(vec![])));
    let ids: Vec<String> = q.snapshot().iter().map(|e| e.issue.0.clone()).collect();
    assert_eq!(ids, vec!["ENG-10", "ENG-2"]);
}

#[test]
fn cleared_issue_is_gone() {
    let mut q = EscalationQueue::new();
    assert!(q.is_empty());
    q.enqueue(entry("ENG-1", EscalationKind::Orphan, NEW_YEAR, object(vec![])));
    q.enqueue(entry("ENG-2", EscalationKind::Orphan, NEW_YEAR, object(vec![])));
    q.clear(&IssueId::from("ENG-1"));
    assert_eq!(q.get(&IssueId::from("ENG-1")), None);
    assert_eq!(q.get(&IssueId::from("ENG-2")).unwrap().correlation_id, "corr-ENG-2");
    assert_eq!(q.len(), 1);
}

#[test]
fn wire_names() {
    let names: Vec<&str> = KINDS.iter().map(|k| k.wire()).collect();
    assert_eq!(
        names,
        vec![
            "phase_stall",
            "retry_exhausted",
            "fs_poison",
            "orphan",
            "orchestrator_crash",
            "orchestrator_unparseable",
            "orchestrator_budget_exhausted",
        ],
    );
    let dead: Vec<bool> = KINDS.iter().map(|k| k.is_orchestrator_dead()).collect();
    assert_eq!(dead, vec![false, false, false, false, true, true, true]);
}

#[test]
fn directive_takes_what_the_fields_hold() {
    let fields = object(vec![
        ("repos", Json::Array(vec![text("a"), number(3), text("b")])),
        ("worktree_path", text("/tmp/wt")),
        ("last_subtype", text("error_max_turns")),
        ("attempts", number(3)),
        ("window_ms", number(600_000)),
        ("errno", Json::Number(JsonNumber::Negative(-13))),
    ]);
    assert_eq!(
        build_directive_payload(&fields, EscalationKind::PhaseStall, "corr-1"),
        DaemonDirectivePayload {
            kind: "phase_stall".to_owned(),
            correlation_id: "corr-1".to_owned(),
            repos: vec!["a".to_owned(), "b".to_owned()],
            worktree_path: Some("/tmp/wt".to_owned()),
            last_subtype: Some("error_max_turns".to_owned()),
            attempts: Some(3),
            window_ms: Some(600_000),
            errno: Some(-13),
        },
    );
}

#[test]
fn directive_leaves_out_what_does_not_fit() {
    let fields = object(vec![
        ("attempts", number(u64::from(u32::MAX) + 1)),
        ("window_ms", Json::Number(JsonNumber::Negative(-1))),
        ("errno", number(1 << 31)),
        ("worktree_path", number(1)),
    ]);
    let p = build_directive_payload(&fields, EscalationKind::FsPoison, "c");
    assert_eq!(p.attempts, None);
    assert_eq!(p.window_ms, None);
    assert_eq!(p.errno, None);
    assert_eq!(p.worktree_path, None);
    assert!(p.repos.is_empty());
}

#[test]
fn live_session_gets_the_directive() {
    let plan =
        route_daemon_directive(true, EscalationKind::PhaseStall, &object(vec![]), "corr-z", true);
    match plan {
        RoutePlan::Send(p) => {
            assert_eq!(p.kind, "phase_stall");
            assert_eq!(p.correlation_id, "corr-z");
        }
        other => panic!("expected Send, got {other:?}"),
    }
    assert_eq!(delivery_outcome(true), RouteOutcome::Delivered);
    assert_eq!(delivery_outcome(false), RouteOutcome::DeliveryFailed);
}

use roki_daemon::json::{Json, JsonNumber};
use roki_daemon::orchestrator::state::IssueId;
use roki_daemon::recovery_reader::{
    active_issues, active_request, classify_state, lookup_issue, reply_status, search_request,
    settle_active, settle_lookup, IssueNode, RecoveryIssueLifecycle, ReplyStatus,
};
use roki_daemon::tracker::assignee::AssigneeAdmission;
use roki_daemon::tracker::model::{LinearStateName, LinearUserId};

fn node(identifier: &str, state_type: Option<&str>, assignee: Option<&str>) -> IssueNode {
    IssueNode {
        identifier: identifier.to_owned(),
        title: "Implement admission".to_owned(),
        description: Some("Active but assigned away.".to_owned()),
        state_type: state_type.map(|s| s.to_owned()),
        labels: vec![],
        assignee: assignee.map(|s| s.to_owned()),
    }
}

fn me() -> AssigneeAdmission {
    AssigneeAdmission::new("user-me".to_owned()).unwrap()
}

#[test]
fn classify_state_maps_active_buckets() {
    assert_eq!(classify_state("unstarted"), RecoveryIssueLifecycle::Active);
    assert_eq!(classify_state("started"), RecoveryIssueLifecycle::Active);
}

#[test]
fn classify_state_distinguishes_terminal_success_from_failure() {
    assert_eq!(classify_state("completed"), RecoveryIssueLifecycle::Terminal);
    assert_eq!(classify_state("canceled"), RecoveryIssueLifecycle::TerminalFailure);
}

#[test]
fn classify_state_unknown_for_other_types() {
    assert_eq!(classify_state("triage"), RecoveryIssueLifecycle::Unknown);
    assert_eq!(classify_state("backlog"), RecoveryIssueLifecycle::Unknown);
    assert_eq!(classify_state(""), RecoveryIssueLifecycle::Unknown);
}

#[test]
fn lookup_issue_treats_active_issue_assigned_elsewhere_as_unknown() {
    let nodes = vec![node("ENG-1", Some("started"), Some("user-other"))];
    let (lifecycle, issue) = lookup_issue(&IssueId::new("ENG-1"), nodes, &me());
    assert_eq!(lifecycle, RecoveryIssueLifecycle::Unknown);
    assert_eq!(
        issue.expect("normalized issue is retained for diagnostics").assignee,
        Some(LinearUserId::from("user-other")),
    );
}

#[test]
fn own_active_issue_is_active() {
    let nodes = vec![
        node("ENG-2", Some("completed"), Some("user-me")),
        node("ENG-1", Some("started"), Some("user-me")),
    ];
    let (lifecycle, issue) = lookup_issue(&IssueId::new("ENG-1"), nodes, &me());
    assert_eq!(lifecycle, RecoveryIssueLifecycle::Active);
    assert_eq!(issue.unwrap().issue, IssueId::new("ENG-1"));
}

#[test]
fn absent_issue_is_unknown() {
    let (lifecycle, issue) = lookup_issue(&IssueId::new("ENG-1"), vec![], &me());
    assert_eq!(lifecycle, RecoveryIssueLifecycle::Unknown);
    assert!(issue.is_none());
}

#[test]
fn finished_issue_assigned_elsewhere_stays_finished() {
    let nodes = vec![node("ENG-1", Some("completed"), Some("user-other"))];
    let (lifecycle, _) = lookup_issue(&IssueId::new("ENG-1"), nodes, &me());
    assert_eq!(lifecycle, RecoveryIssueLifecycle::Terminal);
}

#[test]
fn active_issues_are_listed_in_order() {
    let out = active_issues(vec![
        node("ENG-2", Some("started"), Some("user-me")),
        node("ENG-1", None, None),
    ]);
    let ids: Vec<&str> = out.iter().map(|(id, _)| id.as_str()).collect();
    assert_eq!(ids, vec!["ENG-2", "ENG-1"]);
    assert_eq!(out[0].1.current_linear_state, LinearStateName::from("started"));
    assert_eq!(out[0].1.body, "Active but assigned away.");
}

#[test]
fn requests_carry_their_variables() {
    let search = search_request(&IssueId::new("ENG-1"));
    assert_eq!(search.inner_str("variables", "query"), Some("ENG-1"));
    let active = active_request(&me());
    assert_eq!(
        active.get("variables").unwrap().get("first"),
        Some(&Json::Number(JsonNumber::Unsigned(100))),
    );
}

#[test]
fn statuses_are_read() {
    assert_eq!(reply_status(200), ReplyStatus::Readable);
    assert_eq!(reply_status(429), ReplyStatus::Deferred);
    assert_eq!(reply_status(500), ReplyStatus::Failed("linear http status 500".to_owned()));
}

#[test]
fn request_that_was_put_off_tells_nothing() {
    let issue = IssueId::from("ENG-1");
    let (lifecycle, found) = settle_lookup(&issue, None, &me());
    assert_eq!(lifecycle, RecoveryIssueLifecycle::Unknown);
    assert!(found.is_none());
    assert!(settle_active(None).is_empty());
    let nodes = vec![node("ENG-1", Some("completed"), None)];
    let (lifecycle, found) = settle_lookup(&issue, Some(nodes), &me());
    assert_eq!(lifecycle, RecoveryIssueLifecycle::Terminal);
    assert!(found.is_some());
    assert_eq!(settle_active(Some(vec![node("ENG-2", None, None)])).len(), 1);
}

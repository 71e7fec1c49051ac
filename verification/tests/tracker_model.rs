use roki_daemon::orchestrator::state::IssueId;
use roki_daemon::strmap::StrSet;
use roki_daemon::tracker::model::{
    LinearLabel, LinearStateName, LinearUserId, NormalizedIssue, LABEL_ROKI_IMPL,
    LABEL_ROKI_READY,
};

fn sample_issue(labels: &[&str]) -> NormalizedIssue {
    let names: Vec<String> = labels.iter().map(|s| s.to_string()).collect();
    NormalizedIssue {
        issue: IssueId::from("ENG-101"),
        title: "Refactor the orchestrator turn loop".to_owned(),
        body: "## Acceptance Criteria\n1. ...".to_owned(),
        current_linear_state: LinearStateName::from("Todo"),
        labels: StrSet::from_names(&names),
        assignee: Some(LinearUserId::from("user-uuid-1")),
    }
}

#[test]
fn has_roki_ready_and_has_roki_impl_round_trip() {
    let issue = sample_issue(&[LABEL_ROKI_READY, LABEL_ROKI_IMPL]);
    assert!(issue.has_roki_ready());
    assert!(issue.has_roki_impl());
}

#[test]
fn has_label_is_case_sensitive() {
    let issue = sample_issue(&["Roki:Ready"]);
    assert!(!issue.has_roki_ready());
    assert!(issue.has_label("Roki:Ready"));
}

#[test]
fn missing_labels_return_false() {
    let issue = sample_issue(&[]);
    assert!(!issue.has_roki_ready());
    assert!(!issue.has_roki_impl());
}

#[test]
fn newtypes_round_trip_str_and_string() {
    let from_str: LinearLabel = "roki:ready".into();
    let from_string: LinearLabel = String::from("roki:ready").into();
    assert_eq!(from_str, from_string);
    assert_eq!(from_str.to_string(), "roki:ready");
}

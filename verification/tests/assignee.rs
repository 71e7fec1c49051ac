use roki_daemon::json::Json;
use roki_daemon::orchestrator::state::IssueId;
use roki_daemon::strmap::StrSet;
use roki_daemon::tools::RateLimited;
use roki_daemon::tracker::assignee::{
    assignee_request, check_status, deferred, resolve_linear_assignee, AssigneeAdmission,
    AssigneeResolveError,
};
use roki_daemon::tracker::model::{LinearStateName, LinearUserId, NormalizedIssue};

#[test]
fn resolves_me_from_viewer() {
    let resolved =
        resolve_linear_assignee("me", Some("user-me".to_owned()), vec![]).expect("me resolves");
    assert_eq!(resolved.user_id(), "user-me");
}

#[test]
fn explicit_selector_must_resolve_to_exactly_one_user() {
    let resolved =
        resolve_linear_assignee("one@example.com", None, vec!["user-one".to_owned()])
            .expect("explicit selector resolves");
    assert_eq!(resolved.user_id(), "user-one");
}

#[test]
fn nobody_and_more_than_one_are_refused() {
    assert_eq!(
        resolve_linear_assignee("ghost", None, vec![]),
        Err(AssigneeResolveError::NotFound { selector: "ghost".to_owned() }),
    );
    assert_eq!(
        resolve_linear_assignee("al", None, vec!["a".to_owned(), "b".to_owned()]),
        Err(AssigneeResolveError::Ambiguous { selector: "al".to_owned(), count: 2 }),
    );
}

#[test]
fn blank_selector_is_refused() {
    assert_eq!(assignee_request("  "), Err(AssigneeResolveError::EmptySelector));
    assert_eq!(
        AssigneeAdmission::new(" ".to_owned()),
        Err(AssigneeResolveError::EmptySelector),
    );
}

#[test]
fn requests_name_the_selector() {
    let body = assignee_request("one@example.com").unwrap();
    assert_eq!(body.inner_str("variables", "selector"), Some("one@example.com"));
    let body = assignee_request("me").unwrap();
    assert!(matches!(body.get_str("query"), Some(q) if q.contains("viewer")));
    assert!(!matches!(body, Json::Null));
}

#[test]
fn statuses_of_the_lookup() {
    assert_eq!(check_status(200, None), Ok(()));
    assert_eq!(
        check_status(429, Some(5)),
        Err(AssigneeResolveError::RateLimited { retry_after_seconds: Some(5) }),
    );
    assert_eq!(check_status(401, None), Err(AssigneeResolveError::HttpStatus(401)));
    assert_eq!(
        deferred(RateLimited { retry_after_seconds: None }),
        AssigneeResolveError::RateLimited { retry_after_seconds: None },
    );
}

fn issue(assignee: Option<&str>) -> NormalizedIssue {
    NormalizedIssue {
        issue: IssueId::from("ENG-1"),
        title: "t".to_owned(),
        body: "".to_owned(),
        current_linear_state: LinearStateName::from("Todo"),
        labels: StrSet::new(),
        assignee: assignee.map(LinearUserId::from),
    }
}

#[test]
fn only_own_issues_match() {
    let me = AssigneeAdmission::new("user-me".to_owned()).unwrap();
    assert!(me.matches_issue(&issue(Some("user-me"))));
    assert!(!me.matches_issue(&issue(Some("user-you"))));
    assert!(!me.matches_issue(&issue(None)));
}

use roki_daemon::json::{Json, JsonNumber};
use roki_daemon::orchestrator::state::IssueId;
use roki_daemon::tracker::linear::{
    execute, issue_request, list_request, read_issue, read_issues, read_viewer, viewer_request,
    within_cadence, BackoffState, LinearError, LinearPoller, PollNext, Reply, Wake, BACKOFF_BASE,
    BACKOFF_CAP, DEFAULT_CADENCE_FLOOR, DEFAULT_LINEAR_ENDPOINT, ISSUE_QUERY,
    PUBLIC_SURFACE_IS_READ_ONLY,
};
use roki_daemon::tracker::model::{
    LinearStateName, LinearUserId, LABEL_ROKI_IMPL, LABEL_ROKI_READY,
};
use roki_daemon::tracker::refresh::{LinearTrackerHandle, NudgeResult};

const MILLI: u128 = 1_000_000;

const SECOND: u128 = 1_000_000_000;

fn text(s: &str) -> Json {
    Json::Text(s.to_owned())
}

fn object(fields: Vec<(&str, Json)>) -> Json {
    Json::Object(fields.into_iter().map(|(k, v)| (k.to_owned(), v)).collect())
}

fn issue_node(id: &str, state: &str, labels: &[&str], assignee_id: Option<&str>) -> Json {
    let label_nodes: Vec<Json> =
        labels.iter().map(|name| object(vec![("name", text(name))])).collect();
    let assignee = match assignee_id {
        Some(id) => object(vec![("id", text(id))]),
        None => Json::Null,
    };
    object(vec![
        ("identifier", text(id)),
        ("title", Json::Text(format!("title for {id}"))),
        ("description", text("body")),
        ("state", object(vec![("name", text(state))])),
        ("labels", object(vec![("nodes", Json::Array(label_nodes))])),
        ("assignee", assignee),
    ])
}

fn answered(status: u16, body: Json) -> Reply {
    Reply::Answered { status, body: Ok(body) }
}

fn issues_body(nodes: Vec<Json>) -> Json {
    object(vec![("data", object(vec![("issues", object(vec![("nodes", Json::Array(nodes))]))]))])
}

fn viewer_body(id: &str) -> Json {
    object(vec![("data", object(vec![("viewer", object(vec![("id", text(id))]))]))])
}

fn fresh(base: u128) -> BackoffState {
    BackoffState::new(base, 60 * SECOND, 0)
}

#[test]
fn viewer_returns_user_id() {
    let mut backoff = fresh(5 * MILLI);
    let body = execute(&mut backoff, 0, answered(200, viewer_body("user-uuid-1"))).unwrap();
    let id = read_viewer(&body).expect("viewer ok");
    assert_eq!(id, LinearUserId::from("user-uuid-1"));
}

#[test]
fn list_issues_passes_assignee_and_states_in_body() {
    let body = list_request(
        &LinearUserId::from("user-uuid-1"),
        &[LinearStateName::from("Todo"), LinearStateName::from("In Progress")],
    );
    let vars = body.get("variables").unwrap();
    assert_eq!(vars.get_str("assignee"), Some("user-uuid-1"));
    let states: Vec<&str> =
        vars.get("states").unwrap().as_array().unwrap().iter().filter_map(Json::as_str).collect();
    assert_eq!(states, vec!["Todo", "In Progress"]);

    let mut backoff = fresh(5 * MILLI);
    let reply = issues_body(vec![issue_node(
        "ENG-1",
        "Todo",
        &["roki:ready"],
        Some("user-uuid-1"),
    )]);
    let answer = execute(&mut backoff, 0, answered(200, reply)).unwrap();
    let issues = read_issues(&answer).expect("list_issues ok");
    assert_eq!(issues.len(), 1);
    assert_eq!(issues[0].issue, IssueId::from("ENG-1"));
    assert!(issues[0].has_label(LABEL_ROKI_READY));
    assert_eq!(issues[0].assignee.as_ref(), Some(&LinearUserId::from("user-uuid-1")));
}

#[test]
fn issue_by_id_normalizes_labels_and_assignee() {
    let node = issue_node(
        "ENG-7",
        "In Progress",
        &[LABEL_ROKI_READY, LABEL_ROKI_IMPL],
        Some("user-uuid-7"),
    );
    let reply = object(vec![("data", object(vec![("issue", node)]))]);
    let mut backoff = fresh(5 * MILLI);
    let answer = execute(&mut backoff, 0, answered(200, reply)).unwrap();
    let issue = read_issue(&answer).expect("issue_by_id ok");
    assert_eq!(issue.issue, IssueId::from("ENG-7"));
    assert_eq!(issue.current_linear_state, LinearStateName::from("In Progress"));
    assert!(issue.has_roki_ready());
    assert!(issue.has_roki_impl());
    assert_eq!(issue.assignee.as_ref(), Some(&LinearUserId::from("user-uuid-7")));
}

#[test]
fn http_429_extends_backoff_window() {
    let floor = 80 * MILLI;
    let before = 1_000 * SECOND;
    let mut backoff = BackoffState::new(floor, 5 * SECOND, before);
    match execute(&mut backoff, before, answered(429, Json::Null)) {
        Err(LinearError::Backoff { until }) => {
            assert!(until - before >= floor);
            assert_eq!(until - before, 2 * floor);
        }
        other => panic!("expected Backoff, got {other:?}"),
    }
    assert!(backoff.next_allowed() > before, "backoff deadline must move forward");
}

#[test]
fn successful_request_resets_backoff() {
    let now = 7 * SECOND;
    let mut backoff = fresh(5 * MILLI);
    backoff.extend(now);
    execute(&mut backoff, now, answered(200, viewer_body("u1"))).unwrap();
    assert!(backoff.next_allowed() <= now);
    assert_eq!(backoff.current_window, 5 * MILLI);
}

#[test]
fn public_surface_is_read_only_marker() {
    let _: () = PUBLIC_SURFACE_IS_READ_ONLY;
}

#[test]
fn poller_throttles_nudges_within_cadence_floor() {
    let backoff = fresh(5 * MILLI);
    let mut poller = LinearPoller::new(
        LinearUserId::from("u1"),
        vec![LinearStateName::from("Todo")],
        60 * SECOND,
    );
    let start = 100 * SECOND;
    assert!(poller.may_poll_now(start, &backoff));
    poller.begin_poll(start);
    assert!(!poller.may_poll_now(start + MILLI, &backoff), "second nudge must throttle");
    assert!(!poller.may_poll_now(start + 2 * MILLI, &backoff), "third nudge must throttle");
    assert!(poller.may_poll_now(start + 60 * SECOND, &backoff));
}

#[test]
fn poller_suspends_during_429_backoff() {
    let start = 100 * SECOND;
    let mut backoff = BackoffState::new(5 * SECOND, 60 * SECOND, start);
    let mut poller = LinearPoller::new(
        LinearUserId::from("u1"),
        vec![LinearStateName::from("Todo")],
        10 * MILLI,
    );
    poller.begin_poll(start);
    let err = execute(&mut backoff, start, answered(429, Json::Null)).unwrap_err();
    assert!(matches!(err, LinearError::Backoff { .. }));
    assert!(
        !poller.may_poll_now(start + SECOND, &backoff),
        "may_poll_now must respect 429 backoff",
    );
}

#[test]
fn poller_emits_normalized_issues_matching_webhook_shape() {
    let mut backoff = fresh(5 * MILLI);
    let mut poller = LinearPoller::new(
        LinearUserId::from("u1"),
        vec![LinearStateName::from("Todo")],
        50 * MILLI,
    );
    let request = poller.begin_poll(0);
    assert_eq!(request.inner_str("variables", "assignee"), Some("u1"));
    let reply = issues_body(vec![issue_node("ENG-9", "Todo", &[LABEL_ROKI_READY], Some("u1"))]);
    let answer = execute(&mut backoff, 0, answered(200, reply)).unwrap();
    let issues = read_issues(&answer).unwrap();
    assert_eq!(issues.len(), 1);
    assert_eq!(issues[0].issue, IssueId::from("ENG-9"));
    assert!(issues[0].has_roki_ready());
    assert_eq!(issues[0].assignee.as_ref(), Some(&LinearUserId::from("u1")));
}

#[test]
fn pauses_double_up_to_the_cap() {
    let mut backoff = BackoffState::new(BACKOFF_BASE, BACKOFF_CAP, 0);
    let mut pauses = Vec::new();
    for _ in 0..8 {
        pauses.push(backoff.extend(0) / SECOND);
    }
    assert_eq!(pauses, vec![10, 20, 40, 80, 160, 300, 300, 300]);
    assert_eq!(backoff.wait_time(100 * SECOND), 200 * SECOND);
    assert_eq!(backoff.wait_time(400 * SECOND), 0);
    backoff.reset(9);
    assert_eq!(backoff.next_allowed(), 9);
    assert_eq!(backoff.current_window, BACKOFF_BASE);
    backoff.set_deadline(77);
    assert_eq!(backoff.next_allowed(), 77);
    assert_eq!(DEFAULT_CADENCE_FLOOR, 300 * SECOND);
    assert_eq!(DEFAULT_LINEAR_ENDPOINT, "https://api.linear.app/graphql");
}

#[test]
fn trouble_is_classified() {
    let mut backoff = fresh(5 * MILLI);
    assert_eq!(
        execute(&mut backoff, 0, Reply::Failed { cause: "down".to_owned() }),
        Err(LinearError::Network("down".to_owned())),
    );
    assert_eq!(
        execute(&mut backoff, 0, answered(404, Json::Null)),
        Err(LinearError::Http { status: 404 }),
    );
    let unreadable = Reply::Answered { status: 200, body: Err("eof".to_owned()) };
    assert_eq!(
        execute(&mut backoff, 0, unreadable),
        Err(LinearError::Parse("eof".to_owned())),
    );
    let message = object(vec![("message", text("no such user"))]);
    let errors = object(vec![("errors", Json::Array(vec![message]))]);
    assert_eq!(
        execute(&mut backoff, 0, answered(200, errors)),
        Err(LinearError::Parse("[{\"message\":\"no such user\"}]".to_owned())),
    );
}

#[test]
fn missing_parts_are_named() {
    assert!(matches!(read_viewer(&object(vec![])), Err(LinearError::Parse(_))));
    assert!(matches!(read_issue(&object(vec![])), Err(LinearError::Parse(_))));
    assert!(matches!(read_issues(&object(vec![])), Err(LinearError::Parse(_))));
}

#[test]
fn requests_carry_query_and_variables() {
    assert_eq!(viewer_request().get_str("query"), Some("query { viewer { id } }"));
    let body = issue_request("ENG-7");
    assert_eq!(body.get_str("query"), Some(ISSUE_QUERY));
    assert_eq!(body.inner_str("variables", "id"), Some("ENG-7"));
}

#[test]
fn wakes_of_the_poller() {
    let backoff = fresh(5 * MILLI);
    let mut poller = LinearPoller::new(LinearUserId::from("u1"), vec![], 60 * SECOND);
    poller.begin_poll(0);
    assert_eq!(poller.after_wake(Wake::Shutdown, SECOND, &backoff), PollNext::Stop);
    assert_eq!(poller.after_wake(Wake::NudgeClosed, SECOND, &backoff), PollNext::WaitThenPoll);
    assert_eq!(poller.after_wake(Wake::Cadence, SECOND, &backoff), PollNext::Poll);
    assert_eq!(poller.after_wake(Wake::Nudge, 61 * SECOND, &backoff), PollNext::Poll);
    assert_eq!(poller.after_wake(Wake::Nudge, SECOND, &backoff), PollNext::WaitThenPoll);
}

#[test]
fn first_nudge_accepted_second_throttled_within_cadence() {
    let mut handle = LinearTrackerHandle::new(60 * SECOND);
    assert_eq!(handle.nudge(0, Some(0)), NudgeResult::Accepted);
    assert_eq!(handle.nudge(MILLI, Some(0)), NudgeResult::Throttled);
}

#[test]
fn nudge_after_cadence_floor_accepted_again() {
    let cadence = 40 * MILLI;
    let mut handle = LinearTrackerHandle::new(cadence);
    assert_eq!(handle.nudge(0, Some(0)), NudgeResult::Accepted);
    assert_eq!(handle.nudge(cadence + 20 * MILLI, Some(0)), NudgeResult::Accepted);
}

#[test]
fn nudge_during_backoff_returns_backoff_active() {
    let mut handle = LinearTrackerHandle::new(MILLI);
    assert_eq!(handle.nudge(SECOND, Some(61 * SECOND)), NudgeResult::BackoffActive);
    assert_eq!(handle.counter, 0);
}

#[test]
fn accepted_nudge_increments_counter_observable_to_receiver() {
    let mut handle = LinearTrackerHandle::new(MILLI);
    let initial = handle.counter;
    assert_eq!(handle.nudge(0, Some(0)), NudgeResult::Accepted);
    assert!(handle.counter > initial);
}

#[test]
fn nudge_waits_for_a_pace_that_is_not_known() {
    let mut handle = LinearTrackerHandle::new(MILLI);
    assert_eq!(handle.nudge(0, None), NudgeResult::BackoffActive);
}

#[test]
fn cadence_has_an_open_end() {
    assert!(!within_cadence(10, None, 5));
    assert!(within_cadence(10, Some(6), 5));
    assert!(!within_cadence(10, Some(5), 5));
}

fn only(node: Json) -> Json {
    object(vec![("data", object(vec![("issue", node)]))])
}

#[test]
fn absent_fields_are_empty() {
    let node = object(vec![
        ("identifier", text("ENG-1")),
        ("state", object(vec![("name", text("Todo"))])),
        ("labels", Json::Number(JsonNumber::Unsigned(1))),
    ]);
    let issue = read_issue(&only(node)).unwrap();
    assert_eq!(issue.title, "");
    assert_eq!(issue.body, "");
    assert!(issue.labels.names().is_empty());
    assert_eq!(issue.assignee, None);
}

#[test]
fn identifier_and_state_must_be_there() {
    assert_eq!(
        read_issue(&only(object(vec![]))),
        Err(LinearError::Parse("issue.identifier missing".to_owned())),
    );
    assert_eq!(
        read_issue(&only(object(vec![("identifier", text("ENG-1"))]))),
        Err(LinearError::Parse("issue.state.name missing".to_owned())),
    );
}

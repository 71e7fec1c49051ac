use roki_daemon::config::AssigneeSpec;
use roki_daemon::json::Json;
use roki_daemon::orchestrator::state::{IssueId, Mode};
use roki_daemon::strmap::StrSet;
use roki_daemon::tracker::linear::read_viewer;
use roki_daemon::tracker::model::{
    LinearStateName, LinearUserId, NormalizedIssue, LABEL_ROKI_IMPL, LABEL_ROKI_READY,
};
use roki_daemon::tracker::pre_admission::{
    assignment_lost, roki_ready_removed, AdmissionDecision, AssigneeResolver, PreAdmissionJudge,
    ResolutionError, SkipReason,
};

fn names(labels: &[&str]) -> StrSet {
    let list: Vec<String> = labels.iter().map(|s| s.to_string()).collect();
    StrSet::from_names(&list)
}

fn judge() -> PreAdmissionJudge {
    PreAdmissionJudge::new(LinearUserId::from("u1"), names(&["Todo"]))
}

fn issue_with(assignee: Option<&str>, state: &str, labels: &[&str]) -> NormalizedIssue {
    NormalizedIssue {
        issue: IssueId::from("ENG-1"),
        title: "t".to_owned(),
        body: "b".to_owned(),
        current_linear_state: LinearStateName::from(state),
        labels: names(labels),
        assignee: assignee.map(LinearUserId::from),
    }
}

fn skip(reason: SkipReason) -> AdmissionDecision {
    AdmissionDecision::Skip { reason }
}

#[test]
fn truth_table_covers_all_sixteen_corners() {
    let j = judge();
    let cases: Vec<(Option<&str>, &str, bool, bool, AdmissionDecision)> = vec![
        // The wrong assignee decides, whatever else holds.
        (None, "Todo", false, false, skip(SkipReason::AssigneeMismatch)),
        (None, "Todo", true, true, skip(SkipReason::AssigneeMismatch)),
        (Some("other"), "Todo", true, true, skip(SkipReason::AssigneeMismatch)),
        (Some("other"), "Done", false, false, skip(SkipReason::AssigneeMismatch)),
        // A state that is not admitted.
        (Some("u1"), "Done", false, false, skip(SkipReason::StateNotAdmitted)),
        (Some("u1"), "Done", true, false, skip(SkipReason::StateNotAdmitted)),
        (Some("u1"), "Done", true, true, skip(SkipReason::StateNotAdmitted)),
        (Some("u1"), "Done", false, true, skip(SkipReason::StateNotAdmitted)),
        // An admitted state without `roki:ready`.
        (Some("u1"), "Todo", false, false, skip(SkipReason::MissingRokiReady)),
        (Some("u1"), "Todo", false, true, skip(SkipReason::RokiImplWithoutRokiReady)),
        // `roki:ready` alone.
        (
            Some("u1"),
            "Todo",
            true,
            false,
            AdmissionDecision::Admit {
                issue: NormalizedIssue {
                    issue: IssueId::from("ENG-1"),
                    title: "t".to_owned(),
                    body: "b".to_owned(),
                    current_linear_state: LinearStateName::from("Todo"),
                    labels: names(&[LABEL_ROKI_READY]),
                    assignee: Some(LinearUserId::from("u1")),
                },
                mode: Mode::NeedsClassify,
            },
        ),
        // `roki:ready` and `roki:impl`.
        (
            Some("u1"),
            "Todo",
            true,
            true,
            AdmissionDecision::Admit {
                issue: NormalizedIssue {
                    issue: IssueId::from("ENG-1"),
                    title: "t".to_owned(),
                    body: "b".to_owned(),
                    current_linear_state: LinearStateName::from("Todo"),
                    labels: names(&[LABEL_ROKI_IMPL, LABEL_ROKI_READY]),
                    assignee: Some(LinearUserId::from("u1")),
                },
                mode: Mode::SpecDriven,
            },
        ),
        // The rest of the table.
        (Some("u1"), "Backlog", true, true, skip(SkipReason::StateNotAdmitted)),
        (Some("u1"), "Backlog", false, false, skip(SkipReason::StateNotAdmitted)),
        (Some("other"), "Todo", false, true, skip(SkipReason::AssigneeMismatch)),
        (Some("other"), "Backlog", true, true, skip(SkipReason::AssigneeMismatch)),
    ];
    assert_eq!(cases.len(), 16);
    for (assignee, state, ready, impl_, expected) in cases {
        let mut labels = vec![];
        if ready {
            labels.push(LABEL_ROKI_READY);
        }
        if impl_ {
            labels.push(LABEL_ROKI_IMPL);
        }
        let issue = issue_with(assignee, state, &labels);
        let got = j.evaluate(&issue);
        assert_eq!(
            got, expected,
            "row (assignee={assignee:?}, state={state}, ready={ready}, impl={impl_})"
        );
    }
}

#[test]
fn skip_reason_codes_are_stable() {
    assert_eq!(SkipReason::AssigneeMismatch.as_str(), "assignee_mismatch");
    assert_eq!(SkipReason::StateNotAdmitted.as_str(), "state_not_admitted");
    assert_eq!(SkipReason::MissingRokiReady.as_str(), "missing_roki_ready");
    assert_eq!(SkipReason::RokiImplWithoutRokiReady.as_str(), "roki_impl_without_roki_ready");
}

#[test]
fn assignment_lost_detects_drop_and_change() {
    let prev = issue_with(Some("u1"), "Todo", &[]);
    let curr_none = issue_with(None, "Todo", &[]);
    let curr_other = issue_with(Some("u2"), "Todo", &[]);
    assert!(assignment_lost(&prev, &curr_none));
    assert!(assignment_lost(&prev, &curr_other));
    assert!(!assignment_lost(&prev, &prev));
}

#[test]
fn roki_ready_removed_detects_label_drop() {
    let prev = issue_with(Some("u1"), "Todo", &[LABEL_ROKI_READY]);
    let curr = issue_with(Some("u1"), "Todo", &[]);
    assert!(roki_ready_removed(&prev, &curr));
    assert!(!roki_ready_removed(&curr, &prev));
    assert!(!roki_ready_removed(&prev, &prev));
}

#[test]
fn assignee_resolver_explicit_single_match() {
    let spec = AssigneeSpec::Selector("alice@example.com".to_owned());
    let resolved =
        AssigneeResolver::resolve_with_lookup(&spec, &vec![LinearUserId::from("u-alice")])
            .expect("single-match resolution");
    assert_eq!(resolved, LinearUserId::from("u-alice"));
}

#[test]
fn assignee_resolver_explicit_ambiguous_fails() {
    let spec = AssigneeSpec::Selector("alice".to_owned());
    let err = AssigneeResolver::resolve_with_lookup(
        &spec,
        &vec![LinearUserId::from("u-1"), LinearUserId::from("u-2")],
    )
    .unwrap_err();
    match err {
        ResolutionError::Ambiguous { count, selector } => {
            assert_eq!(count, 2);
            assert_eq!(selector, "alice");
        }
        other => panic!("expected Ambiguous, got {other:?}"),
    }
}

#[test]
fn assignee_resolver_explicit_not_found_fails() {
    let spec = AssigneeSpec::Selector("ghost".to_owned());
    let err = AssigneeResolver::resolve_with_lookup(&spec, &vec![]).unwrap_err();
    assert!(matches!(err, ResolutionError::NotFound { .. }));
}

#[test]
fn assignee_resolver_me_uses_viewer() {
    let reply = Json::Object(vec![(
        "data".to_owned(),
        Json::Object(vec![(
            "viewer".to_owned(),
            Json::Object(vec![("id".to_owned(), Json::Text("viewer-uuid".to_owned()))]),
        )]),
    )]);
    let viewer = read_viewer(&reply).map_err(|e| format!("{e:?}"));
    let resolved =
        AssigneeResolver::resolve(&AssigneeSpec::Me, viewer).expect("me resolves via viewer");
    assert_eq!(resolved, LinearUserId::from("viewer-uuid"));
}

#[test]
fn failed_viewer_lookup_is_reported() {
    match AssigneeResolver::resolve(&AssigneeSpec::Me, Err("down".to_owned())) {
        Err(ResolutionError::Linear(cause)) => assert_eq!(cause, "down"),
        other => panic!("expected Linear, got {other:?}"),
    }
}

#[test]
fn judge_keeps_its_settings() {
    let j = judge();
    assert_eq!(j.assignee(), &LinearUserId::from("u1"));
    assert_eq!(j.admit_states().names(), vec!["Todo".to_owned()]);
}

use roki_daemon::rule::{
    first_cleanup_match, first_match, is_shorthand_cleanup, matches_when, status_seed,
    AdmittedTicket, NormalizedTicket,
};
use roki_daemon::strmap::StrMap;
use roki_daemon::workflow::canonical::{
    EdgeTarget, LabelsMatcher, RuleEntry, ScalarMatcher, State, StateBody, StateMachine,
    Terminal, TextMatcher, WhenClause,
};

fn admitted(status: &str, labels: &[&str]) -> AdmittedTicket {
    AdmittedTicket {
        ticket: NormalizedTicket::new(
            "tid-1".to_string(),
            Some("u1".to_string()),
            status.to_string(),
            labels.iter().map(|s| s.to_string()).collect(),
            "Title".into(),
            "Body".into(),
        ),
        ghq: "github.com/owner/repo".to_string(),
    }
}

fn state_machine() -> StateMachine {
    StateMachine { start: "start".into(), states: StrMap::new(), terminals: StrMap::new() }
}

fn shorthand_sm() -> StateMachine {
    let mut sm = state_machine();
    sm.start = "__success__".into();
    sm.terminals.insert(
        "__success__".into(),
        Terminal { id: "__success__".into(), outcome: "cleaned".into() },
    );
    sm
}

fn dummy_sm() -> StateMachine {
    let mut sm = state_machine();
    sm.start = "a".into();
    sm.states.insert(
        "a".into(),
        State {
            id: "a".into(),
            body: StateBody::Run { cmd: "true".into() },
            if_cond: None,
            on_done: EdgeTarget::Terminal("__success__".into()),
            on_fail: EdgeTarget::Terminal("__failure__".into()),
            directives: StrMap::new(),
            max_visits: 1,
            timeout: None,
        },
    );
    sm.terminals.insert(
        "__success__".into(),
        Terminal { id: "__success__".into(), outcome: "success".into() },
    );
    sm
}

fn has_all(names: &[&str]) -> LabelsMatcher {
    LabelsMatcher {
        has_all: Some(names.iter().map(|s| s.to_string()).collect()),
        ..LabelsMatcher::default()
    }
}

fn rule(status: &str, all: &[&str]) -> RuleEntry {
    let mut when = WhenClause::default();
    when.status = Some(ScalarMatcher::Eq(status.into()));
    if !all.is_empty() {
        when.labels = Some(has_all(all));
    }
    RuleEntry { when: Some(when), state_machine: dummy_sm() }
}

fn cleanup_when(status: Option<&str>, labels: &[&str]) -> RuleEntry {
    let when = if status.is_none() && labels.is_empty() {
        None
    } else {
        let mut w = WhenClause::default();
        if let Some(s) = status {
            w.status = Some(ScalarMatcher::Eq(s.into()));
        }
        if !labels.is_empty() {
            w.labels = Some(has_all(labels));
        }
        Some(w)
    };
    RuleEntry { when, state_machine: dummy_sm() }
}

fn cleanup_shorthand() -> RuleEntry {
    RuleEntry { when: None, state_machine: shorthand_sm() }
}

#[test]
fn matches_when_status_eq_and_has_all_contained() {
    let t = admitted("In Progress", &["bug", "p0"]);
    let rules = vec![rule("In Progress", &["bug"])];
    assert!(first_match(&t, &rules).is_some());
}

#[test]
fn returns_none_when_status_mismatches() {
    let t = admitted("Done", &["bug"]);
    let rules = vec![rule("In Progress", &["bug"])];
    assert!(first_match(&t, &rules).is_none());
}

#[test]
fn returns_none_when_has_all_not_contained() {
    let t = admitted("In Progress", &["bug"]);
    let rules = vec![rule("In Progress", &["bug", "p0"])];
    assert!(first_match(&t, &rules).is_none());
}

#[test]
fn first_matching_rule_wins() {
    let t = admitted("In Progress", &["bug", "p0"]);
    let rules = vec![rule("In Progress", &["bug"]), rule("In Progress", &["p0"])];
    let hit = first_match(&t, &rules).unwrap();
    let when = hit.when.as_ref().unwrap();
    assert_eq!(when.labels.as_ref().unwrap().has_all.as_ref().unwrap()[0], "bug");
}

#[test]
fn empty_rule_array_returns_none() {
    let t = admitted("In Progress", &["bug"]);
    let rules: Vec<RuleEntry> = Vec::new();
    assert!(first_match(&t, &rules).is_none());
}

#[test]
fn cleanup_shorthand_matches_unconditionally() {
    let t = admitted("InProgress", &[]);
    let cleanups = vec![cleanup_shorthand()];
    let hit = first_cleanup_match(&t, &cleanups).unwrap();
    assert!(is_shorthand_cleanup(hit));
}

#[test]
fn cleanup_status_filter() {
    let t = admitted("InProgress", &[]);
    let cleanups = vec![cleanup_when(Some("Done"), &[])];
    assert!(first_cleanup_match(&t, &cleanups).is_none());

    let t2 = admitted("Done", &[]);
    assert!(first_cleanup_match(&t2, &cleanups).is_some());
}

#[test]
fn cleanup_labels_has_all() {
    let t1 = admitted("InProgress", &["urgent"]);
    let cleanups = vec![cleanup_when(None, &["urgent", "bug"])];
    assert!(first_cleanup_match(&t1, &cleanups).is_none());

    let t2 = admitted("InProgress", &["urgent", "bug"]);
    assert!(first_cleanup_match(&t2, &cleanups).is_some());
}

#[test]
fn status_seed_collects_eq_and_in() {
    let mut not_when = WhenClause::default();
    not_when.status = Some(ScalarMatcher::Not("Done".into()));
    let mut in_when = WhenClause::default();
    in_when.status = Some(ScalarMatcher::In(vec!["Triage".into(), "Backlog".into()]));
    let entries = vec![
        rule("InProgress", &[]),
        rule("Review", &[]),
        RuleEntry { when: Some(in_when), state_machine: dummy_sm() },
        RuleEntry { when: Some(not_when), state_machine: dummy_sm() },
    ];
    let seed = status_seed(&entries, &[]);
    assert!(seed.contains("InProgress"));
    assert!(seed.contains("Review"));
    assert!(seed.contains("Triage"));
    assert!(seed.contains("Backlog"));
    assert!(!seed.contains("Done"));
}

#[test]
fn seed_takes_cleanups_too() {
    let seed = status_seed(&[], &[cleanup_when(Some("Canceled"), &[])]);
    assert_eq!(seed.names(), vec!["Canceled".to_owned()]);
}

#[test]
fn shorthand_has_no_states() {
    assert!(!is_shorthand_cleanup(&cleanup_when(None, &[])));
}

#[test]
fn labels_any_and_none() {
    let t = admitted("Todo", &["bug"]);
    let mut w = WhenClause::default();
    w.labels = Some(LabelsMatcher {
        has_any: Some(vec!["p0".into(), "bug".into()]),
        has_none: Some(vec!["wontfix".into()]),
        ..LabelsMatcher::default()
    });
    assert!(matches_when(&Some(w), &t));
    let mut w = WhenClause::default();
    w.labels = Some(LabelsMatcher {
        has_none: Some(vec!["bug".into()]),
        ..LabelsMatcher::default()
    });
    assert!(!matches_when(&Some(w), &t));
    let mut w = WhenClause::default();
    w.labels =
        Some(LabelsMatcher { has_any: Some(vec!["p0".into()]), ..LabelsMatcher::default() });
    assert!(!matches_when(&Some(w), &t));
}

#[test]
fn missing_condition_matches() {
    assert!(matches_when(&None, &admitted("Todo", &[])));
    assert!(matches_when(&Some(WhenClause::default()), &admitted("Todo", &[])));
}

#[test]
fn repo_condition_is_exact() {
    let mut w = WhenClause::default();
    w.repo = Some("github.com/owner/repo".into());
    assert!(matches_when(&Some(w), &admitted("Todo", &[])));
    let mut w = WhenClause::default();
    w.repo = Some("github.com/owner/other".into());
    assert!(!matches_when(&Some(w), &admitted("Todo", &[])));
}

#[test]
fn negated_status() {
    let mut w = WhenClause::default();
    w.status = Some(ScalarMatcher::Not("Done".into()));
    let when = Some(w);
    assert!(matches_when(&when, &admitted("Todo", &[])));
    assert!(!matches_when(&when, &admitted("Done", &[])));
}

#[test]
fn title_and_body_conditions() {
    let mut w = WhenClause::default();
    w.title = Some(TextMatcher::StartsWith("Tit".into()));
    w.body = Some(TextMatcher::Contains("od".into()));
    assert!(matches_when(&Some(w), &admitted("Todo", &[])));
    let mut w = WhenClause::default();
    w.title = Some(TextMatcher::StartsWith("itle".into()));
    assert!(!matches_when(&Some(w), &admitted("Todo", &[])));
    let mut w = WhenClause::default();
    w.body = Some(TextMatcher::Regex("Body".into()));
    assert!(matches_when(&Some(w), &admitted("Todo", &[])));
}

#[test]
fn assignee_condition() {
    let mut w = WhenClause::default();
    w.assignee = Some(ScalarMatcher::In(vec!["u1".into(), "u2".into()]));
    let when = Some(w);
    assert!(matches_when(&when, &admitted("Todo", &[])));
    let mut t = admitted("Todo", &[]);
    t.ticket.assignee_id = None;
    assert!(!matches_when(&when, &t));
}

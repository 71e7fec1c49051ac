use roki_daemon::strmap::StrMap;
use roki_daemon::workflow::canonical::{
    EdgeTarget, ScalarMatcher, StateBody, Timeout, WorkflowFile,
};
use roki_daemon::workflow::parse::{
    RawAdmission, RawDirectiveTarget, RawRepoEntry, RawRuleBody, RawRuleEntry, RawScalarMatcher,
    RawStateEntry, RawTaskEntry, RawWhenClause, RawWorkflow,
};
use roki_daemon::workflow::sugar::{
    expand, parse_duration, workflow_has_room, ExpandConfig, ExpandError,
};

fn admission() -> Option<RawAdmission> {
    Some(RawAdmission {
        assignee: "me".into(),
        repos: vec![RawRepoEntry { ghq: "x".into(), when: None, workflow: None }],
    })
}

fn task(id: &str, run: &str) -> RawTaskEntry {
    RawTaskEntry {
        id: id.into(),
        run: Some(run.into()),
        uses: None,
        if_cond: None,
        timeout: None,
        on_fail: None,
        directives: StrMap::new(),
        max_visits: None,
    }
}

fn with_directive(mut t: RawTaskEntry, name: &str, target: &str) -> RawTaskEntry {
    t.directives.insert(name.into(), RawDirectiveTarget::Short(target.into()));
    t
}

fn sugar(tasks: Vec<RawTaskEntry>) -> RawWorkflow {
    RawWorkflow {
        admission: admission(),
        rules: vec![RawRuleEntry {
            when: None,
            body: RawRuleBody::Sugar {
                tasks,
                states: StrMap::new(),
                terminals: StrMap::new(),
                on_fail: None,
            },
        }],
        cleanup: vec![],
        on_failure: vec![],
    }
}

fn expanded(raw: RawWorkflow) -> WorkflowFile {
    expand(raw, ExpandConfig::default()).unwrap()
}

fn when_status(s: &str) -> RawWhenClause {
    RawWhenClause {
        status: Some(RawScalarMatcher::Eq(s.into())),
        labels: None,
        assignee: None,
        repo: None,
        kind: None,
        phase: None,
        title: None,
        body: None,
    }
}

#[test]
fn minimal_sugar_one_task() {
    let f = expanded(sugar(vec![task("impl", "echo hi")]));
    let sm = &f.rules[0].state_machine;
    assert_eq!(sm.start, "impl");
    assert_eq!(sm.states.len(), 1);
    let impl_state = sm.states.get("impl").unwrap();
    assert_eq!(impl_state.on_done, EdgeTarget::Terminal("__success__".into()));
    assert_eq!(impl_state.on_fail, EdgeTarget::Terminal("__failure__".into()));
    assert!(sm.terminals.contains_key("__success__"));
    assert!(sm.terminals.contains_key("__failure__"));
}

#[test]
fn sugar_chain_links_tasks_in_order() {
    let f = expanded(sugar(vec![task("judge", "j"), task("impl", "i"), task("verdict", "v")]));
    let sm = &f.rules[0].state_machine;
    assert_eq!(sm.start, "judge");
    assert_eq!(sm.states.get("judge").unwrap().on_done, EdgeTarget::State("impl".into()));
    assert_eq!(sm.states.get("impl").unwrap().on_done, EdgeTarget::State("verdict".into()));
    assert_eq!(
        sm.states.get("verdict").unwrap().on_done,
        EdgeTarget::Terminal("__success__".into()),
    );
}

#[test]
fn sugar_retry_directive_self_loop_injects_max_visits() {
    let f = expanded(sugar(vec![
        task("a", "x"),
        with_directive(task("b", "y"), "retry", "a"),
    ]));
    let sm = &f.rules[0].state_machine;
    assert_eq!(sm.states.get("a").unwrap().max_visits, 50);
    assert_eq!(sm.states.get("b").unwrap().max_visits, 1);
}

#[test]
fn directive_targets_terminal_classified_correctly() {
    let mut directives = StrMap::new();
    directives.insert("skip".into(), RawDirectiveTarget::Short("__no_action__".into()));
    let mut states = StrMap::new();
    states.insert(
        "a".into(),
        RawStateEntry {
            run: Some("x".into()),
            uses: None,
            if_cond: None,
            timeout: None,
            on_done: None,
            on_fail: None,
            directives,
            max_visits: None,
        },
    );
    let f = expanded(RawWorkflow {
        admission: admission(),
        rules: vec![RawRuleEntry {
            when: None,
            body: RawRuleBody::Canonical {
                start: "a".into(),
                states,
                terminals: StrMap::new(),
                on_fail: None,
            },
        }],
        cleanup: vec![],
        on_failure: vec![],
    });
    let sm = &f.rules[0].state_machine;
    assert_eq!(
        sm.states.get("a").unwrap().directives.get("skip").unwrap(),
        &EdgeTarget::Terminal("__no_action__".into()),
    );
    assert_eq!(sm.terminals.get("__no_action__").unwrap().outcome, "no_action");
}

#[test]
fn cleanup_immediate_delete_yields_terminal_at_start() {
    let f = expanded(RawWorkflow {
        admission: admission(),
        rules: vec![],
        cleanup: vec![RawRuleEntry {
            when: Some(when_status("Done")),
            body: RawRuleBody::Empty {},
        }],
        on_failure: vec![],
    });
    let sm = &f.cleanup[0].state_machine;
    assert!(sm.states.is_empty());
    assert_eq!(sm.start, "__success__");
    assert!(sm.terminals.contains_key("__success__"));
    match &f.cleanup[0].when.as_ref().unwrap().status {
        Some(ScalarMatcher::Eq(s)) => assert_eq!(s, "Done"),
        other => panic!("expected Eq, got {other:?}"),
    }
}

#[test]
fn duration_parser_handles_ms_s_m_and_bare_seconds() {
    assert_eq!(parse_duration(Some("500ms"), 0).unwrap(), Some(Timeout::from_millis(500)));
    assert_eq!(parse_duration(Some("30s"), 0).unwrap(), Some(Timeout::from_secs(30)));
    assert_eq!(parse_duration(Some("5m"), 0).unwrap(), Some(Timeout::from_secs(300)));
    assert_eq!(parse_duration(Some("60"), 0).unwrap(), Some(Timeout::from_secs(60)));
    assert!(parse_duration(Some("garbage"), 0).is_err());
}

#[test]
fn explicit_max_visits_in_scc_preserved() {
    let mut a = task("a", "x");
    a.max_visits = Some(3);
    let f = expanded(sugar(vec![a, with_directive(task("b", "y"), "retry", "a")]));
    let sm = &f.rules[0].state_machine;
    assert_eq!(sm.states.get("a").unwrap().max_visits, 3);
}

#[test]
fn implicit_terminals_injected_only_when_referenced() {
    let f = expanded(sugar(vec![task("a", "x")]));
    let sm = &f.rules[0].state_machine;
    assert!(sm.terminals.contains_key("__success__"));
    assert!(sm.terminals.contains_key("__failure__"));
    assert!(!sm.terminals.contains_key("__cancelled__"));
    assert!(!sm.terminals.contains_key("__no_action__"));
}

#[test]
fn no_timeout_is_no_timeout() {
    assert_eq!(parse_duration(None, 0).unwrap(), None);
    match parse_duration(Some("1h"), 4) {
        Err(ExpandError::InvalidDuration { rule_idx, value }) => {
            assert_eq!(rule_idx, 4);
            assert_eq!(value, "1h");
        }
        other => panic!("expected InvalidDuration, got {other:?}"),
    }
}

#[test]
fn empty_task_list_is_refused() {
    match expand(sugar(vec![]), ExpandConfig::default()) {
        Err(ExpandError::EmptyTasks { rule_idx }) => assert_eq!(rule_idx, 0),
        other => panic!("expected EmptyTasks, got {other:?}"),
    }
}

#[test]
fn faults_of_the_expansion_are_reported() {
    let raw = sugar(vec![with_directive(task("a", "x"), "go", "nowhere")]);
    match expand(raw, ExpandConfig::default()) {
        Err(ExpandError::Validation(errors)) => assert_eq!(errors.len(), 1),
        other => panic!("expected Validation, got {other:?}"),
    }
}

#[test]
fn cap_is_configurable() {
    let raw = sugar(vec![task("a", "x"), with_directive(task("b", "y"), "retry", "a")]);
    let f = expand(raw, ExpandConfig { default_max_iterations: 7 }).unwrap();
    assert_eq!(f.rules[0].state_machine.states.get("a").unwrap().max_visits, 7);
}

#[test]
fn task_details_are_carried_over() {
    let mut a = task("a", "x");
    a.run = None;
    a.uses = Some("steps/a.yaml".into());
    a.timeout = Some("2m".into());
    a.if_cond = Some("ready".into());
    a.on_fail = Some("b".into());
    let f = expanded(sugar(vec![a, task("b", "y")]));
    let s = f.rules[0].state_machine.states.get("a").unwrap().clone();
    assert!(matches!(s.body, StateBody::Uses { path } if path == "steps/a.yaml"));
    assert_eq!(s.timeout, Some(Timeout::from_secs(120)));
    assert_eq!(s.if_cond, Some("ready".into()));
    assert_eq!(s.on_fail, EdgeTarget::State("b".into()));
}

#[test]
fn only_minutes_beyond_the_seconds_of_a_word_have_no_room() {
    let timed = |value: &str| {
        let mut t = task("build", "make");
        t.timeout = Some(value.to_owned());
        sugar(vec![t])
    };
    assert!(workflow_has_room(&timed("5m")));
    assert!(workflow_has_room(&timed("307445734561825860m")));
    assert!(!workflow_has_room(&timed("307445734561825861m")));
    assert!(workflow_has_room(&timed("18446744073709551615s")));
    assert!(workflow_has_room(&timed("soon")));
}

use roki_daemon::strmap::StrMap;
use roki_daemon::workflow::canonical::{
    EdgeTarget, RuleEntry, State, StateBody, StateMachine, Terminal, WorkflowFile,
};
use roki_daemon::workflow::validate::{is_env_safe_id, run, ValidationError};

fn state_machine() -> StateMachine {
    StateMachine { start: "start".into(), states: StrMap::new(), terminals: StrMap::new() }
}

fn state(id: &str, cmd: &str) -> State {
    State {
        id: id.to_string(),
        body: StateBody::Run { cmd: cmd.to_string() },
        if_cond: None,
        on_done: EdgeTarget::Terminal("__success__".to_string()),
        on_fail: EdgeTarget::Terminal("__failure__".to_string()),
        directives: StrMap::new(),
        max_visits: 1,
        timeout: None,
    }
}

fn terminal(id: &str, outcome: &str) -> Terminal {
    Terminal { id: id.to_string(), outcome: outcome.to_string() }
}

fn one_rule(sm: StateMachine) -> WorkflowFile {
    WorkflowFile {
        admission: None,
        rules: vec![RuleEntry { when: None, state_machine: sm }],
        cleanup: vec![],
        on_failure: vec![],
    }
}

/// A machine of one state, with both of the usual terminals.
fn single(id: &str, cmd: &str) -> StateMachine {
    let mut sm = state_machine();
    sm.start = id.into();
    sm.states.insert(id.into(), state(id, cmd));
    sm.terminals.insert("__success__".into(), terminal("__success__", "success"));
    sm.terminals.insert("__failure__".into(), terminal("__failure__", "failure"));
    sm
}

#[test]
fn ok_minimal_rule() {
    run(&one_rule(single("impl", "echo"))).unwrap();
}

#[test]
fn unknown_edge_target_flagged() {
    let mut sm = state_machine();
    sm.start = "a".into();
    let mut a = state("a", "x");
    a.on_done = EdgeTarget::State("missing".into());
    sm.states.insert("a".into(), a);
    sm.terminals.insert("__failure__".into(), terminal("__failure__", "failure"));
    let errs = run(&one_rule(sm)).unwrap_err();
    assert!(matches!(
        &errs[0],
        ValidationError::UnknownEdgeTarget { target, .. } if target == "missing"
    ));
}

#[test]
fn reserved_prefix_flagged() {
    let errs = run(&one_rule(single("__internal", "x"))).unwrap_err();
    assert!(errs.iter().any(|e| matches!(e, ValidationError::ReservedPrefixState { .. })));
}

#[test]
fn invalid_start_flagged() {
    let mut sm = single("a", "x");
    sm.start = "missing".into();
    let errs = run(&one_rule(sm)).unwrap_err();
    assert!(errs.iter().any(|e| matches!(e, ValidationError::InvalidStartReference { .. })));
}

#[test]
fn empty_terminal_outcome_flagged() {
    let mut sm = single("a", "x");
    sm.terminals.insert("__success__".into(), terminal("__success__", ""));
    let errs = run(&one_rule(sm)).unwrap_err();
    assert!(errs.iter().any(|e| matches!(e, ValidationError::EmptyTerminalOutcome { .. })));
}

#[test]
fn orphan_body_flagged_when_run_empty() {
    let errs = run(&one_rule(single("a", ""))).unwrap_err();
    assert!(errs.iter().any(|e| matches!(e, ValidationError::OrphanBody { .. })));
}

#[test]
fn unbounded_cycle_flagged() {
    let mut sm = state_machine();
    sm.start = "a".into();
    let mut a = state("a", "x");
    a.on_done = EdgeTarget::State("a".into());
    sm.states.insert("a".into(), a);
    sm.terminals.insert("__failure__".into(), terminal("__failure__", "failure"));
    let errs = run(&one_rule(sm)).unwrap_err();
    assert!(errs.iter().any(|e| matches!(e, ValidationError::UnboundedCycle { .. })));
}

#[test]
fn bounded_self_loop_passes() {
    let mut sm = state_machine();
    sm.start = "a".into();
    let mut a = state("a", "x");
    a.on_done = EdgeTarget::State("a".into());
    a.max_visits = 5;
    sm.states.insert("a".into(), a);
    sm.terminals.insert("__failure__".into(), terminal("__failure__", "failure"));
    run(&one_rule(sm)).unwrap();
}

#[test]
fn state_id_not_env_safe_flagged() {
    let errs = run(&one_rule(single("9_starts_with_digit", "x"))).unwrap_err();
    assert!(errs.iter().any(|e| matches!(e, ValidationError::StateIdNotEnvSafe { .. })));
}

#[test]
fn state_id_dashes_flagged() {
    let errs = run(&one_rule(single("with-dash", "x"))).unwrap_err();
    assert!(errs.iter().any(|e| matches!(e, ValidationError::StateIdNotEnvSafe { .. })));
}

#[test]
fn multi_error_accumulates() {
    let mut sm = state_machine();
    sm.start = "missing".into();
    let mut a = state("__bad", "");
    a.on_done = EdgeTarget::State("nowhere".into());
    sm.states.insert("__bad".into(), a);
    sm.terminals.insert("empty".into(), terminal("empty", ""));
    let errs = run(&one_rule(sm)).unwrap_err();
    assert!(errs.len() >= 4, "got {errs:?}");
}

#[test]
fn cleanup_immediate_delete_passes() {
    let mut sm = state_machine();
    sm.start = "__success__".into();
    sm.terminals.insert("__success__".into(), terminal("__success__", "cleaned"));
    let file = WorkflowFile {
        admission: None,
        rules: vec![],
        cleanup: vec![RuleEntry { when: None, state_machine: sm }],
        on_failure: vec![],
    };
    run(&file).unwrap();
}

#[test]
fn errors_come_in_order_of_their_sections() {
    let file = WorkflowFile {
        admission: None,
        rules: vec![
            RuleEntry { when: None, state_machine: single("ok", "x") },
            RuleEntry { when: None, state_machine: single("b", "") },
        ],
        cleanup: vec![RuleEntry { when: None, state_machine: single("c", "") }],
        on_failure: vec![RuleEntry { when: None, state_machine: single("d", "") }],
    };
    let errs = run(&file).unwrap_err();
    let rules: Vec<usize> = errs.iter().map(|e| e.rule_idx()).collect();
    assert_eq!(rules, vec![1, 2, 3]);
    let ids: Vec<Vec<String>> = errs.iter().map(|e| e.ids()).collect();
    assert_eq!(ids, vec![vec!["b".to_owned()], vec!["c".to_owned()], vec!["d".to_owned()]]);
}

#[test]
fn cycle_is_named_by_its_states_in_order() {
    let mut sm = single("b", "x");
    let mut b = state("b", "x");
    b.on_done = EdgeTarget::State("a".into());
    let mut a = state("a", "x");
    a.on_done = EdgeTarget::State("b".into());
    sm.states.insert("a".into(), a);
    sm.states.insert("b".into(), b);
    assert_eq!(
        run(&one_rule(sm)),
        Err(vec![ValidationError::UnboundedCycle {
            rule_idx: 0,
            state_ids: vec!["a".to_owned(), "b".to_owned()],
        }]),
    );
}

#[test]
fn env_safe_ids() {
    assert!(is_env_safe_id("a_B9"));
    assert!(!is_env_safe_id("_x"));
    assert!(!is_env_safe_id(""));
    assert!(!is_env_safe_id("9a"));
    assert!(!is_env_safe_id("a-b"));
    assert!(!is_env_safe_id("é"));
}

use roki_daemon::strmap::StrMap;
use roki_daemon::workflow::canonical::{
    EdgeTarget, State, StateBody, StateMachine, Terminal, Timeout,
};
use roki_daemon::workflow::components::{leads_to_state, state_points_to, strong_components};

fn state_machine() -> StateMachine {
    StateMachine { start: "start".into(), states: StrMap::new(), terminals: StrMap::new() }
}

fn state(id: &str, cmd: &str) -> State {
    State {
        id: id.to_string(),
        body: StateBody::Run { cmd: cmd.to_string() },
        if_cond: None,
        on_done: EdgeTarget::Terminal("__success__".to_string()),
        on_fail: EdgeTarget::Terminal("__failure__".to_string()),
        directives: StrMap::new(),
        max_visits: 1,
        timeout: None,
    }
}

fn terminal(id: &str, outcome: &str) -> Terminal {
    Terminal { id: id.to_string(), outcome: outcome.to_string() }
}

#[test]
fn state_machine_helper_starts_empty() {
    let sm = state_machine();
    assert_eq!(sm.start, "start");
    assert!(sm.states.is_empty());
    assert!(sm.terminals.is_empty());
}

#[test]
fn state_helper_defaults_to_implicit_terminals() {
    let s = state("impl", "true");
    assert_eq!(s.id, "impl");
    match &s.body {
        StateBody::Run { cmd } => assert_eq!(cmd, "true"),
        StateBody::Uses { .. } => panic!("expected Run body"),
    }
    assert_eq!(s.on_done, EdgeTarget::Terminal("__success__".into()));
    assert_eq!(s.on_fail, EdgeTarget::Terminal("__failure__".into()));
    assert_eq!(s.max_visits, 1);
    assert!(s.directives.is_empty());
}

#[test]
fn terminal_helper_round_trips_outcome() {
    let t = terminal("__success__", "success");
    assert_eq!(t.id, "__success__");
    assert_eq!(t.outcome, "success");
}

#[test]
fn states_iteration_is_deterministic() {
    let mut sm = state_machine();
    sm.states.insert("c".into(), state("c", "x"));
    sm.states.insert("a".into(), state("a", "x"));
    sm.states.insert("b".into(), state("b", "x"));
    let ids: Vec<String> = sm.states.keys();
    assert_eq!(ids, vec!["a".to_string(), "b".into(), "c".into()]);
}

#[test]
fn edge_target_equality() {
    assert_eq!(EdgeTarget::State("foo".into()), EdgeTarget::State("foo".into()));
    assert_ne!(EdgeTarget::State("foo".into()), EdgeTarget::Terminal("foo".into()));
}

fn chain(edges: &[(&str, &str)]) -> StateMachine {
    let mut sm = state_machine();
    for (from, to) in edges {
        let mut s = state(from, "x");
        s.on_done = EdgeTarget::State(to.to_string());
        sm.states.insert(from.to_string(), s);
    }
    sm
}

#[test]
fn components_are_the_cycles() {
    let sm = chain(&[("a", "b"), ("b", "a"), ("c", "a"), ("d", "d")]);
    let mut comps: Vec<Vec<String>> = strong_components(&sm);
    for c in comps.iter_mut() {
        c.sort();
    }
    comps.sort();
    assert_eq!(
        comps,
        vec![
            vec!["a".to_string(), "b".to_string()],
            vec!["c".to_string()],
            vec!["d".to_string()],
        ],
    );
}

#[test]
fn long_cycle_is_one_component() {
    let sm = chain(&[("a", "b"), ("b", "c"), ("c", "d"), ("d", "a"), ("e", "b"), ("f", "x")]);
    let sizes: Vec<usize> = strong_components(&sm).iter().map(|c| c.len()).collect();
    assert_eq!(sizes.iter().sum::<usize>(), 6);
    assert!(sizes.contains(&4));
}

#[test]
fn directives_are_edges() {
    let mut s = state("a", "x");
    assert!(!state_points_to(&s, "b"));
    s.directives.insert("retry".into(), EdgeTarget::State("b".into()));
    assert!(state_points_to(&s, "b"));
    assert!(!state_points_to(&s, "__success__"));
    assert!(leads_to_state(&EdgeTarget::State("b".into()), "b"));
    assert!(!leads_to_state(&EdgeTarget::Terminal("b".into()), "b"));
}

#[test]
fn timeouts_count_milliseconds() {
    assert_eq!(Timeout::from_secs(3), Timeout::from_millis(3000));
    assert_eq!(Timeout::from_secs(u64::MAX).millis, u128::from(u64::MAX) * 1000);
}

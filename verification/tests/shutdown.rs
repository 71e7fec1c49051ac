use roki_daemon::runtime::{
    advance, after_drain, asks_for_viewer, ring_capacity, tick_trigger, window_left, DrainOutcome, DrainTally,
    Facts, Stage, TickReason,
};
use roki_daemon::shutdown::{WindDown, SHUTDOWN_WINDOW_SECONDS};
use roki_daemon::store_handle::{routed_ticket, unix_millis};
use roki_daemon::workflow::watcher::{apply_reload, DEFAULT_DEBOUNCE_WINDOW_MILLIS};

fn names(list: &[&str]) -> Vec<String> {
    list.iter().map(|s| s.to_string()).collect()
}

#[test]
fn await_workers_completes_when_all_finish_in_window() {
    let mut w = WindDown::new(names(&["a", "b", "c"]));
    while !w.is_over() {
        w.ended(0);
    }
    w.expire();
    assert_eq!(w.outcome.timed_out, Vec::<String>::new());
    let mut completed = w.outcome.completed.clone();
    completed.sort();
    assert_eq!(completed, vec!["a", "b", "c"]);
}

#[test]
fn await_workers_force_drops_workers_after_window() {
    let mut w = WindDown::new(names(&["slow"]));
    w.expire();
    assert_eq!(w.outcome.completed, Vec::<String>::new());
    assert_eq!(w.outcome.timed_out, vec!["slow".to_string()]);
}

#[test]
fn mixed_workers_are_partitioned_correctly() {
    let mut w = WindDown::new(names(&["fast1", "slow", "fast2"]));
    let second = w.pending.iter().position(|n| n == "fast2").unwrap();
    w.ended(second);
    let first = w.pending.iter().position(|n| n == "fast1").unwrap();
    w.ended(first);
    assert!(!w.is_over());
    w.expire();
    let mut completed = w.outcome.completed.clone();
    completed.sort();
    assert_eq!(completed, vec!["fast1", "fast2"]);
    assert_eq!(w.outcome.timed_out, vec!["slow".to_string()]);
    assert_eq!(SHUTDOWN_WINDOW_SECONDS, 30);
}

#[test]
fn invalid_reload_retains_previous_policy_then_valid_reload_swaps() {
    let (kept, err) = apply_reload("old", Err::<&str, &str>("broken"));
    assert_eq!(kept, "old");
    assert_eq!(err, Some("broken"));
    let (swapped, err) = apply_reload(kept, Ok::<&str, &str>("new"));
    assert_eq!(swapped, "new");
    assert_eq!(err, None);
    assert_eq!(DEFAULT_DEBOUNCE_WINDOW_MILLIS, 200);
}

#[test]
fn start_up_and_good_end() {
    let facts = Facts { assignee_is_me: true, api_port_set: true, some_aborted: false };
    let mut stage = Stage::LoadConfig;
    let mut seen = vec![stage];
    while !matches!(stage, Stage::Exited(_)) {
        stage = advance(stage, facts, true);
        seen.push(stage);
        assert!(seen.len() < 30);
    }
    assert_eq!(stage, Stage::Exited(true));
    let at = |s: Stage| seen.iter().position(|x| *x == s);
    assert!(at(Stage::ResolveViewer).is_some());
    assert!(at(Stage::ServeApi).is_some());
    assert!(at(Stage::AnnounceApiDisabled).is_none());
    assert!(at(Stage::ColdStart) < at(Stage::OpenDoor));
    assert!(at(Stage::OpenDoor) < at(Stage::AnnounceReady));
    assert!(at(Stage::AnnounceDrained).is_some());
}

#[test]
fn aborted_tickets_end_badly() {
    let facts = Facts { assignee_is_me: false, api_port_set: false, some_aborted: true };
    let mut stage = Stage::LoadConfig;
    let mut seen = vec![stage];
    while !matches!(stage, Stage::Exited(_)) {
        stage = advance(stage, facts, true);
        seen.push(stage);
        assert!(seen.len() < 30);
    }
    assert_eq!(stage, Stage::Exited(false));
    assert!(!seen.contains(&Stage::ResolveViewer));
    assert!(seen.contains(&Stage::AnnounceApiDisabled));
    assert!(seen.contains(&Stage::AnnounceWindowExceeded));
}

#[test]
fn missing_config_ends_at_once() {
    let facts = Facts { assignee_is_me: true, api_port_set: true, some_aborted: false };
    assert_eq!(advance(Stage::LoadConfig, facts, false), Stage::Exited(false));
}

#[test]
fn viewer_is_asked_for_me_alone() {
    assert!(asks_for_viewer("me"));
    assert!(!asks_for_viewer("alice@example.com"));
}

#[test]
fn ring_capacity_has_a_default() {
    assert_eq!(ring_capacity(Some(7)), 7);
    assert_eq!(ring_capacity(Some(0)), 0);
    assert_eq!(ring_capacity(None), 1_000);
}

#[test]
fn tick_names() {
    assert_eq!(tick_trigger(TickReason::Nudge), "nudge");
    assert_eq!(tick_trigger(TickReason::Outage), "outage");
}

#[test]
fn drain_counts_what_ended_and_names_what_did_not() {
    let mut tally = DrainTally::new();
    tally.record("ENG-1".to_owned(), DrainOutcome::Clean);
    tally.record("ENG-2".to_owned(), DrainOutcome::TimedOut);
    tally.record("ENG-3".to_owned(), DrainOutcome::Panicked);
    assert_eq!(tally.drained + tally.aborted(), 3);
    let before = Facts { assignee_is_me: true, api_port_set: false, some_aborted: false };
    let facts = after_drain(before, &tally);
    assert_eq!(facts, Facts { some_aborted: true, ..before });
    assert_eq!(advance(Stage::AnnounceDrained, facts, true), Stage::AnnounceWindowExceeded);
    assert_eq!(after_drain(facts, &DrainTally::new()), before);
    assert!(tally.aborted_ticket_ids.contains(&"ENG-2".to_owned()));
    assert!(!tally.aborted_ticket_ids.contains(&"ENG-1".to_owned()));
}

#[test]
fn window_runs_out() {
    assert_eq!(window_left(30, 10), 20);
    assert_eq!(window_left(30, 31), 0);
}

#[test]
fn store_rows_are_named() {
    assert_eq!(routed_ticket(Some("ENG-1"), "w"), "ENG-1");
    assert_eq!(routed_ticket(None, "w"), "w");
}

#[test]
fn clock_in_milliseconds() {
    assert_eq!(unix_millis(Some(1_767_225_600_000)), 1_767_225_600_000);
    assert_eq!(unix_millis(None), 0);
}

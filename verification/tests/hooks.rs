use roki_daemon::orchestrator::hooks::SubscriberHooks;

/// A subscriber by name, and what it has seen.
struct Recorder {
    tag: &'static str,
    seen: Vec<&'static str>,
}

fn dispatch(
    hooks: &SubscriberHooks<&'static str>,
    live: &Vec<bool>,
    recorders: &mut Vec<Recorder>,
    event: &'static str,
) {
    for target in hooks.targets(live) {
        for r in recorders.iter_mut() {
            if r.tag == *target {
                r.seen.push(event);
            }
        }
    }
}

#[test]
fn two_subscribers_observe_in_order() {
    let mut hooks = SubscriberHooks::new();
    let mut recorders =
        vec![Recorder { tag: "s1", seen: vec![] }, Recorder { tag: "s2", seen: vec![] }];
    hooks.subscribe("s1");
    hooks.subscribe("s2");
    let live = vec![true, true];
    assert_eq!(hooks.targets(&live), vec![&"s1", &"s2"]);

    dispatch(&hooks, &live, &mut recorders, "a");
    dispatch(&hooks, &live, &mut recorders, "b");

    assert_eq!(recorders[0].seen, vec!["a", "b"]);
    assert_eq!(recorders[1].seen, vec!["a", "b"]);
}

#[test]
fn dropping_handle_unsubscribes() {
    let mut hooks = SubscriberHooks::new();
    hooks.subscribe("recorder");
    // The handle is gone, but the subscriber is kept alive elsewhere.
    assert_eq!(hooks.live_count(&vec![true]), 1);
    // Nobody keeps it any more.
    assert_eq!(hooks.live_count(&vec![false]), 0);
    assert!(hooks.targets(&vec![false]).is_empty());
    hooks.compact(&vec![false]);
    assert_eq!(hooks.live_count(&vec![]), 0);
}

#[test]
fn compaction_keeps_the_order() {
    let mut hooks = SubscriberHooks::new();
    for tag in ["a", "b", "c", "d"] {
        hooks.subscribe(tag);
    }
    let live = vec![true, false, false, true];
    assert_eq!(hooks.targets(&live), vec![&"a", &"d"]);
    hooks.compact(&live);
    assert_eq!(hooks.subs, vec!["a", "d"]);
}

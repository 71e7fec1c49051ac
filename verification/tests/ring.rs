use roki_daemon::json::Json;
use roki_daemon::observability::ring::EventRing;

fn record(r: &mut EventRing, event: &str, ticket: Option<&str>) -> u64 {
    r.record(0, event, ticket, None, Json::Null)
}

#[test]
fn record_assigns_monotonic_seq() {
    let mut r = EventRing::new(10);
    assert_eq!(record(&mut r, "a", None), 1);
    assert_eq!(record(&mut r, "b", None), 2);
    assert_eq!(record(&mut r, "c", None), 3);
}

#[test]
fn page_since_returns_only_newer() {
    let mut r = EventRing::new(10);
    for i in 0..5 {
        record(&mut r, &format!("e{i}"), None);
    }
    let p = r.page(Some(2), None, None, None, 100);
    assert_eq!(p.events.len(), 3);
    assert_eq!(p.events[0].seq, 3);
    assert!(!p.gap);
}

#[test]
fn page_gap_when_since_older_than_oldest() {
    let mut r = EventRing::new(2);
    for i in 0..5 {
        record(&mut r, &format!("e{i}"), None);
    }
    let p = r.page(Some(1), None, None, None, 100);
    assert!(p.gap, "since=1 must report gap when oldest is 4");
}

#[test]
fn kind_filter() {
    let mut r = EventRing::new(10);
    record(&mut r, "a", None);
    record(&mut r, "b", None);
    let p = r.page(None, Some("a"), None, None, 100);
    assert_eq!(p.events.len(), 1);
    assert_eq!(p.events[0].event, "a");
}

#[test]
fn capacity_zero_no_op() {
    let mut r = EventRing::new(0);
    record(&mut r, "a", None);
    let p = r.page(None, None, None, None, 100);
    assert!(p.events.is_empty());
    assert!(!p.gap);
}

#[test]
fn ticket_filter_only_returns_matching() {
    let mut r = EventRing::new(10);
    record(&mut r, "e", Some("A"));
    record(&mut r, "e", Some("B"));
    record(&mut r, "e", Some("A"));
    let p = r.page(None, None, Some("A"), None, 100);
    assert_eq!(p.events.len(), 2);
    assert!(p.events.iter().all(|e| e.ticket_id.as_deref() == Some("A")));
}

#[test]
fn limit_truncates_and_next_since_is_last_seq() {
    let mut r = EventRing::new(10);
    for i in 0..5 {
        record(&mut r, &format!("e{i}"), None);
    }
    let p = r.page(None, None, None, None, 2);
    assert_eq!(p.events.len(), 2);
    assert_eq!(p.next_since, Some(p.events.last().unwrap().seq));
}

#[test]
fn oldest_events_make_room() {
    let mut r = EventRing::new(2);
    assert_eq!(r.oldest_seq(), None);
    assert_eq!(r.newest_seq(), None);
    for i in 0..5 {
        record(&mut r, &format!("e{i}"), None);
    }
    assert_eq!(r.oldest_seq(), Some(4));
    assert_eq!(r.newest_seq(), Some(5));
    let p = r.page(None, None, None, None, 100);
    let names: Vec<&str> = p.events.iter().map(|e| e.event.as_str()).collect();
    assert_eq!(names, vec!["e3", "e4"]);
}

#[test]
fn pages_join_without_loss() {
    let mut r = EventRing::new(10);
    for i in 0..7 {
        record(&mut r, &format!("e{i}"), None);
    }
    let mut seen: Vec<u64> = Vec::new();
    let mut since: Option<u64> = None;
    loop {
        let p = r.page(since, None, None, None, 3);
        if p.events.is_empty() {
            break;
        }
        seen.extend(p.events.iter().map(|e| e.seq));
        since = p.next_since;
    }
    assert_eq!(seen, vec![1, 2, 3, 4, 5, 6, 7]);
}

#[test]
fn cycle_filter_keeps_what_was_recorded() {
    let mut r = EventRing::new(4);
    r.record(11, "e", Some("A"), Some(7), Json::Bool(true));
    r.record(12, "e", Some("A"), Some(8), Json::Null);
    let p = r.page(None, None, None, Some(7), 10);
    assert_eq!(p.events.len(), 1);
    assert_eq!(p.events[0].ts, 11);
    assert_eq!(p.events[0].cycle_id, Some(7));
    assert_eq!(p.events[0].payload, Json::Bool(true));
}

#[test]
fn no_gap_right_behind_the_dropped_events() {
    let mut r = EventRing::new(2);
    for i in 0..5 {
        record(&mut r, &format!("e{i}"), None);
    }
    assert!(!r.page(Some(3), None, None, None, 10).gap);
    assert!(r.page(Some(2), None, None, None, 10).gap);
    assert!(!r.page(None, None, None, None, 10).gap);
}

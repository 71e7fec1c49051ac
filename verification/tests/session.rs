use roki_daemon::orchestrator::state::IssueId;
use roki_daemon::session::{sanitize_issue_id, SessionError, SessionManager};

fn manager() -> SessionManager {
    SessionManager::with_root("/tmp/roki/sessions".to_owned())
}

#[test]
fn ensure_creates_directory_under_root() {
    let mut mgr = manager();
    let path = mgr.ensure(&IssueId::from("ENG-42")).expect("ensure must succeed");
    assert_eq!(path, "/tmp/roki/sessions/ENG-42");
    assert_eq!(mgr.root(), "/tmp/roki/sessions");
}

#[test]
fn ensure_is_idempotent_for_same_issue() {
    let mut mgr = manager();
    let issue = IssueId::from("ENG-42");
    let first = mgr.ensure(&issue).unwrap();
    let second = mgr.ensure(&issue).unwrap();
    assert_eq!(first, second);
}

#[test]
fn remove_cleans_up_directory_and_clears_reservation() {
    let mut mgr = manager();
    let issue = IssueId::from("ROKI-1");
    let path = mgr.ensure(&issue).unwrap();
    mgr.release(&issue).unwrap();
    assert!(!mgr.reservations.contains_key("ROKI-1"));
    let again = mgr.ensure(&issue).unwrap();
    assert_eq!(again, path);
}

#[test]
fn remove_missing_directory_is_not_an_error() {
    let mut mgr = manager();
    mgr.release(&IssueId::from("ENG-999")).unwrap();
}

#[test]
fn traversal_attempts_are_rejected() {
    for hostile in [
        "../foo",
        "..",
        "a/../b",
        "/abs/path",
        "\\abs\\path",
        "ENG/42",
        "",
        "ENG 42",
        "ENG;42",
        "ENG\0NUL",
    ] {
        let err = sanitize_issue_id(hostile).unwrap_err();
        assert!(
            matches!(err, SessionError::InvalidIssueId { .. }),
            "expected InvalidIssueId for `{hostile}`, got {err:?}",
        );
    }
}

#[test]
fn canonical_linear_ids_accepted() {
    for id in ["ENG-42", "ROKI-1", "ABC-9999"] {
        let sanitized = sanitize_issue_id(id).unwrap();
        assert_eq!(sanitized, id);
    }
}

#[test]
fn ensure_rejects_traversal_via_issue_id() {
    let mut mgr = manager();
    let err = mgr.ensure(&IssueId::from("../escape")).unwrap_err();
    assert!(matches!(err, SessionError::InvalidIssueId { .. }));
}

#[test]
fn cross_issue_collision_is_rejected_after_sanitization() {
    let mut mgr = manager();
    let _first = mgr.ensure(&IssueId::from("ENG-42")).unwrap();
    // Another spelling holds the directory.
    mgr.reservations.insert("ENG-42".to_owned(), "original-ENG-42".to_owned());
    let err = mgr.ensure(&IssueId::from("ENG-42")).unwrap_err();
    assert!(matches!(err, SessionError::Collision { .. }));
}

#[test]
fn canonical_and_extended_ids_round_trip() {
    for id in ["ENG-42", "ROKI-1", "ABC-9999", "ABC_42", "A1-B2-C3"] {
        assert_eq!(sanitize_issue_id(id).unwrap(), id);
    }
}

#[test]
fn collision_names_both_spellings() {
    let mut mgr = manager();
    mgr.reservations.insert("ENG-1".to_owned(), "first".to_owned());
    assert_eq!(
        mgr.ensure(&IssueId::from("ENG-1")),
        Err(SessionError::Collision {
            incoming: "ENG-1".to_owned(),
            existing: "first".to_owned(),
        }),
    );
}

#[test]
fn root_under_the_cache() {
    let mgr = SessionManager::under_cache(Some("/home/u/.cache".to_owned()));
    assert_eq!(mgr.root(), "/home/u/.cache/roki/sessions");
}

#[test]
fn path_is_a_child_of_the_root() {
    let mgr = SessionManager::with_root("/r/".to_owned());
    assert_eq!(mgr.path_for(&IssueId::from("A_1")), Ok("/r/A_1".to_owned()));
    assert!(mgr.path_for(&IssueId::from("..")).is_err());
}

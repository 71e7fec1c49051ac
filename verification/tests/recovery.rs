use roki_daemon::config::RepoEntry;
use roki_daemon::json::Json;
use roki_daemon::orchestrator::escalation::EscalationKind;
use roki_daemon::orchestrator::recovery::{
    discover, is_issue_name, orphan_directive_fields, DiscoveredIssue, DiscoveredWorktree,
    RecoveryDecision, RecoveryError, RecoveryReconciler, RepoListing, ORPHAN_KIND,
};
use roki_daemon::orchestrator::state::{IssueId, Mode};
use roki_daemon::strmap::StrSet;
use roki_daemon::tools::wt::WorktreePorcelainEntry;
use roki_daemon::tracker::linear::{read_issue, LinearError};
use roki_daemon::tracker::model::{
    LinearUserId, NormalizedIssue, RepoId, LABEL_ROKI_IMPL, LABEL_ROKI_READY,
};
use roki_daemon::tracker::pre_admission::PreAdmissionJudge;

fn allowlist(ids: &[&str]) -> Vec<RepoEntry> {
    ids.iter().map(|id| RepoEntry { ghq: (*id).to_owned() }).collect()
}

fn judge_for(user: &str) -> PreAdmissionJudge {
    PreAdmissionJudge::new(
        LinearUserId::from(user),
        StrSet::from_names(&vec!["Todo".to_owned()]),
    )
}

fn text(s: &str) -> Json {
    Json::Text(s.to_owned())
}

fn object(fields: Vec<(&str, Json)>) -> Json {
    Json::Object(fields.into_iter().map(|(k, v)| (k.to_owned(), v)).collect())
}

fn issue_node(id: &str, state: &str, labels: &[&str], assignee: Option<&str>) -> Json {
    let label_nodes: Vec<Json> =
        labels.iter().map(|name| object(vec![("name", text(name))])).collect();
    let assignee = match assignee {
        Some(id) => object(vec![("id", text(id))]),
        None => Json::Null,
    };
    object(vec![
        ("identifier", text(id)),
        ("title", text("title")),
        ("description", text("body")),
        ("state", object(vec![("name", text(state))])),
        ("labels", object(vec![("nodes", Json::Array(label_nodes))])),
        ("assignee", assignee),
    ])
}

/// What the tracker answers where it holds the node.
fn lookup(node: Json) -> Result<NormalizedIssue, LinearError> {
    read_issue(&object(vec![("data", object(vec![("issue", node)]))]))
}

fn make_reconciler() -> RecoveryReconciler {
    RecoveryReconciler::new(
        "/tmp/roki/sessions".to_owned(),
        allowlist(&["github.com/owner/repo"]),
    )
    .unwrap()
}

fn listing(entries: &[(&str, Option<&str>)]) -> Vec<RepoListing> {
    vec![RepoListing {
        repo: RepoId::from("github.com/owner/repo"),
        entries: entries
            .iter()
            .map(|(path, branch)| WorktreePorcelainEntry {
                path: path.to_string(),
                branch: branch.map(|b| b.to_owned()),
            })
            .collect(),
    }]
}

fn worktree(issue: &str) -> DiscoveredWorktree {
    DiscoveredWorktree {
        repo_id: RepoId::from("github.com/owner/repo"),
        path: format!("/tmp/repo.{issue}"),
        branch: issue.to_owned(),
    }
}

#[test]
fn scan_finds_session_only_issue() {
    let found = make_reconciler().scan(&vec!["ENG-1".to_owned()], &vec![]);
    assert_eq!(found.len(), 1);
    let only = &found[0];
    assert_eq!(only.issue, IssueId::from("ENG-1"));
    assert!(only.session_present);
    assert!(only.worktrees.is_empty());
}

#[test]
fn scan_finds_worktree_only_issue() {
    let found =
        make_reconciler().scan(&vec![], &listing(&[("/tmp/repo.ENG-2", Some("ENG-2"))]));
    assert_eq!(found.len(), 1);
    let only = &found[0];
    assert_eq!(only.issue, IssueId::from("ENG-2"));
    assert!(!only.session_present);
    assert_eq!(only.worktrees.len(), 1);
    assert_eq!(only.worktrees[0].branch, "ENG-2");
    assert_eq!(only.worktrees[0].path, "/tmp/repo.ENG-2");
}

#[test]
fn scan_finds_both_session_and_worktree_for_same_issue() {
    let found = make_reconciler().scan(
        &vec!["ENG-3".to_owned()],
        &listing(&[("/tmp/repo.ENG-3", Some("ENG-3"))]),
    );
    assert_eq!(found.len(), 1);
    let only = &found[0];
    assert!(only.session_present);
    assert_eq!(only.worktrees.len(), 1);
}

#[test]
fn scan_returns_empty_when_neither_present() {
    let found = make_reconciler().scan(&vec![], &listing(&[]));
    assert!(found.is_empty());
}

#[test]
fn scan_filters_branches_outside_issue_id_regex() {
    let found = make_reconciler().scan(&vec![], &listing(&[("/tmp/repo", Some("main"))]));
    assert!(found.is_empty(), "non-issue branch must be ignored");
}

#[test]
fn scan_tolerates_repo_not_locally_cloned() {
    let reconciler = RecoveryReconciler::new(
        "/tmp/roki/sessions".to_owned(),
        allowlist(&["github.com/owner/never-cloned"]),
    )
    .unwrap();
    let found = reconciler.scan(&vec![], &vec![]);
    assert!(found.is_empty());
}

#[test]
fn scan_combines_session_and_worktree_into_distinct_issues() {
    let found = make_reconciler().scan(
        &vec!["ENG-1".to_owned()],
        &listing(&[
            ("/tmp/repo.ENG-2", Some("ENG-2")),
            ("/tmp/repo.ENG-3", Some("ENG-3")),
        ]),
    );
    let ids: Vec<&str> = found.iter().map(|d| d.issue.0.as_str()).collect();
    assert_eq!(ids, vec!["ENG-1", "ENG-2", "ENG-3"]);
}

#[test]
fn decide_resume_active_admits_with_recomputed_mode() {
    let discovered = DiscoveredIssue {
        issue: IssueId::from("ENG-1"),
        session_present: true,
        worktrees: vec![worktree("ENG-1")],
    };
    let node = issue_node("ENG-1", "Todo", &[LABEL_ROKI_READY, LABEL_ROKI_IMPL], Some("u1"));
    let decision =
        make_reconciler().decide(discovered, lookup(node), &judge_for("u1")).unwrap();
    match decision {
        RecoveryDecision::ResumeActive { issue, mode } => {
            assert_eq!(issue, IssueId::from("ENG-1"));
            assert_eq!(mode, Mode::SpecDriven);
        }
        other => panic!("expected ResumeActive, got {other:?}"),
    }
}

#[test]
fn decide_resume_active_recomputes_mode_when_label_flipped_off() {
    let discovered = DiscoveredIssue {
        issue: IssueId::from("ENG-7"),
        session_present: true,
        worktrees: vec![worktree("ENG-7")],
    };
    let node = issue_node("ENG-7", "Todo", &[LABEL_ROKI_READY], Some("u1"));
    let decision =
        make_reconciler().decide(discovered, lookup(node), &judge_for("u1")).unwrap();
    match decision {
        RecoveryDecision::ResumeActive { mode, .. } => {
            assert_eq!(mode, Mode::NeedsClassify);
        }
        other => panic!("expected ResumeActive, got {other:?}"),
    }
}

#[test]
fn decide_orphaned_session_when_session_only_and_admission_fails() {
    let discovered = DiscoveredIssue {
        issue: IssueId::from("ENG-2"),
        session_present: true,
        worktrees: vec![],
    };
    let node = issue_node("ENG-2", "Done", &[LABEL_ROKI_READY], Some("u1"));
    let decision =
        make_reconciler().decide(discovered, lookup(node), &judge_for("u1")).unwrap();
    assert!(matches!(decision, RecoveryDecision::OrphanedSession { .. }));
}

#[test]
fn decide_orphaned_worktree_when_worktree_only_and_admission_fails() {
    let discovered = DiscoveredIssue {
        issue: IssueId::from("ENG-3"),
        session_present: false,
        worktrees: vec![worktree("ENG-3")],
    };
    let node = issue_node("ENG-3", "Done", &[], Some("u1"));
    let decision =
        make_reconciler().decide(discovered, lookup(node), &judge_for("u1")).unwrap();
    assert!(matches!(decision, RecoveryDecision::OrphanedWorktree { .. }));
}

#[test]
fn decide_fresh_queued_when_admission_passes_with_nothing_on_disk() {
    let discovered = DiscoveredIssue::empty(IssueId::from("ENG-4"));
    let node = issue_node("ENG-4", "Todo", &[LABEL_ROKI_READY, LABEL_ROKI_IMPL], Some("u1"));
    let decision =
        make_reconciler().decide(discovered, lookup(node), &judge_for("u1")).unwrap();
    match decision {
        RecoveryDecision::FreshQueued { issue, mode } => {
            assert_eq!(issue, IssueId::from("ENG-4"));
            assert_eq!(mode, Mode::SpecDriven);
        }
        other => panic!("expected FreshQueued, got {other:?}"),
    }
}

#[test]
fn decide_noop_when_terminal_and_nothing_on_disk() {
    let discovered = DiscoveredIssue::empty(IssueId::from("ENG-5"));
    let node = issue_node("ENG-5", "Done", &[], Some("u1"));
    let decision =
        make_reconciler().decide(discovered, lookup(node), &judge_for("u1")).unwrap();
    assert!(matches!(decision, RecoveryDecision::NoOp { .. }));
}

#[test]
fn decide_treats_missing_linear_record_as_skip() {
    let reconciler = make_reconciler();
    let discovered_with_session = DiscoveredIssue {
        issue: IssueId::from("ENG-6"),
        session_present: true,
        worktrees: vec![],
    };
    let decision = reconciler
        .decide(discovered_with_session, lookup(Json::Null), &judge_for("u1"))
        .unwrap();
    assert!(matches!(decision, RecoveryDecision::OrphanedSession { .. }));

    let discovered_empty = DiscoveredIssue::empty(IssueId::from("ENG-7"));
    let decision =
        reconciler.decide(discovered_empty, lookup(Json::Null), &judge_for("u1")).unwrap();
    assert!(matches!(decision, RecoveryDecision::NoOp { .. }));
}

#[test]
fn orphan_directive_fields_carry_session_and_worktree_evidence() {
    let discovered = DiscoveredIssue {
        issue: IssueId::from("ENG-9"),
        session_present: true,
        worktrees: vec![DiscoveredWorktree {
            repo_id: RepoId::from("github.com/owner/repo"),
            path: "/tmp/repo.ENG-9".to_owned(),
            branch: "ENG-9".to_owned(),
        }],
    };
    let fields = orphan_directive_fields(&discovered);
    assert_eq!(fields.get("session_present"), Some(&Json::Bool(true)));
    assert_eq!(
        fields.get("worktree_paths"),
        Some(&Json::Array(vec![text("/tmp/repo.ENG-9")])),
    );
    assert_eq!(fields.get("repos"), Some(&Json::Array(vec![text("github.com/owner/repo")])));
    assert_eq!(ORPHAN_KIND, EscalationKind::Orphan);
}

#[test]
fn network_trouble_is_passed_on() {
    let discovered = DiscoveredIssue::empty(IssueId::from("ENG-5"));
    let failed = Err(LinearError::Network("down".to_owned()));
    match make_reconciler().decide(discovered, failed, &judge_for("u1")) {
        Err(RecoveryError::Linear(e)) => assert_eq!(e, LinearError::Network("down".to_owned())),
        other => panic!("expected Linear, got {other:?}"),
    }
}

#[test]
fn pattern_decides_what_an_issue_id_is() {
    let r = make_reconciler();
    assert!(r.accepts("ENG-42"));
    assert!(!r.accepts("eng-42"));
    assert!(!r.accepts("ENG-"));
    assert!(!r.accepts("xENG-42"));
    assert_eq!(r.session_root(), "/tmp/roki/sessions");
    assert_eq!(r.repos().len(), 1);
    let loose = RecoveryReconciler::with_pattern("/s".to_owned(), vec![], "^[a-z]+$").unwrap();
    assert!(loose.accepts("main"));
    assert!(!loose.accepts("ENG-1"));
}

#[test]
fn broken_pattern_is_refused() {
    match RecoveryReconciler::with_pattern("/s".to_owned(), vec![], "([") {
        Err(RecoveryError::InvalidRegex(m)) => assert!(m.contains("unclosed"), "{m}"),
        other => panic!("expected InvalidRegex, got {other:?}"),
    }
}

#[test]
fn scan_lists_each_issue_once_with_all_its_worktrees() {
    let found = make_reconciler().scan(
        &vec!["ENG-2".to_owned(), "scratch".to_owned(), "ENG-2".to_owned()],
        &listing(&[
            ("/tmp/a.ENG-2", Some("ENG-2")),
            ("/tmp/detached", None),
            ("/tmp/b.ENG-2", Some("ENG-2")),
        ]),
    );
    assert_eq!(found.len(), 1);
    assert!(found[0].session_present);
    let paths: Vec<&str> = found[0].worktrees.iter().map(|w| w.path.as_str()).collect();
    assert_eq!(paths, vec!["/tmp/a.ENG-2", "/tmp/b.ENG-2"]);
}

#[test]
fn a_name_must_be_taken_and_fit_a_directory() {
    assert!(is_issue_name(true, "ENG-1"));
    assert!(!is_issue_name(false, "ENG-1"));
    assert!(!is_issue_name(true, "../x"));
    assert!(!is_issue_name(true, ""));
}

#[test]
fn discover_lists_the_given_names_in_order() {
    let names = StrSet::from_names(&vec!["ENG-9".to_owned(), "ENG-10".to_owned()]);
    let found = discover(
        &names,
        &vec!["ENG-9".to_owned(), "ENG-3".to_owned()],
        &listing(&[("/tmp/a.ENG-10", Some("ENG-10")), ("/tmp/a.ENG-3", Some("ENG-3"))]),
    );
    let issues: Vec<&str> = found.iter().map(|d| d.issue.0.as_str()).collect();
    assert_eq!(issues, vec!["ENG-10", "ENG-9"]);
    assert!(!found[0].session_present);
    assert_eq!(found[0].worktrees.len(), 1);
    assert!(found[1].session_present);
    assert!(found[1].worktrees.is_empty());
}

#[test]
fn counted_patterns_are_taken() {
    let r =
        RecoveryReconciler::with_pattern("/s".to_owned(), vec![], r"^[A-Z]{2,5}-\d{1,3}$").unwrap();
    assert!(r.accepts("ENG-42"));
    assert!(!r.accepts("E-42"));
    assert!(!r.accepts("ENG-4242"));
    match RecoveryReconciler::with_pattern("/s".to_owned(), vec![], "^[A-Z]{5,2}$") {
        Err(RecoveryError::InvalidRegex(m)) => assert!(m.contains("repetition"), "{m}"),
        other => panic!("expected InvalidRegex, got {other:?}"),
    }
}

#[test]
fn a_large_pattern_may_be_refused() {
    match RecoveryReconciler::with_pattern("/s".to_owned(), vec![], r"\w{1000}{1000}") {
        Err(RecoveryError::InvalidRegex(_)) => {}
        other => panic!("expected InvalidRegex, got {other:?}"),
    }
}

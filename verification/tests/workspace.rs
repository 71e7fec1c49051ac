use roki_daemon::config::RepoEntry;
use roki_daemon::orchestrator::actor::WorktreeOpError;
use roki_daemon::orchestrator::state::IssueId;
use roki_daemon::session::SessionError;
use roki_daemon::strmap::StrMap;
use roki_daemon::tools::ghq::GhqError;
use roki_daemon::tools::wt::{worktree_path_for, WorktreePorcelainEntry, WtError};
use roki_daemon::tracker::model::RepoId;
use roki_daemon::workspace::{
    message_indicates_absent, EnsureEvent, EnsureStep, RemoveEvent, RemoveStep, WorkspaceError,
    WorkspaceManager,
};
use roki_daemon::worktree_manager::{
    EnsureEvent as ListedEvent, EnsureStep as ListedStep,
    map_worktree_error, Cleanup, CleanupEvent, CleanupStep, WorktreeError, WorktreeManager,
};
use roki_daemon::worktrees::{BranchName, RegisteredWorktree, WorktreeRegistry};

// ---------------------------------------------------------------------------
// Workspaces
// ---------------------------------------------------------------------------

fn build_manager(index: &[(&str, &str)]) -> WorkspaceManager {
    let mut repo_index = StrMap::new();
    for (repo, identifier) in index {
        repo_index.insert(repo.to_string(), identifier.to_string());
    }
    WorkspaceManager::new(repo_index)
}

/// Ensures a worktree with a checkout at `/tmp/x/scratch`, noting each call of
/// the outside tools.
fn ensure(
    m: &mut WorkspaceManager,
    repo: &str,
    issue: &str,
    calls: &mut Vec<String>,
) -> Result<String, WorkspaceError> {
    let (repo, issue) = (RepoId::new(repo), IssueId::new(issue));
    let mut event = EnsureEvent::Begin;
    loop {
        event = match m.ensure(&repo, &issue, event) {
            EnsureStep::FindRepo(identifier) => {
                calls.push(format!("ghq {identifier}"));
                EnsureEvent::Cloned(Ok("/tmp/x/scratch".to_owned()))
            }
            EnsureStep::Create(place) => {
                calls.push(format!("wt {} {}", place.repo_path, issue.as_str()));
                let outcome = worktree_path_for(&place.repo_path, issue.as_str());
                EnsureEvent::Made { target: place.target, outcome }
            }
            EnsureStep::Done(path) => return Ok(path),
            EnsureStep::Failed(err) => return Err(err),
        };
    }
}

/// Removes a worktree whose checkout is listed as `checkout`, noting each call
/// of the outside tools.
fn remove(
    m: &mut WorkspaceManager,
    repo: &str,
    issue: &str,
    checkout: Option<&str>,
    calls: &mut Vec<String>,
) -> Result<(), WorkspaceError> {
    let (repo, issue) = (RepoId::new(repo), IssueId::new(issue));
    let mut event = RemoveEvent::Begin;
    loop {
        event = match m.remove(&repo, &issue, event) {
            RemoveStep::FindRepo(identifier) => {
                calls.push(format!("ghq {identifier}"));
                RemoveEvent::Listed(Ok(checkout.map(str::to_owned)))
            }
            RemoveStep::Remove(path) => {
                calls.push(format!("wt {path}"));
                RemoveEvent::Removed { path, outcome: Ok(()) }
            }
            RemoveStep::Done => return Ok(()),
            RemoveStep::Failed(err) => return Err(err),
        };
    }
}

#[test]
fn ensure_resolves_repo_via_ghq_then_creates_worktree_via_wt() {
    let mut manager = build_manager(&[("scratch", "owner/scratch")]);
    let mut calls = Vec::new();
    let path = ensure(&mut manager, "scratch", "ENG-1", &mut calls)
        .expect("ensure must succeed against the mock tools");
    assert_eq!(
        calls,
        vec!["ghq owner/scratch".to_string(), "wt /tmp/x/scratch ENG-1".to_string()],
    );
    assert_eq!(path, "/tmp/x/scratch.ENG-1");
}

#[test]
fn ensure_rejects_unknown_repo() {
    let mut manager = build_manager(&[]);
    let err = ensure(&mut manager, "scratch", "ENG-1", &mut Vec::new())
        .expect_err("unknown repo must be rejected");
    assert!(matches!(err, WorkspaceError::UnknownRepo { .. }));
}

#[test]
fn collision_rejects_distinct_issue_ids_that_sanitize_identically() {
    let mut manager = build_manager(&[("scratch", "owner/scratch")]);
    let mut calls = Vec::new();
    ensure(&mut manager, "scratch", "ENG-42", &mut calls).expect("first ensure succeeds");
    let err = ensure(&mut manager, "scratch", "ENG/42", &mut calls)
        .expect_err("colliding ensure must be rejected");
    assert!(matches!(err, WorkspaceError::IdentifierCollision { .. }));
    assert_eq!(calls.iter().filter(|c| c.starts_with("wt ")).count(), 1);
}

#[test]
fn ensure_idempotent_for_same_raw_ids() {
    let mut manager = build_manager(&[("scratch", "owner/scratch")]);
    let mut calls = Vec::new();
    let first = ensure(&mut manager, "scratch", "ENG-1", &mut calls).unwrap();
    let second = ensure(&mut manager, "scratch", "ENG-1", &mut calls).unwrap();
    assert_eq!(first, second);
    assert_eq!(calls.iter().filter(|c| c.starts_with("wt ")).count(), 2);
}

#[test]
fn remove_calls_wt_remove_with_resolved_worktree_path() {
    let mut manager = build_manager(&[("scratch", "owner/scratch")]);
    ensure(&mut manager, "scratch", "ENG-1", &mut Vec::new()).unwrap();
    let mut calls = Vec::new();
    remove(&mut manager, "scratch", "ENG-1", Some("/tmp/x/scratch"), &mut calls)
        .expect("remove must succeed");
    assert_eq!(
        calls,
        vec!["ghq owner/scratch".to_string(), "wt /tmp/x/scratch.ENG-1".to_string()],
    );
    assert!(manager.state.is_empty());
}

#[test]
fn remove_against_absent_local_checkout_is_noop() {
    let mut manager = build_manager(&[("scratch", "owner/configured-but-not-cloned")]);
    let mut calls = Vec::new();
    remove(&mut manager, "scratch", "ENG-1", None, &mut calls)
        .expect("remove must be idempotent when the local checkout is absent");
    assert_eq!(calls, vec!["ghq owner/configured-but-not-cloned".to_string()]);
}

#[test]
fn collision_names_the_path_and_spares_the_first() {
    let mut manager = build_manager(&[("scratch", "owner/scratch")]);
    let held = ensure(&mut manager, "scratch", "ENG-42", &mut Vec::new()).unwrap();
    match ensure(&mut manager, "scratch", "ENG/42", &mut Vec::new()) {
        Err(WorkspaceError::IdentifierCollision { incoming, existing_path }) => {
            assert_eq!(incoming, "scratch/ENG/42");
            assert_eq!(existing_path, held);
        }
        other => panic!("expected a collision, got {other:?}"),
    }
    assert_eq!(ensure(&mut manager, "scratch", "ENG-42", &mut Vec::new()), Ok(held));
}

#[test]
fn steps_out_of_turn_are_refused() {
    let mut manager = build_manager(&[]);
    let (repo, issue) = (RepoId::new("scratch"), IssueId::new("ENG-1"));
    let cloned = EnsureEvent::Cloned(Ok("/tmp/x/scratch".to_owned()));
    assert_eq!(
        manager.ensure(&repo, &issue, cloned),
        EnsureStep::Failed(WorkspaceError::UnknownRepo { repo: "scratch".to_owned() }),
    );
    let listed = RemoveEvent::Listed(Ok(None));
    assert_eq!(
        manager.remove(&repo, &issue, listed),
        RemoveStep::Failed(WorkspaceError::UnknownRepo { repo: "scratch".to_owned() }),
    );
    let failed = WtError::NonZeroExit { message: "fatal: locked".to_owned() };
    let made = EnsureEvent::Made { target: "/t".to_owned(), outcome: Err(failed.clone()) };
    assert_eq!(
        manager.ensure(&repo, &issue, made),
        EnsureStep::Failed(WorkspaceError::Wt { path: "/t".to_owned(), source: failed }),
    );
}

#[test]
fn list_existing_returns_empty_until_task_5_2_lands() {
    let manager = build_manager(&[("scratch", "owner/scratch")]);
    let listed = manager.list_existing().expect("stub returns Ok");
    assert!(listed.is_empty());
}

#[test]
fn ensure_rejects_empty_issue_id_with_invalid_identifier() {
    let mut manager = build_manager(&[("scratch", "owner/scratch")]);
    let err = ensure(&mut manager, "scratch", "", &mut Vec::new())
        .expect_err("empty issue id must be rejected");
    assert!(matches!(err, WorkspaceError::InvalidIdentifier { .. }));
}

#[test]
fn absent_checkout_drops_the_note() {
    let mut manager = build_manager(&[("scratch", "owner/scratch")]);
    ensure(&mut manager, "scratch", "ENG-1", &mut Vec::new()).unwrap();
    ensure(&mut manager, "scratch", "ENG-2", &mut Vec::new()).unwrap();
    let (repo, issue) = (RepoId::new("scratch"), IssueId::new("ENG-1"));
    manager.locate(&repo, &issue, "owner/scratch".to_owned(), Ok(None)).unwrap();
    assert_eq!(manager.state.keys(), vec!["/tmp/x/scratch.ENG-2/".to_owned()]);
}

#[test]
fn worktree_that_is_gone_counts_as_removed() {
    let mut manager = build_manager(&[]);
    let gone = WtError::NonZeroExit { message: "fatal: '/x' is NOT a working tree".to_owned() };
    assert_eq!(manager.removed("/x".to_owned(), Err(gone)), Ok(()));
    let locked = WtError::NonZeroExit { message: "fatal: locked".to_owned() };
    assert!(matches!(
        manager.removed("/x".to_owned(), Err(locked)),
        Err(WorkspaceError::Wt { .. })
    ));
}

#[test]
fn absence_is_read_in_any_case() {
    assert!(message_indicates_absent("Not A Working Tree"));
    assert!(message_indicates_absent("rm: NO SUCH FILE OR DIRECTORY"));
    assert!(message_indicates_absent("path does not exist"));
    assert!(!message_indicates_absent("permission denied"));
}

#[test]
fn outside_trouble_is_passed_on() {
    let mut manager = build_manager(&[("scratch", "owner/scratch")]);
    let (repo, issue) = (RepoId::new("scratch"), IssueId::new("ENG-1"));
    let missing = GhqError::NotFound { message: "ghq".to_owned() };
    assert_eq!(
        manager.place(&repo, &issue, "owner/scratch".to_owned(), Err(missing.clone())),
        Err(WorkspaceError::Ghq { identifier: "owner/scratch".to_owned(), source: missing }),
    );
    let made = Err(WtError::Io { message: "denied".to_owned() });
    assert!(matches!(
        manager.created(&repo, &issue, "/t".to_owned(), made),
        Err(WorkspaceError::Wt { .. })
    ));
    assert!(manager.state.is_empty());
}

// ---------------------------------------------------------------------------
// Worktrees of an issue
// ---------------------------------------------------------------------------

fn allowlist(ids: &[&str]) -> Vec<RepoEntry> {
    ids.iter().map(|id| RepoEntry { ghq: (*id).to_owned() }).collect()
}

fn entry(path: &str, branch: Option<&str>) -> WorktreePorcelainEntry {
    WorktreePorcelainEntry { path: path.to_owned(), branch: branch.map(|b| b.to_owned()) }
}

/// Ensures the worktree of an issue with a checkout at `/src/repo` that has
/// these worktrees, noting each call of the outside tools.
fn ensure_listed(
    m: &WorktreeManager,
    issue: &IssueId,
    repo: &RepoId,
    entries: &[WorktreePorcelainEntry],
    calls: &mut Vec<String>,
) -> Result<String, WorktreeError> {
    let mut event = ListedEvent::Begin;
    loop {
        event = match m.ensure(issue, repo, event) {
            ListedStep::FindRepo(id) => {
                calls.push(format!("find {id}"));
                ListedEvent::Found { listed: Ok(Some("/src/repo".to_owned())), on_disk: true }
            }
            ListedStep::ListWorktrees(repo_path) => {
                calls.push(format!("list {repo_path}"));
                ListedEvent::Listed { repo_path, outcome: Ok(entries.to_vec()) }
            }
            ListedStep::Create(repo_path) => {
                calls.push(format!("create {repo_path} {}", issue.as_str()));
                ListedEvent::Made(worktree_path_for(&repo_path, issue.as_str()))
            }
            ListedStep::Done(path) => return Ok(path),
            ListedStep::Failed(err) => return Err(err),
        };
    }
}

#[test]
fn ensure_first_call_invokes_list_then_switch_create() {
    let manager = WorktreeManager::new(allowlist(&["github.com/owner/repo"]));
    let issue = IssueId::from("ENG-42");
    let repo = RepoId::from("github.com/owner/repo");
    let mut calls = Vec::new();
    let made = ensure_listed(&manager, &issue, &repo, &[], &mut calls).unwrap();
    assert!(made.contains("ENG-42"));
    assert_eq!(
        calls,
        vec![
            "find github.com/owner/repo".to_owned(),
            "list /src/repo".to_owned(),
            "create /src/repo ENG-42".to_owned(),
        ],
    );
}

#[test]
fn ensure_second_call_short_circuits() {
    let manager = WorktreeManager::new(allowlist(&["github.com/owner/repo"]));
    let issue = IssueId::from("ENG-42");
    let repo = RepoId::from("github.com/owner/repo");
    let entries =
        vec![entry("/src/repo", Some("main")), entry("/src/repo.ENG-42", Some("ENG-42"))];
    let mut calls = Vec::new();
    let path = ensure_listed(&manager, &issue, &repo, &entries, &mut calls).unwrap();
    assert_eq!(path, "/src/repo.ENG-42");
    assert_eq!(calls.iter().filter(|c| c.starts_with("create ")).count(), 0);
    assert_eq!(
        WorktreeManager::reusable(&entries, &issue),
        Some("/src/repo.ENG-42".to_owned()),
    );
}

#[test]
fn ensure_stops_at_the_first_failure() {
    let manager = WorktreeManager::new(allowlist(&["a/b"]));
    let (issue, repo) = (IssueId::from("ENG-1"), RepoId::from("a/b"));
    let wt = WtError::Io { message: "denied".to_owned() };
    let listed = ListedEvent::Listed { repo_path: "/r".to_owned(), outcome: Err(wt.clone()) };
    assert_eq!(
        manager.ensure(&issue, &repo, listed),
        ListedStep::Failed(WorktreeError::Wt(wt.clone())),
    );
    assert_eq!(
        manager.ensure(&issue, &repo, ListedEvent::Made(Err(wt.clone()))),
        ListedStep::Failed(WorktreeError::Wt(wt)),
    );
    assert_eq!(
        manager.ensure(&issue, &repo, ListedEvent::Found { listed: Ok(None), on_disk: false }),
        ListedStep::Failed(WorktreeError::FsPoison(
            "repo `a/b` is in [[repos]] but not cloned via ghq".to_owned(),
        )),
    );
    assert_eq!(
        manager.ensure(&issue, &RepoId::from("c/d"), ListedEvent::Begin),
        ListedStep::Failed(WorktreeError::AllowlistRejected("c/d".to_owned())),
    );
}

#[test]
fn cleanup_only_removes_matching_branch() {
    let entries = vec![
        entry("/src/repo.ENG-42", Some("ENG-42")),
        entry("/src/repo.ENG-99", Some("ENG-99")),
    ];
    let removed = WorktreeManager::removable(&entries, &IssueId::from("ENG-42"));
    assert_eq!(removed, vec!["/src/repo.ENG-42".to_owned()]);
}

#[test]
fn out_of_allowlist_is_rejected() {
    let manager = WorktreeManager::new(allowlist(&["github.com/owner/allowed"]));
    let err =
        manager.check(&IssueId::from("ENG-1"), &RepoId::from("github.com/foo/bar")).unwrap_err();
    assert!(
        matches!(err, WorktreeError::AllowlistRejected(ref s) if s == "github.com/foo/bar"),
        "expected AllowlistRejected, got {err:?}",
    );
}

#[test]
fn cleanup_tolerates_extra_unrelated_entries() {
    let entries = vec![
        entry("/src/repo.ENG-42", Some("ENG-42")),
        entry("/src/repo.scratch", Some("scratch")),
        entry("/src/repo.detached", None),
    ];
    let removed = WorktreeManager::removable(&entries, &IssueId::from("ENG-42"));
    assert_eq!(removed, vec!["/src/repo.ENG-42".to_owned()]);
}

#[test]
fn ensure_rejects_invalid_issue_id() {
    let manager = WorktreeManager::new(allowlist(&["github.com/owner/repo"]));
    let err = manager
        .check(&IssueId::from("../escape"), &RepoId::from("github.com/owner/repo"))
        .unwrap_err();
    assert!(matches!(err, WorktreeError::InvalidIssueId(_)));
}

#[test]
fn missing_checkout_is_poison() {
    let repo = RepoId::from("owner/repo");
    assert_eq!(
        WorktreeManager::resolve_repo_path(&repo, Ok(None), true),
        Err(WorktreeError::FsPoison(
            "repo `owner/repo` is in [[repos]] but not cloned via ghq".to_owned(),
        )),
    );
    assert_eq!(
        WorktreeManager::resolve_repo_path(&repo, Ok(Some("/gone".to_owned())), false),
        Err(WorktreeError::FsPoison(
            "ghq returned `/gone` but the path is missing on disk".to_owned(),
        )),
    );
}

#[test]
fn errors_are_mapped_for_the_actor() {
    assert_eq!(
        map_worktree_error(WorktreeError::AllowlistRejected("a/b".to_owned())),
        WorktreeOpError::AllowlistRejected("a/b".to_owned()),
    );
    assert_eq!(
        map_worktree_error(WorktreeError::FsPoison("x".to_owned())),
        WorktreeOpError::FsPoison("x".to_owned()),
    );
    let invalid = WorktreeError::InvalidIssueId(SessionError::InvalidIssueId {
        id: "..".to_owned(),
        reason: "r".to_owned(),
    });
    assert!(matches!(map_worktree_error(invalid), WorktreeOpError::Other(_)));
    let io = WorktreeError::Wt(WtError::Io { message: "denied".to_owned() });
    match map_worktree_error(io) {
        WorktreeOpError::Other(m) => assert!(m.contains("denied"), "{m}"),
        other => panic!("expected Other, got {other:?}"),
    }
}

// ---------------------------------------------------------------------------
// The registry
// ---------------------------------------------------------------------------

fn worktree(repo: &str, branch: &str, path: &str) -> RegisteredWorktree {
    RegisteredWorktree {
        repo: RepoId::new(repo),
        branch: BranchName::new(branch),
        path: path.to_owned(),
    }
}

#[test]
fn register_short_circuits_on_repeat() {
    let mut registry = WorktreeRegistry::new();
    let issue = IssueId::new("ENG-1");
    let repo = RepoId::new("owner/core");
    let branch = BranchName::new("ENG-1");

    let first = registry.register(
        issue.clone(),
        repo.clone(),
        branch.clone(),
        "/tmp/core.ENG-1".to_owned(),
    );
    let second = registry.register(
        issue.clone(),
        repo.clone(),
        branch.clone(),
        "/tmp/somewhere-else".to_owned(),
    );
    assert_eq!(first, "/tmp/core.ENG-1");
    assert_eq!(second, first, "second register must return the original path");

    let entries = registry.list_for_issue(&issue);
    assert_eq!(entries.len(), 1, "second register must not append");
    assert_eq!(entries[0].path, "/tmp/core.ENG-1");
}

#[test]
fn register_appends_for_distinct_repos() {
    let mut registry = WorktreeRegistry::new();
    let issue = IssueId::new("ENG-7");
    registry.register(
        issue.clone(),
        RepoId::new("owner/core"),
        BranchName::new("ENG-7"),
        "/tmp/core.ENG-7".to_owned(),
    );
    registry.register(
        issue.clone(),
        RepoId::new("owner/infra"),
        BranchName::new("ENG-7"),
        "/tmp/infra.ENG-7".to_owned(),
    );
    let entries = registry.list_for_issue(&issue);
    assert_eq!(entries.len(), 2);
    assert_eq!(entries[0].repo, RepoId::new("owner/core"));
    assert_eq!(entries[1].repo, RepoId::new("owner/infra"));
}

#[test]
fn iter_for_issue_preserves_insertion_order() {
    let mut registry = WorktreeRegistry::new();
    let issue = IssueId::new("ENG-9");
    for (repo, path) in [
        ("owner/a", "/tmp/a.ENG-9"),
        ("owner/b", "/tmp/b.ENG-9"),
        ("owner/c", "/tmp/c.ENG-9"),
    ] {
        registry.register(
            issue.clone(),
            RepoId::new(repo),
            BranchName::new("ENG-9"),
            path.to_owned(),
        );
    }
    let entries = registry.list_for_issue(&issue);
    let order: Vec<&str> = entries.iter().map(|e| e.repo.as_str()).collect();
    assert_eq!(order, vec!["owner/a", "owner/b", "owner/c"]);
}

#[test]
fn lookup_returns_none_for_unregistered_pair() {
    let registry = WorktreeRegistry::new();
    let issue = IssueId::new("ENG-11");
    let repo = RepoId::new("owner/core");
    assert!(registry.lookup(&issue, &repo).is_none());
}

#[test]
fn take_for_issue_drains_entries_in_order() {
    let mut registry = WorktreeRegistry::new();
    let issue = IssueId::new("ENG-13");
    let entries = vec![
        worktree("owner/a", "ENG-13", "/tmp/a.ENG-13"),
        worktree("owner/b", "ENG-13", "/tmp/b.ENG-13"),
    ];
    for e in &entries {
        registry.register(issue.clone(), e.repo.clone(), e.branch.clone(), e.path.clone());
    }
    let taken = registry.take_for_issue(&issue);
    assert_eq!(taken, entries);
    assert!(
        registry.list_for_issue(&issue).is_empty(),
        "take_for_issue must drain the issue's entries",
    );
}

#[test]
fn branch_is_named_after_the_issue() {
    assert_eq!(BranchName::from(&IssueId::new("ENG-1")).as_str(), "ENG-1");
}

#[test]
fn memory_holds_nothing_to_recover() {
    let mut registry = WorktreeRegistry::new();
    registry.register(
        IssueId::new("ENG-1"),
        RepoId::new("owner/core"),
        BranchName::new("ENG-1"),
        "/tmp/core.ENG-1".to_owned(),
    );
    assert!(registry.list_existing().unwrap().is_empty());
}

#[test]
fn spelling_of_a_path_does_not_count() {
    let (one, two) = (RepoId::new("one"), RepoId::new("two"));
    let issue = IssueId::new("ENG-1");
    let mut manager = build_manager(&[("one", "owner/one"), ("two", "owner/two")]);
    let place = manager
        .place(&one, &issue, "owner/one".to_owned(), Ok("/a//b/repo".to_owned()))
        .unwrap();
    manager.created(&one, &issue, place.target.clone(), Ok(place.target)).unwrap();
    let err = manager
        .place(&two, &issue, "owner/two".to_owned(), Ok("/a/b/./repo".to_owned()))
        .unwrap_err();
    assert!(matches!(err, WorkspaceError::IdentifierCollision { .. }));
}

fn two_repos() -> WorktreeManager {
    WorktreeManager::new(vec![
        RepoEntry { ghq: "a/one".to_owned() },
        RepoEntry { ghq: "a/two".to_owned() },
    ])
}

#[test]
fn cleanup_goes_through_the_repositories() {
    let manager = two_repos();
    let issue = IssueId::new("ENG-1");
    let mut state = Cleanup::new();
    let step = manager.cleanup(&issue, &mut state, CleanupEvent::Begin);
    assert_eq!(step, CleanupStep::FindRepo("a/one".to_owned()));
    let step = manager.cleanup(&issue, &mut state, CleanupEvent::Found(Ok(None)));
    assert_eq!(step, CleanupStep::FindRepo("a/two".to_owned()));
    let found = CleanupEvent::Found(Ok(Some("/src/two".to_owned())));
    let step = manager.cleanup(&issue, &mut state, found);
    assert_eq!(step, CleanupStep::ListWorktrees("/src/two".to_owned()));
    let listed = vec![
        entry("/src/two", Some("main")),
        entry("/src/two.1", Some("ENG-1")),
        entry("/src/two.x", None),
        entry("/src/two.2", Some("ENG-1")),
    ];
    let step = manager.cleanup(&issue, &mut state, CleanupEvent::Listed(Ok(listed)));
    assert_eq!(step, CleanupStep::Remove("/src/two.1".to_owned()));
    let step = manager.cleanup(&issue, &mut state, CleanupEvent::Removed(Ok(())));
    assert_eq!(step, CleanupStep::Remove("/src/two.2".to_owned()));
    let step = manager.cleanup(&issue, &mut state, CleanupEvent::Removed(Ok(())));
    let removed = vec!["/src/two.1".to_owned(), "/src/two.2".to_owned()];
    assert_eq!(step, CleanupStep::Done(removed));
}

#[test]
fn cleanup_stops_at_the_first_failure() {
    let manager = two_repos();
    let mut state = Cleanup::new();
    let step = manager.cleanup(&IssueId::new("../x"), &mut state, CleanupEvent::Begin);
    assert!(matches!(step, CleanupStep::Failed(WorktreeError::InvalidIssueId(_))));
    let issue = IssueId::new("ENG-1");
    let fault = WtError::NonZeroExit { message: "no".to_owned() };
    let step = manager.cleanup(&issue, &mut state, CleanupEvent::Listed(Err(fault.clone())));
    assert_eq!(step, CleanupStep::Failed(WorktreeError::Wt(fault.clone())));
    let step = manager.cleanup(&issue, &mut state, CleanupEvent::Removed(Err(fault.clone())));
    assert_eq!(step, CleanupStep::Failed(WorktreeError::Wt(fault)));
}

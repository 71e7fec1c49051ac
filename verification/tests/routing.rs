use roki_daemon::config::{LinearScope, RepoConfig};
use roki_daemon::routing::{
    choose_repo, classify_repo_health, precedence_reason, route_issue, IssueRouteInput,
    PrecedenceReason, UnhealthyReason,
};

fn repo(id: &str, scope: LinearScope) -> RepoConfig {
    RepoConfig {
        id: id.to_string(),
        repo: format!("owner/{id}"),
        scope,
        workflow_path: format!("/srv/git/{id}/WORKFLOW.md"),
        webhook_secret_env: None,
        webhook_secret: None,
    }
}

fn team(key: &str) -> LinearScope {
    LinearScope::Team { key: key.to_string() }
}

fn labels(names: &[&str]) -> LinearScope {
    LinearScope::Labels { any_of: names.iter().map(|s| s.to_string()).collect() }
}

fn repo_named(id: &str, identifier: &str, key: &str) -> RepoConfig {
    RepoConfig {
        id: id.to_string(),
        repo: identifier.to_string(),
        scope: team(key),
        workflow_path: "/dev/null".to_string(),
        webhook_secret_env: None,
        webhook_secret: None,
    }
}

#[test]
fn overlapping_scopes_route_to_exactly_one_repo_via_specificity() {
    let repos = vec![repo("alpha", team("ENG")), repo("beta", labels(&["frontend"]))];
    let issue = IssueRouteInput {
        issue_id: "ENG-42",
        team_key: "ENG",
        labels: &["frontend".to_string()],
    };
    let outcome = route_issue(&repos, &issue);
    assert_eq!(outcome, Some(("beta".to_string(), "ENG-42".to_string())));
}

#[test]
fn overlapping_scopes_at_same_tier_break_tie_by_repo_id() {
    let repos = vec![repo("zulu", labels(&["frontend"])), repo("alpha", labels(&["frontend"]))];
    let issue = IssueRouteInput {
        issue_id: "ENG-7",
        team_key: "ENG",
        labels: &["frontend".to_string()],
    };
    let outcome = route_issue(&repos, &issue);
    assert_eq!(outcome, Some(("alpha".to_string(), "ENG-7".to_string())));
}

#[test]
fn returns_none_when_no_scope_matches() {
    let repos = vec![repo("alpha", team("OTHER"))];
    let issue = IssueRouteInput { issue_id: "ENG-1", team_key: "ENG", labels: &[] };
    assert!(route_issue(&repos, &issue).is_none());
}

#[test]
fn route_issue_emits_routed_event_with_required_fields() {
    let repos = vec![repo("alpha", team("ENG")), repo("beta", labels(&["frontend"]))];
    let issue = IssueRouteInput {
        issue_id: "ENG-42",
        team_key: "ENG",
        labels: &["frontend".to_string()],
    };
    let outcome = route_issue(&repos, &issue);
    assert_eq!(outcome, Some(("beta".to_string(), "ENG-42".to_string())));
    assert_eq!(precedence_reason(&repos, &issue).name(), "labels_match");
    assert_eq!(choose_repo(&repos, &issue), Some(1));
}

#[test]
fn malformed_ghq_identifier_is_classified_unhealthy() {
    let repos = vec![repo_named("ghost", "no-owner", "ENG")];
    let health = classify_repo_health(&repos);
    assert!(health.healthy.is_empty());
    assert_eq!(health.unhealthy.len(), 1);
    assert_eq!(health.unhealthy[0].reason, UnhealthyReason::InvalidGhqIdentifier);
    assert_eq!(health.unhealthy[0].repo_id, "ghost");
}

#[test]
fn well_formed_owner_repo_is_healthy() {
    let repos = vec![repo_named("ok", "owner/ok", "ENG")];
    let health = classify_repo_health(&repos);
    assert!(health.unhealthy.is_empty());
    assert_eq!(health.healthy.len(), 1);
    assert_eq!(health.healthy[0].id, "ok");
}

#[test]
fn host_owner_repo_form_is_healthy() {
    let repos = vec![repo_named("ok", "github.com/owner/ok", "ENG")];
    let health = classify_repo_health(&repos);
    assert!(health.unhealthy.is_empty());
    assert_eq!(health.healthy.len(), 1);
}

#[test]
fn classify_repo_health_keeps_serving_remaining_repos_when_one_is_unhealthy() {
    let repos =
        vec![repo_named("good", "owner/good", "ENG"), repo_named("bad", "/abs/no-good", "OPS")];
    let health = classify_repo_health(&repos);
    assert_eq!(health.healthy.len(), 1);
    assert_eq!(health.healthy[0].id, "good");
    assert_eq!(health.unhealthy.len(), 1);
    assert_eq!(health.unhealthy[0].repo_id, "bad");
}

#[test]
fn reasons_of_a_route() {
    let issue = IssueRouteInput {
        issue_id: "ENG-1",
        team_key: "ENG",
        labels: &["frontend".to_string()],
    };
    let none = vec![repo("a", team("OPS"))];
    assert_eq!(precedence_reason(&none, &issue), PrecedenceReason::NoMatchingScope);
    let one = vec![repo("a", team("ENG")), repo("b", team("OPS"))];
    assert_eq!(precedence_reason(&one, &issue), PrecedenceReason::SingleMatch);
    let tie = vec![repo("b", team("ENG")), repo("a", team("ENG"))];
    assert_eq!(precedence_reason(&tie, &issue), PrecedenceReason::TieBreakRepoIdLex);
    assert_eq!(choose_repo(&tie, &issue), Some(1));
    let mixed = vec![repo("a", team("ENG")), repo("b", labels(&["x", "frontend"]))];
    assert_eq!(precedence_reason(&mixed, &issue), PrecedenceReason::LabelsMatch);
    assert_eq!(choose_repo(&mixed, &issue), Some(1));
}

#[test]
fn names_of_reasons() {
    assert_eq!(PrecedenceReason::NoMatchingScope.name(), "no_matching_scope");
    assert_eq!(PrecedenceReason::SingleMatch.name(), "single_match");
    assert_eq!(PrecedenceReason::TeamMatch.name(), "team_match");
    assert_eq!(PrecedenceReason::TieBreakRepoIdLex.name(), "tie_break_repo_id_lex");
}

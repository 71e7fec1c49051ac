use roki_daemon::json::Json;
use roki_daemon::orchestrator::state::IssueId;
use roki_daemon::tools::ghq::{
    classify_io, ensure_cloned, fetch_outcome, listed_path, CloneEvent, CloneNext, CloneStage,
    GhqError,
};
use roki_daemon::tools::roki_open_worktree::{
    OpenOutput, OpenStep, OpenWorktreeTool, TOOL_DESCRIPTION, TOOL_INPUT_SCHEMA, TOOL_NAME,
    TOOL_OUTPUT_SCHEMA,
};
use roki_daemon::tools::wt::{worktree_path_for, WtError};
use roki_daemon::tools::{
    build_for_issue, describe, settle_schema_text, InMemoryRegistry, ToolDescriptor, ToolError,
};
use roki_daemon::tracker::model::RepoId;
use roki_daemon::worktrees::WorktreeRegistry;

fn descriptor(name: &str, description: &str) -> ToolDescriptor {
    ToolDescriptor {
        name: name.to_owned(),
        description: description.to_owned(),
        input_schema: Json::Object(vec![(
            "type".to_owned(),
            Json::Text("object".to_owned()),
        )]),
        output_schema: Json::Object(vec![(
            "type".to_owned(),
            Json::Text("object".to_owned()),
        )]),
    }
}

/// What a registered tool answers with.
#[derive(Debug, PartialEq)]
enum Answer {
    Echo,
    Other,
}

#[test]
fn per_worker_registry_carries_linear_graphql_and_roki_open_worktree() {
    let registry = build_for_issue(vec![
        (descriptor("linear-graphql", "stub"), 0u8),
        (descriptor(TOOL_NAME, TOOL_DESCRIPTION), 1u8),
    ])
    .unwrap();
    let catalog = registry.catalog();
    let names: Vec<&str> = catalog.iter().map(|d| d.name.as_str()).collect();
    assert!(
        names.contains(&"linear-graphql"),
        "per-worker registry must contain linear-graphql; got {names:?}",
    );
    assert!(
        names.contains(&"roki_open_worktree"),
        "per-worker registry must contain roki_open_worktree; got {names:?}",
    );
}

#[test]
fn registry_dispatches_registered_tool_by_name() {
    let mut registry = InMemoryRegistry::new();
    registry.register(descriptor("echo", "Returns the input unchanged"), Answer::Echo).unwrap();
    assert_eq!(registry.dispatch("echo").unwrap(), &Answer::Echo);
}

#[test]
fn registry_returns_unknown_tool_for_missing_name() {
    let registry: InMemoryRegistry<Answer> = InMemoryRegistry::new();
    let err = registry.dispatch("missing").unwrap_err();
    assert!(matches!(err, ToolError::UnknownTool { .. }));
}

#[test]
fn registry_rejects_duplicate_registration() {
    let mut registry = InMemoryRegistry::new();
    registry.register(descriptor("echo", "one"), Answer::Echo).unwrap();
    let err = registry.register(descriptor("echo", "two"), Answer::Other).unwrap_err();
    assert!(matches!(err, ToolError::DuplicateName { .. }));
    // The first one stays.
    assert_eq!(registry.dispatch("echo").unwrap(), &Answer::Echo);
}

#[test]
fn catalog_lists_each_tool_with_parsed_schemas_in_stable_order() {
    let mut registry = InMemoryRegistry::new();
    registry.register(descriptor("other", "stub"), Answer::Other).unwrap();
    registry.register(descriptor("echo", "Returns the input unchanged"), Answer::Echo).unwrap();

    let catalog = registry.catalog();
    assert_eq!(catalog.len(), 2);
    assert_eq!(catalog[0].name, "echo");
    assert_eq!(catalog[1].name, "other");
    assert!(matches!(catalog[0].input_schema, Json::Object(_)));
    assert!(matches!(catalog[0].output_schema, Json::Object(_)));
}

#[test]
fn duplicate_tools_for_an_issue_are_refused() {
    let r = build_for_issue(vec![(descriptor("a", ""), 1u8), (descriptor("a", ""), 2u8)]);
    assert_eq!(r.err(), Some(ToolError::DuplicateName { name: "a".to_owned() }));
}

fn tool(issue: &str, allowed: &[&str]) -> OpenWorktreeTool {
    OpenWorktreeTool::new(
        IssueId::new(issue),
        allowed.iter().map(|s| (*s).to_string()).collect(),
    )
}

/// Runs a call against a checkout, counting how often the outside is asked.
fn run(
    tool: &OpenWorktreeTool,
    repo: &str,
    registry: &mut WorktreeRegistry,
    found: Result<String, GhqError>,
    made: Option<WtError>,
    asked: &mut Vec<String>,
) -> Result<OpenOutput, ToolError> {
    match tool.call(repo.to_owned(), registry) {
        OpenStep::Done(r) => r,
        OpenStep::Resolve { repo } => {
            asked.push(format!("ghq {repo}"));
            match tool.resolved(repo, found) {
                OpenStep::Done(r) => r,
                OpenStep::Create { repo, repo_path, branch } => {
                    asked.push(format!("wt {repo_path} {}", branch.as_str()));
                    let path = match made {
                        Some(e) => Err(e),
                        None => worktree_path_for(&repo_path, branch.as_str()),
                    };
                    tool.created(repo, path, registry)
                }
                OpenStep::Resolve { .. } => panic!("resolved twice"),
            }
        }
        OpenStep::Create { .. } => panic!("created unresolved"),
    }
}

#[test]
fn rejects_unallowlisted_repo() {
    let mut registry = WorktreeRegistry::new();
    let mut asked = Vec::new();
    let err = run(
        &tool("ENG-1", &["owner/core"]),
        "evil/repo",
        &mut registry,
        Ok("/tmp/parent/core".to_owned()),
        None,
        &mut asked,
    )
    .expect_err("non-allowlisted repo must be refused");
    match err {
        ToolError::RepoNotInAllowlist { repo, allowed } => {
            assert_eq!(repo, "evil/repo");
            assert_eq!(allowed, vec!["owner/core".to_string()]);
        }
        other => panic!("expected RepoNotInAllowlist, got {other:?}"),
    }
    assert!(asked.is_empty());
}

#[test]
fn happy_path_resolves_via_ghq_then_creates_worktree() {
    let mut registry = WorktreeRegistry::new();
    let mut asked = Vec::new();
    let out = run(
        &tool("ENG-1", &["owner/core"]),
        "owner/core",
        &mut registry,
        Ok("/tmp/parent/core".to_owned()),
        None,
        &mut asked,
    )
    .expect("call must succeed");
    assert_eq!(out.repo, "owner/core");
    assert_eq!(out.branch, "ENG-1");
    assert_eq!(out.path, "/tmp/parent/core.ENG-1");
    assert_eq!(
        asked,
        vec!["ghq owner/core".to_owned(), "wt /tmp/parent/core ENG-1".to_owned()],
    );

    let entries = registry.list_for_issue(&IssueId::new("ENG-1"));
    assert_eq!(entries.len(), 1);
    assert_eq!(entries[0].repo, RepoId::new("owner/core"));
}

#[test]
fn idempotent_on_repeat_call() {
    let mut registry = WorktreeRegistry::new();
    let mut asked = Vec::new();
    let t = tool("ENG-1", &["owner/core"]);
    let path = || Ok("/tmp/parent/core".to_owned());
    let first = run(&t, "owner/core", &mut registry, path(), None, &mut asked).unwrap();
    let second = run(&t, "owner/core", &mut registry, path(), None, &mut asked).unwrap();
    assert_eq!(first.path, second.path);
    assert_eq!(asked.len(), 2);
}

#[test]
fn surfaces_ghq_failure_typed() {
    let mut registry = WorktreeRegistry::new();
    let err = run(
        &tool("ENG-1", &["owner/core"]),
        "owner/core",
        &mut registry,
        Err(GhqError::NotFound { message: "ghq missing".to_string() }),
        None,
        &mut Vec::new(),
    )
    .expect_err("ghq failure must surface");
    match err {
        ToolError::GhqResolutionFailed { repo, .. } => {
            assert_eq!(repo, "owner/core");
        }
        other => panic!("expected GhqResolutionFailed, got {other:?}"),
    }
}

#[test]
fn surfaces_wt_failure_typed() {
    let mut registry = WorktreeRegistry::new();
    let err = run(
        &tool("ENG-1", &["owner/core"]),
        "owner/core",
        &mut registry,
        Ok("/tmp/parent/core".to_owned()),
        Some(WtError::NonZeroExit { message: "wt: branch in use".to_string() }),
        &mut Vec::new(),
    )
    .expect_err("wt failure must surface");
    match err {
        ToolError::WorktreeCreationFailed { repo, branch, reason } => {
            assert_eq!(repo, "owner/core");
            assert_eq!(branch, "ENG-1");
            assert!(reason.contains("branch in use"));
        }
        other => panic!("expected WorktreeCreationFailed, got {other:?}"),
    }
}

#[test]
fn description_matches_verbatim() {
    assert_eq!(
        TOOL_DESCRIPTION,
        "Open a git worktree for the current Linear issue in one of the configured repos. The daemon resolves the repo via ghq, creates a worktree branch named after the issue id via wt, and returns the absolute path. Idempotent — calling twice with the same repo returns the same path. Use this once per repo you intend to modify; cross-repo tickets call this multiple times.",
    );
}

#[test]
fn schemas_are_json_objects() {
    for text in [TOOL_INPUT_SCHEMA, TOOL_OUTPUT_SCHEMA] {
        let value: serde_json::Value = serde_json::from_str(text).unwrap();
        assert!(value.is_object());
    }
}

#[test]
fn clone_is_fetched_when_it_is_not_there() {
    let full = "owner/repo";
    let next = ensure_cloned(CloneStage::Listing, full, CloneEvent::Listed(Ok(None)));
    assert!(matches!(next, CloneNext::Run(CloneStage::Fetching)));
    let next = ensure_cloned(CloneStage::Fetching, full, CloneEvent::Fetched(Ok(())));
    assert!(matches!(next, CloneNext::Run(CloneStage::Checking)));
    let path = Ok(Some("/src/owner/repo".to_owned()));
    match ensure_cloned(CloneStage::Checking, full, CloneEvent::Listed(path)) {
        CloneNext::Done(r) => assert_eq!(r, Ok("/src/owner/repo".to_owned())),
        other => panic!("expected Done, got {other:?}"),
    }
}

#[test]
fn clone_that_is_there_is_not_fetched() {
    let path = Ok(Some("/src/owner/repo".to_owned()));
    match ensure_cloned(CloneStage::Listing, "owner/repo", CloneEvent::Listed(path)) {
        CloneNext::Done(r) => assert_eq!(r, Ok("/src/owner/repo".to_owned())),
        other => panic!("expected Done, got {other:?}"),
    }
}

#[test]
fn clone_that_stays_away_is_named() {
    match ensure_cloned(CloneStage::Checking, "owner/repo", CloneEvent::Listed(Ok(None))) {
        CloneNext::Done(r) => assert_eq!(
            r,
            Err(GhqError::NotFoundAfterGet { identifier: "owner/repo".to_owned() }),
        ),
        other => panic!("expected Done, got {other:?}"),
    }
}

#[test]
fn ensure_cloned_distinguishes_missing_binary_from_clone_failure() {
    let missing = classify_io(true, "ghq get", "No such file or directory");
    assert!(matches!(missing, GhqError::NotFound { .. }));
    let other = classify_io(false, "ghq get", "Permission denied");
    assert_eq!(other, GhqError::Io { message: "ghq get: Permission denied".to_owned() });
    let failed = fetch_outcome(false, "fatal: no such repository\n").unwrap_err();
    assert!(matches!(failed, GhqError::NonZeroExit { .. }));
    assert_eq!(fetch_outcome(true, ""), Ok(()));
}

#[test]
fn list_path_against_unknown_identifier_returns_none_or_typed_error() {
    assert_eq!(listed_path(false, "/src/owner/repo\n"), None);
    assert_eq!(listed_path(true, "\n"), None);
    assert_eq!(listed_path(true, "/src/owner/repo\n"), Some("/src/owner/repo".to_owned()));
}

#[test]
fn faulty_schema_is_null_in_the_catalog() {
    let d = describe("t".to_owned(), "does".to_owned(), r#"{"type":"object"}"#, "{nope");
    assert_eq!(d.name, "t");
    assert_eq!(d.description, "does");
    assert_eq!(
        d.input_schema,
        Json::Object(vec![("type".to_owned(), Json::Text("object".to_owned()))]),
    );
    assert_eq!(d.output_schema, Json::Null);
    assert_eq!(settle_schema_text(Some(Json::Bool(true))), Json::Bool(true));
    assert_eq!(settle_schema_text(None), Json::Null);
}

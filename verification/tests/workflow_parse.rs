use roki_daemon::strmap::StrMap;
use roki_daemon::workflow::parse::{
    override_path, reject_empty_body_outside_cleanup, resolve_path, resolve_per_repo_overrides,
    ParseError, RawAdmission, RawRepoEntry, RawRuleBody, RawRuleEntry, RawTaskEntry, RawWorkflow,
};

fn empty_row() -> RawRuleEntry {
    RawRuleEntry { when: None, body: RawRuleBody::Empty {} }
}

fn task_row() -> RawRuleEntry {
    RawRuleEntry {
        when: None,
        body: RawRuleBody::Sugar {
            tasks: vec![RawTaskEntry {
                id: "impl".into(),
                run: Some("echo bar".into()),
                uses: None,
                if_cond: None,
                timeout: None,
                on_fail: None,
                directives: StrMap::new(),
                max_visits: None,
            }],
            states: StrMap::new(),
            terminals: StrMap::new(),
            on_fail: None,
        },
    }
}

fn workflow(
    rules: Vec<RawRuleEntry>,
    cleanup: Vec<RawRuleEntry>,
    on_failure: Vec<RawRuleEntry>,
) -> RawWorkflow {
    RawWorkflow { admission: None, rules, cleanup, on_failure }
}

#[test]
fn cleanup_immediate_delete_shorthand_accepts_empty_body() {
    let raw = workflow(vec![], vec![empty_row()], vec![]);
    reject_empty_body_outside_cleanup("WORKFLOW.yaml", &raw).unwrap();
    assert_eq!(raw.cleanup.len(), 1);
    match &raw.cleanup[0].body {
        RawRuleBody::Empty {} => {}
        other => panic!("expected Empty body, got {other:?}"),
    }
}

#[test]
fn empty_body_in_rules_is_rejected() {
    let raw = workflow(vec![empty_row()], vec![], vec![]);
    let err = reject_empty_body_outside_cleanup("WORKFLOW.yaml", &raw).unwrap_err();
    match err {
        ParseError::EmptyBodyOutsideCleanup { section, index, .. } => {
            assert_eq!(section, "rules");
            assert_eq!(index, 0);
        }
        other => panic!("expected EmptyBodyOutsideCleanup, got {other:?}"),
    }
}

#[test]
fn empty_body_in_on_failure_is_rejected() {
    let raw = workflow(vec![], vec![], vec![empty_row()]);
    let err = reject_empty_body_outside_cleanup("WORKFLOW.yaml", &raw).unwrap_err();
    match err {
        ParseError::EmptyBodyOutsideCleanup { section, .. } => {
            assert_eq!(section, "on_failure");
        }
        other => panic!("expected EmptyBodyOutsideCleanup, got {other:?}"),
    }
}

#[test]
fn relative_path_resolves_against_reference_parent() {
    let p = resolve_path("/tmp/repo/WORKFLOW.yaml", "repos/bar.yaml", None).unwrap();
    assert_eq!(p, "/tmp/repo/repos/bar.yaml");
}

#[test]
fn absolute_path_returned_unchanged() {
    let p = resolve_path("/tmp/repo/WORKFLOW.yaml", "/etc/foo.yaml", None).unwrap();
    assert_eq!(p, "/etc/foo.yaml");
}

#[test]
fn tilde_prefix_expands_to_home() {
    let p = resolve_path("/tmp/repo/WORKFLOW.yaml", "~/foo.yaml", Some("/home/u")).unwrap();
    assert_eq!(p, "/home/u/foo.yaml");
}

#[test]
fn per_repo_override_resolves_relative_to_top_file() {
    let repo = RawRepoEntry {
        ghq: "github.com/foo/bar".into(),
        when: None,
        workflow: Some("repos/bar.yaml".into()),
    };
    let path = override_path(&repo, "/w/WORKFLOW.yaml", None).unwrap();
    assert_eq!(path, Some("/w/repos/bar.yaml".to_owned()));

    let top = admitting(vec![repo]);
    let overrides = resolve_per_repo_overrides(&top, "/w/WORKFLOW.yaml", None, |path: &str| {
        assert_eq!(path, "/w/repos/bar.yaml");
        Ok(workflow(vec![task_row()], vec![], vec![]))
    })
    .unwrap();
    assert_eq!(overrides.len(), 1);
    let bar = overrides.get("github.com/foo/bar").unwrap();
    assert_eq!(bar.rules.len(), 1);
}

#[test]
fn missing_home_is_reported() {
    let cases = [("~/x", None), ("~", None), ("~other/x", Some("/home/u"))];
    for (declared, home) in cases {
        assert_eq!(
            resolve_path("/w/WORKFLOW.yaml", declared, home),
            Err(ParseError::HomeUnresolvable(declared.to_owned())),
        );
    }
    assert_eq!(resolve_path("/w/W.yaml", "~", Some("/home/u")), Ok("/home/u".to_owned()));
}

#[test]
fn repo_without_a_workflow_has_no_override() {
    let repo = RawRepoEntry { ghq: "a/b".into(), when: None, workflow: None };
    assert_eq!(override_path(&repo, "/w/WORKFLOW.yaml", None), Ok(None));
}

fn repo(ghq: &str, workflow: Option<&str>) -> RawRepoEntry {
    RawRepoEntry { ghq: ghq.into(), when: None, workflow: workflow.map(str::to_owned) }
}

fn admitting(repos: Vec<RawRepoEntry>) -> RawWorkflow {
    let mut top = workflow(vec![], vec![], vec![]);
    top.admission = Some(RawAdmission { assignee: "me".to_owned(), repos });
    top
}

#[test]
fn last_override_of_a_repo_stays() {
    let top = admitting(vec![
        repo("a/b", Some("/one.yaml")),
        repo("c/d", None),
        repo("a/b", Some("/two.yaml")),
    ]);
    let overrides = resolve_per_repo_overrides(&top, "/w/WORKFLOW.yaml", None, |path: &str| {
        let rules = if path == "/two.yaml" { vec![task_row()] } else { vec![] };
        Ok(workflow(rules, vec![], vec![]))
    })
    .unwrap();
    assert_eq!(overrides.len(), 1);
    assert_eq!(overrides.get("a/b").unwrap().rules.len(), 1);
}

#[test]
fn first_override_that_cannot_be_had_is_the_result() {
    let top = admitting(vec![
        repo("a/b", Some("/gone.yaml")),
        repo("c/d", Some("~other/x.yaml")),
    ]);
    let gone = |path: &str| {
        Err(ParseError::Io { path: path.to_owned(), message: "gone".to_owned() })
    };
    assert_eq!(
        resolve_per_repo_overrides(&top, "/w/WORKFLOW.yaml", None, gone).err(),
        Some(ParseError::Io { path: "/gone.yaml".to_owned(), message: "gone".to_owned() }),
    );
    let fine = |_: &str| Ok(workflow(vec![], vec![], vec![]));
    assert_eq!(
        resolve_per_repo_overrides(&top, "/w/WORKFLOW.yaml", None, fine).err(),
        Some(ParseError::HomeUnresolvable("~other/x.yaml".to_owned())),
    );
}

#[test]
fn without_an_admission_there_are_no_overrides() {
    let top = workflow(vec![], vec![], vec![]);
    let never = |path: &str| {
        Err(ParseError::Io { path: path.to_owned(), message: "read".to_owned() })
    };
    let overrides = resolve_per_repo_overrides(&top, "/w/WORKFLOW.yaml", None, never).unwrap();
    assert_eq!(overrides.len(), 0);
}

#[test]
fn first_empty_row_is_named() {
    let raw = workflow(vec![task_row(), empty_row(), empty_row()], vec![], vec![empty_row()]);
    let err = reject_empty_body_outside_cleanup("W.yaml", &raw).unwrap_err();
    assert_eq!(
        err,
        ParseError::EmptyBodyOutsideCleanup {
            path: "W.yaml".to_owned(),
            section: "rules".to_owned(),
            index: 1,
        },
    );
}

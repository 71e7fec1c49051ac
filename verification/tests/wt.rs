use roki_daemon::path::{file_name, is_absolute, join, parent};
use roki_daemon::tools::wt::{
    classify_io, list_porcelain, parse_worktree_list_porcelain, remove, sanitize_branch,
    switch_create, worktree_path_for, WtError,
};

#[test]
fn sanitize_replaces_slashes_with_dashes() {
    assert_eq!(sanitize_branch("ACM-1/x"), "ACM-1-x");
}

#[test]
fn sanitize_passes_safe_characters_unchanged() {
    assert_eq!(sanitize_branch("ENG-42_v2"), "ENG-42_v2");
}

#[test]
fn sanitize_replaces_spaces_and_punctuation() {
    assert_eq!(sanitize_branch("ENG 42!bug"), "ENG-42-bug");
}

#[test]
fn sanitize_replaces_unicode_with_dashes() {
    assert_eq!(sanitize_branch("issue-é-42"), "issue---42");
}

#[test]
fn worktree_path_uses_sibling_layout() {
    let path = worktree_path_for("/tmp/parent/myrepo", "ENG-1").expect("path");
    assert_eq!(path, "/tmp/parent/myrepo.ENG-1");
}

#[test]
fn worktree_path_sanitizes_branch_in_suffix() {
    let path = worktree_path_for("/tmp/parent/myrepo", "ENG/42").expect("path");
    assert_eq!(path, "/tmp/parent/myrepo.ENG-42");
}

#[test]
fn worktree_path_rejects_root_path() {
    let path = worktree_path_for("/", "ENG-1");
    assert!(matches!(path, Err(WtError::InvalidRepoPath { .. })));
}

#[test]
fn parse_porcelain_extracts_path_and_branch_pairs() {
    let raw = "worktree /tmp/parent/repo\nHEAD aaaaa\nbranch refs/heads/main\n\nworktree /tmp/parent/repo.ENG-1\nHEAD bbbbb\nbranch refs/heads/ENG-1\n";
    let entries = parse_worktree_list_porcelain(raw);
    assert_eq!(entries.len(), 2);
    assert_eq!(entries[0].path, "/tmp/parent/repo");
    assert_eq!(entries[0].branch.as_deref(), Some("main"));
    assert_eq!(entries[1].path, "/tmp/parent/repo.ENG-1");
    assert_eq!(entries[1].branch.as_deref(), Some("ENG-1"));
}

#[test]
fn parse_porcelain_handles_detached_worktree_with_no_branch() {
    let raw = "worktree /tmp/repo\nHEAD aaaaa\ndetached\n";
    let entries = parse_worktree_list_porcelain(raw);
    assert_eq!(entries.len(), 1);
    assert_eq!(entries[0].path, "/tmp/repo");
    assert_eq!(entries[0].branch, None);
}

#[test]
fn parse_porcelain_returns_empty_for_empty_input() {
    assert!(parse_worktree_list_porcelain("").is_empty());
}

#[test]
fn sanitizing_twice_changes_nothing() {
    for name in ["ACM-1/x", "é", "", "a b"] {
        let once = sanitize_branch(name);
        assert_eq!(sanitize_branch(&once), once);
    }
}

#[test]
fn io_trouble_is_classified() {
    assert!(matches!(classify_io(true, "wt switch", "gone"), WtError::NotFound { .. }));
    assert_eq!(
        classify_io(false, "wt switch", "denied"),
        WtError::Io { message: "wt switch: denied".to_owned() },
    );
}

#[test]
fn paths_behave_like_those_of_the_platform() {
    let cases = [
        "/", "", "a", "/a", "a/b", "/a/b/", "a//b", "//", "//a", "./a", "a/.", "a/..", "..", ".",
        "/.", "/..", "a/./b", "/a//", "a/b/./", "/tmp/parent/repo",
    ];
    for p in cases {
        let path = std::path::Path::new(p);
        assert_eq!(is_absolute(p), path.is_absolute(), "{p:?}");
        let text = |x: &std::path::Path| x.to_str().unwrap().to_owned();
        assert_eq!(parent(p), path.parent().map(text), "parent of {p:?}");
        let name = path.file_name().map(|n| n.to_str().unwrap().to_owned());
        assert_eq!(file_name(p), name, "name of {p:?}");
        for child in ["b", "/b", "b/c", ""] {
            assert_eq!(join(p, child), text(&path.join(child)), "{p:?} and {child:?}");
        }
    }
}

#[test]
fn a_failed_command_is_told_by_its_trimmed_stderr() {
    let fault = Err(WtError::NonZeroExit { message: "fatal: broken".to_string() });
    assert_eq!(remove(false, " fatal: broken\n"), fault);
    assert_eq!(remove(true, "warning"), Ok(()));
    let made = switch_create(false, "fatal: broken\n", "/src/repo", "ENG-1");
    assert_eq!(made, Err(WtError::NonZeroExit { message: "fatal: broken".to_string() }));
    let listed = list_porcelain(false, "fatal: broken", "worktree /src/repo\n");
    assert_eq!(listed, Err(WtError::NonZeroExit { message: "fatal: broken".to_string() }));
}

#[test]
fn a_created_worktree_stands_beside_its_repository() {
    assert_eq!(switch_create(true, "", "/src/repo", "ENG/1"), Ok("/src/repo.ENG-1".to_string()));
    assert!(matches!(
        switch_create(true, "", "/", "ENG-1"),
        Err(WtError::InvalidRepoPath { .. })
    ));
}

#[test]
fn a_listing_is_read_where_the_command_went_well() {
    let listed = list_porcelain(true, "", "worktree /src/repo\nbranch refs/heads/main\n").unwrap();
    assert_eq!(listed.len(), 1);
    assert_eq!(listed[0].path, "/src/repo");
    assert_eq!(listed[0].branch.as_deref(), Some("main"));
}

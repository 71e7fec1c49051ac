//! The tool that opens a worktree of a configured repository for an issue.
//!
//! A repository that is not configured is refused before anything is run, and
//! a worktree that is open already is handed out again without running
//! anything.
use vstd::prelude::*;

use crate::orchestrator::state::IssueId;
use crate::text::{clone_list, list_contains, listed};
use crate::tools::ghq::GhqError;
use crate::tools::wt::WtError;
use crate::tools::ToolError;
use crate::tracker::model::RepoId;
use crate::worktrees::{
    has_repo, law_worktree_of_a_repo_is_unique, of_repo, one_per_repo, BranchName, RegisteredWorktree,
    WorktreeRegistry,
};

verus! {

/// The name of the tool.
pub const TOOL_NAME: &'static str = "roki_open_worktree";

/// What an agent is told of the tool.
pub const TOOL_DESCRIPTION: &'static str =
    "Open a git worktree for the current Linear issue in one of the configured repos. The daemon resolves the repo via ghq, creates a worktree branch named after the issue id via wt, and returns the absolute path. Idempotent — calling twice with the same repo returns the same path. Use this once per repo you intend to modify; cross-repo tickets call this multiple times.";

/// The schema of the input.
pub const TOOL_INPUT_SCHEMA: &'static str = r#"{
  "type": "object",
  "properties": {
    "repo": {
      "type": "string",
      "description": "Ghq identifier (owner/name or host/owner/name) of a configured repo. Must be in the daemon's allowlist."
    }
  },
  "required": ["repo"],
  "additionalProperties": false
}"#;

/// The schema of the output.
pub const TOOL_OUTPUT_SCHEMA: &'static str = r#"{
  "type": "object",
  "properties": {
    "path": { "type": "string" },
    "repo": { "type": "string" },
    "branch": { "type": "string" }
  },
  "required": ["path", "repo", "branch"],
  "additionalProperties": false
}"#;

/// What the agent gets.
#[derive(Debug, PartialEq, Eq)]
pub struct OpenOutput {
    pub path: String,
    pub repo: String,
    pub branch: String,
}

/// The tool, bound to one issue.
#[derive(Debug)]
pub struct OpenWorktreeTool {
    pub issue: IssueId,
    pub allowed_repos: Vec<String>,
}

/// What follows a call.
#[derive(Debug)]
pub enum OpenStep {
    Done(Result<OpenOutput, ToolError>),
    /// Find or fetch the repository.
    Resolve { repo: String },
    /// Make the worktree.
    Create { repo: String, repo_path: String, branch: BranchName },
}

/// `out` names the path, the repository and the issue's branch.
pub open spec fn output_is(
    out: OpenOutput,
    path: Seq<char>,
    repo: Seq<char>,
    issue: Seq<char>,
) -> bool {
    out.path@ == path && out.repo@ == repo && out.branch@ == issue
}

/// What a call leads to: a repository that is not listed is refused, one whose
/// worktree is open is answered at once, and any other is looked for.
pub open spec fn answers_call(
    issue: Seq<char>,
    allowed: Seq<String>,
    entries: Seq<RegisteredWorktree>,
    repo: String,
    step: OpenStep,
) -> bool {
    if !listed(allowed, repo@) {
        step matches OpenStep::Done(Err(ToolError::RepoNotInAllowlist { repo: r, allowed: all })) && r
            == repo && all@ == allowed
    } else if has_repo(entries, repo@) {
        step matches OpenStep::Done(Ok(out)) && exists|i: int|
            of_repo(entries, repo@, i) && output_is(out, entries[i].path@, repo@, issue)
    } else {
        step == (OpenStep::Resolve { repo })
    }
}

/// What an opened worktree leaves: the first one of a repository stays, and its
/// path is the one that is told.
pub open spec fn opened(
    issue: Seq<char>,
    before: Seq<RegisteredWorktree>,
    after: Seq<RegisteredWorktree>,
    repo: Seq<char>,
    path: Seq<char>,
    out: OpenOutput,
) -> bool {
    if has_repo(before, repo) {
        after == before && exists|i: int|
            of_repo(before, repo, i) && output_is(out, before[i].path@, repo, issue)
    } else {
        &&& output_is(out, path, repo, issue)
        &&& after.len() == before.len() + 1
        &&& after.take(before.len() as int) == before
        &&& after[before.len() as int].repo@ == repo
        &&& after[before.len() as int].branch@ == issue
        &&& after[before.len() as int].path@ == path
    }
}

/// A second call for a repository is answered at once, with the same path as
/// the first.
pub proof fn law_second_call_gives_the_same_path(
    issue: Seq<char>,
    allowed: Seq<String>,
    before: Seq<RegisteredWorktree>,
    after: Seq<RegisteredWorktree>,
    repo: String,
    path: Seq<char>,
    first: OpenOutput,
    step: OpenStep,
)
    requires
        listed(allowed, repo@),
        one_per_repo(after),
        opened(issue, before, after, repo@, path, first),
        answers_call(issue, allowed, after, repo, step),
    ensures
        step matches OpenStep::Done(Ok(second)) && output_is(second, first.path@, repo@, issue),
{
    let at = if has_repo(before, repo@) {
        choose|i: int|
            of_repo(before, repo@, i) && output_is(first, before[i].path@, repo@, issue)
    } else {
        before.len() as int
    };
    assert(of_repo(after, repo@, at));
    assert(first.path@ == after[at].path@);
    assert(has_repo(after, repo@));
    let second = step->Done_0->Ok_0;
    let j = choose|j: int|
        of_repo(after, repo@, j) && output_is(second, after[j].path@, repo@, issue);
    law_worktree_of_a_repo_is_unique(after, repo@, at, j);
}

impl OpenWorktreeTool {
    pub fn new(issue: IssueId, allowed_repos: Vec<String>) -> (t: OpenWorktreeTool)
        ensures
            t == (OpenWorktreeTool { issue, allowed_repos }),
    {
        OpenWorktreeTool { issue, allowed_repos }
    }

    /// Decides a call for `repo`.
    pub fn call(&self, repo: String, registry: &WorktreeRegistry) -> (step: OpenStep)
        ensures
            answers_call(
                self.issue@,
                self.allowed_repos@,
                registry.entries(self.issue@),
                repo,
                step,
            ),
    {
        if !list_contains(&self.allowed_repos, repo.as_str()) {
            return OpenStep::Done(
                Err(
                    ToolError::RepoNotInAllowlist {
                        repo,
                        allowed: clone_list(&self.allowed_repos),
                    },
                ),
            );
        }
        let id = RepoId(repo.clone());
        match registry.lookup(&self.issue, &id) {
            Some(path) => OpenStep::Done(
                Ok(OpenOutput { path, repo, branch: self.issue.0.clone() }),
            ),
            None => OpenStep::Resolve { repo },
        }
    }

    /// Goes on once the repository has been looked for.
    pub fn resolved(&self, repo: String, found: Result<String, GhqError>) -> (step: OpenStep)
        ensures
            match found {
                Ok(path) => step matches OpenStep::Create { repo: r, repo_path, branch } && r == repo
                    && repo_path == path && branch@ == self.issue@,
                Err(e) => step matches OpenStep::Done(
                    Err(ToolError::GhqResolutionFailed { repo: r, reason }),
                ) && r == repo && reason@ == e.text(),
            },
    {
        match found {
            Ok(repo_path) => OpenStep::Create {
                repo,
                repo_path,
                branch: BranchName(self.issue.0.clone()),
            },
            Err(e) => OpenStep::Done(
                Err(ToolError::GhqResolutionFailed { repo, reason: e.message() }),
            ),
        }
    }

    /// Ends a call once the worktree has been made, or could not be. A worktree
    /// that came into the registry meanwhile is the one that counts.
    pub fn created(
        &self,
        repo: String,
        made: Result<String, WtError>,
        registry: &mut WorktreeRegistry,
    ) -> (r: Result<OpenOutput, ToolError>)
        ensures
            r is Ok == made is Ok,
            made matches Err(e) ==> {
                &&& forall|issue: Seq<char>| #[trigger]
                    final(registry).entries(issue) == old(registry).entries(issue)
                &&& r matches Err(ToolError::WorktreeCreationFailed { repo: x, branch, reason }) && x
                    == repo && branch@ == self.issue@ && reason@ == e.prefix() + e.detail()
            },
            made matches Ok(path) ==> {
                &&& opened(
                    self.issue@,
                    old(registry).entries(self.issue@),
                    final(registry).entries(self.issue@),
                    repo@,
                    path@,
                    r->Ok_0,
                )
                &&& forall|issue: Seq<char>|
                    issue != self.issue@ ==> #[trigger] final(registry).entries(issue) == old(
                        registry).entries(issue)
            },
    {
        match made {
            Ok(path) => {
                let id = RepoId(repo.clone());
                let branch = BranchName(self.issue.0.clone());
                let ghost before = registry.entries(self.issue@);
                let ghost entry = RegisteredWorktree { repo: id, branch, path };
                let kept = registry.register(self.issue.clone(), id, branch, path);
                proof {
                    assert(before.push(entry).take(before.len() as int) =~= before);
                }
                Ok(OpenOutput { path: kept, repo, branch: self.issue.0.clone() })
            },
            Err(e) => Err(
                ToolError::WorktreeCreationFailed {
                    repo,
                    branch: self.issue.0.clone(),
                    reason: e.message(),
                },
            ),
        }
    }
}

/// What a call comes to: a repository that is not on the list is refused, with
/// the list; one of which a worktree is open is answered with its path, its name
/// and the issue's branch; any other is looked for.
pub proof fn law_calls_are_answered(
    issue: Seq<char>,
    allowed: Seq<String>,
    entries: Seq<RegisteredWorktree>,
    repo: String,
    step: OpenStep,
)
    requires
        answers_call(issue, allowed, entries, repo, step),
    ensures
        ({
            let permitted = exists|i: int|
                0 <= i < allowed.len() && (#[trigger] allowed[i])@ == repo@;
            let open = exists|i: int|
                0 <= i < entries.len() && (#[trigger] entries[i]).repo@ == repo@;
            &&& !permitted ==> (step matches OpenStep::Done(
                Err(ToolError::RepoNotInAllowlist { repo: r, allowed: all }),
            ) && r == repo && all@ == allowed)
            &&& permitted && !open ==> step == (OpenStep::Resolve { repo })
            &&& permitted && open ==> (step matches OpenStep::Done(Ok(out)) && out.repo@ == repo@
                && out.branch@ == issue && exists|i: int|
                0 <= i < entries.len() && (#[trigger] entries[i]).repo@ == repo@ && entries[i].path@
                    == out.path@)
        }),
{
    if exists|i: int| 0 <= i < allowed.len() && (#[trigger] allowed[i])@ == repo@ {
        assert(listed(allowed, repo@));
        if exists|i: int| 0 <= i < entries.len() && (#[trigger] entries[i]).repo@ == repo@ {
            let i = choose|i: int| 0 <= i < entries.len() && (#[trigger] entries[i]).repo@ == repo@;
            assert(of_repo(entries, repo@, i));
            assert(has_repo(entries, repo@));
            let out = step->Done_0->Ok_0;
            let j = choose|j: int|
                of_repo(entries, repo@, j) && output_is(out, entries[j].path@, repo@, issue);
            assert(entries[j].repo@ == repo@);
        } else if has_repo(entries, repo@) {
            let i = choose|i: int| of_repo(entries, repo@, i);
            assert(entries[i].repo@ == repo@);
        }
    } else if listed(allowed, repo@) {
        let i = choose|i: int| 0 <= i < allowed.len() && allowed[i]@ == repo@;
        assert(allowed[i]@ == repo@);
    }
}

/// What an opened worktree leaves: where the repository had none it is noted
/// last, with its path and the issue's branch, and its path is told; where it had
/// one, that one is told and nothing changes.
pub proof fn law_opened_worktrees_are_noted(
    issue: Seq<char>,
    before: Seq<RegisteredWorktree>,
    after: Seq<RegisteredWorktree>,
    repo: Seq<char>,
    path: Seq<char>,
    out: OpenOutput,
)
    requires
        opened(issue, before, after, repo, path, out),
    ensures
        out.repo@ == repo,
        out.branch@ == issue,
        ({
            let open = exists|i: int|
                0 <= i < before.len() && (#[trigger] before[i]).repo@ == repo;
            &&& open ==> after == before && exists|i: int|
                0 <= i < before.len() && (#[trigger] before[i]).repo@ == repo && before[i].path@
                    == out.path@
            &&& !open ==> out.path@ == path && after.len() == before.len() + 1 && after.drop_last()
                == before && after.last().repo@ == repo && after.last().branch@ == issue
                && after.last().path@ == path
        }),
{
    if exists|i: int| 0 <= i < before.len() && (#[trigger] before[i]).repo@ == repo {
        let i = choose|i: int| 0 <= i < before.len() && (#[trigger] before[i]).repo@ == repo;
        assert(of_repo(before, repo, i));
        assert(has_repo(before, repo));
        let j = choose|j: int|
            of_repo(before, repo, j) && output_is(out, before[j].path@, repo, issue);
        assert(before[j].repo@ == repo);
    } else {
        if has_repo(before, repo) {
            let i = choose|i: int| of_repo(before, repo, i);
            assert(before[i].repo@ == repo);
        }
        assert(after.drop_last() =~= after.take(before.len() as int));
    }
}

} // verus!

//! The worktree of an issue in a configured repository.
//!
//! The worktree stands beside the checkout, named by the issue. Two issues
//! whose names come to the same path do not share it: the second is refused.
use vstd::prelude::*;

use crate::orchestrator::state::IssueId;
use crate::path::{file_name_of, key_of, parent_of, path_key};
use crate::strmap::StrMap;
use crate::text::{chars_of, contains, has_text, join2, join3, str_eq};
use crate::tools::ghq::GhqError;
use crate::tools::wt::{place_fault, sibling, worktree_path_for, WtError};
use crate::tracker::model::RepoId;

verus! {

/// The `owner/repo` or `host/owner/repo` of a repository.
pub type GhqIdentifier = String;

#[derive(Debug, Clone, PartialEq, Eq)]
pub enum WorkspaceError {
    /// The identifier was refused before anything was run.
    InvalidIdentifier { reason: String },
    /// The repository is not configured.
    UnknownRepo { repo: String },
    /// Another issue holds the path.
    IdentifierCollision { incoming: String, existing_path: String },
    Ghq { identifier: String, source: GhqError },
    Wt { path: String, source: WtError },
}

impl WorkspaceError {
    pub open spec fn text(&self) -> Seq<char> {
        match self {
            WorkspaceError::InvalidIdentifier { reason } => "invalid identifier: "@ + reason@,
            WorkspaceError::UnknownRepo { repo } => "repo `"@ + repo@
                + "` is not configured (no ghq identifier registered)"@,
            WorkspaceError::IdentifierCollision { incoming, existing_path } =>
                "identifier collision: '"@ + incoming@
                    + "' would collide with existing worktree at "@ + existing_path@,
            WorkspaceError::Ghq { identifier, source } => "ghq error for `"@ + identifier@ + "`: "@
                + source.text(),
            WorkspaceError::Wt { path, source } => "wt error at "@ + path@ + ": "@ + (
            source.prefix() + source.detail()),
        }
    }

    /// The error in words.
    pub fn message(&self) -> (s: String)
        ensures
            s@ == self.text(),
    {
        match self {
            WorkspaceError::InvalidIdentifier { reason } => join2(
                "invalid identifier: ",
                reason.as_str(),
            ),
            WorkspaceError::UnknownRepo { repo } => join3(
                "repo `",
                repo.as_str(),
                "` is not configured (no ghq identifier registered)",
            ),
            WorkspaceError::IdentifierCollision { incoming, existing_path } => {
                let head = join3(
                    "identifier collision: '",
                    incoming.as_str(),
                    "' would collide with existing worktree at ",
                );
                join2(head.as_str(), existing_path.as_str())
            },
            WorkspaceError::Ghq { identifier, source } => {
                let head = join3("ghq error for `", identifier.as_str(), "`: ");
                join2(head.as_str(), source.message().as_str())
            },
            WorkspaceError::Wt { path, source } => {
                let head = join3("wt error at ", path.as_str(), ": ");
                join2(head.as_str(), source.message().as_str())
            },
        }
    }
}

/// Whom a worktree belongs to.
#[derive(Debug, PartialEq, Eq)]
pub struct TrackedWorktree {
    pub raw_repo: String,
    pub raw_issue: String,
}

/// `t` belongs to the issue in the repository.
pub open spec fn belongs(t: TrackedWorktree, repo: Seq<char>, issue: Seq<char>) -> bool {
    t.raw_repo@ == repo && t.raw_issue@ == issue
}

/// The path is in use for the issue in the repository.
pub open spec fn holds(
    state: Map<Seq<char>, TrackedWorktree>,
    path: Seq<char>,
    repo: Seq<char>,
    issue: Seq<char>,
) -> bool {
    state.contains_key(path_key(path)) && belongs(state[path_key(path)], repo, issue)
}

/// The path is in use for another issue or another repository.
pub open spec fn taken(
    state: Map<Seq<char>, TrackedWorktree>,
    path: Seq<char>,
    repo: Seq<char>,
    issue: Seq<char>,
) -> bool {
    state.contains_key(path_key(path)) && !belongs(state[path_key(path)], repo, issue)
}

/// The configured repositories, and the worktrees in use, by the components of
/// their paths: how a path is spelt does not count.
#[derive(Debug)]
pub struct WorkspaceManager {
    pub repo_index: StrMap<GhqIdentifier>,
    pub state: StrMap<TrackedWorktree>,
}

/// Where to make a worktree, and the path that it will have.
#[derive(Debug, PartialEq, Eq)]
pub struct Placement {
    pub repo_path: String,
    pub target: String,
}

/// The checkout can have worktrees beside it.
pub open spec fn has_siblings(repo_path: Seq<char>) -> bool {
    parent_of(repo_path) is Some && file_name_of(repo_path) is Some
}

/// `r` is the repository to look for, where the issue has a name and the
/// repository is configured.
pub open spec fn begun(
    index: Map<Seq<char>, String>,
    repo: Seq<char>,
    issue: Seq<char>,
    r: Result<GhqIdentifier, WorkspaceError>,
) -> bool {
    if issue.len() == 0 {
        r matches Err(WorkspaceError::InvalidIdentifier { reason }) && reason@
            == "issue id is empty"@
    } else if !index.contains_key(repo) {
        r matches Err(WorkspaceError::UnknownRepo { repo: x }) && x@ == repo
    } else {
        r == Ok::<String, WorkspaceError>(index[repo])
    }
}

/// `r` is where the worktree goes, once the checkout has been looked for.
pub open spec fn placed(
    state: Map<Seq<char>, TrackedWorktree>,
    repo: Seq<char>,
    issue: Seq<char>,
    identifier: GhqIdentifier,
    found: Result<String, GhqError>,
    r: Result<Placement, WorkspaceError>,
) -> bool {
    match found {
        Err(source) => r == Err::<Placement, WorkspaceError>(
            (WorkspaceError::Ghq { identifier, source }),
        ),
        Ok(path) => if !has_siblings(path@) {
            r matches Err(WorkspaceError::Wt { path: p, source }) && p == path && (
            source matches WtError::InvalidRepoPath { message } && message@ == place_fault(path@))
        } else if taken(state, sibling(path@, issue), repo, issue) {
            r matches Err(WorkspaceError::IdentifierCollision { incoming, existing_path })
                && incoming@ == repo + "/"@ + issue && existing_path@ == sibling(path@, issue)
        } else {
            r matches Ok(p) && p.repo_path == path && p.target@ == sibling(path@, issue)
        },
    }
}

/// `r` is what is answered once the worktree has been made, and `after` the
/// worktrees in use from then on.
pub open spec fn noted(
    before: Map<Seq<char>, TrackedWorktree>,
    after: Map<Seq<char>, TrackedWorktree>,
    repo: Seq<char>,
    issue: Seq<char>,
    target: String,
    made: Result<String, WtError>,
    r: Result<String, WorkspaceError>,
) -> bool {
    match made {
        Ok(path) => {
            &&& r == Ok::<String, WorkspaceError>(path)
            &&& holds(after, path@, repo, issue)
            &&& after.remove(path_key(path@)) == before.remove(path_key(path@))
        },
        Err(source) => {
            &&& r == Err::<String, WorkspaceError>((WorkspaceError::Wt { path: target, source }))
            &&& after == before
        },
    }
}

/// `r` is the worktree to remove, once the checkout has been looked for, and
/// `after` the worktrees in use from then on: without a checkout there is none
/// of the issue.
pub open spec fn located(
    before: Map<Seq<char>, TrackedWorktree>,
    after: Map<Seq<char>, TrackedWorktree>,
    repo: Seq<char>,
    issue: Seq<char>,
    identifier: GhqIdentifier,
    listed: Result<Option<String>, GhqError>,
    r: Result<Option<String>, WorkspaceError>,
) -> bool {
    match listed {
        Err(source) => {
            &&& r == Err::<Option<String>, WorkspaceError>(
                (WorkspaceError::Ghq { identifier, source }),
            )
            &&& after == before
        },
        Ok(None) => {
            &&& r == Ok::<Option<String>, WorkspaceError>(None)
            &&& forall|p: Seq<char>| #[trigger]
                after.contains_key(p) == (before.contains_key(p) && !belongs(
                    before[p],
                    repo,
                    issue,
                ))
            &&& forall|p: Seq<char>| after.contains_key(p) ==> #[trigger] after[p] == before[p]
        },
        Ok(Some(path)) => {
            &&& after == before
            &&& if has_siblings(path@) {
                r matches Ok(Some(w)) && w@ == sibling(path@, issue)
            } else {
                r matches Err(WorkspaceError::Wt { path: p, source }) && p == path && (
                source matches WtError::InvalidRepoPath { message } && message@ == place_fault(
                    path@,
                ))
            }
        },
    }
}

/// The worktree is gone: it has been removed, or was gone already.
pub open spec fn is_gone(outcome: Result<(), WtError>) -> bool {
    match outcome {
        Ok(_) => true,
        Err(WtError::NonZeroExit { message }) => tells_absence(lowercase_text(message@)),
        Err(_) => false,
    }
}

/// `r` is what is answered once a worktree has been removed, and `after` the
/// worktrees in use from then on.
pub open spec fn dropped(
    before: Map<Seq<char>, TrackedWorktree>,
    after: Map<Seq<char>, TrackedWorktree>,
    path: String,
    outcome: Result<(), WtError>,
    r: Result<(), WorkspaceError>,
) -> bool {
    if is_gone(outcome) {
        r is Ok && after == before.remove(path_key(path@))
    } else {
        r == Err::<(), WorkspaceError>((WorkspaceError::Wt { path, source: outcome->Err_0 }))
            && after == before
    }
}

impl WorkspaceManager {
    pub fn new(repo_index: StrMap<GhqIdentifier>) -> (m: WorkspaceManager)
        ensures
            m.repo_index == repo_index,
            m.state@ == Map::<Seq<char>, TrackedWorktree>::empty(),
    {
        WorkspaceManager { repo_index, state: StrMap::new() }
    }

    /// The repository to look for, where the issue has a name and the
    /// repository is configured.
    pub fn begin(&self, repo: &RepoId, issue: &IssueId) -> (r: Result<
        GhqIdentifier,
        WorkspaceError,
    >)
        ensures
            begun(self.repo_index@, repo@, issue@, r),
    {
        if chars_of(issue.as_str()).len() == 0 {
            return Err(
                WorkspaceError::InvalidIdentifier { reason: "issue id is empty".to_owned() },
            );
        }
        match self.repo_index.get(repo.as_str()) {
            Some(id) => Ok(id.clone()),
            None => Err(WorkspaceError::UnknownRepo { repo: repo.to_string() }),
        }
    }

    /// Decides where the worktree goes, once the checkout has been looked for.
    pub fn place(
        &self,
        repo: &RepoId,
        issue: &IssueId,
        identifier: GhqIdentifier,
        found: Result<String, GhqError>,
    ) -> (r: Result<Placement, WorkspaceError>)
        ensures
            placed(self.state@, repo@, issue@, identifier, found, r),
    {
        let repo_path = match found {
            Ok(p) => p,
            Err(source) => {
                return Err(WorkspaceError::Ghq { identifier, source });
            },
        };
        let target = match worktree_path_for(repo_path.as_str(), issue.as_str()) {
            Ok(t) => t,
            Err(source) => {
                return Err(WorkspaceError::Wt { path: repo_path, source });
            },
        };
        if let Some(t) = self.state.get(key_of(target.as_str()).as_str()) {
            if !str_eq(t.raw_repo.as_str(), repo.as_str()) || !str_eq(
                t.raw_issue.as_str(),
                issue.as_str(),
            ) {
                return Err(
                    WorkspaceError::IdentifierCollision {
                        incoming: join3(repo.as_str(), "/", issue.as_str()),
                        existing_path: target,
                    },
                );
            }
        }
        Ok(Placement { repo_path, target })
    }

    /// Takes note of the worktree, once it has been made.
    pub fn created(
        &mut self,
        repo: &RepoId,
        issue: &IssueId,
        target: String,
        made: Result<String, WtError>,
    ) -> (r: Result<String, WorkspaceError>)
        ensures
            final(self).repo_index == old(self).repo_index,
            noted(old(self).state@, final(self).state@, repo@, issue@, target, made, r),
    {
        match made {
            Ok(path) => {
                self.state.insert(
                    key_of(path.as_str()),
                    TrackedWorktree { raw_repo: repo.to_string(), raw_issue: issue.to_string() },
                );
                assert(self.state@.remove(path_key(path@)) =~= old(self).state@.remove(
                    path_key(path@),
                ));
                Ok(path)
            },
            Err(source) => Err(WorkspaceError::Wt { path: target, source }),
        }
    }

    /// Drops every note of the issue in the repository.
    fn forget(&mut self, repo: &str, issue: &str)
        ensures
            final(self).repo_index == old(self).repo_index,
            forall|p: Seq<char>| #[trigger]
                final(self).state@.contains_key(p) == (old(self).state@.contains_key(p) && !belongs(
                    old(self).state@[p],
                    repo@,
                    issue@,
                )),
            forall|p: Seq<char>|
                final(self).state@.contains_key(p) ==> #[trigger] final(self).state@[p] == old(
                    self).state@[p],
    {
        let ghost before = self.state@;
        let paths = self.state.keys();
        let ghost pairs = self.state.pairs();
        let mut i: usize = 0;
        while i < paths.len()
            invariant
                i <= paths.len(),
                before == crate::strmap::map_of(pairs),
                crate::strmap::ascending(pairs),
                paths@ == pairs.map_values(|p: (String, TrackedWorktree)| p.0),
                self.repo_index == old(self).repo_index,
                forall|p: Seq<char>| #[trigger]
                    self.state@.contains_key(p) ==> before.contains_key(p) && self.state@[p]
                        == before[p],
                forall|p: Seq<char>|
                    before.contains_key(p) && !belongs(#[trigger] before[p], repo@, issue@)
                        ==> self.state@.contains_key(p),
                forall|k: int|
                    0 <= k < i && belongs(before[(#[trigger] pairs[k]).0@], repo@, issue@)
                        ==> !self.state@.contains_key(pairs[k].0@),
            decreases paths.len() - i,
        {
            assert(paths@[i as int] == pairs[i as int].0);
            proof {
                crate::strmap::lemma_map_of(pairs, i as int);
            }
            let path = paths[i].as_str();
            let drop = match self.state.get(path) {
                Some(t) => str_eq(t.raw_repo.as_str(), repo) && str_eq(t.raw_issue.as_str(), issue),
                None => false,
            };
            if drop {
                self.state.remove(path);
            }
            i += 1;
        }
        proof {
            assert forall|p: Seq<char>| #[trigger] self.state@.contains_key(p) implies !belongs(
                before[p],
                repo@,
                issue@,
            ) by {
                assert(before.contains_key(p) && self.state@[p] == before[p]);
                assert(crate::strmap::has_key(pairs, p));
                let k = choose|k: int| crate::strmap::key_at(pairs, p, k);
                assert(pairs[k].0@ == p);
            }
            assert forall|p: Seq<char>| #[trigger] self.state@.contains_key(p) == (
            before.contains_key(p) && !belongs(before[p], repo@, issue@)) by {
                if self.state@.contains_key(p) {
                    assert(self.state@[p] == before[p]);
                }
                if before.contains_key(p) && !belongs(before[p], repo@, issue@) {
                    assert(!belongs(before[p], repo@, issue@));
                }
            }
        }
    }

    /// Decides which worktree to remove, once the checkout has been looked for.
    /// Where there is no checkout there is no worktree, and its note is dropped.
    pub fn locate(
        &mut self,
        repo: &RepoId,
        issue: &IssueId,
        identifier: GhqIdentifier,
        listed: Result<Option<String>, GhqError>,
    ) -> (r: Result<Option<String>, WorkspaceError>)
        ensures
            final(self).repo_index == old(self).repo_index,
            located(old(self).state@, final(self).state@, repo@, issue@, identifier, listed, r),
    {
        match listed {
            Err(source) => Err(WorkspaceError::Ghq { identifier, source }),
            Ok(None) => {
                self.forget(repo.as_str(), issue.as_str());
                Ok(None)
            },
            Ok(Some(path)) => match worktree_path_for(path.as_str(), issue.as_str()) {
                Ok(w) => Ok(Some(w)),
                Err(source) => Err(WorkspaceError::Wt { path, source }),
            },
        }
    }

    /// Drops the note of a worktree, once it has been removed. One that was
    /// gone already counts as removed.
    pub fn removed(&mut self, path: String, outcome: Result<(), WtError>) -> (r: Result<
        (),
        WorkspaceError,
    >)
        ensures
            final(self).repo_index == old(self).repo_index,
            dropped(old(self).state@, final(self).state@, path, outcome, r),
    {
        match outcome {
            Ok(_) => {},
            Err(source) => {
                let gone = match &source {
                    WtError::NonZeroExit { message } => message_indicates_absent(message.as_str()),
                    _ => false,
                };
                if !gone {
                    return Err(WorkspaceError::Wt { path, source });
                }
            },
        }
        self.state.remove(key_of(path.as_str()).as_str());
        Ok(())
    }

    /// What a fresh process can recover from memory: nothing.
    pub fn list_existing(&self) -> (r: Result<Vec<(RepoId, IssueId, String)>, WorkspaceError>)
        ensures
            r matches Ok(v) && v@.len() == 0,
    {
        Ok(Vec::new())
    }
}

// ---------------------------------------------------------------------------
// Step by step
// ---------------------------------------------------------------------------

/// What came of the last request.
#[derive(Debug)]
pub enum EnsureEvent {
    Begin,
    /// The checkout was looked for, and fetched where it was not there.
    Cloned(Result<String, GhqError>),
    /// The worktree was made that was to have the path `target`.
    Made { target: String, outcome: Result<String, WtError> },
}

/// What is to be done next to have a worktree.
#[derive(Debug, PartialEq, Eq)]
pub enum EnsureStep {
    /// Find the checkout of this repository, or fetch it.
    FindRepo(GhqIdentifier),
    /// Make the worktree.
    Create(Placement),
    /// The worktree is there.
    Done(String),
    /// Stop.
    Failed(WorkspaceError),
}

/// `step` answers `event`, and `after` are the worktrees in use from then on.
pub open spec fn ensured(
    index: Map<Seq<char>, String>,
    before: Map<Seq<char>, TrackedWorktree>,
    after: Map<Seq<char>, TrackedWorktree>,
    repo: Seq<char>,
    issue: Seq<char>,
    event: EnsureEvent,
    step: EnsureStep,
) -> bool {
    match event {
        EnsureEvent::Begin => after == before && match step {
            EnsureStep::FindRepo(id) => begun(index, repo, issue, Ok(id)),
            EnsureStep::Failed(e) => begun(index, repo, issue, Err(e)),
            _ => false,
        },
        EnsureEvent::Cloned(found) => after == before && if issue.len() > 0 && index.contains_key(
            repo,
        ) {
            match step {
                EnsureStep::Create(p) => placed(before, repo, issue, index[repo], found, Ok(p)),
                EnsureStep::Failed(e) => placed(before, repo, issue, index[repo], found, Err(e)),
                _ => false,
            }
        } else {
            step matches EnsureStep::Failed(e) && begun(index, repo, issue, Err(e))
        },
        EnsureEvent::Made { target, outcome } => match step {
            EnsureStep::Done(path) => noted(before, after, repo, issue, target, outcome, Ok(path)),
            EnsureStep::Failed(e) => noted(before, after, repo, issue, target, outcome, Err(e)),
            _ => false,
        },
    }
}

/// What came of the last request.
#[derive(Debug)]
pub enum RemoveEvent {
    Begin,
    /// The checkout was looked for.
    Listed(Result<Option<String>, GhqError>),
    /// The worktree at `path` was removed.
    Removed { path: String, outcome: Result<(), WtError> },
}

/// What is to be done next to be rid of a worktree.
#[derive(Debug, PartialEq, Eq)]
pub enum RemoveStep {
    /// Find the checkout of this repository.
    FindRepo(GhqIdentifier),
    /// Remove the worktree at this path.
    Remove(String),
    /// The worktree is gone.
    Done,
    /// Stop.
    Failed(WorkspaceError),
}

/// `step` answers `event`, and `after` are the worktrees in use from then on.
pub open spec fn rid_of(
    index: Map<Seq<char>, String>,
    before: Map<Seq<char>, TrackedWorktree>,
    after: Map<Seq<char>, TrackedWorktree>,
    repo: Seq<char>,
    issue: Seq<char>,
    event: RemoveEvent,
    step: RemoveStep,
) -> bool {
    match event {
        RemoveEvent::Begin => after == before && match step {
            RemoveStep::FindRepo(id) => begun(index, repo, issue, Ok(id)),
            RemoveStep::Failed(e) => begun(index, repo, issue, Err(e)),
            _ => false,
        },
        RemoveEvent::Listed(listed) => if issue.len() > 0 && index.contains_key(repo) {
            match step {
                RemoveStep::Remove(path) => located(
                    before,
                    after,
                    repo,
                    issue,
                    index[repo],
                    listed,
                    Ok(Some(path)),
                ),
                RemoveStep::Done => located(
                    before,
                    after,
                    repo,
                    issue,
                    index[repo],
                    listed,
                    Ok(None),
                ),
                RemoveStep::Failed(e) => located(
                    before,
                    after,
                    repo,
                    issue,
                    index[repo],
                    listed,
                    Err(e),
                ),
                _ => false,
            }
        } else {
            after == before && (step matches RemoveStep::Failed(e) && begun(
                index,
                repo,
                issue,
                Err(e),
            ))
        },
        RemoveEvent::Removed { path, outcome } => match step {
            RemoveStep::Done => dropped(before, after, path, outcome, Ok(())),
            RemoveStep::Failed(e) => dropped(before, after, path, outcome, Err(e)),
            _ => false,
        },
    }
}

impl WorkspaceManager {
    /// Brings about the worktree of an issue, step by step.
    pub fn ensure(&mut self, repo: &RepoId, issue: &IssueId, event: EnsureEvent) -> (step: EnsureStep)
        ensures
            final(self).repo_index == old(self).repo_index,
            ensured(
                old(self).repo_index@,
                old(self).state@,
                final(self).state@,
                repo@,
                issue@,
                event,
                step,
            ),
    {
        match event {
            EnsureEvent::Begin => match self.begin(repo, issue) {
                Ok(id) => EnsureStep::FindRepo(id),
                Err(e) => EnsureStep::Failed(e),
            },
            EnsureEvent::Cloned(found) => match self.begin(repo, issue) {
                Ok(id) => match self.place(repo, issue, id, found) {
                    Ok(p) => EnsureStep::Create(p),
                    Err(e) => EnsureStep::Failed(e),
                },
                Err(e) => EnsureStep::Failed(e),
            },
            EnsureEvent::Made { target, outcome } => {
                match self.created(repo, issue, target, outcome) {
                    Ok(path) => EnsureStep::Done(path),
                    Err(e) => EnsureStep::Failed(e),
                }
            },
        }
    }

    /// Removes the worktree of an issue, step by step.
    pub fn remove(&mut self, repo: &RepoId, issue: &IssueId, event: RemoveEvent) -> (step: RemoveStep)
        ensures
            final(self).repo_index == old(self).repo_index,
            rid_of(
                old(self).repo_index@,
                old(self).state@,
                final(self).state@,
                repo@,
                issue@,
                event,
                step,
            ),
    {
        match event {
            RemoveEvent::Begin => match self.begin(repo, issue) {
                Ok(id) => RemoveStep::FindRepo(id),
                Err(e) => RemoveStep::Failed(e),
            },
            RemoveEvent::Listed(listed) => match self.begin(repo, issue) {
                Ok(id) => match self.locate(repo, issue, id, listed) {
                    Ok(Some(path)) => RemoveStep::Remove(path),
                    Ok(None) => RemoveStep::Done,
                    Err(e) => RemoveStep::Failed(e),
                },
                Err(e) => RemoveStep::Failed(e),
            },
            RemoveEvent::Removed { path, outcome } => match self.removed(path, outcome) {
                Ok(_) => RemoveStep::Done,
                Err(e) => RemoveStep::Failed(e),
            },
        }
    }
}

/// A text in lower case, as `std` has it.
pub uninterp spec fn lowercase_text(s: Seq<char>) -> Seq<char>;

/// Calls `str::to_lowercase`; the contract claims that the result depends on
/// the text alone.
#[verifier::external_body]
fn to_lowercase(s: &str) -> (r: String)
    ensures
        r@ == lowercase_text(s@),
{
    s.to_lowercase()
}

/// A message in lower case says that there is no worktree.
pub open spec fn tells_absence(lowered: Seq<char>) -> bool {
    ||| has_text(lowered, "not a working tree"@)
    ||| has_text(lowered, "no such file or directory"@)
    ||| has_text(lowered, "does not exist"@)
}

/// Whether a message in lower case says that there is no worktree.
pub fn lowered_indicates_absent(lowered: &str) -> (r: bool)
    ensures
        r == tells_absence(lowered@),
{
    contains(lowered, "not a working tree") || contains(lowered, "no such file or directory")
        || contains(lowered, "does not exist")
}

/// Whether a message says, in any case, that there is no worktree.
pub fn message_indicates_absent(message: &str) -> (r: bool)
    ensures
        r == tells_absence(lowercase_text(message@)),
{
    lowered_indicates_absent(to_lowercase(message).as_str())
}

/// Two issues of a repository that come to the same path differ at most in
/// characters that are not safe in a path.
pub proof fn law_paths_agree_only_on_unsafe_characters(
    repo_path: Seq<char>,
    a: Seq<char>,
    b: Seq<char>,
)
    requires
        has_siblings(repo_path),
        sibling(repo_path, a) == sibling(repo_path, b),
    ensures
        crate::tools::wt::sanitized(a) == crate::tools::wt::sanitized(b),
        a.len() == b.len(),
{
    let dir = parent_of(repo_path)->0;
    let name = file_name_of(repo_path)->0;
    let x = name + "."@ + crate::tools::wt::sanitized(a);
    let y = name + "."@ + crate::tools::wt::sanitized(b);
    reveal_strlit(".");
    crate::path::lemma_file_name(repo_path);
    let head = if dir.len() == 0 {
        Seq::empty()
    } else if dir[dir.len() - 1] == '/' {
        dir
    } else {
        dir.push('/')
    };
    assert(x[0] == name[0]);
    assert(y[0] == name[0]);
    assert(!crate::path::is_absolute_path(x) && !crate::path::is_absolute_path(y));
    assert(crate::path::joined(dir, x) =~= head + x);
    assert(crate::path::joined(dir, y) =~= head + y);
    let n = head.len() + name.len() + 1;
    let p = head + x;
    let q = head + y;
    assert(p.subrange(n as int, p.len() as int) =~= crate::tools::wt::sanitized(a));
    assert(q.subrange(n as int, q.len() as int) =~= crate::tools::wt::sanitized(b));
    assert(crate::tools::wt::sanitized(a).len() == a.len());
    assert(crate::tools::wt::sanitized(b).len() == b.len());
}

/// No two issues share a worktree: a path that is in use for one is refused to
/// every other, however it is spelt, and not to the one that uses it.
pub proof fn law_no_worktree_is_shared(
    state: Map<Seq<char>, TrackedWorktree>,
    path: Seq<char>,
    again: Seq<char>,
    repo: Seq<char>,
    issue: Seq<char>,
    other_repo: Seq<char>,
    other_issue: Seq<char>,
)
    requires
        holds(state, path, repo, issue),
        path_key(again) == path_key(path),
    ensures
        taken(state, again, other_repo, other_issue) <==> (other_repo != repo || other_issue
            != issue),
{
}

/// An issue whose name comes to the path of another's worktree is refused, with
/// that path, before anything is made; nothing that is in use changes, and the
/// first issue still has its worktree when it asks again.
pub proof fn law_colliding_issue_is_refused(
    index: Map<Seq<char>, String>,
    before: Map<Seq<char>, TrackedWorktree>,
    held: Map<Seq<char>, TrackedWorktree>,
    repo: Seq<char>,
    first: Seq<char>,
    second: Seq<char>,
    checkout: String,
    target: String,
    path: String,
)
    requires
        index.contains_key(repo),
        first.len() > 0,
        second.len() > 0,
        first != second,
        crate::tools::wt::sanitized(first) == crate::tools::wt::sanitized(second),
        has_siblings(checkout@),
        path@ == sibling(checkout@, first),
        ensured(
            index,
            before,
            held,
            repo,
            first,
            (EnsureEvent::Made { target, outcome: Ok(path) }),
            EnsureStep::Done(path),
        ),
    ensures
        forall|after: Map<Seq<char>, TrackedWorktree>, step: EnsureStep| #[trigger]
            ensured(index, held, after, repo, second, EnsureEvent::Cloned(Ok(checkout)), step) ==> {
                &&& after == held
                &&& step matches EnsureStep::Failed(
                    WorkspaceError::IdentifierCollision { incoming, existing_path },
                )
                &&& incoming@ == repo + "/"@ + second
                &&& existing_path@ == path@
            },
        forall|after: Map<Seq<char>, TrackedWorktree>, step: EnsureStep| #[trigger]
            ensured(index, held, after, repo, first, EnsureEvent::Cloned(Ok(checkout)), step) ==> {
                &&& after == held
                &&& step matches EnsureStep::Create(p)
                &&& p.repo_path == checkout
                &&& p.target@ == path@
            },
        forall|again: String, after: Map<Seq<char>, TrackedWorktree>, step: EnsureStep| #[trigger]
            ensured(
                index,
                held,
                after,
                repo,
                first,
                (EnsureEvent::Made { target: again, outcome: Ok(path) }),
                step,
            ) ==> step == EnsureStep::Done(path) && holds(after, path@, repo, first),
{
    assert(sibling(checkout@, first) == sibling(checkout@, second));
}

/// A message tells of absence where it holds one of three phrases.
pub proof fn law_absence_is_told(before: Seq<char>, after: Seq<char>, phrase: Seq<char>)
    requires
        phrase == "not a working tree"@ || phrase == "no such file or directory"@ || phrase
            == "does not exist"@,
    ensures
        tells_absence(before.add(phrase).add(after)),
{
    let s = before.add(phrase).add(after);
    assert(s.subrange(before.len() as int, (before.len() + phrase.len()) as int) =~= phrase);
    assert(crate::text::occurs_at(s, phrase, before.len() as int));
    assert(has_text(s, phrase));
}

/// What tells of absence holds one of three phrases.
pub proof fn law_only_absence_is_told(s: Seq<char>)
    requires
        tells_absence(s),
    ensures
        exists|a: Seq<char>, p: Seq<char>, b: Seq<char>|
            s == #[trigger] a.add(p).add(b) && (p == "not a working tree"@ || p
                == "no such file or directory"@ || p == "does not exist"@),
{
    let p = if has_text(s, "not a working tree"@) {
        "not a working tree"@
    } else if has_text(s, "no such file or directory"@) {
        "no such file or directory"@
    } else {
        "does not exist"@
    };
    let i = choose|i: int| crate::text::occurs_at(s, p, i);
    assert(crate::text::occurs_at(s, p, i));
    let a = s.subrange(0, i);
    let b = s.subrange(i + p.len(), s.len() as int);
    assert(s =~= a.add(p).add(b));
}

/// How the worktree of an issue goes: without a name or a configured repository
/// nothing is looked for; the worktree beside the checkout that was found is
/// removed; where there is no checkout, what was noted of this issue in this
/// repository is dropped and nothing else; once the worktree is removed, or is
/// found to be gone, its note is dropped and no other; and any other failure is
/// passed on and changes nothing.
pub proof fn law_worktree_of_an_issue_goes(
    index: Map<Seq<char>, String>,
    before: Map<Seq<char>, TrackedWorktree>,
    after: Map<Seq<char>, TrackedWorktree>,
    repo: Seq<char>,
    issue: Seq<char>,
    event: RemoveEvent,
    step: RemoveStep,
    p: Seq<char>,
)
    requires
        rid_of(index, before, after, repo, issue, event, step),
    ensures
        event is Begin ==> after == before,
        event is Begin && issue.len() > 0 && index.contains_key(repo) ==> step
            == RemoveStep::FindRepo(index[repo]),
        issue.len() == 0 && !(event is Removed) ==> (step matches RemoveStep::Failed(
            WorkspaceError::InvalidIdentifier { .. },
        )),
        issue.len() > 0 && !index.contains_key(repo) && !(event is Removed) ==> (step
            matches RemoveStep::Failed(WorkspaceError::UnknownRepo { repo: x }) && x@ == repo),
        event matches RemoveEvent::Listed(listed) ==> (issue.len() > 0 && index.contains_key(repo)
            ==> match listed {
            Err(source) => after == before && step == RemoveStep::Failed(
                (WorkspaceError::Ghq { identifier: index[repo], source }),
            ),
            Ok(None) => step is Done && (after.contains_key(p) <==> before.contains_key(p) && !(
            before[p].raw_repo@ == repo && before[p].raw_issue@ == issue)) && (after.contains_key(p)
                ==> after[p] == before[p]),
            Ok(Some(path)) => after == before && (parent_of(path@) is Some && file_name_of(
                path@,
            ) is Some ==> (step matches RemoveStep::Remove(w) && w@ == sibling(path@, issue))) && (
            parent_of(path@) is None || file_name_of(path@) is None ==> (step
                matches RemoveStep::Failed(WorkspaceError::Wt { path: x, source: _ }) && x == path)),
        }),
        event matches RemoveEvent::Removed { path, outcome } ==> {
            let gone = outcome is Ok || (outcome matches Err(WtError::NonZeroExit { message })
                && tells_absence(lowercase_text(message@)));
            &&& gone ==> step is Done && (after.contains_key(p) <==> before.contains_key(p) && p
                != path_key(path@)) && (after.contains_key(p) ==> after[p] == before[p])
            &&& !gone ==> after == before && step == RemoveStep::Failed(
                (WorkspaceError::Wt { path, source: outcome->Err_0 }),
            )
        },
{
}

/// How the worktree of an issue comes about: the repository that is configured
/// is looked for; the worktree is placed beside its checkout, unless another
/// issue or repository has one there; once it is made it is noted as this
/// issue's in this repository, and no other note changes.
pub proof fn law_worktree_of_an_issue_comes_about(
    index: Map<Seq<char>, String>,
    before: Map<Seq<char>, TrackedWorktree>,
    after: Map<Seq<char>, TrackedWorktree>,
    repo: Seq<char>,
    issue: Seq<char>,
    event: EnsureEvent,
    step: EnsureStep,
    p: Seq<char>,
)
    requires
        ensured(index, before, after, repo, issue, event, step),
    ensures
        !(event is Made) ==> after == before,
        event is Begin && issue.len() > 0 && index.contains_key(repo) ==> step
            == EnsureStep::FindRepo(index[repo]),
        issue.len() == 0 && !(event is Made) ==> (step matches EnsureStep::Failed(
            WorkspaceError::InvalidIdentifier { .. },
        )),
        issue.len() > 0 && !index.contains_key(repo) && !(event is Made) ==> (step
            matches EnsureStep::Failed(WorkspaceError::UnknownRepo { repo: x }) && x@ == repo),
        event matches EnsureEvent::Cloned(found) ==> (issue.len() > 0 && index.contains_key(repo)
            ==> match found {
            Err(source) => step == EnsureStep::Failed(
                (WorkspaceError::Ghq { identifier: index[repo], source }),
            ),
            Ok(path) => {
                let placeable = parent_of(path@) is Some && file_name_of(path@) is Some;
                let key = path_key(sibling(path@, issue));
                let foreign = before.contains_key(key) && !(before[key].raw_repo@ == repo
                    && before[key].raw_issue@ == issue);
                &&& step is Create <==> placeable && !foreign
                &&& step matches EnsureStep::Create(x) ==> x.repo_path == path && x.target@
                    == sibling(path@, issue)
                &&& placeable && foreign ==> (step matches EnsureStep::Failed(
                    WorkspaceError::IdentifierCollision { .. },
                ))
                &&& !placeable ==> (step matches EnsureStep::Failed(
                    WorkspaceError::Wt { path: x, source: _ },
                ) && x == path)
            },
        }),
        event matches EnsureEvent::Made { target, outcome: Ok(path) } ==> {
            &&& step == EnsureStep::Done(path)
            &&& after.contains_key(path_key(path@))
            &&& after[path_key(path@)].raw_repo@ == repo
            &&& after[path_key(path@)].raw_issue@ == issue
            &&& p != path_key(path@) ==> (after.contains_key(p) <==> before.contains_key(p)) && (
            after.contains_key(p) ==> after[p] == before[p])
        },
        event matches EnsureEvent::Made { target, outcome: Err(source) } ==> after == before && step
            == EnsureStep::Failed((WorkspaceError::Wt { path: target, source })),
{
    if let EnsureEvent::Made { target, outcome: Ok(path) } = event {
        let key = path_key(path@);
        assert(after.remove(key) == before.remove(key));
        assert(after.remove(key).contains_key(p) == before.remove(key).contains_key(p));
        assert(after.remove(key)[p] == before.remove(key)[p]);
    }
}

/// A request that is refused is told why in words that name what was asked for.
pub proof fn law_refusals_are_told_in_words(
    index: Map<Seq<char>, String>,
    before: Map<Seq<char>, TrackedWorktree>,
    after: Map<Seq<char>, TrackedWorktree>,
    repo: Seq<char>,
    issue: Seq<char>,
    path: String,
    step: EnsureStep,
)
    ensures
        issue.len() == 0 && ensured(index, before, after, repo, issue, EnsureEvent::Begin, step)
            ==> (step matches EnsureStep::Failed(WorkspaceError::InvalidIdentifier { reason })
            && reason@ == "issue id is empty"@),
        issue.len() > 0 && index.contains_key(repo) && ensured(
            index,
            before,
            after,
            repo,
            issue,
            EnsureEvent::Cloned(Ok(path)),
            step,
        ) ==> (step matches EnsureStep::Failed(
            WorkspaceError::IdentifierCollision { incoming, existing_path },
        ) ==> incoming@ == repo + "/"@ + issue && existing_path@ == sibling(path@, issue)),
        issue.len() > 0 && index.contains_key(repo) && ensured(
            index,
            before,
            after,
            repo,
            issue,
            EnsureEvent::Cloned(Ok(path)),
            step,
        ) ==> (step matches EnsureStep::Failed(WorkspaceError::Wt { path: _, source }) ==> (source
            matches WtError::InvalidRepoPath { message } && (parent_of(path@) is None ==> message@
            == "repo path `"@ + path@ + "` has no parent"@) && (parent_of(path@) is Some ==> message@
            == "repo path `"@ + path@ + "` has no file name"@))),
{
}

} // verus!

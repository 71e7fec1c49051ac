//! The worktrees of an issue: made once, reused, and removed together.
use vstd::prelude::*;

use crate::config::RepoEntry;
use crate::orchestrator::actor::WorktreeOpError;
use crate::orchestrator::state::IssueId;
use crate::session::{id_fault, sanitize_issue_id, SessionError};
use crate::text::{clone_list, join2, join3, opt_view, str_eq, views};
use crate::tools::ghq::GhqError;
use crate::tools::wt::{WorktreePorcelainEntry, WtError};
use crate::tracker::model::RepoId;
use crate::worktree_manager::allowlist::{allowed, is_allowed};

pub mod allowlist;

verus! {

#[derive(Debug, Clone, PartialEq, Eq)]
pub enum WorktreeError {
    /// The repository is not configured.
    AllowlistRejected(String),
    /// The issue cannot name a branch.
    InvalidIssueId(SessionError),
    /// What should be on disk is not.
    FsPoison(String),
    Wt(WtError),
    Ghq(GhqError),
}

impl WorktreeError {
    pub open spec fn text(&self) -> Seq<char> {
        match self {
            WorktreeError::AllowlistRejected(repo) => "repo `"@ + repo@
                + "` is not in the [[repos]] allowlist"@,
            WorktreeError::InvalidIssueId(e) => e.text(),
            WorktreeError::FsPoison(cause) => "filesystem error: "@ + cause@,
            WorktreeError::Wt(e) => e.prefix() + e.detail(),
            WorktreeError::Ghq(e) => e.text(),
        }
    }

    /// The error in words.
    pub fn message(&self) -> (s: String)
        ensures
            s@ == self.text(),
    {
        match self {
            WorktreeError::AllowlistRejected(repo) => join3(
                "repo `",
                repo.as_str(),
                "` is not in the [[repos]] allowlist",
            ),
            WorktreeError::InvalidIssueId(e) => e.message(),
            WorktreeError::FsPoison(cause) => join2("filesystem error: ", cause.as_str()),
            WorktreeError::Wt(e) => e.message(),
            WorktreeError::Ghq(e) => e.message(),
        }
    }
}

/// The configured repositories.
#[derive(Debug)]
pub struct WorktreeManager {
    pub allowlist: Vec<RepoEntry>,
}

/// The entry is on the branch of the issue.
pub open spec fn of_issue(entry: WorktreePorcelainEntry, issue: Seq<char>) -> bool {
    opt_view(entry.branch) == Some(issue)
}

/// Entry `i` is the first one on the branch of the issue.
pub open spec fn first_of_issue(
    entries: Seq<WorktreePorcelainEntry>,
    issue: Seq<char>,
    i: int,
) -> bool {
    &&& 0 <= i < entries.len()
    &&& of_issue(entries[i], issue)
    &&& forall|k: int| 0 <= k < i ==> !of_issue(#[trigger] entries[k], issue)
}

/// The paths of the entries on the branch of the issue.
pub open spec fn paths_of_issue(
    entries: Seq<WorktreePorcelainEntry>,
    issue: Seq<char>,
    n: nat,
) -> Seq<Seq<char>>
    decreases n,
{
    if n == 0 {
        Seq::empty()
    } else if of_issue(entries[n - 1], issue) {
        paths_of_issue(entries, issue, (n - 1) as nat).push(entries[n - 1].path@)
    } else {
        paths_of_issue(entries, issue, (n - 1) as nat)
    }
}

fn matches_issue_branch(entry: &WorktreePorcelainEntry, issue: &IssueId) -> (r: bool)
    ensures
        r == of_issue(*entry, issue@),
{
    match &entry.branch {
        Some(b) => str_eq(b.as_str(), issue.as_str()),
        None => false,
    }
}

impl WorktreeManager {
    pub fn new(allowlist: Vec<RepoEntry>) -> (m: WorktreeManager)
        ensures
            m.allowlist == allowlist,
    {
        WorktreeManager { allowlist }
    }

    pub fn allowlist(&self) -> (v: &[RepoEntry])
        ensures
            v@ == self.allowlist@,
    {
        self.allowlist.as_slice()
    }

    /// Refuses a repository that is not configured.
    pub fn validate_repo_in_allowlist(&self, repo_id: &RepoId) -> (r: Result<(), WorktreeError>)
        ensures
            r is Ok == allowed(self.allowlist@, repo_id@),
            r matches Err(e) ==> e == WorktreeError::AllowlistRejected(repo_id.0),
    {
        if is_allowed(self.allowlist.as_slice(), repo_id) {
            Ok(())
        } else {
            Err(WorktreeError::AllowlistRejected(repo_id.0.clone()))
        }
    }

    /// Refuses an issue that cannot name a branch.
    pub fn check_issue(issue: &IssueId) -> (r: Result<(), WorktreeError>)
        ensures
            r is Ok == id_fault(issue@) is None,
            r matches Err(e) ==> (e matches WorktreeError::InvalidIssueId(
                SessionError::InvalidIssueId { id, reason },
            ) && id@ == issue@ && Some(reason@) == id_fault(issue@)),
    {
        match sanitize_issue_id(issue.as_str()) {
            Ok(_) => Ok(()),
            Err(e) => Err(WorktreeError::InvalidIssueId(e)),
        }
    }

    /// Whether a worktree may be asked for: the repository must be configured
    /// and the issue able to name a branch.
    pub fn check(&self, issue: &IssueId, repo_id: &RepoId) -> (r: Result<(), WorktreeError>)
        ensures
            r is Ok == (allowed(self.allowlist@, repo_id@) && id_fault(issue@) is None),
            r matches Err(e) ==> refusal(self.allowlist@, issue@, *repo_id, e),
    {
        match self.validate_repo_in_allowlist(repo_id) {
            Ok(_) => WorktreeManager::check_issue(issue),
            Err(e) => Err(e),
        }
    }

    /// The checkout of a repository, once it has been looked for. Nothing is
    /// fetched: a missing checkout is for the operator to see.
    pub fn resolve_repo_path(
        repo_id: &RepoId,
        listed: Result<Option<String>, GhqError>,
        on_disk: bool,
    ) -> (r: Result<String, WorktreeError>)
        ensures
            checkout_found(repo_id@, listed, on_disk, r),
    {
        match listed {
            Err(e) => Err(WorktreeError::Ghq(e)),
            Ok(None) => Err(
                WorktreeError::FsPoison(
                    join3(
                        "repo `",
                        repo_id.as_str(),
                        "` is in [[repos]] but not cloned via ghq",
                    ),
                ),
            ),
            Ok(Some(path)) => if on_disk {
                Ok(path)
            } else {
                Err(
                    WorktreeError::FsPoison(
                        join3(
                            "ghq returned `",
                            path.as_str(),
                            "` but the path is missing on disk",
                        ),
                    ),
                )
            },
        }
    }

    /// The worktree of the issue that is there already, if one is.
    pub fn reusable(entries: &Vec<WorktreePorcelainEntry>, issue: &IssueId) -> (r: Option<String>)
        ensures
            r is Some == (exists|i: int| first_of_issue(entries@, issue@, i)),
            r matches Some(path) ==> exists|i: int|
                first_of_issue(entries@, issue@, i) && path == entries@[i].path,
    {
        let mut i: usize = 0;
        while i < entries.len()
            invariant
                i <= entries.len(),
                forall|k: int| 0 <= k < i ==> !of_issue(#[trigger] entries@[k], issue@),
            decreases entries.len() - i,
        {
            if matches_issue_branch(&entries[i], issue) {
                assert(first_of_issue(entries@, issue@, i as int));
                return Some(entries[i].path.clone());
            }
            i += 1;
        }
        None
    }

    /// The worktrees of the issue, to be removed. Others are left alone.
    pub fn removable(entries: &Vec<WorktreePorcelainEntry>, issue: &IssueId) -> (out: Vec<String>)
        ensures
            views(out@) == paths_of_issue(entries@, issue@, entries@.len()),
    {
        let mut out: Vec<String> = Vec::new();
        assert(views(out@) =~= paths_of_issue(entries@, issue@, 0));
        let mut i: usize = 0;
        while i < entries.len()
            invariant
                i <= entries.len(),
                views(out@) == paths_of_issue(entries@, issue@, i as nat),
            decreases entries.len() - i,
        {
            if matches_issue_branch(&entries[i], issue) {
                let ghost before = views(out@);
                out.push(entries[i].path.clone());
                assert(views(out@) =~= before.push(entries@[i as int].path@));
            }
            i += 1;
        }
        out
    }
}

// ---------------------------------------------------------------------------
// Having a worktree
// ---------------------------------------------------------------------------

/// What came of the last request.
#[derive(Debug)]
pub enum EnsureEvent {
    Begin,
    /// The checkout was looked for; `on_disk` says whether its path is there.
    Found { listed: Result<Option<String>, GhqError>, on_disk: bool },
    /// The worktrees of the checkout at `repo_path` were listed.
    Listed { repo_path: String, outcome: Result<Vec<WorktreePorcelainEntry>, WtError> },
    /// The worktree was made.
    Made(Result<String, WtError>),
}

/// What is to be done next.
#[derive(Debug, PartialEq, Eq)]
pub enum EnsureStep {
    /// Find the checkout of this repository.
    FindRepo(String),
    /// List the worktrees of this checkout.
    ListWorktrees(String),
    /// Make a worktree of this checkout.
    Create(String),
    /// The worktree is there.
    Done(String),
    /// Stop.
    Failed(WorktreeError),
}

/// The repository is not configured, or the issue cannot name a branch.
pub open spec fn refusal(
    allowlist: Seq<RepoEntry>,
    issue: Seq<char>,
    repo: RepoId,
    e: WorktreeError,
) -> bool {
    if !allowed(allowlist, repo@) {
        e == WorktreeError::AllowlistRejected(repo.0)
    } else {
        e matches WorktreeError::InvalidIssueId(SessionError::InvalidIssueId { id, reason }) && id@
            == issue && Some(reason@) == id_fault(issue)
    }
}

/// `r` is what comes of looking for the checkout of a repository.
pub open spec fn checkout_found(
    repo: Seq<char>,
    listed: Result<Option<String>, GhqError>,
    on_disk: bool,
    r: Result<String, WorktreeError>,
) -> bool {
    match listed {
        Err(e) => r == Err::<String, WorktreeError>(WorktreeError::Ghq(e)),
        Ok(None) => r matches Err(WorktreeError::FsPoison(m)) && m@ == "repo `"@ + repo
            + "` is in [[repos]] but not cloned via ghq"@,
        Ok(Some(path)) => if on_disk {
            r == Ok::<String, WorktreeError>(path)
        } else {
            r matches Err(WorktreeError::FsPoison(m)) && m@ == "ghq returned `"@ + path@
                + "` but the path is missing on disk"@
        },
    }
}

/// `step` answers `event`: the request is checked before anything is run, the
/// checkout is looked for, its worktrees are listed, and one is made only where
/// the issue has none.
pub open spec fn brings_on(
    allowlist: Seq<RepoEntry>,
    issue: Seq<char>,
    repo: RepoId,
    event: EnsureEvent,
    step: EnsureStep,
) -> bool {
    match event {
        EnsureEvent::Begin => if allowed(allowlist, repo@) && id_fault(issue) is None {
            step matches EnsureStep::FindRepo(id) && id@ == repo@
        } else {
            step matches EnsureStep::Failed(e) && refusal(allowlist, issue, repo, e)
        },
        EnsureEvent::Found { listed, on_disk } => match step {
            EnsureStep::ListWorktrees(path) => checkout_found(repo@, listed, on_disk, Ok(path)),
            EnsureStep::Failed(e) => checkout_found(repo@, listed, on_disk, Err(e)),
            _ => false,
        },
        EnsureEvent::Listed { repo_path, outcome: Ok(entries) } => if exists|i: int|
            first_of_issue(entries@, issue, i) {
            step matches EnsureStep::Done(path) && exists|i: int|
                first_of_issue(entries@, issue, i) && path == entries@[i].path
        } else {
            step == EnsureStep::Create(repo_path)
        },
        EnsureEvent::Listed { repo_path, outcome: Err(e) } => step == EnsureStep::Failed(
            WorktreeError::Wt(e),
        ),
        EnsureEvent::Made(Ok(path)) => step == EnsureStep::Done(path),
        EnsureEvent::Made(Err(e)) => step == EnsureStep::Failed(WorktreeError::Wt(e)),
    }
}

impl WorktreeManager {
    /// Brings about the worktree of an issue, step by step: one that is there is
    /// reused.
    pub fn ensure(&self, issue: &IssueId, repo_id: &RepoId, event: EnsureEvent) -> (step: EnsureStep)
        ensures
            brings_on(self.allowlist@, issue@, *repo_id, event, step),
    {
        match event {
            EnsureEvent::Begin => match self.check(issue, repo_id) {
                Ok(_) => EnsureStep::FindRepo(repo_id.to_string()),
                Err(e) => EnsureStep::Failed(e),
            },
            EnsureEvent::Found { listed, on_disk } => {
                match WorktreeManager::resolve_repo_path(repo_id, listed, on_disk) {
                    Ok(path) => EnsureStep::ListWorktrees(path),
                    Err(e) => EnsureStep::Failed(e),
                }
            },
            EnsureEvent::Listed { repo_path, outcome } => match outcome {
                Ok(entries) => match WorktreeManager::reusable(&entries, issue) {
                    Some(path) => EnsureStep::Done(path),
                    None => EnsureStep::Create(repo_path),
                },
                Err(e) => EnsureStep::Failed(WorktreeError::Wt(e)),
            },
            EnsureEvent::Made(Ok(path)) => EnsureStep::Done(path),
            EnsureEvent::Made(Err(e)) => EnsureStep::Failed(WorktreeError::Wt(e)),
        }
    }
}

/// A worktree is made only where none can be reused: in the checkout whose list
/// has come in, and only if no entry of that list is on the branch of the issue.
pub proof fn law_worktree_is_made_only_where_none_is_there(
    allowlist: Seq<RepoEntry>,
    issue: Seq<char>,
    repo: RepoId,
    event: EnsureEvent,
    step: EnsureStep,
)
    requires
        brings_on(allowlist, issue, repo, event, step),
        step is Create,
    ensures
        event matches EnsureEvent::Listed { repo_path, outcome: Ok(entries) } && step
            == EnsureStep::Create(repo_path) && forall|i: int|
            0 <= i < entries@.len() ==> !of_issue(#[trigger] entries@[i], issue),
{
    let entries = event->outcome->Ok_0;
    assert forall|i: int| 0 <= i < entries@.len() implies !of_issue(#[trigger] entries@[i], issue) by {
        if of_issue(entries@[i], issue) {
            law_existing_worktree_is_reused(entries@, issue, i);
        }
    }
}

// ---------------------------------------------------------------------------
// Removing the worktrees of an issue
// ---------------------------------------------------------------------------

/// How far the removal of an issue's worktrees has come.
#[derive(Debug)]
pub struct Cleanup {
    /// How many repositories have been gone through.
    at: usize,
    /// The worktrees of the last one that are still to be removed.
    queue: Vec<String>,
    removed: Vec<String>,
}

/// What came of the last request.
#[derive(Debug)]
pub enum CleanupEvent {
    Begin,
    Found(Result<Option<String>, GhqError>),
    Listed(Result<Vec<WorktreePorcelainEntry>, WtError>),
    Removed(Result<(), WtError>),
}

/// What is to be done next.
#[derive(Debug, PartialEq, Eq)]
pub enum CleanupStep {
    /// Find the checkout of this repository.
    FindRepo(String),
    /// List the worktrees of this checkout.
    ListWorktrees(String),
    /// Remove this worktree.
    Remove(String),
    /// All of these have been removed.
    Done(Vec<String>),
    /// Stop.
    Failed(WorktreeError),
}

#[verifier::ext_equal]
pub struct CleanupView {
    pub at: nat,
    pub queue: Seq<Seq<char>>,
    pub removed: Seq<Seq<char>>,
}

impl View for Cleanup {
    type V = CleanupView;

    closed spec fn view(&self) -> CleanupView {
        CleanupView { at: self.at as nat, queue: views(self.queue@), removed: views(self.removed@) }
    }
}

/// `n`, or the next number where that is at most `limit`.
pub open spec fn one_on(n: nat, limit: nat) -> nat {
    if n < limit {
        n + 1
    } else {
        n
    }
}

/// How far the removal has come once `event` has come in; `repos` is how many
/// repositories there are.
pub open spec fn cleaned_up(
    c: CleanupView,
    repos: nat,
    issue: Seq<char>,
    event: CleanupEvent,
) -> CleanupView {
    match event {
        CleanupEvent::Found(Ok(None)) => CleanupView { at: one_on(c.at, repos), ..c },
        CleanupEvent::Listed(Ok(entries)) => CleanupView {
            at: one_on(c.at, repos),
            queue: paths_of_issue(entries@, issue, entries@.len()),
            ..c
        },
        CleanupEvent::Removed(Ok(_)) => if c.queue.len() > 0 {
            CleanupView { queue: c.queue.skip(1), removed: c.removed.push(c.queue[0]), ..c }
        } else {
            c
        },
        _ => c,
    }
}

/// `step` goes on from `c`: the worktrees that were found are removed, then the
/// next repository is gone through, and in the end everything is reported.
pub open spec fn goes_on(allowlist: Seq<RepoEntry>, c: CleanupView, step: CleanupStep) -> bool {
    if c.queue.len() > 0 {
        step matches CleanupStep::Remove(path) && path@ == c.queue[0]
    } else if c.at < allowlist.len() {
        step matches CleanupStep::FindRepo(ghq) && ghq@ == allowlist[c.at as int].ghq@
    } else {
        step matches CleanupStep::Done(paths) && views(paths@) == c.removed
    }
}

/// `step` answers `event`. The first failure is the end; a repository that is
/// not cloned has no worktrees.
pub open spec fn answers(
    allowlist: Seq<RepoEntry>,
    issue: Seq<char>,
    before: CleanupView,
    event: CleanupEvent,
    step: CleanupStep,
) -> bool {
    match event {
        CleanupEvent::Begin if id_fault(issue) is Some => step matches CleanupStep::Failed(
            WorktreeError::InvalidIssueId(SessionError::InvalidIssueId { id, reason }),
        ) && id@ == issue && Some(reason@) == id_fault(issue),
        CleanupEvent::Found(Err(e)) => step == CleanupStep::Failed(WorktreeError::Ghq(e)),
        CleanupEvent::Found(Ok(Some(path))) => step == CleanupStep::ListWorktrees(path),
        CleanupEvent::Listed(Err(e)) => step == CleanupStep::Failed(WorktreeError::Wt(e)),
        CleanupEvent::Removed(Err(e)) => step == CleanupStep::Failed(WorktreeError::Wt(e)),
        _ => goes_on(allowlist, cleaned_up(before, allowlist.len(), issue, event), step),
    }
}

impl Cleanup {
    /// Nothing has been gone through.
    pub fn new() -> (c: Cleanup)
        ensures
            c@ == (CleanupView { at: 0, queue: Seq::empty(), removed: Seq::empty() }),
    {
        let c = Cleanup { at: 0, queue: Vec::new(), removed: Vec::new() };
        assert(views(c.queue@) =~= Seq::empty());
        assert(views(c.removed@) =~= Seq::empty());
        c
    }

    fn next(&self, allowlist: &Vec<RepoEntry>) -> (step: CleanupStep)
        ensures
            goes_on(allowlist@, self@, step),
    {
        if self.queue.len() > 0 {
            return CleanupStep::Remove(self.queue[0].clone());
        }
        if self.at < allowlist.len() {
            return CleanupStep::FindRepo(allowlist[self.at].ghq.clone());
        }
        CleanupStep::Done(clone_list(&self.removed))
    }
}

impl WorktreeManager {
    /// Removes the worktrees of an issue, repository by repository.
    pub fn cleanup(&self, issue: &IssueId, state: &mut Cleanup, event: CleanupEvent) -> (step:
        CleanupStep)
        ensures
            final(state)@ == cleaned_up(old(state)@, self.allowlist@.len(), issue@, event),
            answers(self.allowlist@, issue@, old(state)@, event, step),
    {
        match event {
            CleanupEvent::Begin => {
                if let Err(e) = WorktreeManager::check_issue(issue) {
                    return CleanupStep::Failed(e);
                }
            },
            CleanupEvent::Found(Err(e)) => {
                return CleanupStep::Failed(WorktreeError::Ghq(e));
            },
            CleanupEvent::Found(Ok(Some(path))) => {
                return CleanupStep::ListWorktrees(path);
            },
            CleanupEvent::Found(Ok(None)) => {
                if state.at < self.allowlist.len() {
                    state.at = state.at + 1;
                }
            },
            CleanupEvent::Listed(Err(e)) => {
                return CleanupStep::Failed(WorktreeError::Wt(e));
            },
            CleanupEvent::Listed(Ok(entries)) => {
                if state.at < self.allowlist.len() {
                    state.at = state.at + 1;
                }
                state.queue = WorktreeManager::removable(&entries, issue);
            },
            CleanupEvent::Removed(Err(e)) => {
                return CleanupStep::Failed(WorktreeError::Wt(e));
            },
            CleanupEvent::Removed(Ok(_)) => {
                if state.queue.len() > 0 {
                    let ghost queue = views(state.queue@);
                    let ghost removed = views(state.removed@);
                    let path = state.queue.remove(0);
                    let ghost text = path@;
                    state.removed.push(path);
                    assert(views(state.queue@) =~= queue.skip(1));
                    assert(views(state.removed@) =~= removed.push(text));
                }
            },
        }
        state.next(&self.allowlist)
    }
}

/// The removal comes to an end: every answer to a request that does not fail
/// brings it on to a later repository, or leaves fewer worktrees of the same
/// one; only finding a checkout waits for its list.
pub proof fn law_cleanup_ends(c: CleanupView, repos: nat, issue: Seq<char>, event: CleanupEvent)
    requires
        event matches CleanupEvent::Removed(_) || c.at < repos,
        event matches CleanupEvent::Removed(Ok(_)) ==> c.queue.len() > 0,
    ensures
        event matches CleanupEvent::Found(Ok(None)) ==> cleaned_up(c, repos, issue, event).at == c.at + 1,
        event matches CleanupEvent::Listed(Ok(_)) ==> cleaned_up(c, repos, issue, event).at == c.at + 1,
        event matches CleanupEvent::Removed(Ok(_)) ==> cleaned_up(c, repos, issue, event).at == c.at
            && cleaned_up(c, repos, issue, event).queue.len() < c.queue.len(),
{
}

/// Nothing that was found is forgotten: a worktree that was to be removed still
/// is, or has been.
pub proof fn law_cleanup_forgets_nothing(c: CleanupView, repos: nat, issue: Seq<char>)
    requires
        c.queue.len() > 0,
    ensures
        ({
            let d = cleaned_up(c, repos, issue, CleanupEvent::Removed(Ok(())));
            d.removed + d.queue == c.removed + c.queue
        }),
{
    let d = cleaned_up(c, repos, issue, CleanupEvent::Removed(Ok(())));
    assert(d.removed + d.queue =~= c.removed + c.queue);
}

/// What the orchestrator is told of a failure.
pub fn map_worktree_error(err: WorktreeError) -> (e: WorktreeOpError)
    ensures
        match err {
            WorktreeError::AllowlistRejected(repo) => e == WorktreeOpError::AllowlistRejected(repo),
            WorktreeError::FsPoison(cause) => e == WorktreeOpError::FsPoison(cause),
            other => e matches WorktreeOpError::Other(m) && m@ == other.text(),
        },
{
    match err {
        WorktreeError::AllowlistRejected(repo) => WorktreeOpError::AllowlistRejected(repo),
        WorktreeError::FsPoison(cause) => WorktreeOpError::FsPoison(cause),
        other => WorktreeOpError::Other(other.message()),
    }
}

/// Only worktrees of the issue are removed.
pub proof fn law_other_worktrees_survive(
    entries: Seq<WorktreePorcelainEntry>,
    issue: Seq<char>,
    n: nat,
    path: Seq<char>,
)
    requires
        n <= entries.len(),
        paths_of_issue(entries, issue, n).contains(path),
    ensures
        exists|i: int|
            0 <= i < n && of_issue(#[trigger] entries[i], issue) && entries[i].path@ == path,
    decreases n,
{
    if n > 0 {
        let all = paths_of_issue(entries, issue, n);
        let shorter = paths_of_issue(entries, issue, (n - 1) as nat);
        let k = choose|k: int| 0 <= k < all.len() && all[k] == path;
        if of_issue(entries[n - 1], issue) && k == shorter.len() {
            assert(entries[n - 1].path@ == path);
        } else {
            assert(shorter[k] == path);
            law_other_worktrees_survive(entries, issue, (n - 1) as nat, path);
        }
    }
}

/// A worktree that is there is not made a second time.
pub proof fn law_existing_worktree_is_reused(
    entries: Seq<WorktreePorcelainEntry>,
    issue: Seq<char>,
    i: int,
)
    requires
        0 <= i < entries.len(),
        of_issue(entries[i], issue),
    ensures
        exists|k: int| first_of_issue(entries, issue, k),
    decreases i,
{
    if exists|k: int| 0 <= k < i && of_issue(#[trigger] entries[k], issue) {
        let k = choose|k: int| 0 <= k < i && of_issue(#[trigger] entries[k], issue);
        law_existing_worktree_is_reused(entries, issue, k);
    } else {
        assert(first_of_issue(entries, issue, i));
    }
}

/// Every worktree whose branch bears the name of the issue is removed, and none
/// whose branch bears another or that is on no branch.
pub proof fn law_all_worktrees_of_an_issue_are_removed(
    entries: Seq<WorktreePorcelainEntry>,
    issue: Seq<char>,
    n: nat,
    path: Seq<char>,
)
    requires
        n <= entries.len(),
    ensures
        paths_of_issue(entries, issue, n).contains(path) <==> exists|i: int|
            0 <= i < n && (#[trigger] entries[i]).branch is Some && entries[i].branch->0@ == issue
                && entries[i].path@ == path,
    decreases n,
{
    let all = paths_of_issue(entries, issue, n);
    if all.contains(path) {
        law_other_worktrees_survive(entries, issue, n, path);
        let i = choose|i: int|
            0 <= i < n && of_issue(#[trigger] entries[i], issue) && entries[i].path@ == path;
        assert(entries[i].branch is Some && entries[i].branch->0@ == issue);
    }
    if exists|i: int|
        0 <= i < n && (#[trigger] entries[i]).branch is Some && entries[i].branch->0@ == issue
            && entries[i].path@ == path {
        let i = choose|i: int|
            0 <= i < n && (#[trigger] entries[i]).branch is Some && entries[i].branch->0@ == issue
                && entries[i].path@ == path;
        let m = (n - 1) as nat;
        law_all_worktrees_of_an_issue_are_removed(entries, issue, m, path);
        let shorter = paths_of_issue(entries, issue, m);
        if i == n - 1 {
            assert(of_issue(entries[i], issue));
            assert(all[all.len() - 1] == path);
        } else {
            assert(shorter.contains(path));
            let k = choose|k: int| 0 <= k < shorter.len() && shorter[k] == path;
            assert(all[k] == path);
        }
    }
}

/// How a worktree comes about: a repository that is not configured is refused by
/// its name, before the issue is looked at; the checkout that was found is the
/// one whose worktrees are listed, unless it is missing; the first worktree on
/// the issue's branch is taken, or else one is made in that checkout; and a
/// failure is passed on as it came.
pub proof fn law_worktrees_come_about(
    allowlist: Seq<RepoEntry>,
    issue: Seq<char>,
    repo: RepoId,
    event: EnsureEvent,
    step: EnsureStep,
)
    requires
        brings_on(allowlist, issue, repo, event, step),
    ensures
        ({
            let configured = exists|i: int|
                0 <= i < allowlist.len() && (#[trigger] allowlist[i]).ghq@ == repo@;
            event is Begin ==> {
                &&& configured && id_fault(issue) is None <==> step is FindRepo
                &&& step matches EnsureStep::FindRepo(id) ==> id@ == repo@
                &&& !configured ==> step == EnsureStep::Failed(
                    WorktreeError::AllowlistRejected(repo.0),
                )
                &&& configured && id_fault(issue) is Some ==> (step matches EnsureStep::Failed(
                    WorktreeError::InvalidIssueId(SessionError::InvalidIssueId { id, reason }),
                ) && id@ == issue && Some(reason@) == id_fault(issue))
            }
        }),
        event matches EnsureEvent::Found { listed, on_disk } ==> {
            &&& step is ListWorktrees <==> listed is Ok && listed->Ok_0 is Some && on_disk
            &&& step matches EnsureStep::ListWorktrees(p) ==> listed == Ok::<
                Option<String>,
                GhqError,
            >(Some(p))
            &&& listed matches Err(e) ==> step == EnsureStep::Failed(WorktreeError::Ghq(e))
            &&& listed is Ok && !(listed->Ok_0 is Some && on_disk) ==> (step
                matches EnsureStep::Failed(WorktreeError::FsPoison(_)))
        },
        event matches EnsureEvent::Listed { repo_path, outcome: Ok(entries) } ==> {
            let there = exists|i: int|
                0 <= i < entries@.len() && (#[trigger] entries@[i]).branch is Some
                    && entries@[i].branch->0@ == issue;
            &&& !there ==> step == EnsureStep::Create(repo_path)
            &&& there ==> (step matches EnsureStep::Done(p) && exists|i: int|
                0 <= i < entries@.len() && (#[trigger] entries@[i]).branch is Some
                    && entries@[i].branch->0@ == issue && entries@[i].path == p && forall|k: int|
                    0 <= k < i ==> !((#[trigger] entries@[k]).branch is Some
                        && entries@[k].branch->0@ == issue))
        },
        event matches EnsureEvent::Listed { repo_path, outcome: Err(e) } ==> step
            == EnsureStep::Failed(WorktreeError::Wt(e)),
        event matches EnsureEvent::Made(Ok(p)) ==> step == EnsureStep::Done(p),
        event matches EnsureEvent::Made(Err(e)) ==> step == EnsureStep::Failed(
            WorktreeError::Wt(e),
        ),
{
    if let EnsureEvent::Listed { repo_path, outcome: Ok(entries) } = event {
        if exists|i: int|
            0 <= i < entries@.len() && (#[trigger] entries@[i]).branch is Some
                && entries@[i].branch->0@ == issue {
            let i = choose|i: int|
                0 <= i < entries@.len() && (#[trigger] entries@[i]).branch is Some
                    && entries@[i].branch->0@ == issue;
            assert(of_issue(entries@[i], issue));
            law_existing_worktree_is_reused(entries@, issue, i);
            let p = step->Done_0;
            let k = choose|k: int| first_of_issue(entries@, issue, k) && p == entries@[k].path;
            assert(first_of_issue(entries@, issue, k) && p == entries@[k].path);
            assert forall|x: int| 0 <= x < k implies !((#[trigger] entries@[x]).branch is Some
                && entries@[x].branch->0@ == issue) by {
                assert(!of_issue(entries@[x], issue));
            }
            assert(entries@[k].branch is Some && entries@[k].branch->0@ == issue);
        } else if exists|i: int| first_of_issue(entries@, issue, i) {
            let i = choose|i: int| first_of_issue(entries@, issue, i);
            assert(entries@[i].branch is Some && entries@[i].branch->0@ == issue);
        }
    }
}

/// How the worktrees of an issue go: a checkout that was found has its worktrees
/// listed; what is still to be removed is removed one by one; then the next
/// repository of the list is looked for; at its end everything that was removed
/// is reported; and the first failure ends it.
pub proof fn law_worktrees_go(
    allowlist: Seq<RepoEntry>,
    issue: Seq<char>,
    before: CleanupView,
    event: CleanupEvent,
    step: CleanupStep,
)
    requires
        answers(allowlist, issue, before, event, step),
    ensures
        event matches CleanupEvent::Found(Err(e)) ==> step == CleanupStep::Failed(
            WorktreeError::Ghq(e),
        ),
        event matches CleanupEvent::Found(Ok(Some(p))) ==> step == CleanupStep::ListWorktrees(p),
        event matches CleanupEvent::Listed(Err(e)) ==> step == CleanupStep::Failed(
            WorktreeError::Wt(e),
        ),
        event matches CleanupEvent::Removed(Err(e)) ==> step == CleanupStep::Failed(
            WorktreeError::Wt(e),
        ),
        event is Begin && id_fault(issue) is Some ==> (step matches CleanupStep::Failed(
            WorktreeError::InvalidIssueId(_),
        )),
        event matches CleanupEvent::Removed(Ok(_)) && before.queue.len() > 1 ==> (step
            matches CleanupStep::Remove(p) && p@ == before.queue[1]),
        event matches CleanupEvent::Removed(Ok(_)) && before.queue.len() == 1 && before.at
            < allowlist.len() ==> (step matches CleanupStep::FindRepo(g) && g@
            == allowlist[before.at as int].ghq@),
        event matches CleanupEvent::Removed(Ok(_)) && before.queue.len() == 1 && before.at
            >= allowlist.len() ==> (step matches CleanupStep::Done(l) && views(l@)
            == before.removed.push(before.queue[0])),
        event is Begin && id_fault(issue) is None && before.queue.len() == 0 && before.at
            < allowlist.len() ==> (step matches CleanupStep::FindRepo(g) && g@
            == allowlist[before.at as int].ghq@),
        event matches CleanupEvent::Found(Ok(None)) && before.queue.len() == 0 && before.at + 1
            < allowlist.len() ==> (step matches CleanupStep::FindRepo(g) && g@
            == allowlist[before.at + 1int].ghq@),
        event matches CleanupEvent::Found(Ok(None)) && before.queue.len() == 0 && before.at + 1
            >= allowlist.len() ==> (step matches CleanupStep::Done(l) && views(l@)
            == before.removed),
        event matches CleanupEvent::Listed(Ok(entries)) ==> {
            let found = paths_of_issue(entries@, issue, entries@.len());
            &&& found.len() > 0 ==> (step matches CleanupStep::Remove(p) && p@ == found[0])
            &&& found.len() == 0 && before.at + 1 < allowlist.len() ==> (step
                matches CleanupStep::FindRepo(g) && g@ == allowlist[before.at + 1int].ghq@)
            &&& found.len() == 0 && before.at + 1 >= allowlist.len() ==> (step
                matches CleanupStep::Done(l) && views(l@) == before.removed)
        },
{
}

} // verus!

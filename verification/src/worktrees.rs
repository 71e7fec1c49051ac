//! The worktrees that were opened for each issue.
//!
//! An issue has at most one worktree of a repository, and keeps its worktrees
//! in the order in which they were opened.
use vstd::prelude::*;
use vstd::std_specs::convert::FromSpecImpl;

use crate::orchestrator::state::IssueId;
use crate::strmap::StrMap;
use crate::text::str_eq;
use crate::tracker::model::RepoId;

verus! {

/// The name of a branch. It is the issue's identifier.
#[derive(Debug, PartialEq, Eq, Hash)]
pub struct BranchName(pub String);

impl View for BranchName {
    type V = Seq<char>;

    open spec fn view(&self) -> Seq<char> {
        self.0@
    }
}

impl Clone for BranchName {
    fn clone(&self) -> (r: Self)
        ensures
            r == *self,
    {
        BranchName(self.0.clone())
    }
}

impl BranchName {
    pub fn new(value: &str) -> (r: BranchName)
        ensures
            r@ == value@,
    {
        BranchName(value.to_owned())
    }

    pub fn as_str(&self) -> (s: &str)
        ensures
            s@ == self@,
    {
        self.0.as_str()
    }
}

impl From<&IssueId> for BranchName {
    fn from(issue: &IssueId) -> (r: Self)
        ensures
            r@ == issue@,
    {
        BranchName(issue.0.clone())
    }
}

impl FromSpecImpl<&IssueId> for BranchName {
    open spec fn obeys_from_spec() -> bool {
        true
    }

    open spec fn from_spec(issue: &IssueId) -> Self {
        BranchName(issue.0)
    }
}

/// A worktree of a repository.
#[derive(Debug, PartialEq, Eq)]
pub struct RegisteredWorktree {
    pub repo: RepoId,
    pub branch: BranchName,
    pub path: String,
}

impl Clone for RegisteredWorktree {
    fn clone(&self) -> (r: Self)
        ensures
            r == *self,
    {
        RegisteredWorktree {
            repo: self.repo.clone(),
            branch: self.branch.clone(),
            path: self.path.clone(),
        }
    }
}

/// No repository occurs twice.
pub open spec fn one_per_repo(entries: Seq<RegisteredWorktree>) -> bool {
    forall|i: int, j: int|
        0 <= i < j < entries.len() ==> (#[trigger] entries[i]).repo@ != (#[trigger] entries[j]).repo@
}

/// Entry `i` is of repository `repo`.
pub open spec fn of_repo(entries: Seq<RegisteredWorktree>, repo: Seq<char>, i: int) -> bool {
    0 <= i < entries.len() && entries[i].repo@ == repo
}

/// Some entry is of repository `repo`.
pub open spec fn has_repo(entries: Seq<RegisteredWorktree>, repo: Seq<char>) -> bool {
    exists|i: int| of_repo(entries, repo, i)
}

/// The worktrees by issue.
pub struct WorktreeRegistry {
    issues: StrMap<Vec<RegisteredWorktree>>,
}

fn find_repo(entries: &Vec<RegisteredWorktree>, repo: &str) -> (r: Option<usize>)
    ensures
        r is Some == has_repo(entries@, repo@),
        r matches Some(i) ==> of_repo(entries@, repo@, i as int),
{
    let mut i: usize = 0;
    while i < entries.len()
        invariant
            i <= entries.len(),
            forall|k: int| 0 <= k < i ==> !#[trigger] of_repo(entries@, repo@, k),
        decreases entries.len() - i,
    {
        if str_eq(entries[i].repo.as_str(), repo) {
            assert(of_repo(entries@, repo@, i as int));
            return Some(i);
        }
        i += 1;
    }
    None
}

fn copy_entries(entries: &Vec<RegisteredWorktree>) -> (out: Vec<RegisteredWorktree>)
    ensures
        out@ == entries@,
{
    let mut out: Vec<RegisteredWorktree> = Vec::new();
    let mut i: usize = 0;
    while i < entries.len()
        invariant
            i <= entries.len(),
            out@ == entries@.take(i as int),
        decreases entries.len() - i,
    {
        out.push(entries[i].clone());
        i += 1;
    }
    out
}

impl WorktreeRegistry {
    /// The worktrees of `issue`, in the order in which they were opened.
    pub closed spec fn entries(&self, issue: Seq<char>) -> Seq<RegisteredWorktree> {
        if self.issues@.contains_key(issue) {
            self.issues@[issue]@
        } else {
            Seq::empty()
        }
    }

    #[verifier::type_invariant]
    spec fn inv(self) -> bool {
        forall|issue: Seq<char>|
            self.issues@.contains_key(issue) ==> one_per_repo((#[trigger] self.issues@[issue])@)
    }

    pub fn new() -> (r: WorktreeRegistry)
        ensures
            forall|issue: Seq<char>| (#[trigger] r.entries(issue)).len() == 0,
    {
        WorktreeRegistry { issues: StrMap::new() }
    }

    /// The worktree of `repo` that was opened for `issue`.
    pub fn lookup(&self, issue: &IssueId, repo: &RepoId) -> (r: Option<String>)
        ensures
            one_per_repo(self.entries(issue@)),
            r is Some == has_repo(self.entries(issue@), repo@),
            r matches Some(path) ==> exists|i: int|
                of_repo(self.entries(issue@), repo@, i) && path == self.entries(issue@)[i].path,
    {
        proof {
            use_type_invariant(self);
        }
        match self.issues.get(issue.as_str()) {
            Some(entries) => match find_repo(entries, repo.as_str()) {
                Some(i) => Some(entries[i].path.clone()),
                None => None,
            },
            None => None,
        }
    }

    /// Adds a worktree, unless one of the repository is there. Gives back the
    /// path that stands in the registry.
    pub fn register(
        &mut self,
        issue: IssueId,
        repo: RepoId,
        branch: BranchName,
        path: String,
    ) -> (r: String)
        ensures
            one_per_repo(final(self).entries(issue@)),
            has_repo(old(self).entries(issue@), repo@) ==> final(self).entries(issue@) == old(self).entries(issue@) && exists|i: int|
                of_repo(old(self).entries(issue@), repo@, i) && r == old(self).entries(
                    issue@,
                )[i].path,
            !has_repo(old(self).entries(issue@), repo@) ==> r == path && final(self).entries(issue@)
                == old(self).entries(issue@).push((RegisteredWorktree { repo, branch, path })),
            forall|other: Seq<char>|
                other != issue@ ==> #[trigger] final(self).entries(other) == old(self).entries(
                    other,
                ),
    {
        proof {
            use_type_invariant(&*self);
        }
        let mut entries = match self.issues.get(issue.as_str()) {
            Some(entries) => copy_entries(entries),
            None => Vec::new(),
        };
        if let Some(i) = find_repo(&entries, repo.as_str()) {
            return entries[i].path.clone();
        }
        let ghost before = entries@;
        let out = path.clone();
        entries.push(RegisteredWorktree { repo, branch, path });
        proof {
            assert forall|i: int, j: int| 0 <= i < j < entries@.len() implies (
            #[trigger] entries@[i]).repo@ != (#[trigger] entries@[j]).repo@ by {
                if j == before.len() {
                    assert(!of_repo(before, repo@, i));
                }
            }
        }
        let mut issues = StrMap::new();
        std::mem::swap(&mut issues, &mut self.issues);
        issues.insert(issue.0, entries);
        self.issues = issues;
        out
    }

    /// The worktrees of `issue`, in the order in which they were opened.
    pub fn list_for_issue(&self, issue: &IssueId) -> (out: Vec<RegisteredWorktree>)
        ensures
            out@ == self.entries(issue@),
            one_per_repo(out@),
    {
        proof {
            use_type_invariant(self);
        }
        match self.issues.get(issue.as_str()) {
            Some(entries) => copy_entries(entries),
            None => Vec::new(),
        }
    }

    /// Takes the worktrees of `issue` out of the registry.
    pub fn take_for_issue(&mut self, issue: &IssueId) -> (out: Vec<RegisteredWorktree>)
        ensures
            out@ == old(self).entries(issue@),
            one_per_repo(out@),
            final(self).entries(issue@).len() == 0,
            forall|other: Seq<char>|
                other != issue@ ==> #[trigger] final(self).entries(other) == old(self).entries(
                    other,
                ),
    {
        proof {
            use_type_invariant(&*self);
        }
        let mut issues = StrMap::new();
        std::mem::swap(&mut issues, &mut self.issues);
        let taken = issues.remove(issue.as_str());
        self.issues = issues;
        match taken {
            Some(entries) => entries,
            None => Vec::new(),
        }
    }

    /// What a fresh process can recover from memory: nothing.
    pub fn list_existing(&self) -> (r: Result<Vec<(RepoId, IssueId, String)>, RecoveryListingError>)
        ensures
            r matches Ok(v) && v@.len() == 0,
    {
        Ok(Vec::new())
    }
}

#[derive(Debug, Clone, PartialEq, Eq)]
pub enum RecoveryListingError {
    Other { message: String },
}

/// Where every repository occurs once, an entry is found by its repository.
pub proof fn law_worktree_of_a_repo_is_unique(
    entries: Seq<RegisteredWorktree>,
    repo: Seq<char>,
    i: int,
    j: int,
)
    requires
        one_per_repo(entries),
        of_repo(entries, repo, i),
        of_repo(entries, repo, j),
    ensures
        i == j,
{
    if i < j {
        assert(entries[i].repo@ != entries[j].repo@);
    }
    if j < i {
        assert(entries[j].repo@ != entries[i].repo@);
    }
}

} // verus!

//! What a fresh process makes of what an earlier one left behind.
//!
//! The scratch directories and the worktrees on disk name issues. What is done
//! with each depends on what is there and on whether the tracker would have
//! the issue admitted now; nothing that is on disk is passed over.
use vstd::prelude::*;

use crate::config::RepoEntry;
use crate::json::{entries_view, items_view, Json, JsonView};
use crate::orchestrator::escalation::EscalationKind;
use crate::orchestrator::state::{IssueId, Mode};
use crate::session::{id_fault, sanitize_issue_id};
use crate::strmap::StrSet;
use crate::text::{has_text, is_digit, lex_lt, list_contains, listed, opt_view, str_eq};
use crate::tools::ghq::GhqError;
use crate::tools::wt::{WorktreePorcelainEntry, WtError};
use crate::tracker::linear::LinearError;
use crate::tracker::model::{NormalizedIssue, RepoId};
use crate::tracker::pre_admission::{verdict, AdmissionDecision, DecisionView, PreAdmissionJudge};

verus! {

/// The usual form of an issue's identifier.
pub const DEFAULT_ISSUE_ID_PATTERN: &'static str = r"^[A-Z]+-\d+$";

#[derive(Debug)]
pub enum RecoveryError {
    /// The configured pattern is malformed.
    InvalidRegex(String),
    /// The scratch directories could not be listed.
    SessionScan { path: String, message: String },
    Ghq(GhqError),
    Wt(WtError),
    Linear(LinearError),
}

/// A worktree that was found on disk.
#[derive(Debug, PartialEq, Eq)]
pub struct DiscoveredWorktree {
    pub repo_id: RepoId,
    pub path: String,
    pub branch: String,
}

#[verifier::ext_equal]
pub struct FoundView {
    pub repo: Seq<char>,
    pub path: Seq<char>,
    pub branch: Seq<char>,
}

impl View for DiscoveredWorktree {
    type V = FoundView;

    open spec fn view(&self) -> FoundView {
        FoundView { repo: self.repo_id@, path: self.path@, branch: self.branch@ }
    }
}

pub open spec fn found_views(v: Seq<DiscoveredWorktree>) -> Seq<FoundView> {
    Seq::new(v.len(), |i: int| v[i]@)
}

/// An issue that was found on disk.
#[derive(Debug, PartialEq, Eq)]
pub struct DiscoveredIssue {
    pub issue: IssueId,
    pub session_present: bool,
    pub worktrees: Vec<DiscoveredWorktree>,
}

impl DiscoveredIssue {
    /// An issue of which nothing is on disk.
    pub fn empty(issue: IssueId) -> (d: DiscoveredIssue)
        ensures
            d.issue == issue,
            !d.session_present,
            d.worktrees@.len() == 0,
    {
        DiscoveredIssue { issue, session_present: false, worktrees: Vec::new() }
    }

    /// Something of the issue is on disk.
    pub open spec fn on_disk(&self) -> bool {
        self.session_present || self.worktrees@.len() > 0
    }
}

/// What is done with an issue.
#[derive(Debug, PartialEq, Eq)]
pub enum RecoveryDecision {
    /// Go on: it is admitted, and its directory and a worktree are there.
    ResumeActive { issue: IssueId, mode: Mode },
    /// A scratch directory is left over.
    OrphanedSession { issue: IssueId },
    /// A worktree is left over.
    OrphanedWorktree { issue: IssueId },
    /// Start: it is admitted, and nothing is there.
    FreshQueued { issue: IssueId, mode: Mode },
    /// Nothing to do.
    NoOp { issue: IssueId },
}

/// The worktrees of a repository that has a checkout.
#[derive(Debug)]
pub struct RepoListing {
    pub repo: RepoId,
    pub entries: Vec<WorktreePorcelainEntry>,
}

// ---------------------------------------------------------------------------
// Patterns
// ---------------------------------------------------------------------------

/// A compiled pattern of the `regex` crate.
#[verifier::external_type_specification]
#[verifier::external_body]
pub struct ExRegex(regex::Regex);

/// The text that a pattern was compiled from.
pub uninterp spec fn regex_source(re: regex::Regex) -> Seq<char>;

/// Why the `regex` crate refuses a small pattern, if it does.
pub uninterp spec fn regex_fault(pattern: Seq<char>) -> Option<Seq<char>>;

/// Whether the `regex` crate finds the pattern in the text.
pub uninterp spec fn regex_verdict(pattern: Seq<char>, text: Seq<char>) -> bool;

/// A count of at most two numbers, each of at most two digits, stands at `k`
/// behind a single character or a class of them, and ends at `end`.
pub open spec fn counts_at(pattern: Seq<char>, k: int, end: int) -> bool {
    &&& 0 < k < end < pattern.len()
    &&& pattern[k] == '{'
    &&& pattern[end] == '}'
    &&& pattern[k - 1] == ']' || is_digit(pattern[k - 1]) || 'a' <= pattern[k - 1] <= 'z' || 'A'
        <= pattern[k - 1] <= 'Z'
    &&& forall|j: int| k < j < end ==> is_digit(#[trigger] pattern[j]) || pattern[j] == ','
    &&& forall|j: int|
        k < j && j + 2 < end ==> !(is_digit(#[trigger] pattern[j]) && is_digit(pattern[j + 1])
            && is_digit(pattern[j + 2]))
}

/// A backslash stands at `k` before anything but a `d` or a sign: it may stand
/// for many characters.
pub open spec fn escapes_widely(pattern: Seq<char>, k: int) -> bool {
    &&& 0 <= k < pattern.len()
    &&& pattern[k] == '\\'
    &&& k + 1 < pattern.len() ==> pattern[k + 1] != 'd' && ('a' <= pattern[k + 1] <= 'z' || 'A'
        <= pattern[k + 1] <= 'Z')
}

/// The pattern is short. Where it repeats anything by count, that is a single
/// character or a class of few, and the counts are small.
pub open spec fn is_small(pattern: Seq<char>) -> bool {
    &&& pattern.len() <= 40
    &&& pattern.contains('{') ==> {
        &&& forall|k: int|
            0 <= k < pattern.len() && #[trigger] pattern[k] == '{' ==> exists|end: int| #[trigger]
                counts_at(pattern, k, end)
        &&& !exists|k: int| #[trigger] escapes_widely(pattern, k)
        &&& !has_text(pattern, "(?"@)
    }
}

/// Calls `Regex::new`. The contract claims that what comes out was compiled
/// from the pattern, and that whether a small pattern is refused, and with
/// which words, depends on the pattern alone. Nothing is said of when a larger
/// one is refused: the compiled form has a limit, and its size goes by the
/// machine.
#[verifier::external_body]
fn regex_new(pattern: &str) -> (r: Result<regex::Regex, String>)
    ensures
        r matches Ok(re) ==> regex_source(re) == pattern@,
        is_small(pattern@) ==> r is Ok == regex_fault(pattern@) is None,
        is_small(pattern@) ==> (r matches Err(m) ==> regex_fault(pattern@) == Some(m@)),
{
    regex::Regex::new(pattern).map_err(|err| err.to_string())
}

/// Calls `Regex::is_match`. The contract claims that the answer depends on the
/// text that the pattern was compiled from and on the text alone.
#[verifier::external_body]
fn regex_is_match(re: &regex::Regex, text: &str) -> (r: bool)
    ensures
        r == regex_verdict(regex_source(*re), text@),
{
    re.is_match(text)
}

// ---------------------------------------------------------------------------
// The search
// ---------------------------------------------------------------------------

/// Looks for what was left behind.
#[derive(Debug)]
pub struct RecoveryReconciler {
    session_root: String,
    repos: Vec<RepoEntry>,
    pattern: regex::Regex,
}

/// A name is an issue's: the pattern takes it, and it can name a directory.
pub open spec fn names_issue(pattern: Seq<char>, name: Seq<char>) -> bool {
    regex_verdict(pattern, name) && id_fault(name) is None
}

/// The worktrees on branch `name` among the first `n` entries.
pub open spec fn found_in(
    repo: Seq<char>,
    entries: Seq<WorktreePorcelainEntry>,
    name: Seq<char>,
    n: nat,
) -> Seq<FoundView>
    decreases n,
{
    if n == 0 {
        Seq::empty()
    } else if opt_view(entries[n - 1].branch) == Some(name) {
        found_in(repo, entries, name, (n - 1) as nat).push(
            FoundView { repo, path: entries[n - 1].path@, branch: name },
        )
    } else {
        found_in(repo, entries, name, (n - 1) as nat)
    }
}

/// The worktrees on branch `name` in the first `n` repositories, in order.
pub open spec fn found_for(listings: Seq<RepoListing>, name: Seq<char>, n: nat) -> Seq<FoundView>
    decreases n,
{
    if n == 0 {
        Seq::empty()
    } else {
        let l = listings[n - 1];
        found_for(listings, name, (n - 1) as nat) + found_in(
            l.repo@,
            l.entries@,
            name,
            l.entries@.len(),
        )
    }
}

/// Entry `j` of repository `i` is on branch `name`.
pub open spec fn on_branch(listings: Seq<RepoListing>, name: Seq<char>, i: int, j: int) -> bool {
    0 <= i < listings.len() && 0 <= j < listings[i].entries@.len() && opt_view(
        listings[i].entries@[j].branch,
    ) == Some(name)
}

/// Something on disk bears the name: a directory or a worktree's branch.
pub open spec fn borne(dirs: Seq<String>, listings: Seq<RepoListing>, name: Seq<char>) -> bool {
    listed(dirs, name) || exists|i: int, j: int| on_branch(listings, name, i, j)
}

/// `out` lists the issues that are on disk, by identifier.
pub open spec fn discovers(
    pattern: Seq<char>,
    dirs: Seq<String>,
    listings: Seq<RepoListing>,
    out: Seq<DiscoveredIssue>,
) -> bool {
    &&& forall|i: int, j: int|
        0 <= i < j < out.len() ==> lex_lt((#[trigger] out[i]).issue@, (#[trigger] out[j]).issue@)
    &&& forall|i: int|
        0 <= i < out.len() ==> {
            &&& names_issue(pattern, (#[trigger] out[i]).issue@)
            &&& borne(dirs, listings, out[i].issue@)
            &&& out[i].session_present == listed(dirs, out[i].issue@)
            &&& found_views(out[i].worktrees@) == found_for(
                listings,
                out[i].issue@,
                listings.len(),
            )
        }
    &&& forall|name: Seq<char>| #[trigger]
        borne(dirs, listings, name) && names_issue(pattern, name) ==> exists|i: int|
            0 <= i < out.len() && (#[trigger] out[i]).issue@ == name
}

/// `out` lists the issues `names`, by identifier, with what is on disk of each.
pub open spec fn lists(
    names: Set<Seq<char>>,
    dirs: Seq<String>,
    listings: Seq<RepoListing>,
    out: Seq<DiscoveredIssue>,
) -> bool {
    &&& forall|i: int, j: int|
        0 <= i < j < out.len() ==> lex_lt((#[trigger] out[i]).issue@, (#[trigger] out[j]).issue@)
    &&& forall|i: int|
        0 <= i < out.len() ==> {
            &&& names.contains((#[trigger] out[i]).issue@)
            &&& out[i].session_present == listed(dirs, out[i].issue@)
            &&& found_views(out[i].worktrees@) == found_for(
                listings,
                out[i].issue@,
                listings.len(),
            )
        }
    &&& forall|name: Seq<char>| #[trigger]
        names.contains(name) ==> exists|i: int|
            0 <= i < out.len() && (#[trigger] out[i]).issue@ == name
}

/// Whether a name is an issue's; `taken` says whether the pattern takes it.
pub fn is_issue_name(taken: bool, name: &str) -> (r: bool)
    ensures
        r == (taken && id_fault(name@) is None),
{
    taken && sanitize_issue_id(name).is_ok()
}

/// Lists the issues `names` with what is on disk of each: `dirs` are the names
/// of the scratch directories, `listings` the worktrees of the repositories.
pub fn discover(names: &StrSet, dirs: &Vec<String>, listings: &Vec<RepoListing>) -> (out: Vec<
    DiscoveredIssue,
>)
    ensures
        lists(names@, dirs@, listings@, out@),
{
    let ids = names.names();
    let mut out: Vec<DiscoveredIssue> = Vec::new();
    let mut c: usize = 0;
    while c < ids.len()
        invariant
            c <= ids.len(),
            out.len() == c,
            forall|k: int|
                0 <= k < c ==> (#[trigger] out@[k]).issue@ == ids@[k]@ && out@[k].session_present
                    == listed(dirs@, ids@[k]@) && found_views(out@[k].worktrees@) == found_for(
                    listings@,
                    ids@[k]@,
                    listings@.len(),
                ),
        decreases ids.len() - c,
    {
        let name = ids[c].as_str();
        out.push(
            DiscoveredIssue {
                issue: IssueId(ids[c].clone()),
                session_present: list_contains(dirs, name),
                worktrees: worktrees_of(listings, name),
            },
        );
        c += 1;
    }
    proof {
        assert forall|k: int| 0 <= k < out@.len() implies names@.contains(
            (#[trigger] out@[k]).issue@,
        ) by {
            assert(listed(ids@, ids@[k]@));
        }
        assert forall|name: Seq<char>| #[trigger] names@.contains(name) implies exists|k: int|
            0 <= k < out@.len() && (#[trigger] out@[k]).issue@ == name by {
            assert(listed(ids@, name));
            let k = choose|k: int| 0 <= k < ids@.len() && ids@[k]@ == name;
            assert(out@[k].issue@ == name);
        }
    }
    out
}

fn worktrees_of(listings: &Vec<RepoListing>, name: &str) -> (out: Vec<DiscoveredWorktree>)
    ensures
        found_views(out@) == found_for(listings@, name@, listings@.len()),
{
    let mut out: Vec<DiscoveredWorktree> = Vec::new();
    assert(found_views(out@) =~= found_for(listings@, name@, 0));
    let mut i: usize = 0;
    while i < listings.len()
        invariant
            i <= listings.len(),
            found_views(out@) == found_for(listings@, name@, i as nat),
        decreases listings.len() - i,
    {
        let l = &listings[i];
        let ghost before = found_views(out@);
        let mut j: usize = 0;
        assert(before + found_in(l.repo@, l.entries@, name@, 0) =~= before);
        while j < l.entries.len()
            invariant
                j <= l.entries.len(),
                found_views(out@) == before + found_in(l.repo@, l.entries@, name@, j as nat),
            decreases l.entries.len() - j,
        {
            if let Some(branch) = &l.entries[j].branch {
                if str_eq(branch.as_str(), name) {
                    let w = DiscoveredWorktree {
                        repo_id: l.repo.clone(),
                        path: l.entries[j].path.clone(),
                        branch: branch.clone(),
                    };
                    let ghost view = w@;
                    let ghost prior = found_views(out@);
                    out.push(w);
                    assert(found_views(out@) =~= prior.push(view));
                    assert((before + found_in(l.repo@, l.entries@, name@, j as nat)).push(view)
                        =~= before + found_in(l.repo@, l.entries@, name@, j as nat).push(view));
                }
            }
            j += 1;
        }
        i += 1;
    }
    out
}

impl RecoveryReconciler {
    pub closed spec fn root(&self) -> Seq<char> {
        self.session_root@
    }

    pub closed spec fn repo_entries(&self) -> Seq<RepoEntry> {
        self.repos@
    }

    pub closed spec fn id_pattern(&self) -> Seq<char> {
        regex_source(self.pattern)
    }

    /// Looks for identifiers of the usual form.
    pub fn new(session_root: String, repos: Vec<RepoEntry>) -> (r: Result<Self, RecoveryError>)
        ensures
            r is Ok == regex_fault(DEFAULT_ISSUE_ID_PATTERN@) is None,
            r matches Ok(s) ==> s.root() == session_root@ && s.repo_entries() == repos@
                && s.id_pattern() == DEFAULT_ISSUE_ID_PATTERN@,
            r matches Err(e) ==> e matches RecoveryError::InvalidRegex(m) && regex_fault(
                DEFAULT_ISSUE_ID_PATTERN@,
            ) == Some(m@),
    {
        proof {
            reveal_strlit(r"^[A-Z]+-\d+$");
        }
        RecoveryReconciler::with_pattern(session_root, repos, DEFAULT_ISSUE_ID_PATTERN)
    }

    /// Looks for identifiers that `pattern` takes. When a pattern that is not
    /// small is refused is the `regex` crate's affair.
    pub fn with_pattern(session_root: String, repos: Vec<RepoEntry>, pattern: &str) -> (r: Result<
        Self,
        RecoveryError,
    >)
        ensures
            is_small(pattern@) ==> r is Ok == regex_fault(pattern@) is None,
            r matches Ok(s) ==> s.root() == session_root@ && s.repo_entries() == repos@
                && s.id_pattern() == pattern@,
            r matches Err(e) ==> e matches RecoveryError::InvalidRegex(m) && (is_small(pattern@)
                ==> regex_fault(pattern@) == Some(m@)),
    {
        match regex_new(pattern) {
            Ok(pattern) => Ok(RecoveryReconciler { session_root, repos, pattern }),
            Err(m) => Err(RecoveryError::InvalidRegex(m)),
        }
    }

    pub fn session_root(&self) -> (s: &str)
        ensures
            s@ == self.root(),
    {
        self.session_root.as_str()
    }

    /// The repositories to list.
    pub fn repos(&self) -> (v: &Vec<RepoEntry>)
        ensures
            v@ == self.repo_entries(),
    {
        &self.repos
    }

    /// Whether a name is an issue's.
    pub fn accepts(&self, name: &str) -> (r: bool)
        ensures
            r == names_issue(self.id_pattern(), name@),
    {
        is_issue_name(regex_is_match(&self.pattern, name), name)
    }

    /// Lists the issues that are on disk: `dirs` are the names of the scratch
    /// directories, `listings` the worktrees of the repositories.
    pub fn scan(&self, dirs: &Vec<String>, listings: &Vec<RepoListing>) -> (out: Vec<
        DiscoveredIssue,
    >)
        ensures
            discovers(self.id_pattern(), dirs@, listings@, out@),
    {
        let ghost pattern = self.id_pattern();
        let mut names = StrSet::new();
        let mut i: usize = 0;
        while i < dirs.len()
            invariant
                i <= dirs.len(),
                pattern == self.id_pattern(),
                forall|n: Seq<char>| #[trigger]
                    names@.contains(n) ==> names_issue(pattern, n) && borne(dirs@, listings@, n),
                forall|k: int|
                    0 <= k < i && names_issue(pattern, (#[trigger] dirs@[k])@) ==> names@.contains(
                        dirs@[k]@,
                    ),
            decreases dirs.len() - i,
        {
            assert(listed(dirs@, dirs@[i as int]@));
            if self.accepts(dirs[i].as_str()) {
                names.insert(dirs[i].clone());
            }
            i += 1;
        }
        let mut a: usize = 0;
        while a < listings.len()
            invariant
                a <= listings.len(),
                pattern == self.id_pattern(),
                forall|n: Seq<char>| #[trigger]
                    names@.contains(n) ==> names_issue(pattern, n) && borne(dirs@, listings@, n),
                forall|k: int|
                    0 <= k < dirs.len() && names_issue(pattern, (#[trigger] dirs@[k])@)
                        ==> names@.contains(dirs@[k]@),
                forall|n: Seq<char>, x: int, y: int|
                    0 <= x < a && #[trigger] on_branch(listings@, n, x, y) && names_issue(
                        pattern,
                        n,
                    ) ==> names@.contains(n),
            decreases listings.len() - a,
        {
            let mut b: usize = 0;
            while b < listings[a].entries.len()
                invariant
                    a < listings.len(),
                    b <= listings@[a as int].entries.len(),
                    pattern == self.id_pattern(),
                    forall|n: Seq<char>| #[trigger]
                        names@.contains(n) ==> names_issue(pattern, n) && borne(
                            dirs@,
                            listings@,
                            n,
                        ),
                    forall|k: int|
                        0 <= k < dirs.len() && names_issue(pattern, (#[trigger] dirs@[k])@)
                            ==> names@.contains(dirs@[k]@),
                    forall|n: Seq<char>, x: int, y: int|
                        (0 <= x < a || (x == a && y < b)) && #[trigger] on_branch(
                            listings@,
                            n,
                            x,
                            y,
                        ) && names_issue(pattern, n) ==> names@.contains(n),
                decreases listings@[a as int].entries.len() - b,
            {
                if let Some(branch) = &listings[a].entries[b].branch {
                    assert(on_branch(listings@, branch@, a as int, b as int));
                    if self.accepts(branch.as_str()) {
                        names.insert(branch.clone());
                    }
                }
                b += 1;
            }
            a += 1;
        }
        let out = discover(&names, dirs, listings);
        proof {
            assert forall|name: Seq<char>| #[trigger]
                borne(dirs@, listings@, name) && names_issue(pattern, name) implies exists|k: int|
                0 <= k < out@.len() && (#[trigger] out@[k]).issue@ == name by {
                assert(names@.contains(name)) by {
                    if listed(dirs@, name) {
                        let k = choose|k: int| 0 <= k < dirs@.len() && dirs@[k]@ == name;
                        assert(names_issue(pattern, dirs@[k]@));
                    } else {
                        let (x, y) = choose|x: int, y: int| on_branch(listings@, name, x, y);
                        assert(on_branch(listings@, name, x, y));
                    }
                }
            }
        }
        out
    }

    /// Decides what is done with an issue. `lookup` is what the tracker says
    /// of it now; a reply that cannot be read counts as no record.
    pub fn decide(
        &self,
        discovered: DiscoveredIssue,
        lookup: Result<NormalizedIssue, LinearError>,
        judge: &PreAdmissionJudge,
    ) -> (r: Result<RecoveryDecision, RecoveryError>)
        ensures
            match lookup {
                Ok(issue) => r == Ok::<RecoveryDecision, RecoveryError>(
                    decision(
                        discovered,
                        Some(verdict(judge.spec_assignee(), judge.spec_states(), issue@)),
                    ),
                ),
                Err(LinearError::Parse(_)) => r == Ok::<RecoveryDecision, RecoveryError>(
                    decision(discovered, None),
                ),
                Err(e) => r == Err::<RecoveryDecision, RecoveryError>(RecoveryError::Linear(e)),
            },
    {
        let admitted = match lookup {
            Ok(issue) => match judge.evaluate(&issue) {
                AdmissionDecision::Admit { mode, .. } => Some(mode),
                AdmissionDecision::Skip { .. } => None,
            },
            Err(LinearError::Parse(_)) => None,
            Err(other) => {
                return Err(RecoveryError::Linear(other));
            },
        };
        let session = discovered.session_present;
        let worktree = discovered.worktrees.len() > 0;
        let issue = discovered.issue;
        if !session && !worktree {
            return Ok(
                match admitted {
                    Some(mode) => RecoveryDecision::FreshQueued { issue, mode },
                    None => RecoveryDecision::NoOp { issue },
                },
            );
        }
        if session && worktree {
            if let Some(mode) = admitted {
                return Ok(RecoveryDecision::ResumeActive { issue, mode });
            }
        }
        if session {
            Ok(RecoveryDecision::OrphanedSession { issue })
        } else {
            Ok(RecoveryDecision::OrphanedWorktree { issue })
        }
    }
}

/// What is done with an issue of which the judge says `admission`.
pub open spec fn decision(
    d: DiscoveredIssue,
    admission: Option<DecisionView>,
) -> RecoveryDecision {
    let session = d.session_present;
    let worktree = d.worktrees@.len() > 0;
    match admission {
        Some(DecisionView::Admit(_, mode)) => if session && worktree {
            RecoveryDecision::ResumeActive { issue: d.issue, mode }
        } else if session {
            RecoveryDecision::OrphanedSession { issue: d.issue }
        } else if worktree {
            RecoveryDecision::OrphanedWorktree { issue: d.issue }
        } else {
            RecoveryDecision::FreshQueued { issue: d.issue, mode }
        },
        _ => if session {
            RecoveryDecision::OrphanedSession { issue: d.issue }
        } else if worktree {
            RecoveryDecision::OrphanedWorktree { issue: d.issue }
        } else {
            RecoveryDecision::NoOp { issue: d.issue }
        },
    }
}

/// The escalation of an orphan.
pub const ORPHAN_KIND: EscalationKind = EscalationKind::Orphan;

pub open spec fn path_texts(found: Seq<FoundView>) -> Seq<JsonView> {
    Seq::new(found.len(), |i: int| JsonView::Text(found[i].path))
}

pub open spec fn repo_texts(found: Seq<FoundView>) -> Seq<JsonView> {
    Seq::new(found.len(), |i: int| JsonView::Text(found[i].repo))
}

/// What a live session is told of an orphan.
pub fn orphan_directive_fields(discovered: &DiscoveredIssue) -> (fields: Json)
    ensures
        fields@ == JsonView::Object(
            seq![
                ("session_present"@, JsonView::Bool(discovered.session_present)),
                (
                    "worktree_paths"@,
                    JsonView::Array(path_texts(found_views(discovered.worktrees@))),
                ),
                ("repos"@, JsonView::Array(repo_texts(found_views(discovered.worktrees@)))),
            ],
        ),
{
    let mut paths: Vec<Json> = Vec::new();
    let mut repos: Vec<Json> = Vec::new();
    let worktrees = &discovered.worktrees;
    let mut i: usize = 0;
    while i < worktrees.len()
        invariant
            i <= worktrees.len(),
            paths.len() == i,
            repos.len() == i,
            forall|k: int|
                0 <= k < i ==> (#[trigger] paths@[k])@ == JsonView::Text(worktrees@[k].path@),
            forall|k: int|
                0 <= k < i ==> (#[trigger] repos@[k])@ == JsonView::Text(worktrees@[k].repo_id@),
        decreases worktrees.len() - i,
    {
        paths.push(Json::Text(worktrees[i].path.clone()));
        repos.push(Json::Text(worktrees[i].repo_id.to_string()));
        i += 1;
    }
    let ghost found = found_views(worktrees@);
    assert(items_view(paths@) =~= path_texts(found));
    assert(items_view(repos@) =~= repo_texts(found));
    let entries = vec![
        ("session_present".to_owned(), Json::Bool(discovered.session_present)),
        ("worktree_paths".to_owned(), Json::Array(paths)),
        ("repos".to_owned(), Json::Array(repos)),
    ];
    assert(entries_view(entries@) =~= seq![
        ("session_present"@, JsonView::Bool(discovered.session_present)),
        ("worktree_paths"@, JsonView::Array(path_texts(found))),
        ("repos"@, JsonView::Array(repo_texts(found))),
    ]);
    Json::Object(entries)
}

// ---------------------------------------------------------------------------
// Laws
// ---------------------------------------------------------------------------

/// What is on disk is gone on with or reported, whatever the tracker says.
pub proof fn law_residue_is_never_passed_over(d: DiscoveredIssue, admission: Option<DecisionView>)
    requires
        d.on_disk(),
    ensures
        !(decision(d, admission) is NoOp),
        !(decision(d, admission) is FreshQueued),
{
}

/// Work is taken up only where the judge admits it, in the mode that the judge
/// says now.
pub proof fn law_work_needs_admission(d: DiscoveredIssue, admission: Option<DecisionView>)
    ensures
        decision(d, admission) matches RecoveryDecision::ResumeActive { mode, .. } ==> (admission matches Some(
            DecisionView::Admit(_, m),
        ) && m == mode),
        decision(d, admission) matches RecoveryDecision::FreshQueued { mode, .. } ==> (admission matches Some(
            DecisionView::Admit(_, m),
        ) && m == mode),
{
}

/// A search lists every issue once.
pub proof fn law_each_issue_is_found_once(
    pattern: Seq<char>,
    dirs: Seq<String>,
    listings: Seq<RepoListing>,
    out: Seq<DiscoveredIssue>,
    i: int,
    j: int,
)
    requires
        discovers(pattern, dirs, listings, out),
        0 <= i < out.len(),
        0 <= j < out.len(),
        out[i].issue@ == out[j].issue@,
    ensures
        i == j,
{
    if i < j {
        assert(lex_lt(out[i].issue@, out[j].issue@));
    }
    if j < i {
        assert(lex_lt(out[j].issue@, out[i].issue@));
    }
    crate::text::lemma_lex_irreflexive(out[i].issue@);
}

/// What is done, by what is on disk and whether the issue is admitted now: with
/// a directory and a worktree admitted work goes on; with nothing there admitted
/// work starts and other work is left alone; anything else is an orphan, of its
/// directory where there is one. It is done with the issue that was found.
pub proof fn law_recovery_decisions(d: DiscoveredIssue, admission: Option<DecisionView>)
    ensures
        ({
            let there = d.session_present;
            let some = d.worktrees@.len() > 0;
            let admitted = admission is Some && admission->0 is Admit;
            let x = decision(d, admission);
            &&& x is ResumeActive <==> there && some && admitted
            &&& x is FreshQueued <==> !there && !some && admitted
            &&& x is NoOp <==> !there && !some && !admitted
            &&& x is OrphanedSession <==> there && !(some && admitted)
            &&& x is OrphanedWorktree <==> !there && some
            &&& match x {
                RecoveryDecision::ResumeActive { issue, mode } => issue == d.issue && mode
                    == admission->0->Admit_1,
                RecoveryDecision::FreshQueued { issue, mode } => issue == d.issue && mode
                    == admission->0->Admit_1,
                RecoveryDecision::OrphanedSession { issue } => issue == d.issue,
                RecoveryDecision::OrphanedWorktree { issue } => issue == d.issue,
                RecoveryDecision::NoOp { issue } => issue == d.issue,
            }
        }),
{
}

/// `f` is what the entry at `j` of repository `i` says of branch `name`.
pub open spec fn found_at(
    listings: Seq<RepoListing>,
    name: Seq<char>,
    f: FoundView,
    i: int,
    j: int,
) -> bool {
    &&& 0 <= i < listings.len()
    &&& 0 <= j < listings[i].entries@.len()
    &&& listings[i].entries@[j].branch is Some
    &&& listings[i].entries@[j].branch->0@ == name
    &&& f.repo == listings[i].repo@
    &&& f.path == listings[i].entries@[j].path@
    &&& f.branch == name
}

/// Some entry says `f` of branch `name`.
pub open spec fn is_there(listings: Seq<RepoListing>, name: Seq<char>, f: FoundView) -> bool {
    exists|i: int, j: int| #[trigger] found_at(listings, name, f, i, j)
}

proof fn lemma_found_in(
    repo: Seq<char>,
    entries: Seq<WorktreePorcelainEntry>,
    name: Seq<char>,
    n: nat,
)
    requires
        n <= entries.len(),
    ensures
        forall|f: FoundView| #[trigger]
            found_in(repo, entries, name, n).contains(f) <==> f.repo == repo && f.branch == name
                && exists|j: int|
                0 <= j < n && (#[trigger] entries[j]).branch is Some && entries[j].branch->0@ == name
                    && f.path == entries[j].path@,
    decreases n,
{
    if n > 0 {
        let k = (n - 1) as nat;
        lemma_found_in(repo, entries, name, k);
        let before = found_in(repo, entries, name, k);
        let now = found_in(repo, entries, name, n);
        assert forall|f: FoundView| #[trigger] now.contains(f) <==> f.repo == repo && f.branch
            == name && exists|j: int|
            0 <= j < n && (#[trigger] entries[j]).branch is Some && entries[j].branch->0@ == name
                && f.path == entries[j].path@ by {
            if now.contains(f) {
                let i = choose|i: int| 0 <= i < now.len() && now[i] == f;
                if i < before.len() {
                    assert(before[i] == f);
                    assert(before.contains(f));
                } else {
                    assert(entries[n - 1].branch is Some);
                }
            }
            if before.contains(f) {
                let i = choose|i: int| 0 <= i < before.len() && before[i] == f;
                assert(now[i] == f);
            }
            if f.repo == repo && f.branch == name && exists|j: int|
                0 <= j < n && (#[trigger] entries[j]).branch is Some && entries[j].branch->0@ == name
                    && f.path == entries[j].path@ {
                let j = choose|j: int|
                    0 <= j < n && (#[trigger] entries[j]).branch is Some && entries[j].branch->0@
                        == name && f.path == entries[j].path@;
                if j == n - 1 {
                    assert(now[now.len() - 1] == f);
                } else {
                    assert(before.contains(f));
                }
            }
        }
    }
}

proof fn lemma_found_for(listings: Seq<RepoListing>, name: Seq<char>, n: nat)
    requires
        n <= listings.len(),
    ensures
        forall|f: FoundView| #[trigger]
            found_for(listings, name, n).contains(f) <==> exists|i: int, j: int|
                i < n && #[trigger] found_at(listings, name, f, i, j),
    decreases n,
{
    if n > 0 {
        let k = (n - 1) as nat;
        let l = listings[n - 1];
        lemma_found_for(listings, name, k);
        lemma_found_in(l.repo@, l.entries@, name, l.entries@.len());
        let before = found_for(listings, name, k);
        let last = found_in(l.repo@, l.entries@, name, l.entries@.len());
        let now = found_for(listings, name, n);
        assert(now == before + last);
        assert forall|f: FoundView| #[trigger] now.contains(f) <==> exists|i: int, j: int|
            i < n && #[trigger] found_at(listings, name, f, i, j) by {
            if now.contains(f) {
                let x = choose|x: int| 0 <= x < now.len() && now[x] == f;
                if x < before.len() {
                    assert(before[x] == f);
                    assert(before.contains(f));
                } else {
                    assert(last[x - before.len()] == f);
                    assert(last.contains(f));
                    let j = choose|j: int|
                        0 <= j < l.entries@.len() && (#[trigger] l.entries@[j]).branch is Some
                            && l.entries@[j].branch->0@ == name && f.path == l.entries@[j].path@;
                    assert(found_at(listings, name, f, n - 1, j));
                }
            }
            if exists|i: int, j: int| i < n && #[trigger] found_at(listings, name, f, i, j) {
                let (i, j) = choose|i: int, j: int|
                    i < n && #[trigger] found_at(listings, name, f, i, j);
                if i == n - 1 {
                    assert(l.entries@[j].branch is Some);
                    assert(last.contains(f));
                    let x = choose|x: int| 0 <= x < last.len() && last[x] == f;
                    assert(now[before.len() + x] == f);
                } else {
                    assert(found_at(listings, name, f, i, j) && i < k);
                    assert(before.contains(f));
                    let x = choose|x: int| 0 <= x < before.len() && before[x] == f;
                    assert(now[x] == f);
                }
            }
        }
    }
}

/// What a search says of an issue is what is on disk of it: its directory, if
/// one of the directories bears its name; and the worktrees on the branch of its
/// name, of every repository, and no others.
pub proof fn law_search_reports_what_is_there(
    pattern: Seq<char>,
    dirs: Seq<String>,
    listings: Seq<RepoListing>,
    out: Seq<DiscoveredIssue>,
    k: int,
)
    requires
        discovers(pattern, dirs, listings, out),
        0 <= k < out.len(),
    ensures
        out[k].session_present <==> exists|i: int|
            0 <= i < dirs.len() && (#[trigger] dirs[i])@ == out[k].issue@,
        forall|w: int|
            0 <= w < out[k].worktrees@.len() ==> is_there(
                listings,
                out[k].issue@,
                (#[trigger] out[k].worktrees@[w])@,
            ),
        forall|f: FoundView| #[trigger]
            is_there(listings, out[k].issue@, f) ==> exists|w: int|
                0 <= w < out[k].worktrees@.len() && (#[trigger] out[k].worktrees@[w])@ == f,
{
    let name = out[k].issue@;
    let v = found_views(out[k].worktrees@);
    assert(names_issue(pattern, name));
    lemma_found_for(listings, name, listings.len());
    assert forall|w: int| 0 <= w < out[k].worktrees@.len() implies is_there(
        listings,
        name,
        (#[trigger] out[k].worktrees@[w])@,
    ) by {
        assert(v[w] == out[k].worktrees@[w]@);
        assert(v.contains(v[w]));
        assert(found_for(listings, name, listings.len()).contains(v[w]));
    }
    assert forall|f: FoundView| #[trigger] is_there(listings, name, f) implies exists|w: int|
        0 <= w < out[k].worktrees@.len() && (#[trigger] out[k].worktrees@[w])@ == f by {
        let (i, j) = choose|i: int, j: int| #[trigger] found_at(listings, name, f, i, j);
        assert(found_at(listings, name, f, i, j));
        assert(found_for(listings, name, listings.len()).contains(f));
        let w = choose|w: int| 0 <= w < v.len() && v[w] == f;
        assert(out[k].worktrees@[w]@ == f);
    }
}

/// A search lists exactly the names that the pattern takes, that can name a
/// directory, and that a directory or the branch of a worktree bears.
pub proof fn law_search_finds_every_issue(
    pattern: Seq<char>,
    dirs: Seq<String>,
    listings: Seq<RepoListing>,
    out: Seq<DiscoveredIssue>,
    name: Seq<char>,
)
    requires
        discovers(pattern, dirs, listings, out),
    ensures
        (exists|k: int| 0 <= k < out.len() && (#[trigger] out[k]).issue@ == name) <==> {
            &&& regex_verdict(pattern, name)
            &&& id_fault(name) is None
            &&& (exists|i: int| 0 <= i < dirs.len() && (#[trigger] dirs[i])@ == name) || (exists|
                f: FoundView,
            | #[trigger] is_there(listings, name, f))
        },
{
    if exists|k: int| 0 <= k < out.len() && (#[trigger] out[k]).issue@ == name {
        let k = choose|k: int| 0 <= k < out.len() && (#[trigger] out[k]).issue@ == name;
        assert(borne(dirs, listings, name) && names_issue(pattern, name));
        if !listed(dirs, name) {
            let (i, j) = choose|i: int, j: int| on_branch(listings, name, i, j);
            assert(on_branch(listings, name, i, j));
            let f = FoundView {
                repo: listings[i].repo@,
                path: listings[i].entries@[j].path@,
                branch: name,
            };
            assert(found_at(listings, name, f, i, j));
            assert(is_there(listings, name, f));
        }
    }
    let is_dir = exists|i: int| 0 <= i < dirs.len() && (#[trigger] dirs[i])@ == name;
    let is_branch = exists|f: FoundView| #[trigger] is_there(listings, name, f);
    if is_dir {
        let i = choose|i: int| 0 <= i < dirs.len() && (#[trigger] dirs[i])@ == name;
        assert(listed(dirs, name));
    }
    if is_branch {
        let f = choose|f: FoundView| #[trigger] is_there(listings, name, f);
        let (i, j) = choose|i: int, j: int| #[trigger] found_at(listings, name, f, i, j);
        assert(on_branch(listings, name, i, j));
    }
    if (is_dir || is_branch) && regex_verdict(pattern, name) && id_fault(name) is None {
        assert(borne(dirs, listings, name) && names_issue(pattern, name));
        let k = choose|k: int| 0 <= k < out.len() && (#[trigger] out[k]).issue@ == name;
        assert(out[k].issue@ == name);
    }
}

} // verus!

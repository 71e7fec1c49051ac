//! Worktree names, paths and listings.
//!
//! A worktree stands beside its repository, as `{repo}.{branch}`, where every
//! character of the branch outside `[A-Za-z0-9_-]` is a dash.
use vstd::prelude::*;
use vstd::string::StringExecFns;

use crate::path::{file_name, file_name_of, join, joined, parent, parent_of};
use crate::text::{
    begins_with, chars_of, join3, lines, lines_of, opt_view, skip_chars, starts_with, trim, trimmed,
};

verus! {

/// Failures of the worktree tool.
#[derive(Debug, Clone, PartialEq, Eq)]
pub enum WtError {
    /// The binary is not on the path.
    NotFound { message: String },
    /// The binary ran and failed.
    NonZeroExit { message: String },
    /// The binary could not be started or waited for.
    Io { message: String },
    /// The repository path has no parent or no name.
    InvalidRepoPath { message: String },
}

impl WtError {
    pub open spec fn detail(&self) -> Seq<char> {
        match self {
            WtError::NotFound { message } => message@,
            WtError::NonZeroExit { message } => message@,
            WtError::Io { message } => message@,
            WtError::InvalidRepoPath { message } => message@,
        }
    }

    pub open spec fn prefix(&self) -> Seq<char> {
        match self {
            WtError::NotFound { .. } => "wt binary not found on PATH: "@,
            WtError::NonZeroExit { .. } => "wt exited non-zero: "@,
            WtError::Io { .. } => "wt spawn/io error: "@,
            WtError::InvalidRepoPath { .. } => "invalid repo path for wt: "@,
        }
    }

    /// The error in words.
    pub fn message(&self) -> (s: String)
        ensures
            s@ == self.prefix() + self.detail(),
    {
        let (head, tail) = match self {
            WtError::NotFound { message } => ("wt binary not found on PATH: ", message),
            WtError::NonZeroExit { message } => ("wt exited non-zero: ", message),
            WtError::Io { message } => ("wt spawn/io error: ", message),
            WtError::InvalidRepoPath { message } => ("invalid repo path for wt: ", message),
        };
        crate::text::join2(head, tail.as_str())
    }
}

/// One worktree of a repository. A detached or bare one has no branch.
#[derive(Debug, Clone, PartialEq, Eq)]
pub struct WorktreePorcelainEntry {
    pub path: String,
    pub branch: Option<String>,
}

#[verifier::ext_equal]
pub struct PorcelainView {
    pub path: Seq<char>,
    pub branch: Option<Seq<char>>,
}

impl View for WorktreePorcelainEntry {
    type V = PorcelainView;

    open spec fn view(&self) -> PorcelainView {
        PorcelainView { path: self.path@, branch: opt_view(self.branch) }
    }
}

// ---------------------------------------------------------------------------
// Branches and paths
// ---------------------------------------------------------------------------

/// ASCII letters and digits, `-` and `_`.
pub open spec fn is_branch_char(c: char) -> bool {
    ||| 'a' <= c <= 'z'
    ||| 'A' <= c <= 'Z'
    ||| '0' <= c <= '9'
    ||| c == '-'
    ||| c == '_'
}

pub open spec fn branch_char(c: char) -> char {
    if is_branch_char(c) {
        c
    } else {
        '-'
    }
}

/// The branch with a dash for each character that is not safe.
pub open spec fn sanitized(branch: Seq<char>) -> Seq<char> {
    Seq::new(branch.len(), |i: int| branch_char(branch[i]))
}

pub fn safe_char(c: char) -> (r: bool)
    ensures
        r == is_branch_char(c),
{
    ('a' <= c && c <= 'z') || ('A' <= c && c <= 'Z') || ('0' <= c && c <= '9') || c == '-' || c
        == '_'
}

/// Makes a name safe as a branch and as the suffix of a worktree path.
pub fn sanitize_branch(branch: &str) -> (r: String)
    ensures
        r@ == sanitized(branch@),
{
    let cs = chars_of(branch);
    let mut out = String::new();
    let mut i: usize = 0;
    while i < cs.len()
        invariant
            i <= cs.len(),
            out@ == sanitized(cs@.take(i as int)),
        decreases cs.len() - i,
    {
        let c = cs[i];
        if safe_char(c) {
            out.push(c);
        } else {
            out.push('-');
        }
        proof {
            assert(sanitized(cs@.take(i + 1)) =~= sanitized(cs@.take(i as int)).push(
                branch_char(c),
            ));
        }
        i += 1;
    }
    assert(cs@.take(i as int) =~= branch@);
    out
}

/// Where the worktree of `branch` stands.
pub open spec fn sibling(repo: Seq<char>, branch: Seq<char>) -> Seq<char> {
    joined(parent_of(repo)->0, file_name_of(repo)->0 + "."@ + sanitized(branch))
}

/// What is said of a checkout that no worktree can stand beside.
pub open spec fn place_fault(repo_path: Seq<char>) -> Seq<char> {
    "repo path `"@ + repo_path + (if parent_of(repo_path) is None {
        "` has no parent"@
    } else {
        "` has no file name"@
    })
}

/// The path of the worktree of `branch`, beside the repository.
pub fn worktree_path_for(repo_path: &str, branch: &str) -> (r: Result<String, WtError>)
    ensures
        r matches Ok(p) ==> parent_of(repo_path@) is Some && file_name_of(repo_path@) is Some
            && p@ == sibling(repo_path@, branch@),
        r is Ok == (parent_of(repo_path@) is Some && file_name_of(repo_path@) is Some),
        r matches Err(e) ==> e matches WtError::InvalidRepoPath { message } && message@
            == place_fault(repo_path@),
{
    let dir = match parent(repo_path) {
        Some(dir) => dir,
        None => {
            return Err(
                WtError::InvalidRepoPath {
                    message: join3("repo path `", repo_path, "` has no parent"),
                },
            );
        },
    };
    let name = match file_name(repo_path) {
        Some(name) => name,
        None => {
            return Err(
                WtError::InvalidRepoPath {
                    message: join3("repo path `", repo_path, "` has no file name"),
                },
            );
        },
    };
    let suffix = sanitize_branch(branch);
    let child = join3(name.as_str(), ".", suffix.as_str());
    Ok(join(dir.as_str(), child.as_str()))
}

/// Sorts a failure to start `op`: `missing` says that the binary is not there.
pub fn classify_io(missing: bool, op: &str, cause: &str) -> (e: WtError)
    ensures
        missing ==> e is NotFound && e.detail() == "required binary not found while running "@ + op@,
        !missing ==> e is Io && e.detail() == op@ + ": "@ + cause@,
{
    if missing {
        WtError::NotFound {
            message: crate::text::join2("required binary not found while running ", op),
        }
    } else {
        WtError::Io { message: join3(op, ": ", cause) }
    }
}

/// Sanitizing a second time changes nothing.
pub proof fn law_sanitize_is_idempotent(branch: Seq<char>)
    ensures
        sanitized(sanitized(branch)) == sanitized(branch),
{
    assert(sanitized(sanitized(branch)) =~= sanitized(branch));
}

/// A name of safe characters is kept.
pub proof fn law_sanitize_keeps_safe_names(branch: Seq<char>)
    requires
        forall|i: int| 0 <= i < branch.len() ==> is_branch_char(#[trigger] branch[i]),
    ensures
        sanitized(branch) == branch,
{
    assert(sanitized(branch) =~= branch);
}

/// Every character of a sanitized name is safe, so it holds no slash.
pub proof fn law_sanitized_is_safe(branch: Seq<char>)
    ensures
        sanitized(branch).len() == branch.len(),
        forall|i: int| 0 <= i < branch.len() ==> is_branch_char(#[trigger] sanitized(branch)[i]),
        !sanitized(branch).contains('/'),
{
    assert(is_branch_char('-'));
    assert forall|i: int| 0 <= i < branch.len() implies is_branch_char(
        #[trigger] sanitized(branch)[i],
    ) by {
        assert(sanitized(branch)[i] == branch_char(branch[i]));
    }
}

// ---------------------------------------------------------------------------
// Listings
// ---------------------------------------------------------------------------

/// What has been read of a listing: the finished records, and the open one.
#[verifier::ext_equal]
pub struct Reading {
    pub done: Seq<PorcelainView>,
    pub path: Option<Seq<char>>,
    pub branch: Option<Seq<char>>,
}

/// The records with the open one, if any, finished.
pub open spec fn flushed(r: Reading) -> Seq<PorcelainView> {
    match r.path {
        Some(path) => r.done.push(PorcelainView { path, branch: r.branch }),
        None => r.done,
    }
}

/// `line` without `head`.
pub open spec fn behind(line: Seq<char>, head: Seq<char>) -> Seq<char> {
    line.subrange(head.len() as int, line.len() as int)
}

/// A blank line ends a record, `worktree` starts one, `branch` names its
/// branch. Other lines do not count.
pub open spec fn read_line(r: Reading, line: Seq<char>) -> Reading {
    if line.len() == 0 {
        Reading { done: flushed(r), path: None, branch: None }
    } else if begins_with(line, "worktree "@) {
        Reading { done: flushed(r), path: Some(behind(line, "worktree "@)), branch: None }
    } else if begins_with(line, "branch "@) {
        let name = behind(line, "branch "@);
        Reading {
            branch: Some(
                if begins_with(name, "refs/heads/"@) {
                    behind(name, "refs/heads/"@)
                } else {
                    name
                },
            ),
            ..r
        }
    } else {
        r
    }
}

pub open spec fn read_lines(lines: Seq<Seq<char>>, n: nat) -> Reading
    decreases n,
{
    if n == 0 {
        Reading { done: Seq::empty(), path: None, branch: None }
    } else {
        read_line(read_lines(lines, (n - 1) as nat), lines[n - 1])
    }
}

/// The worktrees that a listing names.
pub open spec fn listing(raw: Seq<char>) -> Seq<PorcelainView> {
    flushed(read_lines(lines_of(raw), lines_of(raw).len()))
}

pub open spec fn porcelain_views(v: Seq<WorktreePorcelainEntry>) -> Seq<PorcelainView> {
    Seq::new(v.len(), |i: int| v[i]@)
}

/// `line` without `head`, if it begins with it.
fn strip_prefix(line: &str, head: &str, n: usize) -> (r: Option<String>)
    requires
        n == head@.len(),
    ensures
        r is Some == begins_with(line@, head@),
        r matches Some(rest) ==> rest@ == behind(line@, head@),
{
    if starts_with(line, head) {
        Some(skip_chars(line, n))
    } else {
        None
    }
}

fn finish(done: &mut Vec<WorktreePorcelainEntry>, path: Option<String>, branch: Option<String>)
    ensures
        porcelain_views(final(done)@) == flushed(
            (Reading {
                done: porcelain_views(old(done)@),
                path: opt_view(path),
                branch: opt_view(branch),
            }),
        ),
{
    if let Some(path) = path {
        let entry = WorktreePorcelainEntry { path, branch };
        let ghost e = entry@;
        done.push(entry);
        assert(porcelain_views(done@) =~= porcelain_views(old(done)@).push(e));
    }
}

/// Reads what `git worktree list --porcelain` prints.
pub fn parse_worktree_list_porcelain(raw: &str) -> (out: Vec<WorktreePorcelainEntry>)
    ensures
        porcelain_views(out@) == listing(raw@),
{
    let all = lines(raw);
    let mut done: Vec<WorktreePorcelainEntry> = Vec::new();
    let mut path: Option<String> = None;
    let mut branch: Option<String> = None;
    assert(porcelain_views(done@) =~= Seq::<PorcelainView>::empty());
    let mut i: usize = 0;
    proof {
        reveal_strlit("worktree ");
        reveal_strlit("branch ");
        reveal_strlit("refs/heads/");
    }
    while i < all.len()
        invariant
            i <= all.len(),
            crate::text::views(all@) == lines_of(raw@),
            "worktree "@.len() == 9,
            "branch "@.len() == 7,
            "refs/heads/"@.len() == 11,
            (Reading { done: porcelain_views(done@), path: opt_view(path), branch: opt_view(branch) })
                == read_lines(lines_of(raw@), i as nat),
        decreases all.len() - i,
    {
        let line = all[i].as_str();
        assert(line@ == lines_of(raw@)[i as int]);
        if crate::text::chars_of(line).len() == 0 {
            finish(&mut done, path, branch);
            path = None;
            branch = None;
        } else if let Some(rest) = strip_prefix(line, "worktree ", 9) {
            finish(&mut done, path, branch);
            path = Some(rest);
            branch = None;
        } else if let Some(rest) = strip_prefix(line, "branch ", 7) {
            branch = match strip_prefix(rest.as_str(), "refs/heads/", 11) {
                Some(name) => Some(name),
                None => Some(rest),
            };
        }
        i += 1;
    }
    finish(&mut done, path, branch);
    done
}

/// A command that exited with a failure, and what it printed.
pub open spec fn is_exit_fault(e: WtError, stderr: Seq<char>) -> bool {
    e matches WtError::NonZeroExit { message } && message@ == trimmed(stderr)
}

/// How a removal went.
pub fn remove(success: bool, stderr: &str) -> (r: Result<(), WtError>)
    ensures
        r is Ok == success,
        r matches Err(e) ==> is_exit_fault(e, stderr@),
{
    if success {
        Ok(())
    } else {
        Err(WtError::NonZeroExit { message: trim(stderr) })
    }
}

/// The worktree that a creation left, beside the repository.
pub fn switch_create(success: bool, stderr: &str, repo_path: &str, branch: &str) -> (r: Result<
    String,
    WtError,
>)
    ensures
        r is Ok == (success && parent_of(repo_path@) is Some && file_name_of(repo_path@) is Some),
        r matches Ok(p) ==> p@ == sibling(repo_path@, branch@),
        r matches Err(e) ==> if success {
            e matches WtError::InvalidRepoPath { message } && message@ == place_fault(repo_path@)
        } else {
            is_exit_fault(e, stderr@)
        },
{
    if !success {
        return Err(WtError::NonZeroExit { message: trim(stderr) });
    }
    worktree_path_for(repo_path, branch)
}

/// The worktrees that a listing names.
pub fn list_porcelain(success: bool, stderr: &str, stdout: &str) -> (r: Result<
    Vec<WorktreePorcelainEntry>,
    WtError,
>)
    ensures
        r is Ok == success,
        r matches Ok(v) ==> porcelain_views(v@) == listing(stdout@),
        r matches Err(e) ==> is_exit_fault(e, stderr@),
{
    if !success {
        return Err(WtError::NonZeroExit { message: trim(stderr) });
    }
    Ok(parse_worktree_list_porcelain(stdout))
}

/// A worktree stands beside its checkout, under the checkout's name, a dot and
/// the branch, in which each character that is not a letter, a digit, `-` or `_`
/// is a dash.
pub proof fn law_worktree_stands_beside_its_checkout(
    d: Seq<char>,
    n: Seq<char>,
    branch: Seq<char>,
    i: int,
)
    requires
        crate::path::is_directory(d),
        crate::path::is_name(n),
    ensures
        sibling(d.push('/') + n, branch) == d.push('/') + (n + "."@ + sanitized(branch)),
        sanitized(branch).len() == branch.len(),
        0 <= i < branch.len() ==> sanitized(branch)[i] == (if ('a' <= branch[i] && branch[i] <= 'z')
            || ('A' <= branch[i] && branch[i] <= 'Z') || ('0' <= branch[i] && branch[i] <= '9')
            || branch[i] == '-' || branch[i] == '_' {
            branch[i]
        } else {
            '-'
        }),
{
    crate::path::law_joining_is_undone(d, n);
    let x = n + "."@ + sanitized(branch);
    assert(x[0] == n[0]);
    assert(n[0] != '/');
}

/// `lines` tell of one worktree after the other, each in four lines: its path,
/// its commit, its branch or that it has none, and a blank line.
pub open spec fn tells_of(
    lines: Seq<Seq<char>>,
    paths: Seq<Seq<char>>,
    commits: Seq<Seq<char>>,
    branches: Seq<Option<Seq<char>>>,
) -> bool {
    &&& lines.len() == 4 * paths.len()
    &&& commits.len() == paths.len()
    &&& branches.len() == paths.len()
    &&& forall|i: int|
        0 <= i < paths.len() ==> {
            &&& lines[4 * i] == "worktree "@ + #[trigger] paths[i]
            &&& lines[4 * i + 1] == "HEAD "@ + commits[i]
            &&& lines[4 * i + 2] == match branches[i] {
                Some(b) => "branch refs/heads/"@ + b,
                None => "detached"@,
            }
            &&& lines[4 * i + 3].len() == 0
        }
}

proof fn lemma_heads()
    ensures
        "worktree "@.len() == 9,
        "branch "@.len() == 7,
        "refs/heads/"@.len() == 11,
        "branch refs/heads/"@ == "branch "@ + "refs/heads/"@,
        "worktree "@[0] == 'w',
        "branch "@[0] == 'b',
        "HEAD "@.len() == 5,
        "HEAD "@[0] == 'H',
        "detached"@.len() == 8,
        "detached"@[0] == 'd',
{
    reveal_strlit("worktree ");
    reveal_strlit("branch ");
    reveal_strlit("refs/heads/");
    reveal_strlit("branch refs/heads/");
    reveal_strlit("HEAD ");
    reveal_strlit("detached");
    assert("branch refs/heads/"@ =~= "branch "@ + "refs/heads/"@);
}

proof fn lemma_head(head: Seq<char>, rest: Seq<char>)
    ensures
        begins_with(head + rest, head),
        behind(head + rest, head) == rest,
{
    assert((head + rest).subrange(0, head.len() as int) =~= head);
    assert(behind(head + rest, head) =~= rest);
}

proof fn lemma_not_head(line: Seq<char>, head: Seq<char>)
    requires
        head.len() > 0,
        line.len() > 0,
        line[0] != head[0],
    ensures
        !begins_with(line, head),
{
    if begins_with(line, head) {
        assert(line.subrange(0, head.len() as int)[0] == head[0]);
    }
}

proof fn lemma_record(r: Reading, path: Seq<char>, commit: Seq<char>, branch: Option<Seq<char>>)
    requires
        r.path is None,
    ensures
        ({
            let a = read_line(r, "worktree "@ + path);
            let b = read_line(a, "HEAD "@ + commit);
            let c = read_line(
                b,
                match branch {
                    Some(n) => "branch refs/heads/"@ + n,
                    None => "detached"@,
                },
            );
            let d = read_line(c, Seq::empty());
            d == (Reading {
                done: r.done.push(PorcelainView { path, branch }),
                path: None,
                branch: None,
            })
        }),
{
    lemma_heads();
    lemma_head("worktree "@, path);
    let h = "HEAD "@ + commit;
    assert(h[0] == 'H');
    lemma_not_head(h, "worktree "@);
    lemma_not_head(h, "branch "@);
    lemma_not_head("detached"@, "worktree "@);
    lemma_not_head("detached"@, "branch "@);
    if let Some(n) = branch {
        let rest = "refs/heads/"@ + n;
        let line = "branch refs/heads/"@ + n;
        assert(line =~= "branch "@ + rest);
        assert(line[0] == 'b');
        lemma_not_head(line, "worktree "@);
        lemma_head("branch "@, rest);
        lemma_head("refs/heads/"@, n);
    }
}

proof fn lemma_records(
    lines: Seq<Seq<char>>,
    paths: Seq<Seq<char>>,
    commits: Seq<Seq<char>>,
    branches: Seq<Option<Seq<char>>>,
    n: nat,
)
    requires
        tells_of(lines, paths, commits, branches),
        n <= paths.len(),
    ensures
        read_lines(lines, 4 * n) == (Reading {
            done: Seq::new(n, |i: int| PorcelainView { path: paths[i], branch: branches[i] }),
            path: None,
            branch: None,
        }),
    decreases n,
{
    if n == 0 {
        assert(Seq::new(0, |i: int| PorcelainView { path: paths[i], branch: branches[i] })
            =~= Seq::<PorcelainView>::empty());
    } else {
        let i = n - 1;
        lemma_records(lines, paths, commits, branches, i as nat);
        let k = (4 * i) as nat;
        let r = read_lines(lines, k);
        assert(lines[4 * i] == "worktree "@ + paths[i]);
        assert(lines[4 * i + 3] =~= Seq::empty());
        lemma_record(r, paths[i], commits[i], branches[i]);
        let a = read_lines(lines, k + 1);
        assert(a == read_line(r, lines[4 * i]));
        let b = read_lines(lines, k + 2);
        assert(b == read_line(a, lines[4 * i + 1]));
        let c = read_lines(lines, k + 3);
        assert(c == read_line(b, lines[4 * i + 2]));
        let d = read_lines(lines, k + 4);
        assert(d == read_line(c, lines[4 * i + 3]));
        assert(d.done =~= Seq::new(
            n,
            |i: int| PorcelainView { path: paths[i], branch: branches[i] },
        ));
        assert(k + 4 == 4 * n);
    }
}

/// A listing reads as the worktrees that it tells of, each with its path and the
/// short name of its branch, in order.
pub proof fn law_listings_are_read_back(
    raw: Seq<char>,
    paths: Seq<Seq<char>>,
    commits: Seq<Seq<char>>,
    branches: Seq<Option<Seq<char>>>,
)
    requires
        tells_of(lines_of(raw), paths, commits, branches),
    ensures
        listing(raw).len() == paths.len(),
        forall|i: int|
            0 <= i < paths.len() ==> (#[trigger] listing(raw)[i]).path == paths[i]
                && listing(raw)[i].branch == branches[i],
{
    lemma_records(lines_of(raw), paths, commits, branches, paths.len());
}

} // verus!

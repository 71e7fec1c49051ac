//! The raw form of a workflow file, as it is written down, and what is asked
//! of it before it is expanded.
use vstd::prelude::*;

use crate::path::{is_absolute, is_absolute_path, join, joined, parent, parent_of};
use crate::strmap::StrMap;
use crate::text::{begins_with, decimal, decimal_text, join2, join3, skip_chars, starts_with, str_eq};
use crate::workflow::canonical::StateId;

verus! {

/// What is wrong with a workflow file.
#[derive(Debug, Clone, PartialEq, Eq)]
pub enum ParseError {
    /// The file could not be read.
    Io { path: String, message: String },
    /// The file is not YAML of the expected shape.
    Yaml { path: String, message: String },
    /// Only a cleanup row may be without a body.
    EmptyBodyOutsideCleanup { path: String, section: String, index: usize },
    /// A path leads out through a link.
    SymlinkEscape { reference: String, declared: String },
    /// A path starts at a home directory that is not known.
    HomeUnresolvable(String),
}

impl ParseError {
    pub open spec fn text(&self) -> Seq<char> {
        match self {
            ParseError::Io { path, message } => "read error on "@ + path@ + ": "@ + message@,
            ParseError::Yaml { path, message } => "yaml deserialize error in "@ + path@ + ": "@
                + message@,
            ParseError::EmptyBodyOutsideCleanup { path, section, index } =>
                "empty body not allowed outside cleanup: "@ + path@ + ": "@ + section@ + "["@
                    + decimal(*index as nat) + "]"@,
            ParseError::SymlinkEscape { reference, declared } =>
                "symlink escape detected resolving "@ + declared@ + " from "@ + reference@,
            ParseError::HomeUnresolvable(path) =>
                "home directory not resolvable for tilde-prefixed path: "@ + path@,
        }
    }

    /// The error in words.
    pub fn message(&self) -> (s: String)
        ensures
            s@ == self.text(),
    {
        match self {
            ParseError::Io { path, message } => {
                let head = join3("read error on ", path.as_str(), ": ");
                join2(head.as_str(), message.as_str())
            },
            ParseError::Yaml { path, message } => {
                let head = join3("yaml deserialize error in ", path.as_str(), ": ");
                join2(head.as_str(), message.as_str())
            },
            ParseError::EmptyBodyOutsideCleanup { path, section, index } => {
                let head = join3("empty body not allowed outside cleanup: ", path.as_str(), ": ");
                let named = join3(head.as_str(), section.as_str(), "[");
                join3(named.as_str(), decimal_text(*index as u64).as_str(), "]")
            },
            ParseError::SymlinkEscape { reference, declared } => {
                let head = join3("symlink escape detected resolving ", declared.as_str(), " from ");
                join2(head.as_str(), reference.as_str())
            },
            ParseError::HomeUnresolvable(path) => join2(
                "home directory not resolvable for tilde-prefixed path: ",
                path.as_str(),
            ),
        }
    }
}

#[derive(Debug, Clone)]
pub struct RawWorkflow {
    pub admission: Option<RawAdmission>,
    pub rules: Vec<RawRuleEntry>,
    pub cleanup: Vec<RawRuleEntry>,
    pub on_failure: Vec<RawRuleEntry>,
}

#[derive(Debug, Clone)]
pub struct RawAdmission {
    pub assignee: String,
    pub repos: Vec<RawRepoEntry>,
}

#[derive(Debug, Clone)]
pub struct RawRepoEntry {
    pub ghq: String,
    pub when: Option<RawWhenClause>,
    pub workflow: Option<String>,
}

#[derive(Debug, Clone)]
pub struct RawWhenClause {
    pub status: Option<RawScalarMatcher>,
    pub labels: Option<RawLabelsMatcher>,
    pub assignee: Option<RawScalarMatcher>,
    pub repo: Option<String>,
    pub kind: Option<RawScalarMatcher>,
    pub phase: Option<RawScalarMatcher>,
    pub title: Option<RawTextMatcher>,
    pub body: Option<RawTextMatcher>,
}

#[derive(Debug, Clone)]
pub enum RawScalarMatcher {
    /// A bare scalar: equality.
    Eq(String),
    /// The map form with `not:` and `in:`.
    Op { not: Option<String>, in_: Option<Vec<String>> },
}

#[derive(Debug, Clone)]
pub struct RawLabelsMatcher {
    pub has_all: Option<Vec<String>>,
    pub has_any: Option<Vec<String>>,
    pub has_none: Option<Vec<String>>,
}

#[derive(Debug, Clone)]
pub struct RawTextMatcher {
    pub regex: Option<String>,
    pub starts_with: Option<String>,
    pub contains: Option<String>,
}

#[derive(Debug, Clone)]
pub struct RawRuleEntry {
    pub when: Option<RawWhenClause>,
    pub body: RawRuleBody,
}

/// The body of a rule: a state machine, a task list, or nothing.
#[derive(Debug, Clone)]
pub enum RawRuleBody {
    Canonical {
        start: StateId,
        states: StrMap<RawStateEntry>,
        terminals: StrMap<RawTerminalEntry>,
        on_fail: Option<StateId>,
    },
    Sugar {
        tasks: Vec<RawTaskEntry>,
        states: StrMap<RawStateEntry>,
        terminals: StrMap<RawTerminalEntry>,
        on_fail: Option<StateId>,
    },
    Empty {},
}

#[derive(Debug, Clone)]
pub struct RawStateEntry {
    pub run: Option<String>,
    pub uses: Option<String>,
    pub if_cond: Option<String>,
    pub timeout: Option<String>,
    pub on_done: Option<StateId>,
    pub on_fail: Option<StateId>,
    pub directives: StrMap<RawDirectiveTarget>,
    pub max_visits: Option<u32>,
}

#[derive(Debug, Clone)]
pub enum RawDirectiveTarget {
    /// `<name>: <state_id>`.
    Short(StateId),
    /// `<name>: { target: <state_id>, max_visits: <int> }`.
    Long { target: StateId, max_visits: Option<u32> },
}

#[derive(Debug, Clone)]
pub struct RawTaskEntry {
    pub id: StateId,
    pub run: Option<String>,
    pub uses: Option<String>,
    pub if_cond: Option<String>,
    pub timeout: Option<String>,
    pub on_fail: Option<StateId>,
    pub directives: StrMap<RawDirectiveTarget>,
    pub max_visits: Option<u32>,
}

#[derive(Debug, Clone)]
pub struct RawTerminalEntry {
    pub outcome: String,
}

// ---------------------------------------------------------------------------
// Bodies
// ---------------------------------------------------------------------------

/// Rule `i` is the first one without a body.
pub open spec fn first_empty(rules: Seq<RawRuleEntry>, i: int) -> bool {
    &&& 0 <= i < rules.len()
    &&& rules[i].body is Empty
    &&& forall|k: int| 0 <= k < i ==> !((#[trigger] rules[k]).body is Empty)
}

/// Some rule has no body.
pub open spec fn some_empty(rules: Seq<RawRuleEntry>) -> bool {
    exists|i: int| first_empty(rules, i)
}

fn find_empty(rules: &Vec<RawRuleEntry>) -> (r: Option<usize>)
    ensures
        r is Some == some_empty(rules@),
        r matches Some(i) ==> first_empty(rules@, i as int),
{
    let mut i: usize = 0;
    while i < rules.len()
        invariant
            i <= rules.len(),
            forall|k: int| 0 <= k < i ==> !((#[trigger] rules@[k]).body is Empty),
        decreases rules.len() - i,
    {
        if matches!(rules[i].body, RawRuleBody::Empty {  }) {
            assert(first_empty(rules@, i as int));
            return Some(i);
        }
        i += 1;
    }
    None
}

/// Refuses a rule or a failure row without a body: only a cleanup row may be
/// without one.
pub fn reject_empty_body_outside_cleanup(path: &str, raw: &RawWorkflow) -> (r: Result<
    (),
    ParseError,
>)
    ensures
        r is Ok == (!some_empty(raw.rules@) && !some_empty(raw.on_failure@)),
        r matches Err(e) ==> (e matches ParseError::EmptyBodyOutsideCleanup {
            path: p,
            section,
            index,
        } && p@ == path@ && if some_empty(raw.rules@) {
            section@ == "rules"@ && first_empty(raw.rules@, index as int)
        } else {
            section@ == "on_failure"@ && first_empty(raw.on_failure@, index as int)
        }),
{
    if let Some(index) = find_empty(&raw.rules) {
        return Err(
            ParseError::EmptyBodyOutsideCleanup {
                path: path.to_owned(),
                section: "rules".to_owned(),
                index,
            },
        );
    }
    if let Some(index) = find_empty(&raw.on_failure) {
        return Err(
            ParseError::EmptyBodyOutsideCleanup {
                path: path.to_owned(),
                section: "on_failure".to_owned(),
                index,
            },
        );
    }
    Ok(())
}

// ---------------------------------------------------------------------------
// Paths
// ---------------------------------------------------------------------------

/// What stands behind `~/`.
pub open spec fn below_home(declared: Seq<char>) -> Seq<char> {
    declared.subrange(2, declared.len() as int)
}

/// What a declared path stands for. An absolute one is kept; one that starts
/// with a tilde starts at the home directory; any other one starts at the
/// directory of the file that declares it.
pub open spec fn resolved(
    reference: Seq<char>,
    declared: Seq<char>,
    home: Option<Seq<char>>,
) -> Option<Seq<char>> {
    if is_absolute_path(declared) {
        Some(declared)
    } else if begins_with(declared, "~/"@) {
        match home {
            Some(h) => Some(joined(h, below_home(declared))),
            None => None,
        }
    } else if declared == "~"@ {
        home
    } else if begins_with(declared, "~"@) {
        None
    } else {
        match parent_of(reference) {
            Some(dir) => Some(joined(dir, declared)),
            None => Some(joined("."@, declared)),
        }
    }
}

/// Resolves a path that `reference_file` declares. `home` is the home
/// directory, where it is known. Other users' homes are not.
pub fn resolve_path(reference_file: &str, declared: &str, home: Option<&str>) -> (r: Result<
    String,
    ParseError,
>)
    ensures
        ({
            let h = match home {
                Some(s) => Some(s@),
                None => None,
            };
            match resolved(reference_file@, declared@, h) {
                Some(p) => r matches Ok(s) && s@ == p,
                None => r matches Err(ParseError::HomeUnresolvable(p)) && p@ == declared@,
            }
        }),
{
    if is_absolute(declared) {
        return Ok(declared.to_owned());
    }
    if starts_with(declared, "~/") {
        proof {
            reveal_strlit("~/");
        }
        let rest = skip_chars(declared, 2);
        return match home {
            Some(h) => Ok(join(h, rest.as_str())),
            None => Err(ParseError::HomeUnresolvable(declared.to_owned())),
        };
    }
    if str_eq(declared, "~") {
        return match home {
            Some(h) => Ok(h.to_owned()),
            None => Err(ParseError::HomeUnresolvable(declared.to_owned())),
        };
    }
    if starts_with(declared, "~") {
        return Err(ParseError::HomeUnresolvable(declared.to_owned()));
    }
    match parent(reference_file) {
        Some(dir) => Ok(join(dir.as_str(), declared)),
        None => Ok(join(".", declared)),
    }
}

/// Where the workflow of a repository's own stands, if it has one.
pub fn override_path(repo: &RawRepoEntry, top_path: &str, home: Option<&str>) -> (r: Result<
    Option<String>,
    ParseError,
>)
    ensures
        ({
            let h = match home {
                Some(s) => Some(s@),
                None => None,
            };
            match repo.workflow {
                None => r matches Ok(None),
                Some(declared) => match resolved(top_path@, declared@, h) {
                    Some(p) => r matches Ok(Some(s)) && s@ == p,
                    None => r matches Err(ParseError::HomeUnresolvable(p)) && p@ == declared@,
                },
            }
        }),
{
    match &repo.workflow {
        None => Ok(None),
        Some(declared) => match resolve_path(top_path, declared.as_str(), home) {
            Ok(p) => Ok(Some(p)),
            Err(e) => Err(e),
        },
    }
}

/// `home`, as a text.
pub open spec fn home_view(home: Option<&str>) -> Option<Seq<char>> {
    match home {
        Some(h) => Some(h@),
        None => None,
    }
}

/// `load` may give `outcome` for the file at `path`.
pub open spec fn loads<F: Fn(&str) -> Result<RawWorkflow, ParseError>>(
    load: F,
    path: Seq<char>,
    outcome: Result<RawWorkflow, ParseError>,
) -> bool {
    exists|p: &str| p@ == path && #[trigger] call_ensures(load, (p,), outcome)
}

/// What repository `repo` adds to `before`: its own workflow, where it declares
/// one, in the place of an earlier one for the same repository.
pub open spec fn adds<F: Fn(&str) -> Result<RawWorkflow, ParseError>>(
    load: F,
    top_path: Seq<char>,
    home: Option<Seq<char>>,
    repo: RawRepoEntry,
    before: Map<Seq<char>, RawWorkflow>,
    after: Map<Seq<char>, RawWorkflow>,
) -> bool {
    match repo.workflow {
        None => after == before,
        Some(declared) => match resolved(top_path, declared@, home) {
            Some(path) => exists|raw: RawWorkflow| #[trigger]
                loads(load, path, Ok(raw)) && after == before.insert(repo.ghq@, raw),
            None => false,
        },
    }
}

/// `m` is what the first `n` repositories bring.
pub open spec fn gathered<F: Fn(&str) -> Result<RawWorkflow, ParseError>>(
    load: F,
    top_path: Seq<char>,
    home: Option<Seq<char>>,
    repos: Seq<RawRepoEntry>,
    n: nat,
    m: Map<Seq<char>, RawWorkflow>,
) -> bool
    decreases n,
{
    if n == 0 {
        m == Map::<Seq<char>, RawWorkflow>::empty()
    } else {
        exists|before: Map<Seq<char>, RawWorkflow>|
            gathered(load, top_path, home, repos, (n - 1) as nat, before) && #[trigger] adds(
                load,
                top_path,
                home,
                repos[n - 1],
                before,
                m,
            )
    }
}

/// `e` is what is wrong with the workflow that `repo` declares: its path, or
/// what is at the path.
pub open spec fn refuses<F: Fn(&str) -> Result<RawWorkflow, ParseError>>(
    load: F,
    top_path: Seq<char>,
    home: Option<Seq<char>>,
    repo: RawRepoEntry,
    e: ParseError,
) -> bool {
    repo.workflow matches Some(declared) && match resolved(top_path, declared@, home) {
        Some(path) => loads(load, path, Err(e)),
        None => e matches ParseError::HomeUnresolvable(p) && p@ == declared@,
    }
}

/// The repositories that a workflow admits.
pub open spec fn admitted_repos(top: RawWorkflow) -> Seq<RawRepoEntry> {
    match top.admission {
        Some(a) => a.repos@,
        None => Seq::empty(),
    }
}

/// Loads the workflows that repositories bring of their own, in order, and puts
/// them under the repositories' names; `load` reads the file at a path. The
/// first that cannot be had is the result.
pub fn resolve_per_repo_overrides<F: Fn(&str) -> Result<RawWorkflow, ParseError>>(
    top: &RawWorkflow,
    top_path: &str,
    home: Option<&str>,
    load: F,
) -> (r: Result<StrMap<RawWorkflow>, ParseError>)
    requires
        forall|p: &str| #[trigger] call_requires(load, (p,)),
    ensures
        match r {
            Ok(m) => gathered(
                load,
                top_path@,
                home_view(home),
                admitted_repos(*top),
                admitted_repos(*top).len(),
                m@,
            ),
            Err(e) => exists|k: nat, before: Map<Seq<char>, RawWorkflow>|
                k < admitted_repos(*top).len() && #[trigger] gathered(
                    load,
                    top_path@,
                    home_view(home),
                    admitted_repos(*top),
                    k,
                    before,
                ) && refuses(
                    load,
                    top_path@,
                    home_view(home),
                    admitted_repos(*top)[k as int],
                    e,
                ),
        },
{
    let mut m: StrMap<RawWorkflow> = StrMap::new();
    let admission = match &top.admission {
        Some(a) => a,
        None => {
            return Ok(m);
        },
    };
    let ghost repos = admitted_repos(*top);
    let mut i: usize = 0;
    while i < admission.repos.len()
        invariant
            i <= admission.repos.len(),
            repos == admission.repos@,
            repos == admitted_repos(*top),
            forall|p: &str| #[trigger] call_requires(load, (p,)),
            gathered(load, top_path@, home_view(home), repos, i as nat, m@),
        decreases admission.repos.len() - i,
    {
        let repo = &admission.repos[i];
        let ghost before = m@;
        match override_path(repo, top_path, home) {
            Err(e) => {
                assert(refuses(load, top_path@, home_view(home), repos[i as int], e));
                return Err(e);
            },
            Ok(None) => {},
            Ok(Some(path)) => {
                let p = path.as_str();
                match load(p) {
                    Err(e) => {
                        assert(loads(load, path@, Err(e)));
                        assert(refuses(load, top_path@, home_view(home), repos[i as int], e));
                        return Err(e);
                    },
                    Ok(raw) => {
                        assert(loads(load, path@, Ok(raw)));
                        m.insert(repo.ghq.clone(), raw);
                    },
                }
            },
        }
        i += 1;
        assert(adds(load, top_path@, home_view(home), repos[(i as nat) - 1], before, m@));
    }
    Ok(m)
}

/// The repositories that bring a workflow of their own are those that declare
/// one.
pub proof fn law_overrides_are_those_declared<F: Fn(&str) -> Result<RawWorkflow, ParseError>>(
    load: F,
    top_path: Seq<char>,
    home: Option<Seq<char>>,
    repos: Seq<RawRepoEntry>,
    n: nat,
    m: Map<Seq<char>, RawWorkflow>,
    ghq: Seq<char>,
)
    requires
        n <= repos.len(),
        gathered(load, top_path, home, repos, n, m),
    ensures
        m.dom().contains(ghq) <==> exists|i: int|
            0 <= i < n && (#[trigger] repos[i]).workflow is Some && repos[i].ghq@ == ghq,
    decreases n,
{
    if n > 0 {
        let before = choose|before: Map<Seq<char>, RawWorkflow>|
            gathered(load, top_path, home, repos, (n - 1) as nat, before) && #[trigger] adds(
                load,
                top_path,
                home,
                repos[n - 1],
                before,
                m,
            );
        law_overrides_are_those_declared(
            load,
            top_path,
            home,
            repos,
            (n - 1) as nat,
            before,
            ghq,
        );
        if m.dom().contains(ghq) && !before.dom().contains(ghq) {
            assert(repos[n - 1].workflow is Some && repos[n - 1].ghq@ == ghq);
        }
        if before.dom().contains(ghq) {
            let i = choose|i: int|
                0 <= i < n - 1 && (#[trigger] repos[i]).workflow is Some && repos[i].ghq@ == ghq;
            assert(0 <= i < n && repos[i].workflow is Some);
        }
        if exists|i: int|
            0 <= i < n && (#[trigger] repos[i]).workflow is Some && repos[i].ghq@ == ghq {
            let i = choose|i: int|
                0 <= i < n && (#[trigger] repos[i]).workflow is Some && repos[i].ghq@ == ghq;
            if i < n - 1 {
                assert(0 <= i < n - 1 && repos[i].workflow is Some);
            }
        }
    }
}

/// What a declared path stands for: an absolute one for itself; `~` and what is
/// below it for the home directory and what is below that; the home of another
/// user for nothing; and any other for what is below the directory of the file
/// that declares it.
pub proof fn law_paths_start_where_they_say(
    dir: Seq<char>,
    file: Seq<char>,
    declared: Seq<char>,
    home: Seq<char>,
)
    requires
        crate::path::is_directory(dir),
        crate::path::is_name(file),
        crate::path::is_directory(home),
        declared.len() > 0,
    ensures
        ({
            let reference = dir.push('/') + file;
            &&& declared[0] == '/' ==> resolved(reference, declared, Some(home)) == Some(declared)
                && resolved(reference, declared, None) == Some(declared)
            &&& declared[0] != '/' && declared[0] != '~' ==> resolved(
                reference,
                declared,
                Some(home),
            ) == Some(dir.push('/') + declared) && resolved(reference, declared, None) == Some(
                dir.push('/') + declared,
            )
            &&& declared[0] == '~' && declared.len() == 1 ==> resolved(
                reference,
                declared,
                Some(home),
            ) == Some(home)
            &&& declared[0] == '~' && declared.len() > 2 && declared[1] == '/' && declared[2] != '/'
                ==> resolved(reference, declared, Some(home)) == Some(
                home.push('/') + declared.skip(2),
            )
            &&& declared[0] == '~' && declared.len() > 1 && declared[1] != '/' ==> resolved(
                reference,
                declared,
                Some(home),
            ) is None
            &&& declared[0] == '~' ==> resolved(reference, declared, None) is None
        }),
{
    reveal_strlit("~/");
    reveal_strlit("~");
    let reference = dir.push('/') + file;
    crate::path::law_joining_is_undone(dir, file);
    assert(parent_of(reference) == Some(dir));
    let one = declared.subrange(0, 1);
    assert(one[0] == declared[0]);
    if declared[0] == '~' {
        assert(one =~= "~"@);
        assert(begins_with(declared, "~"@));
        if declared.len() == 1 {
            assert(declared =~= "~"@);
        } else {
            let two = declared.subrange(0, 2);
            assert(two[1] == declared[1]);
            if declared[1] == '/' {
                assert(two =~= "~/"@);
                assert(begins_with(declared, "~/"@));
                assert(below_home(declared) =~= declared.skip(2));
            } else {
                assert("~/"@[1] == '/');
                assert(!begins_with(declared, "~/"@));
            }
        }
    } else {
        assert("~"@[0] == '~' && "~/"@[0] == '~');
        assert(!begins_with(declared, "~"@));
        assert(!begins_with(declared, "~/"@)) by {
            if begins_with(declared, "~/"@) {
                assert(declared.subrange(0, 2)[0] == '~');
            }
        }
        assert(declared != "~"@);
    }
}

/// Where several entries declare a workflow for one repository, the last one
/// counts: what is kept is what was read at the path that it declares.
pub proof fn law_last_override_counts<F: Fn(&str) -> Result<RawWorkflow, ParseError>>(
    load: F,
    top_path: Seq<char>,
    home: Option<Seq<char>>,
    repos: Seq<RawRepoEntry>,
    n: nat,
    m: Map<Seq<char>, RawWorkflow>,
    i: int,
)
    requires
        n <= repos.len(),
        gathered(load, top_path, home, repos, n, m),
        0 <= i < n,
        repos[i].workflow is Some,
        forall|k: int|
            i < k < n ==> !((#[trigger] repos[k]).workflow is Some && repos[k].ghq@
                == repos[i].ghq@),
    ensures
        m.contains_key(repos[i].ghq@),
        resolved(top_path, repos[i].workflow->0@, home) is Some,
        loads(
            load,
            resolved(top_path, repos[i].workflow->0@, home)->0,
            Ok(m[repos[i].ghq@]),
        ),
    decreases n,
{
    let before = choose|before: Map<Seq<char>, RawWorkflow>|
        gathered(load, top_path, home, repos, (n - 1) as nat, before) && #[trigger] adds(
            load,
            top_path,
            home,
            repos[n - 1],
            before,
            m,
        );
    if i == n - 1 {
        let path = resolved(top_path, repos[i].workflow->0@, home)->0;
        let raw = choose|raw: RawWorkflow| #[trigger]
            loads(load, path, Ok(raw)) && m == before.insert(repos[i].ghq@, raw);
        assert(m[repos[i].ghq@] == raw);
    } else {
        law_last_override_counts(load, top_path, home, repos, (n - 1) as nat, before, i);
        assert(!(repos[n - 1].workflow is Some && repos[n - 1].ghq@ == repos[i].ghq@));
    }
}

/// Below a file that stands in no directory a path is itself, and below what has
/// no name it starts where the process is.
pub proof fn law_paths_without_a_directory(file: Seq<char>, declared: Seq<char>, home: Option<Seq<char>>)
    requires
        crate::path::is_name(file),
        declared.len() > 0,
        declared[0] != '/',
        declared[0] != '~',
    ensures
        resolved(file, declared, home) == Some(declared),
        resolved(Seq::empty(), declared, home) == Some(seq!['.', '/'] + declared),
        resolved(seq!['/'], declared, home) == Some(seq!['.', '/'] + declared),
{
    reveal_strlit("~/");
    reveal_strlit("~");
    reveal_strlit(".");
    assert(!begins_with(declared, "~"@)) by {
        if begins_with(declared, "~"@) {
            assert(declared.subrange(0, 1)[0] == '~');
        }
    }
    assert(!begins_with(declared, "~/"@)) by {
        if begins_with(declared, "~/"@) {
            assert(declared.subrange(0, 2)[0] == '~');
        }
    }
    assert(declared != "~"@) by {
        assert("~"@[0] == '~');
    }
    crate::path::lemma_name_alone(file);
    assert("."@.push('/') + declared =~= seq!['.', '/'] + declared);
    assert("."@[0] == '.');
    let e = Seq::<char>::empty();
    assert(crate::path::trim_tail(e) == e);
    assert(crate::path::trim_tail(seq!['/']) == seq!['/']);
}

/// The rule that is reported to have no body is the first that has none, and
/// there is one wherever any has none.
pub proof fn law_first_rule_without_a_body_is_reported(rules: Seq<RawRuleEntry>, i: int, k: int)
    requires
        0 <= k < rules.len(),
        rules[k].body is Empty,
    ensures
        first_empty(rules, i) ==> 0 <= i <= k && rules[i].body is Empty,
        some_empty(rules),
    decreases k,
{
    if exists|j: int| 0 <= j < k && (#[trigger] rules[j]).body is Empty {
        let j = choose|j: int| 0 <= j < k && (#[trigger] rules[j]).body is Empty;
        law_first_rule_without_a_body_is_reported(rules, i, j);
    } else {
        assert(first_empty(rules, k));
    }
}

} // verus!

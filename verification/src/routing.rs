//! Routing an issue to one repository, and the startup check of repositories.
use vstd::prelude::*;

use crate::config::{ghq_identifier, validate_ghq_identifier, LinearScope, RepoConfig};
use crate::text::{clone_opt, lemma_lex_irreflexive, lemma_lex_total, lemma_lex_transitive, lex_lt, listed, slice_contains, str_eq, str_lt};

verus! {

/// What routing reads of an issue.
#[derive(Debug)]
pub struct IssueRouteInput<'a> {
    pub issue_id: &'a str,
    pub team_key: &'a str,
    pub labels: &'a [String],
}

/// The repository and the issue, or nothing where no scope matches.
pub type RouteOutcome = Option<(String, String)>;

/// How closely a scope fits. Labels are the closer fit.
#[derive(Debug, Clone, Copy, PartialEq, Eq, Structural)]
pub enum Specificity {
    Team,
    Labels,
}

#[derive(Debug, Clone, Copy, PartialEq, Eq, Structural)]
pub enum UnhealthyReason {
    InvalidGhqIdentifier,
}

impl UnhealthyReason {
    pub fn name(&self) -> (s: &'static str)
        ensures
            s@ == "invalid_ghq_identifier"@,
    {
        "invalid_ghq_identifier"
    }
}

/// A repository that no work is scheduled for.
#[derive(Debug, PartialEq, Eq)]
pub struct UnhealthyRepo {
    pub repo_id: String,
    pub identifier: String,
    pub reason: UnhealthyReason,
}

/// The repositories, told apart at startup.
#[derive(Debug, PartialEq, Eq)]
pub struct RepoHealth {
    pub healthy: Vec<RepoConfig>,
    pub unhealthy: Vec<UnhealthyRepo>,
}

// ---------------------------------------------------------------------------
// Health
// ---------------------------------------------------------------------------

/// `a` and `b` are the same configuration.
pub open spec fn same_config(a: RepoConfig, b: RepoConfig) -> bool {
    &&& a.id == b.id
    &&& a.repo == b.repo
    &&& a.workflow_path == b.workflow_path
    &&& a.webhook_secret_env == b.webhook_secret_env
    &&& a.webhook_secret == b.webhook_secret
    &&& match (a.scope, b.scope) {
        (LinearScope::Team { key: x }, LinearScope::Team { key: y }) => x == y,
        (LinearScope::Labels { any_of: x }, LinearScope::Labels { any_of: y }) => x@ == y@,
        _ => false,
    }
}

impl Clone for RepoConfig {
    fn clone(&self) -> (r: Self)
        ensures
            same_config(r, *self),
    {
        RepoConfig {
            id: self.id.clone(),
            repo: self.repo.clone(),
            scope: self.scope.clone(),
            workflow_path: self.workflow_path.clone(),
            webhook_secret_env: clone_opt(&self.webhook_secret_env),
            webhook_secret: clone_opt(&self.webhook_secret),
        }
    }
}

/// The positions among the first `n` repositories whose identifier is
/// well-formed (or is not, for `good == false`), in order.
pub open spec fn positions(repos: Seq<RepoConfig>, good: bool, n: nat) -> Seq<int>
    decreases n,
{
    if n == 0 {
        Seq::empty()
    } else if ghq_identifier(repos[n - 1].repo@) == good {
        positions(repos, good, (n - 1) as nat).push(n - 1)
    } else {
        positions(repos, good, (n - 1) as nat)
    }
}

/// `h` tells the first `n` repositories apart, each kind in its order.
pub open spec fn told_apart(repos: Seq<RepoConfig>, h: RepoHealth, n: nat) -> bool {
    let good = positions(repos, true, n);
    let bad = positions(repos, false, n);
    &&& h.healthy.len() == good.len()
    &&& h.unhealthy.len() == bad.len()
    &&& forall|i: int|
        0 <= i < good.len() ==> same_config(#[trigger] h.healthy@[i], repos[good[i]])
    &&& forall|i: int|
        0 <= i < bad.len() ==> (#[trigger] h.unhealthy@[i]).repo_id == repos[bad[i]].id
            && h.unhealthy@[i].identifier == repos[bad[i]].repo
}

/// Tells the repositories apart by the shape of their ghq identifier.
pub fn classify_repo_health(repos: &[RepoConfig]) -> (h: RepoHealth)
    ensures
        told_apart(repos@, h, repos.len() as nat),
{
    let mut h = RepoHealth { healthy: Vec::new(), unhealthy: Vec::new() };
    let mut i: usize = 0;
    while i < repos.len()
        invariant
            i <= repos.len(),
            told_apart(repos@, h, i as nat),
        decreases repos.len() - i,
    {
        let repo = &repos[i];
        if validate_ghq_identifier(repo.repo.as_str()) {
            h.healthy.push(repo.clone());
        } else {
            h.unhealthy.push(
                UnhealthyRepo {
                    repo_id: repo.id.clone(),
                    identifier: repo.repo.clone(),
                    reason: UnhealthyReason::InvalidGhqIdentifier,
                },
            );
        }
        i += 1;
    }
    h
}

/// No repository is lost or counted twice.
pub proof fn law_health_partitions(repos: Seq<RepoConfig>, n: nat)
    ensures
        positions(repos, true, n).len() + positions(repos, false, n).len() == n,
    decreases n,
{
    if n > 0 {
        law_health_partitions(repos, (n - 1) as nat);
    }
}

// ---------------------------------------------------------------------------
// Routing
// ---------------------------------------------------------------------------

/// How the scope fits an issue, if it does.
pub open spec fn fit(scope: LinearScope, team: Seq<char>, labels: Seq<String>) -> Option<Specificity> {
    match scope {
        LinearScope::Team { key } => if key@ == team {
            Some(Specificity::Team)
        } else {
            None
        },
        LinearScope::Labels { any_of } => if exists|i: int|
            0 <= i < any_of.len() && listed(labels, #[trigger] any_of@[i]@) {
            Some(Specificity::Labels)
        } else {
            None
        },
    }
}

/// Repository `b` is preferred to `a`, both of which fit: it fits more closely,
/// or as closely with a smaller id.
pub open spec fn preferred(
    a: (Specificity, Seq<char>),
    b: (Specificity, Seq<char>),
) -> bool {
    ||| a.0 is Team && b.0 is Labels
    ||| a.0 == b.0 && lex_lt(b.1, a.1)
}

/// What decides of repository `i`.
pub open spec fn rank(repos: Seq<RepoConfig>, team: Seq<char>, labels: Seq<String>, i: int) -> (
    Specificity,
    Seq<char>,
) {
    (fit(repos[i].scope, team, labels)->0, repos[i].id@)
}

/// Repository `w` is the one to take: it fits, none that fits is preferred to
/// it, and of equal ones it is the first.
pub open spec fn winner(repos: Seq<RepoConfig>, team: Seq<char>, labels: Seq<String>, w: int) -> bool {
    &&& 0 <= w < repos.len()
    &&& fit(repos[w].scope, team, labels) is Some
    &&& forall|j: int|
        0 <= j < repos.len() && fit((#[trigger] repos[j]).scope, team, labels) is Some
            ==> !preferred(rank(repos, team, labels, w), rank(repos, team, labels, j)) && (rank(
            repos,
            team,
            labels,
            j,
        ) == rank(repos, team, labels, w) ==> w <= j)
}

#[verifier::loop_isolation(false)]
fn match_scope(scope: &LinearScope, issue: &IssueRouteInput) -> (r: Option<Specificity>)
    ensures
        r == fit(*scope, issue.team_key@, issue.labels@),
{
    match scope {
        LinearScope::Team { key } => if str_eq(key.as_str(), issue.team_key) {
            Some(Specificity::Team)
        } else {
            None
        },
        LinearScope::Labels { any_of } => {
            let mut i: usize = 0;
            while i < any_of.len()
                invariant
                    i <= any_of.len(),
                    forall|k: int| 0 <= k < i ==> !listed(issue.labels@, #[trigger] any_of@[k]@),
                decreases any_of.len() - i,
            {
                if slice_contains(issue.labels, any_of[i].as_str()) {
                    assert(listed(issue.labels@, any_of@[i as int]@));
                    return Some(Specificity::Labels);
                }
                i += 1;
            }
            None
        },
    }
}

proof fn lemma_preferred_transitive(
    a: (Specificity, Seq<char>),
    b: (Specificity, Seq<char>),
    c: (Specificity, Seq<char>),
)
    requires
        !preferred(a, b),
        !preferred(b, c),
    ensures
        !preferred(a, c),
        a == c ==> a == b,
{
    lemma_lex_total(a.1, b.1);
    lemma_lex_total(b.1, c.1);
    lemma_lex_total(a.1, c.1);
    if lex_lt(a.1, b.1) && lex_lt(b.1, c.1) {
        lemma_lex_transitive(a.1, b.1, c.1);
    }
    if lex_lt(c.1, a.1) && lex_lt(a.1, b.1) {
        lemma_lex_transitive(c.1, a.1, b.1);
    }
    lemma_lex_irreflexive(a.1);
    if lex_lt(a.1, b.1) && lex_lt(b.1, a.1) {
        lemma_lex_transitive(a.1, b.1, a.1);
    }
    if lex_lt(b.1, c.1) && lex_lt(c.1, b.1) {
        lemma_lex_transitive(b.1, c.1, b.1);
        lemma_lex_irreflexive(b.1);
    }
    if lex_lt(a.1, c.1) && lex_lt(c.1, a.1) {
        lemma_lex_transitive(a.1, c.1, a.1);
    }
}

/// The position of the repository that the issue goes to.
pub fn choose_repo(repos: &[RepoConfig], issue: &IssueRouteInput) -> (r: Option<usize>)
    ensures
        r matches Some(w) ==> winner(repos@, issue.team_key@, issue.labels@, w as int),
        r is None ==> forall|j: int|
            0 <= j < repos.len() ==> fit((#[trigger] repos@[j]).scope, issue.team_key@, issue.labels@) is None,
{
    let ghost team = issue.team_key@;
    let ghost labels = issue.labels@;
    let mut best: Option<(usize, Specificity)> = None;
    let mut i: usize = 0;
    while i < repos.len()
        invariant
            i <= repos.len(),
            team == issue.team_key@,
            labels == issue.labels@,
            best is None ==> forall|j: int|
                0 <= j < i ==> fit((#[trigger] repos@[j]).scope, team, labels) is None,
            best matches Some((w, tier)) ==> w < i && fit(repos@[w as int].scope, team, labels)
                == Some(tier) && forall|j: int|
                0 <= j < i && fit((#[trigger] repos@[j]).scope, team, labels) is Some
                    ==> !preferred(
                    rank(repos@, team, labels, w as int),
                    rank(repos@, team, labels, j),
                ) && (rank(repos@, team, labels, j) == rank(repos@, team, labels, w as int) ==> w
                    <= j),
        decreases repos.len() - i,
    {
        if let Some(tier) = match_scope(&repos[i].scope, issue) {
            let better = match best {
                None => true,
                Some((w, top)) => (top == Specificity::Team && tier == Specificity::Labels) || (top
                    == tier && str_lt(repos[i].id.as_str(), repos[w].id.as_str())),
            };
            proof {
                if let Some((w, top)) = best {
                    let rw = rank(repos@, team, labels, w as int);
                    let ri = rank(repos@, team, labels, i as int);
                    assert(better == preferred(rw, ri));
                    if better {
                        lemma_lex_irreflexive(ri.1);
                        assert(!preferred(ri, rw)) by {
                            if preferred(ri, rw) {
                                lemma_lex_transitive(ri.1, rw.1, ri.1);
                            }
                        }
                        assert forall|j: int|
                            0 <= j < i && fit((#[trigger] repos@[j]).scope, team, labels) is Some implies !preferred(
                            ri,
                            rank(repos@, team, labels, j),
                        ) && rank(repos@, team, labels, j) != ri by {
                            let rj = rank(repos@, team, labels, j);
                            lemma_preferred_transitive(ri, rw, rj);
                        }
                    }
                }
                lemma_lex_irreflexive(rank(repos@, team, labels, i as int).1);
            }
            if better {
                best = Some((i, tier));
            }
        }
        i += 1;
    }
    match best {
        Some((w, _)) => Some(w),
        None => None,
    }
}

/// Routes an issue to one repository, or to none.
pub fn route_issue(repos: &[RepoConfig], issue: &IssueRouteInput) -> (r: RouteOutcome)
    ensures
        r is None ==> forall|j: int|
            0 <= j < repos.len() ==> fit((#[trigger] repos@[j]).scope, issue.team_key@, issue.labels@) is None,
        r matches Some((repo, id)) ==> id@ == issue.issue_id@ && exists|w: int|
            winner(repos@, issue.team_key@, issue.labels@, w) && repo == (#[trigger] repos@[w]).id,
{
    match choose_repo(repos, issue) {
        Some(w) => Some((repos[w].id.clone(), issue.issue_id.to_owned())),
        None => None,
    }
}

/// Why a repository was chosen.
#[derive(Debug, Clone, Copy, PartialEq, Eq, Structural)]
pub enum PrecedenceReason {
    NoMatchingScope,
    SingleMatch,
    TeamMatch,
    LabelsMatch,
    TieBreakRepoIdLex,
}

impl PrecedenceReason {
    pub open spec fn code(&self) -> Seq<char> {
        match self {
            PrecedenceReason::NoMatchingScope => "no_matching_scope"@,
            PrecedenceReason::SingleMatch => "single_match"@,
            PrecedenceReason::TeamMatch => "team_match"@,
            PrecedenceReason::LabelsMatch => "labels_match"@,
            PrecedenceReason::TieBreakRepoIdLex => "tie_break_repo_id_lex"@,
        }
    }

    pub fn name(&self) -> (s: &'static str)
        ensures
            s@ == self.code(),
    {
        match self {
            PrecedenceReason::NoMatchingScope => "no_matching_scope",
            PrecedenceReason::SingleMatch => "single_match",
            PrecedenceReason::TeamMatch => "team_match",
            PrecedenceReason::LabelsMatch => "labels_match",
            PrecedenceReason::TieBreakRepoIdLex => "tie_break_repo_id_lex",
        }
    }
}

/// How many of the first `n` repositories fit as `tier`.
pub open spec fn fitting(
    repos: Seq<RepoConfig>,
    team: Seq<char>,
    labels: Seq<String>,
    tier: Specificity,
    n: nat,
) -> nat
    decreases n,
{
    if n == 0 {
        0
    } else {
        fitting(repos, team, labels, tier, (n - 1) as nat) + (if fit(
            repos[n - 1].scope,
            team,
            labels,
        ) == Some(tier) {
            1nat
        } else {
            0nat
        })
    }
}

/// The reason for the choice among the repositories that fit.
pub open spec fn reason_of(by_team: nat, by_labels: nat) -> PrecedenceReason {
    if by_team + by_labels == 0 {
        PrecedenceReason::NoMatchingScope
    } else if by_team + by_labels == 1 {
        PrecedenceReason::SingleMatch
    } else if by_labels == 1 {
        PrecedenceReason::LabelsMatch
    } else {
        PrecedenceReason::TieBreakRepoIdLex
    }
}

/// Why the repository was chosen that [`route_issue`] chooses.
pub fn precedence_reason(repos: &[RepoConfig], issue: &IssueRouteInput) -> (r: PrecedenceReason)
    ensures
        r == reason_of(
            fitting(repos@, issue.team_key@, issue.labels@, Specificity::Team, repos.len() as nat),
            fitting(repos@, issue.team_key@, issue.labels@, Specificity::Labels, repos.len() as nat),
        ),
{
    let mut by_team: usize = 0;
    let mut by_labels: usize = 0;
    let mut i: usize = 0;
    while i < repos.len()
        invariant
            i <= repos.len(),
            by_team + by_labels <= i,
            by_team == fitting(repos@, issue.team_key@, issue.labels@, Specificity::Team, i as nat),
            by_labels == fitting(repos@, issue.team_key@, issue.labels@, Specificity::Labels, i as nat),
        decreases repos.len() - i,
    {
        match match_scope(&repos[i].scope, issue) {
            Some(Specificity::Team) => {
                by_team += 1;
            },
            Some(Specificity::Labels) => {
                by_labels += 1;
            },
            None => {},
        }
        i += 1;
    }
    if by_team + by_labels == 0 {
        PrecedenceReason::NoMatchingScope
    } else if by_team + by_labels == 1 {
        PrecedenceReason::SingleMatch
    } else if by_labels == 1 {
        PrecedenceReason::LabelsMatch
    } else {
        PrecedenceReason::TieBreakRepoIdLex
    }
}

/// Exactly one repository is the one to take: the choice depends on the
/// configuration and the issue alone.
pub proof fn law_route_is_unique(
    repos: Seq<RepoConfig>,
    team: Seq<char>,
    labels: Seq<String>,
    a: int,
    b: int,
)
    requires
        winner(repos, team, labels, a),
        winner(repos, team, labels, b),
    ensures
        a == b,
{
    let ra = rank(repos, team, labels, a);
    let rb = rank(repos, team, labels, b);
    assert(fit(repos[a].scope, team, labels) is Some);
    assert(fit(repos[b].scope, team, labels) is Some);
    lemma_lex_total(ra.1, rb.1);
}

/// A repository that fits by labels is never passed over for one that fits by
/// team.
pub proof fn law_labels_outrank_team(
    repos: Seq<RepoConfig>,
    team: Seq<char>,
    labels: Seq<String>,
    w: int,
    j: int,
)
    requires
        winner(repos, team, labels, w),
        0 <= j < repos.len(),
        fit(repos[j].scope, team, labels) == Some(Specificity::Labels),
    ensures
        fit(repos[w].scope, team, labels) == Some(Specificity::Labels),
{
    assert(fit(repos[j].scope, team, labels) is Some);
}

/// The two lists have a word in common.
pub open spec fn overlap(a: Seq<String>, b: Seq<String>) -> bool {
    exists|i: int, j: int|
        0 <= i < a.len() && 0 <= j < b.len() && (#[trigger] a[i])@ == (#[trigger] b[j])@
}

/// A team's repository fits the issues of the team, and one with labels fits the
/// issues that carry one of them.
pub proof fn law_scopes_fit_what_they_name(scope: LinearScope, team: Seq<char>, labels: Seq<String>)
    ensures
        scope matches LinearScope::Team { key } ==> (fit(scope, team, labels) == Some(
            Specificity::Team,
        ) <==> key@ == team) && !(fit(scope, team, labels) == Some(Specificity::Labels)),
        scope matches LinearScope::Labels { any_of } ==> (fit(scope, team, labels) == Some(
            Specificity::Labels,
        ) <==> overlap(any_of@, labels)) && !(fit(scope, team, labels) == Some(Specificity::Team)),
{
    if let LinearScope::Labels { any_of } = scope {
        if overlap(any_of@, labels) {
            let (i, j) = choose|i: int, j: int|
                0 <= i < any_of@.len() && 0 <= j < labels.len() && (#[trigger] any_of@[i])@ == (
                #[trigger] labels[j])@;
            assert(listed(labels, any_of@[i]@));
        }
        if fit(scope, team, labels) is Some {
            let i = choose|i: int|
                0 <= i < any_of.len() && listed(labels, #[trigger] any_of@[i]@);
            let j = choose|j: int| 0 <= j < labels.len() && labels[j]@ == any_of@[i]@;
            assert(labels[j]@ == any_of@[i]@);
        }
    }
}

/// The repository that an issue goes to names the issue: by a label, or, where
/// no repository does that, by its team; and its id is the least of those that
/// do so in the same way.
pub proof fn law_issue_goes_where_it_is_named(
    repos: Seq<RepoConfig>,
    team: Seq<char>,
    labels: Seq<String>,
    w: int,
    j: int,
)
    requires
        winner(repos, team, labels, w),
        0 <= j < repos.len(),
    ensures
        repos[w].scope matches LinearScope::Labels { any_of } ==> overlap(any_of@, labels),
        repos[w].scope matches LinearScope::Labels { .. } ==> (repos[j].scope matches LinearScope::Labels {
            any_of,
        } ==> (overlap(any_of@, labels) ==> repos[w].id@ == repos[j].id@ || lex_lt(
            repos[w].id@,
            repos[j].id@,
        ))),
        repos[w].scope matches LinearScope::Team { key } ==> key@ == team,
        repos[w].scope matches LinearScope::Team { .. } ==> (repos[j].scope matches LinearScope::Labels {
            any_of,
        } ==> !overlap(any_of@, labels)),
        repos[w].scope matches LinearScope::Team { .. } ==> (repos[j].scope matches LinearScope::Team {
            key,
        } ==> (key@ == team ==> repos[w].id@ == repos[j].id@ || lex_lt(
            repos[w].id@,
            repos[j].id@,
        ))),
{
    law_scopes_fit_what_they_name(repos[w].scope, team, labels);
    law_scopes_fit_what_they_name(repos[j].scope, team, labels);
    lemma_lex_total(repos[w].id@, repos[j].id@);
    assert(fit(repos[j].scope, team, labels) is Some ==> !preferred(
        rank(repos, team, labels, w),
        rank(repos, team, labels, j),
    ));
}

/// Exactly one of the first `n` repositories fits as `tier`: the one at `k`.
pub open spec fn only_fit(
    repos: Seq<RepoConfig>,
    team: Seq<char>,
    labels: Seq<String>,
    tier: Specificity,
    n: nat,
    k: int,
) -> bool {
    &&& 0 <= k < n
    &&& fit(repos[k].scope, team, labels) == Some(tier)
    &&& forall|i: int|
        0 <= i < n && i != k ==> fit((#[trigger] repos[i]).scope, team, labels) != Some(tier)
}

/// None of the first `n` repositories fits as `tier`.
pub open spec fn no_fit(
    repos: Seq<RepoConfig>,
    team: Seq<char>,
    labels: Seq<String>,
    tier: Specificity,
    n: nat,
) -> bool {
    forall|i: int| 0 <= i < n ==> fit((#[trigger] repos[i]).scope, team, labels) != Some(tier)
}

proof fn lemma_fitting(
    repos: Seq<RepoConfig>,
    team: Seq<char>,
    labels: Seq<String>,
    tier: Specificity,
    n: nat,
)
    ensures
        fitting(repos, team, labels, tier, n) == 0 <==> no_fit(repos, team, labels, tier, n),
        fitting(repos, team, labels, tier, n) == 1 <==> exists|k: int| #[trigger]
            only_fit(repos, team, labels, tier, n, k),
    decreases n,
{
    if n > 0 {
        let m = (n - 1) as nat;
        lemma_fitting(repos, team, labels, tier, m);
        let last = fit(repos[n - 1].scope, team, labels) == Some(tier);
        if no_fit(repos, team, labels, tier, n) {
            assert(no_fit(repos, team, labels, tier, m));
        }
        if no_fit(repos, team, labels, tier, m) && last {
            assert(only_fit(repos, team, labels, tier, n, n - 1));
        }
        if exists|k: int| #[trigger] only_fit(repos, team, labels, tier, m, k) {
            let k = choose|k: int| #[trigger] only_fit(repos, team, labels, tier, m, k);
            if !last {
                assert(only_fit(repos, team, labels, tier, n, k));
            }
        }
        if exists|k: int| #[trigger] only_fit(repos, team, labels, tier, n, k) {
            let k = choose|k: int| #[trigger] only_fit(repos, team, labels, tier, n, k);
            if k == n - 1 {
                assert(no_fit(repos, team, labels, tier, m));
            } else {
                assert(repos[n - 1].scope == repos[n - 1].scope);
                assert(!last);
                assert(only_fit(repos, team, labels, tier, m, k));
            }
        }
    }
}

/// The reason that is given for a choice is what holds: nothing fits; one
/// repository fits; of several that fit one does by labels; or the ids decide.
pub proof fn law_reasons_are_true(repos: Seq<RepoConfig>, team: Seq<char>, labels: Seq<String>)
    ensures
        ({
            let n = repos.len();
            let r = reason_of(
                fitting(repos, team, labels, Specificity::Team, n),
                fitting(repos, team, labels, Specificity::Labels, n),
            );
            let no_team = no_fit(repos, team, labels, Specificity::Team, n);
            let no_labels = no_fit(repos, team, labels, Specificity::Labels, n);
            let one_team = exists|k: int| #[trigger]
                only_fit(repos, team, labels, Specificity::Team, n, k);
            let one_labels = exists|k: int| #[trigger]
                only_fit(repos, team, labels, Specificity::Labels, n, k);
            &&& r is NoMatchingScope <==> no_team && no_labels
            &&& r is SingleMatch <==> (one_team && no_labels) || (no_team && one_labels)
            &&& r is LabelsMatch <==> one_labels && !no_team
            &&& r is TieBreakRepoIdLex <==> !(no_team && no_labels) && !one_labels && !(one_team
                && no_labels)
            &&& !(r is TeamMatch)
        }),
{
    lemma_fitting(repos, team, labels, Specificity::Team, repos.len());
    lemma_fitting(repos, team, labels, Specificity::Labels, repos.len());
}

proof fn lemma_positions(repos: Seq<RepoConfig>, good: bool, n: nat)
    ensures
        forall|i: int|
            0 <= i < positions(repos, good, n).len() ==> 0 <= #[trigger] positions(repos, good, n)[i]
                < n && ghq_identifier(repos[positions(repos, good, n)[i]].repo@) == good,
        forall|i: int, j: int|
            0 <= i < j < positions(repos, good, n).len() ==> #[trigger] positions(
                repos,
                good,
                n,
            )[i] < #[trigger] positions(repos, good, n)[j],
        forall|k: int|
            0 <= k < n && ghq_identifier((#[trigger] repos[k]).repo@) == good ==> positions(
                repos,
                good,
                n,
            ).contains(k),
    decreases n,
{
    if n > 0 {
        let m = (n - 1) as nat;
        lemma_positions(repos, good, m);
        let before = positions(repos, good, m);
        let now = positions(repos, good, n);
        assert forall|k: int|
            0 <= k < n && ghq_identifier((#[trigger] repos[k]).repo@) == good implies now.contains(
            k,
        ) by {
            if k == n - 1 {
                assert(now[now.len() - 1] == k);
            } else {
                assert(before.contains(k));
                let i = choose|i: int| 0 <= i < before.len() && before[i] == k;
                assert(now[i] == k);
            }
        }
    }
}

/// Every repository is kept as it is configured where its identifier is
/// well-formed, and reported under its id and identifier where it is not; and
/// nothing else is kept or reported.
pub proof fn law_repositories_are_told_apart(repos: Seq<RepoConfig>, h: RepoHealth, k: int)
    requires
        told_apart(repos, h, repos.len()),
    ensures
        0 <= k < repos.len() && ghq_identifier(repos[k].repo@) ==> exists|i: int|
            0 <= i < h.healthy@.len() && same_config(#[trigger] h.healthy@[i], repos[k]),
        0 <= k < repos.len() && !ghq_identifier(repos[k].repo@) ==> exists|i: int|
            0 <= i < h.unhealthy@.len() && (#[trigger] h.unhealthy@[i]).repo_id == repos[k].id
                && h.unhealthy@[i].identifier == repos[k].repo,
        0 <= k < h.healthy@.len() ==> ghq_identifier(h.healthy@[k].repo@),
        0 <= k < h.unhealthy@.len() ==> !ghq_identifier(h.unhealthy@[k].identifier@),
{
    let good = positions(repos, true, repos.len());
    let bad = positions(repos, false, repos.len());
    lemma_positions(repos, true, repos.len());
    lemma_positions(repos, false, repos.len());
    if 0 <= k < repos.len() {
        if ghq_identifier(repos[k].repo@) {
            let i = choose|i: int| 0 <= i < good.len() && good[i] == k;
            assert(same_config(h.healthy@[i], repos[good[i]]));
        } else {
            let i = choose|i: int| 0 <= i < bad.len() && bad[i] == k;
            assert(h.unhealthy@[i].repo_id == repos[bad[i]].id);
        }
    }
    if 0 <= k < h.healthy@.len() {
        assert(same_config(h.healthy@[k], repos[good[k]]));
    }
    if 0 <= k < h.unhealthy@.len() {
        assert(h.unhealthy@[k].identifier == repos[bad[k]].repo);
    }
}

} // verus!

//! The judge before admission, assignee resolution, and the signals that stop
//! work in flight.
use vstd::prelude::*;

use crate::config::AssigneeSpec;
use crate::orchestrator::state::Mode;
use crate::strmap::StrSet;
use crate::text::str_eq;
use crate::tracker::model::{IssueView, LinearUserId, NormalizedIssue};

verus! {

/// What the judge says of an issue.
#[derive(Debug, PartialEq, Eq)]
pub enum AdmissionDecision {
    Admit { issue: NormalizedIssue, mode: Mode },
    Skip { reason: SkipReason },
}

#[verifier::ext_equal]
pub enum DecisionView {
    Admit(IssueView, Mode),
    Skip(SkipReason),
}

impl View for AdmissionDecision {
    type V = DecisionView;

    open spec fn view(&self) -> DecisionView {
        match self {
            AdmissionDecision::Admit { issue, mode } => DecisionView::Admit(issue@, *mode),
            AdmissionDecision::Skip { reason } => DecisionView::Skip(*reason),
        }
    }
}

/// Why an issue is passed over.
#[derive(Debug, Clone, Copy, PartialEq, Eq, Hash, Structural)]
pub enum SkipReason {
    AssigneeMismatch,
    StateNotAdmitted,
    MissingRokiReady,
    /// `roki:impl` means nothing without `roki:ready`.
    RokiImplWithoutRokiReady,
}

impl SkipReason {
    pub open spec fn code(&self) -> Seq<char> {
        match self {
            SkipReason::AssigneeMismatch => "assignee_mismatch"@,
            SkipReason::StateNotAdmitted => "state_not_admitted"@,
            SkipReason::MissingRokiReady => "missing_roki_ready"@,
            SkipReason::RokiImplWithoutRokiReady => "roki_impl_without_roki_ready"@,
        }
    }

    pub fn as_str(&self) -> (s: &'static str)
        ensures
            s@ == self.code(),
    {
        match self {
            SkipReason::AssigneeMismatch => "assignee_mismatch",
            SkipReason::StateNotAdmitted => "state_not_admitted",
            SkipReason::MissingRokiReady => "missing_roki_ready",
            SkipReason::RokiImplWithoutRokiReady => "roki_impl_without_roki_ready",
        }
    }
}

/// The judge: whose issues, in which states.
#[derive(Debug, Clone)]
pub struct PreAdmissionJudge {
    assignee: LinearUserId,
    admit_states: StrSet,
}

/// What a judge for `assignee` and `states` says of `issue`.
pub open spec fn verdict(assignee: Seq<char>, states: Set<Seq<char>>, issue: IssueView) -> DecisionView {
    let ready = issue.labels.contains("roki:ready"@);
    let implement = issue.labels.contains("roki:impl"@);
    if issue.assignee != Some(assignee) {
        DecisionView::Skip(SkipReason::AssigneeMismatch)
    } else if !states.contains(issue.state) {
        DecisionView::Skip(SkipReason::StateNotAdmitted)
    } else if !ready && implement {
        DecisionView::Skip(SkipReason::RokiImplWithoutRokiReady)
    } else if !ready {
        DecisionView::Skip(SkipReason::MissingRokiReady)
    } else if implement {
        DecisionView::Admit(issue, Mode::SpecDriven)
    } else {
        DecisionView::Admit(issue, Mode::NeedsClassify)
    }
}

impl PreAdmissionJudge {
    pub closed spec fn spec_assignee(&self) -> Seq<char> {
        self.assignee@
    }

    pub closed spec fn spec_states(&self) -> Set<Seq<char>> {
        self.admit_states@
    }

    pub fn new(assignee: LinearUserId, admit_states: StrSet) -> (j: PreAdmissionJudge)
        ensures
            j.spec_assignee() == assignee@,
            j.spec_states() == admit_states@,
    {
        PreAdmissionJudge { assignee, admit_states }
    }

    pub fn assignee(&self) -> (u: &LinearUserId)
        ensures
            u@ == self.spec_assignee(),
    {
        &self.assignee
    }

    pub fn admit_states(&self) -> (s: &StrSet)
        ensures
            s@ == self.spec_states(),
    {
        &self.admit_states
    }

    /// Evaluates the four conditions. Their order only decides which reason a
    /// skip carries.
    pub fn evaluate(&self, issue: &NormalizedIssue) -> (d: AdmissionDecision)
        ensures
            d@ == verdict(self.spec_assignee(), self.spec_states(), issue@),
    {
        if !self.assignee_matches(issue) {
            return AdmissionDecision::Skip { reason: SkipReason::AssigneeMismatch };
        }
        if !self.admit_states.contains(issue.current_linear_state.as_str()) {
            return AdmissionDecision::Skip { reason: SkipReason::StateNotAdmitted };
        }
        let has_ready = issue.has_roki_ready();
        let has_impl = issue.has_roki_impl();
        if !has_ready && has_impl {
            return AdmissionDecision::Skip { reason: SkipReason::RokiImplWithoutRokiReady };
        }
        if !has_ready {
            return AdmissionDecision::Skip { reason: SkipReason::MissingRokiReady };
        }
        let mode = if has_impl {
            Mode::SpecDriven
        } else {
            Mode::NeedsClassify
        };
        AdmissionDecision::Admit { issue: issue.clone(), mode }
    }

    fn assignee_matches(&self, issue: &NormalizedIssue) -> (r: bool)
        ensures
            r == (issue@.assignee == Some(self.spec_assignee())),
    {
        match &issue.assignee {
            Some(user) => str_eq(user.as_str(), self.assignee.as_str()),
            None => false,
        }
    }
}

#[derive(Debug)]
pub enum ResolutionError {
    /// The tracker failed.
    Linear(String),
    NotFound { selector: String },
    Ambiguous { selector: String, count: usize },
}

/// Resolves an assignee selector to a user.
pub struct AssigneeResolver;

impl AssigneeResolver {
    /// Resolves a selector against the users that it matched: exactly one must
    /// be left. `Me` needs the tracker and is refused here.
    pub fn resolve_with_lookup(spec: &AssigneeSpec, candidates: &Vec<LinearUserId>) -> (r: Result<
        LinearUserId,
        ResolutionError,
    >)
        ensures
            match spec {
                AssigneeSpec::Me => r matches Err(ResolutionError::Ambiguous { selector, count })
                    && selector@ == "me"@ && count == 0,
                AssigneeSpec::Selector(s) => if candidates.len() == 0 {
                    r matches Err(ResolutionError::NotFound { selector }) && selector == s
                } else if candidates.len() == 1 {
                    r matches Ok(u) && u == candidates[0]
                } else {
                    r matches Err(ResolutionError::Ambiguous { selector, count }) && selector == s
                        && count == candidates.len()
                },
            },
    {
        match spec {
            AssigneeSpec::Me => Err(
                ResolutionError::Ambiguous { selector: "me".to_owned(), count: 0 },
            ),
            AssigneeSpec::Selector(selector) => if candidates.len() == 0 {
                Err(ResolutionError::NotFound { selector: selector.clone() })
            } else if candidates.len() == 1 {
                Ok(candidates[0].clone())
            } else {
                Err(
                    ResolutionError::Ambiguous {
                        selector: selector.clone(),
                        count: candidates.len(),
                    },
                )
            },
        }
    }

    /// What the token holder's lookup decides: `Me` is the viewer that the
    /// tracker named; a selector belongs to the user directory.
    pub fn resolve(spec: &AssigneeSpec, viewer: Result<LinearUserId, String>) -> (r: Result<
        LinearUserId,
        ResolutionError,
    >)
        ensures
            match spec {
                AssigneeSpec::Me => match viewer {
                    Ok(u) => r matches Ok(v) && v == u,
                    Err(e) => r matches Err(ResolutionError::Linear(m)) && m == e,
                },
                AssigneeSpec::Selector(s) => r matches Err(
                    ResolutionError::Ambiguous { selector, count },
                ) && selector@ == s@ && count == 0,
            },
    {
        match spec {
            AssigneeSpec::Me => match viewer {
                Ok(u) => Ok(u),
                Err(e) => Err(ResolutionError::Linear(e)),
            },
            AssigneeSpec::Selector(_) => Err(
                ResolutionError::Ambiguous { selector: spec.raw().to_owned(), count: 0 },
            ),
        }
    }
}

/// The issue was assigned and is assigned to no one or to someone else now.
pub open spec fn lost_assignment(prev: IssueView, curr: IssueView) -> bool {
    prev.assignee is Some && curr.assignee != prev.assignee
}

/// The issue was marked ready and is not any more.
pub open spec fn lost_ready(prev: IssueView, curr: IssueView) -> bool {
    prev.labels.contains("roki:ready"@) && !curr.labels.contains("roki:ready"@)
}

/// Whether the assignment was lost between two observations of one issue.
pub fn assignment_lost(prev: &NormalizedIssue, curr: &NormalizedIssue) -> (r: bool)
    ensures
        r == lost_assignment(prev@, curr@),
{
    match (&prev.assignee, &curr.assignee) {
        (Some(_), None) => true,
        (Some(a), Some(b)) => !str_eq(a.as_str(), b.as_str()),
        _ => false,
    }
}

/// Whether `roki:ready` was removed between two observations of one issue.
pub fn roki_ready_removed(prev: &NormalizedIssue, curr: &NormalizedIssue) -> (r: bool)
    ensures
        r == lost_ready(prev@, curr@),
{
    prev.has_label("roki:ready") && !curr.has_label("roki:ready")
}

/// An issue is admitted if and only if it is assigned to the right user, stands
/// in an admitted state and is marked ready; `roki:impl` only decides the mode.
pub proof fn law_admission_conditions(assignee: Seq<char>, states: Set<Seq<char>>, issue: IssueView)
    ensures
        verdict(assignee, states, issue) is Admit <==> issue.assignee == Some(assignee)
            && states.contains(issue.state) && issue.labels.contains("roki:ready"@),
        verdict(assignee, states, issue) matches DecisionView::Admit(i, mode) ==> i == issue && (
        mode is SpecDriven <==> issue.labels.contains("roki:impl"@)),
{
}

/// An observation that stops work in flight is not admitted by the judge that
/// admitted the earlier one.
pub proof fn law_stop_signals_are_not_admitted(
    assignee: Seq<char>,
    states: Set<Seq<char>>,
    prev: IssueView,
    curr: IssueView,
)
    requires
        verdict(assignee, states, prev) is Admit,
        lost_assignment(prev, curr) || lost_ready(prev, curr),
    ensures
        verdict(assignee, states, curr) is Skip,
{
}

/// An issue that is passed over is passed over for the first condition that it
/// fails: its assignee, its state, its mark; and one that is marked for
/// implementation alone is told apart.
pub proof fn law_skips_say_why(assignee: Seq<char>, states: Set<Seq<char>>, issue: IssueView)
    ensures
        ({
            let v = verdict(assignee, states, issue);
            let ours = issue.assignee == Some(assignee);
            let open = states.contains(issue.state);
            let ready = issue.labels.contains("roki:ready"@);
            let marked = issue.labels.contains("roki:impl"@);
            &&& v == DecisionView::Skip(SkipReason::AssigneeMismatch) <==> !ours
            &&& v == DecisionView::Skip(SkipReason::StateNotAdmitted) <==> ours && !open
            &&& v == DecisionView::Skip(SkipReason::RokiImplWithoutRokiReady) <==> ours && open
                && !ready && marked
            &&& v == DecisionView::Skip(SkipReason::MissingRokiReady) <==> ours && open && !ready
                && !marked
            &&& v == DecisionView::Admit(issue, Mode::SpecDriven) <==> ours && open && ready
                && marked
            &&& v == DecisionView::Admit(issue, Mode::NeedsClassify) <==> ours && open && ready
                && !marked
        }),
{
}

/// Work loses its assignment where it had an assignee and has none or another
/// now, and its mark where it had one and has none now.
pub proof fn law_stop_signals(prev: IssueView, curr: IssueView)
    ensures
        lost_assignment(prev, curr) <==> (prev.assignee matches Some(u) && (curr.assignee is None
            || curr.assignee->0 != u)),
        lost_ready(prev, curr) <==> prev.labels.contains("roki:ready"@) && !curr.labels.contains(
            "roki:ready"@,
        ),
{
}

} // verus!

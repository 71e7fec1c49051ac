//! The tracker's domain model.
use vstd::prelude::*;
use vstd::std_specs::convert::FromSpecImpl;

use crate::orchestrator::state::IssueId;
use crate::strmap::StrSet;

verus! {

/// The label that admits an issue.
pub const LABEL_ROKI_READY: &'static str = "roki:ready";

/// The label that routes an issue down the implementation path.
pub const LABEL_ROKI_IMPL: &'static str = "roki:impl";

/// The name of a workflow state, such as `Todo`.
#[derive(Debug, PartialEq, Eq, Hash, PartialOrd, Ord)]
pub struct LinearStateName(pub String);

impl View for LinearStateName {
    type V = Seq<char>;

    open spec fn view(&self) -> Seq<char> {
        self.0@
    }
}

impl Clone for LinearStateName {
    fn clone(&self) -> (r: Self)
        ensures
            r == *self,
    {
        LinearStateName(self.0.clone())
    }
}

impl LinearStateName {
    pub fn as_str(&self) -> (s: &str)
        ensures
            s@ == self@,
    {
        self.0.as_str()
    }

    pub fn to_string(&self) -> (s: String)
        ensures
            s@ == self@,
    {
        self.0.clone()
    }
}

impl From<&str> for LinearStateName {
    fn from(value: &str) -> (r: Self)
        ensures
            r@ == value@,
    {
        LinearStateName(value.to_owned())
    }
}

impl FromSpecImpl<&str> for LinearStateName {
    open spec fn obeys_from_spec() -> bool {
        false
    }

    open spec fn from_spec(v: &str) -> Self {
        arbitrary()
    }
}

impl From<String> for LinearStateName {
    fn from(value: String) -> (r: Self)
        ensures
            r == LinearStateName(value),
    {
        LinearStateName(value)
    }
}

impl FromSpecImpl<String> for LinearStateName {
    open spec fn obeys_from_spec() -> bool {
        true
    }

    open spec fn from_spec(v: String) -> Self {
        LinearStateName(v)
    }
}

/// The name of a label, such as `roki:ready`.
#[derive(Debug, PartialEq, Eq, Hash, PartialOrd, Ord)]
pub struct LinearLabel(pub String);

impl View for LinearLabel {
    type V = Seq<char>;

    open spec fn view(&self) -> Seq<char> {
        self.0@
    }
}

impl Clone for LinearLabel {
    fn clone(&self) -> (r: Self)
        ensures
            r == *self,
    {
        LinearLabel(self.0.clone())
    }
}

impl LinearLabel {
    pub fn as_str(&self) -> (s: &str)
        ensures
            s@ == self@,
    {
        self.0.as_str()
    }

    pub fn to_string(&self) -> (s: String)
        ensures
            s@ == self@,
    {
        self.0.clone()
    }
}

impl From<&str> for LinearLabel {
    fn from(value: &str) -> (r: Self)
        ensures
            r@ == value@,
    {
        LinearLabel(value.to_owned())
    }
}

impl FromSpecImpl<&str> for LinearLabel {
    open spec fn obeys_from_spec() -> bool {
        false
    }

    open spec fn from_spec(v: &str) -> Self {
        arbitrary()
    }
}

impl From<String> for LinearLabel {
    fn from(value: String) -> (r: Self)
        ensures
            r == LinearLabel(value),
    {
        LinearLabel(value)
    }
}

impl FromSpecImpl<String> for LinearLabel {
    open spec fn obeys_from_spec() -> bool {
        true
    }

    open spec fn from_spec(v: String) -> Self {
        LinearLabel(v)
    }
}

/// The stable identifier of a user.
#[derive(Debug, PartialEq, Eq, Hash, PartialOrd, Ord)]
pub struct LinearUserId(pub String);

impl View for LinearUserId {
    type V = Seq<char>;

    open spec fn view(&self) -> Seq<char> {
        self.0@
    }
}

impl Clone for LinearUserId {
    fn clone(&self) -> (r: Self)
        ensures
            r == *self,
    {
        LinearUserId(self.0.clone())
    }
}

impl LinearUserId {
    pub fn as_str(&self) -> (s: &str)
        ensures
            s@ == self@,
    {
        self.0.as_str()
    }

    pub fn to_string(&self) -> (s: String)
        ensures
            s@ == self@,
    {
        self.0.clone()
    }
}

impl From<&str> for LinearUserId {
    fn from(value: &str) -> (r: Self)
        ensures
            r@ == value@,
    {
        LinearUserId(value.to_owned())
    }
}

impl FromSpecImpl<&str> for LinearUserId {
    open spec fn obeys_from_spec() -> bool {
        false
    }

    open spec fn from_spec(v: &str) -> Self {
        arbitrary()
    }
}

impl From<String> for LinearUserId {
    fn from(value: String) -> (r: Self)
        ensures
            r == LinearUserId(value),
    {
        LinearUserId(value)
    }
}

impl FromSpecImpl<String> for LinearUserId {
    open spec fn obeys_from_spec() -> bool {
        true
    }

    open spec fn from_spec(v: String) -> Self {
        LinearUserId(v)
    }
}

/// The ghq-style identifier of a repository (`host/owner/repo`).
#[derive(Debug, PartialEq, Eq, Hash, PartialOrd, Ord)]
pub struct RepoId(pub String);

impl View for RepoId {
    type V = Seq<char>;

    open spec fn view(&self) -> Seq<char> {
        self.0@
    }
}

impl Clone for RepoId {
    fn clone(&self) -> (r: Self)
        ensures
            r == *self,
    {
        RepoId(self.0.clone())
    }
}

impl RepoId {
    pub fn new(id: &str) -> (r: RepoId)
        ensures
            r@ == id@,
    {
        RepoId(id.to_owned())
    }

    pub fn as_str(&self) -> (s: &str)
        ensures
            s@ == self@,
    {
        self.0.as_str()
    }

    pub fn to_string(&self) -> (s: String)
        ensures
            s@ == self@,
    {
        self.0.clone()
    }
}

impl From<&str> for RepoId {
    fn from(value: &str) -> (r: Self)
        ensures
            r@ == value@,
    {
        RepoId(value.to_owned())
    }
}

impl FromSpecImpl<&str> for RepoId {
    open spec fn obeys_from_spec() -> bool {
        false
    }

    open spec fn from_spec(v: &str) -> Self {
        arbitrary()
    }
}

impl From<String> for RepoId {
    fn from(value: String) -> (r: Self)
        ensures
            r == RepoId(value),
    {
        RepoId(value)
    }
}

impl FromSpecImpl<String> for RepoId {
    open spec fn obeys_from_spec() -> bool {
        true
    }

    open spec fn from_spec(v: String) -> Self {
        RepoId(v)
    }
}

/// An issue as the daemon sees it.
#[derive(Debug, PartialEq, Eq)]
pub struct NormalizedIssue {
    pub issue: IssueId,
    pub title: String,
    pub body: String,
    pub current_linear_state: LinearStateName,
    pub labels: StrSet,
    pub assignee: Option<LinearUserId>,
}

#[verifier::ext_equal]
pub struct IssueView {
    pub issue: Seq<char>,
    pub title: Seq<char>,
    pub body: Seq<char>,
    pub state: Seq<char>,
    pub labels: Set<Seq<char>>,
    pub assignee: Option<Seq<char>>,
}

/// The view of an optional user.
pub open spec fn opt_user_view(o: Option<LinearUserId>) -> Option<Seq<char>> {
    match o {
        Some(u) => Some(u@),
        None => None,
    }
}

impl View for NormalizedIssue {
    type V = IssueView;

    open spec fn view(&self) -> IssueView {
        IssueView {
            issue: self.issue@,
            title: self.title@,
            body: self.body@,
            state: self.current_linear_state@,
            labels: self.labels@,
            assignee: opt_user_view(self.assignee),
        }
    }
}

impl Clone for NormalizedIssue {
    fn clone(&self) -> (r: Self)
        ensures
            r@ == self@,
    {
        NormalizedIssue {
            issue: self.issue.clone(),
            title: self.title.clone(),
            body: self.body.clone(),
            current_linear_state: self.current_linear_state.clone(),
            labels: self.labels.clone(),
            assignee: match &self.assignee {
                Some(u) => Some(u.clone()),
                None => None,
            },
        }
    }
}

impl NormalizedIssue {
    /// Whether the issue carries the label `name`; names are case-sensitive.
    pub fn has_label(&self, name: &str) -> (r: bool)
        ensures
            r == self@.labels.contains(name@),
    {
        self.labels.contains(name)
    }

    pub fn has_roki_ready(&self) -> (r: bool)
        ensures
            r == self@.labels.contains("roki:ready"@),
    {
        self.has_label("roki:ready")
    }

    pub fn has_roki_impl(&self) -> (r: bool)
        ensures
            r == self@.labels.contains("roki:impl"@),
    {
        self.has_label("roki:impl")
    }
}

} // verus!

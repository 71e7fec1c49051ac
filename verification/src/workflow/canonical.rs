//! Canonical workflow types, and their mathematical views.
use vstd::prelude::*;

use crate::strmap::StrMap;
use crate::text::{opt_view, views};

verus! {

/// The id of a state or of a terminal.
pub type StateId = String;

/// The name of a directive that a state may answer with.
pub type DirectiveName = String;

/// An unparsed Liquid template body.
pub type LiquidString = String;

/// An unparsed Liquid expression.
pub type LiquidExpr = String;

/// A time span in milliseconds.
#[derive(Debug, Clone, Copy, PartialEq, Eq, Structural)]
pub struct Timeout {
    pub millis: u128,
}

impl Timeout {
    pub fn from_millis(n: u64) -> (t: Timeout)
        ensures
            t.millis == n,
    {
        Timeout { millis: n as u128 }
    }

    pub fn from_secs(n: u64) -> (t: Timeout)
        ensures
            t.millis == n * 1000,
    {
        Timeout { millis: (n as u128) * 1000 }
    }
}

#[derive(Debug, Clone)]
pub struct WorkflowFile {
    /// `None` in per-repo override files.
    pub admission: Option<Admission>,
    pub rules: Vec<RuleEntry>,
    pub cleanup: Vec<RuleEntry>,
    pub on_failure: Vec<RuleEntry>,
}

#[derive(Debug, Clone)]
pub struct Admission {
    /// `me` stands for the holder of the API token.
    pub assignee: String,
    pub repos: Vec<RepoEntry>,
}

#[derive(Debug, Clone)]
pub struct RepoEntry {
    pub ghq: String,
    pub when: Option<WhenClause>,
    /// Path of a per-repo override file.
    pub workflow: Option<String>,
}

#[derive(Debug, Clone)]
pub struct RuleEntry {
    pub when: Option<WhenClause>,
    pub state_machine: StateMachine,
}

#[derive(Debug, Clone)]
pub struct WhenClause {
    pub status: Option<ScalarMatcher>,
    pub labels: Option<LabelsMatcher>,
    pub assignee: Option<ScalarMatcher>,
    pub repo: Option<String>,
    pub kind: Option<ScalarMatcher>,
    pub phase: Option<ScalarMatcher>,
    pub title: Option<TextMatcher>,
    pub body: Option<TextMatcher>,
}

impl Default for WhenClause {
    fn default() -> (w: Self)
        ensures
            w@ == (WhenView {
                status: None,
                labels: None,
                assignee: None,
                repo: None,
                kind: None,
                phase: None,
                title: None,
                body: None,
            }),
    {
        WhenClause {
            status: None,
            labels: None,
            assignee: None,
            repo: None,
            kind: None,
            phase: None,
            title: None,
            body: None,
        }
    }
}

#[derive(Debug, Clone)]
pub enum ScalarMatcher {
    Eq(String),
    Not(String),
    In(Vec<String>),
}

#[derive(Debug, Clone)]
pub struct LabelsMatcher {
    pub has_all: Option<Vec<String>>,
    pub has_any: Option<Vec<String>>,
    pub has_none: Option<Vec<String>>,
}

impl Default for LabelsMatcher {
    fn default() -> (m: Self)
        ensures
            m@ == (LabelsView { has_all: None, has_any: None, has_none: None }),
    {
        LabelsMatcher { has_all: None, has_any: None, has_none: None }
    }
}

#[derive(Debug, Clone)]
pub enum TextMatcher {
    Regex(String),
    StartsWith(String),
    Contains(String),
}

#[derive(Debug, Clone)]
pub struct StateMachine {
    pub start: StateId,
    pub states: StrMap<State>,
    pub terminals: StrMap<Terminal>,
}

#[derive(Debug, Clone)]
pub struct State {
    pub id: StateId,
    pub body: StateBody,
    pub if_cond: Option<LiquidExpr>,
    pub on_done: EdgeTarget,
    pub on_fail: EdgeTarget,
    pub directives: StrMap<EdgeTarget>,
    pub max_visits: u32,
    pub timeout: Option<Timeout>,
}

#[derive(Debug, Clone)]
pub enum StateBody {
    Run { cmd: LiquidString },
    Uses { path: String },
}

#[derive(Debug, Clone)]
pub struct Terminal {
    pub id: StateId,
    pub outcome: String,
}

#[derive(Debug, Clone, PartialEq, Eq)]
pub enum EdgeTarget {
    State(StateId),
    Terminal(StateId),
}

// ---------------------------------------------------------------------------
// Views
// ---------------------------------------------------------------------------

#[verifier::ext_equal]
pub struct FileView {
    pub admission: Option<AdmissionView>,
    pub rules: Seq<RuleView>,
    pub cleanup: Seq<RuleView>,
    pub on_failure: Seq<RuleView>,
}

#[verifier::ext_equal]
pub struct AdmissionView {
    pub assignee: Seq<char>,
    pub repos: Seq<RepoView>,
}

#[verifier::ext_equal]
pub struct RepoView {
    pub ghq: Seq<char>,
    pub when: Option<WhenView>,
    pub workflow: Option<Seq<char>>,
}

#[verifier::ext_equal]
pub struct RuleView {
    pub when: Option<WhenView>,
    pub machine: MachineView,
}

#[verifier::ext_equal]
pub struct WhenView {
    pub status: Option<ScalarView>,
    pub labels: Option<LabelsView>,
    pub assignee: Option<ScalarView>,
    pub repo: Option<Seq<char>>,
    pub kind: Option<ScalarView>,
    pub phase: Option<ScalarView>,
    pub title: Option<TextView>,
    pub body: Option<TextView>,
}

#[verifier::ext_equal]
pub enum ScalarView {
    Eq(Seq<char>),
    Not(Seq<char>),
    In(Seq<Seq<char>>),
}

#[verifier::ext_equal]
pub struct LabelsView {
    pub has_all: Option<Seq<Seq<char>>>,
    pub has_any: Option<Seq<Seq<char>>>,
    pub has_none: Option<Seq<Seq<char>>>,
}

#[verifier::ext_equal]
pub enum TextView {
    Regex(Seq<char>),
    StartsWith(Seq<char>),
    Contains(Seq<char>),
}

#[verifier::ext_equal]
pub struct MachineView {
    pub start: Seq<char>,
    pub states: Map<Seq<char>, StateView>,
    pub terminals: Map<Seq<char>, TerminalView>,
}

#[verifier::ext_equal]
pub struct StateView {
    pub id: Seq<char>,
    pub body: BodyView,
    pub if_cond: Option<Seq<char>>,
    pub on_done: EdgeView,
    pub on_fail: EdgeView,
    pub directives: Map<Seq<char>, EdgeView>,
    pub max_visits: u32,
    pub timeout: Option<Timeout>,
}

#[verifier::ext_equal]
pub enum BodyView {
    Run(Seq<char>),
    Uses(Seq<char>),
}

#[verifier::ext_equal]
pub struct TerminalView {
    pub id: Seq<char>,
    pub outcome: Seq<char>,
}

#[verifier::ext_equal]
pub enum EdgeView {
    State(Seq<char>),
    Terminal(Seq<char>),
}

impl EdgeView {
    /// The id that the edge leads to.
    pub open spec fn id(self) -> Seq<char> {
        match self {
            EdgeView::State(id) => id,
            EdgeView::Terminal(id) => id,
        }
    }
}

impl View for EdgeTarget {
    type V = EdgeView;

    open spec fn view(&self) -> EdgeView {
        match self {
            EdgeTarget::State(id) => EdgeView::State(id@),
            EdgeTarget::Terminal(id) => EdgeView::Terminal(id@),
        }
    }
}

impl View for StateBody {
    type V = BodyView;

    open spec fn view(&self) -> BodyView {
        match self {
            StateBody::Run { cmd } => BodyView::Run(cmd@),
            StateBody::Uses { path } => BodyView::Uses(path@),
        }
    }
}

impl View for State {
    type V = StateView;

    open spec fn view(&self) -> StateView {
        StateView {
            id: self.id@,
            body: self.body@,
            if_cond: opt_view(self.if_cond),
            on_done: self.on_done@,
            on_fail: self.on_fail@,
            directives: self.directives@.map_values(|t: EdgeTarget| t@),
            max_visits: self.max_visits,
            timeout: self.timeout,
        }
    }
}

impl View for Terminal {
    type V = TerminalView;

    open spec fn view(&self) -> TerminalView {
        TerminalView { id: self.id@, outcome: self.outcome@ }
    }
}

impl View for StateMachine {
    type V = MachineView;

    open spec fn view(&self) -> MachineView {
        MachineView {
            start: self.start@,
            states: self.states@.map_values(|s: State| s@),
            terminals: self.terminals@.map_values(|t: Terminal| t@),
        }
    }
}

impl View for ScalarMatcher {
    type V = ScalarView;

    open spec fn view(&self) -> ScalarView {
        match self {
            ScalarMatcher::Eq(s) => ScalarView::Eq(s@),
            ScalarMatcher::Not(s) => ScalarView::Not(s@),
            ScalarMatcher::In(v) => ScalarView::In(views(v@)),
        }
    }
}

impl View for TextMatcher {
    type V = TextView;

    open spec fn view(&self) -> TextView {
        match self {
            TextMatcher::Regex(s) => TextView::Regex(s@),
            TextMatcher::StartsWith(s) => TextView::StartsWith(s@),
            TextMatcher::Contains(s) => TextView::Contains(s@),
        }
    }
}

/// The view of an optional list of texts.
pub open spec fn opt_list_view(o: Option<Vec<String>>) -> Option<Seq<Seq<char>>> {
    match o {
        Some(v) => Some(views(v@)),
        None => None,
    }
}

impl View for LabelsMatcher {
    type V = LabelsView;

    open spec fn view(&self) -> LabelsView {
        LabelsView {
            has_all: opt_list_view(self.has_all),
            has_any: opt_list_view(self.has_any),
            has_none: opt_list_view(self.has_none),
        }
    }
}

pub open spec fn opt_scalar_view(o: Option<ScalarMatcher>) -> Option<ScalarView> {
    match o {
        Some(m) => Some(m@),
        None => None,
    }
}

pub open spec fn opt_text_view(o: Option<TextMatcher>) -> Option<TextView> {
    match o {
        Some(m) => Some(m@),
        None => None,
    }
}

pub open spec fn opt_labels_view(o: Option<LabelsMatcher>) -> Option<LabelsView> {
    match o {
        Some(m) => Some(m@),
        None => None,
    }
}

impl View for WhenClause {
    type V = WhenView;

    open spec fn view(&self) -> WhenView {
        WhenView {
            status: opt_scalar_view(self.status),
            labels: opt_labels_view(self.labels),
            assignee: opt_scalar_view(self.assignee),
            repo: opt_view(self.repo),
            kind: opt_scalar_view(self.kind),
            phase: opt_scalar_view(self.phase),
            title: opt_text_view(self.title),
            body: opt_text_view(self.body),
        }
    }
}

pub open spec fn opt_when_view(o: Option<WhenClause>) -> Option<WhenView> {
    match o {
        Some(w) => Some(w@),
        None => None,
    }
}

impl View for RuleEntry {
    type V = RuleView;

    open spec fn view(&self) -> RuleView {
        RuleView { when: opt_when_view(self.when), machine: self.state_machine@ }
    }
}

/// The views of a section of rules.
pub open spec fn rules_view(rules: Seq<RuleEntry>) -> Seq<RuleView> {
    rules.map_values(|r: RuleEntry| r@)
}

impl View for RepoEntry {
    type V = RepoView;

    open spec fn view(&self) -> RepoView {
        RepoView {
            ghq: self.ghq@,
            when: opt_when_view(self.when),
            workflow: opt_view(self.workflow),
        }
    }
}

impl View for Admission {
    type V = AdmissionView;

    open spec fn view(&self) -> AdmissionView {
        AdmissionView {
            assignee: self.assignee@,
            repos: self.repos@.map_values(|r: RepoEntry| r@),
        }
    }
}

pub open spec fn opt_admission_view(o: Option<Admission>) -> Option<AdmissionView> {
    match o {
        Some(a) => Some(a@),
        None => None,
    }
}

impl View for WorkflowFile {
    type V = FileView;

    open spec fn view(&self) -> FileView {
        FileView {
            admission: opt_admission_view(self.admission),
            rules: rules_view(self.rules@),
            cleanup: rules_view(self.cleanup@),
            on_failure: rules_view(self.on_failure@),
        }
    }
}

// ---------------------------------------------------------------------------
// The transition graph
// ---------------------------------------------------------------------------

/// Some edge of `s` leads to the state `b`.
pub open spec fn points_to(s: StateView, b: Seq<char>) -> bool {
    ||| s.on_done == EdgeView::State(b)
    ||| s.on_fail == EdgeView::State(b)
    ||| exists|d: Seq<char>| s.directives.dom().contains(d) && #[trigger] s.directives[d] == EdgeView::State(b)
}

/// There is an edge from state `a` to state `b`.
pub open spec fn edge(m: MachineView, a: Seq<char>, b: Seq<char>) -> bool {
    &&& m.states.dom().contains(a)
    &&& m.states.dom().contains(b)
    &&& points_to(m.states[a], b)
}

/// `p` is a walk along edges; a walk of one state takes none.
pub open spec fn walk(m: MachineView, p: Seq<Seq<char>>) -> bool {
    &&& p.len() > 0
    &&& m.states.dom().contains(p[0])
    &&& forall|i: int| 0 <= i < p.len() - 1 ==> edge(m, #[trigger] p[i], p[i + 1])
}

/// State `b` can be reached from state `a`.
pub open spec fn reaches(m: MachineView, a: Seq<char>, b: Seq<char>) -> bool {
    exists|p: Seq<Seq<char>>| walk(m, p) && p[0] == a && p[p.len() - 1] == b
}

/// `a` and `b` lie in one strongly connected component.
pub open spec fn mutual(m: MachineView, a: Seq<char>, b: Seq<char>) -> bool {
    reaches(m, a, b) && reaches(m, b, a)
}

pub proof fn lemma_reaches_self(m: MachineView, a: Seq<char>)
    requires
        m.states.dom().contains(a),
    ensures
        reaches(m, a, a),
{
    let p = seq![a];
    assert(walk(m, p) && p[0] == a && p[p.len() - 1] == a);
}

pub proof fn lemma_reaches_step(m: MachineView, a: Seq<char>, b: Seq<char>, c: Seq<char>)
    requires
        reaches(m, a, b),
        edge(m, b, c),
    ensures
        reaches(m, a, c),
{
    let p = choose|p: Seq<Seq<char>>| walk(m, p) && p[0] == a && p[p.len() - 1] == b;
    let q = p.push(c);
    assert forall|i: int| 0 <= i < q.len() - 1 implies edge(m, #[trigger] q[i], q[i + 1]) by {
        if i < p.len() - 1 {
            assert(edge(m, p[i], p[i + 1]));
        }
    }
    assert(walk(m, q) && q[0] == a && q[q.len() - 1] == c);
}

/// A set that holds `a` and is closed under edges holds all that `a` reaches.
pub proof fn lemma_reaches_closed(
    m: MachineView,
    closed: Set<Seq<char>>,
    a: Seq<char>,
    b: Seq<char>,
)
    requires
        closed.contains(a),
        forall|x: Seq<char>, y: Seq<char>|
            closed.contains(x) && #[trigger] edge(m, x, y) ==> closed.contains(y),
        reaches(m, a, b),
    ensures
        closed.contains(b),
{
    let p = choose|p: Seq<Seq<char>>| walk(m, p) && p[0] == a && p[p.len() - 1] == b;
    lemma_walk_closed(m, closed, p, p.len() - 1);
}

proof fn lemma_walk_closed(m: MachineView, closed: Set<Seq<char>>, p: Seq<Seq<char>>, i: int)
    requires
        walk(m, p),
        closed.contains(p[0]),
        0 <= i < p.len(),
        forall|x: Seq<char>, y: Seq<char>|
            closed.contains(x) && #[trigger] edge(m, x, y) ==> closed.contains(y),
    ensures
        closed.contains(p[i]),
    decreases i,
{
    if i > 0 {
        lemma_walk_closed(m, closed, p, i - 1);
        assert(edge(m, p[i - 1], p[i]));
    }
}

pub proof fn lemma_reaches_transitive(m: MachineView, a: Seq<char>, b: Seq<char>, c: Seq<char>)
    requires
        reaches(m, a, b),
        reaches(m, b, c),
    ensures
        reaches(m, a, c),
{
    let from_a = Set::new(|x: Seq<char>| reaches(m, a, x));
    assert forall|x: Seq<char>, y: Seq<char>|
        from_a.contains(x) && #[trigger] edge(m, x, y) implies from_a.contains(y) by {
        lemma_reaches_step(m, a, x, y);
    }
    lemma_reaches_closed(m, from_a, b, c);
}

pub proof fn lemma_reaches_ends(m: MachineView, a: Seq<char>, b: Seq<char>)
    requires
        reaches(m, a, b),
    ensures
        m.states.dom().contains(a),
        m.states.dom().contains(b),
{
    lemma_reaches_closed(m, m.states.dom(), a, b);
}

} // verus!

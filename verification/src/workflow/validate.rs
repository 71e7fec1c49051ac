//! Validation of a canonical workflow file.
//!
//! Every rule is checked end to end and every violation is collected; the
//! errors come back in a fixed order.
use vstd::multiset::Multiset;
use vstd::prelude::*;
use vstd::seq_lib::to_multiset_remove;

use crate::strmap::{ascending, key_views, lemma_map_of, lemma_sorted_keys, sorted_keys};
use crate::text::{begins_with, chars_of, clone_list, lemma_lex_irreflexive, lemma_lex_total, lemma_lex_transitive, lex_lt, starts_with, str_eq, str_lt, trim, trimmed, views};
use crate::workflow::canonical::{points_to, rules_view, BodyView, EdgeTarget, EdgeView, FileView, MachineView, RuleEntry, RuleView, State, StateBody, StateId, StateMachine, StateView, Terminal, TerminalView, WorkflowFile};
use crate::workflow::components::{component_views, components, lists_components, state_points_to, strong_components};

verus! {

#[derive(Debug, PartialEq, Eq, Clone)]
pub enum ValidationError {
    UnknownEdgeTarget { rule_idx: usize, state_id: StateId, target: StateId },
    OrphanBody { rule_idx: usize, state_id: StateId },
    ReservedPrefixState { rule_idx: usize, state_id: StateId },
    UnboundedCycle { rule_idx: usize, state_ids: Vec<StateId> },
    EmptyTerminalOutcome { rule_idx: usize, terminal_id: StateId },
    InvalidStartReference { rule_idx: usize, start: StateId },
    StateIdNotEnvSafe { rule_idx: usize, state_id: StateId },
}

/// The kinds of validation errors, in the order in which they are reported.
#[derive(Debug, Clone, Copy, PartialEq, Eq, Structural)]
pub enum ErrorKind {
    UnknownEdgeTarget,
    OrphanBody,
    ReservedPrefixState,
    UnboundedCycle,
    EmptyTerminalOutcome,
    InvalidStartReference,
    StateIdNotEnvSafe,
}

/// A validation error: its kind, the rule it is about, and the ids it names.
#[verifier::ext_equal]
pub struct ErrorView {
    pub kind: ErrorKind,
    pub rule: nat,
    pub ids: Seq<Seq<char>>,
}

impl View for ValidationError {
    type V = ErrorView;

    open spec fn view(&self) -> ErrorView {
        match self {
            ValidationError::UnknownEdgeTarget { rule_idx, state_id, target } => ErrorView {
                kind: ErrorKind::UnknownEdgeTarget,
                rule: *rule_idx as nat,
                ids: seq![state_id@, target@],
            },
            ValidationError::OrphanBody { rule_idx, state_id } => ErrorView {
                kind: ErrorKind::OrphanBody,
                rule: *rule_idx as nat,
                ids: seq![state_id@],
            },
            ValidationError::ReservedPrefixState { rule_idx, state_id } => ErrorView {
                kind: ErrorKind::ReservedPrefixState,
                rule: *rule_idx as nat,
                ids: seq![state_id@],
            },
            ValidationError::UnboundedCycle { rule_idx, state_ids } => ErrorView {
                kind: ErrorKind::UnboundedCycle,
                rule: *rule_idx as nat,
                ids: views(state_ids@),
            },
            ValidationError::EmptyTerminalOutcome { rule_idx, terminal_id } => ErrorView {
                kind: ErrorKind::EmptyTerminalOutcome,
                rule: *rule_idx as nat,
                ids: seq![terminal_id@],
            },
            ValidationError::InvalidStartReference { rule_idx, start } => ErrorView {
                kind: ErrorKind::InvalidStartReference,
                rule: *rule_idx as nat,
                ids: seq![start@],
            },
            ValidationError::StateIdNotEnvSafe { rule_idx, state_id } => ErrorView {
                kind: ErrorKind::StateIdNotEnvSafe,
                rule: *rule_idx as nat,
                ids: seq![state_id@],
            },
        }
    }
}

/// The views of a list of errors.
pub open spec fn error_views(v: Seq<ValidationError>) -> Seq<ErrorView> {
    v.map_values(|e: ValidationError| e@)
}

// ---------------------------------------------------------------------------
// What is an error
// ---------------------------------------------------------------------------

/// The error of kind `kind` in rule `rule` that names `id`.
pub open spec fn about(kind: ErrorKind, rule: nat, id: Seq<char>) -> ErrorView {
    ErrorView { kind, rule, ids: seq![id] }
}

/// The start must be a state and no terminal; a machine without states may
/// start at a terminal.
pub open spec fn start_errors(m: MachineView, rule: nat) -> Seq<ErrorView> {
    if m.states.dom() =~= Set::empty() && m.terminals.dom().contains(m.start) {
        seq![]
    } else if !m.states.dom().contains(m.start) || m.terminals.dom().contains(m.start) {
        seq![about(ErrorKind::InvalidStartReference, rule, m.start)]
    } else {
        seq![]
    }
}

pub open spec fn is_ascii_letter(c: char) -> bool {
    ('a' as u32 <= c as u32 <= 'z' as u32) || ('A' as u32 <= c as u32 <= 'Z' as u32)
}

pub open spec fn is_ascii_alnum(c: char) -> bool {
    is_ascii_letter(c) || crate::text::is_digit(c)
}

/// `[A-Za-z][A-Za-z0-9_]*`.
pub open spec fn env_safe(id: Seq<char>) -> bool {
    &&& id.len() > 0
    &&& is_ascii_letter(id[0])
    &&& forall|i: int| 0 < i < id.len() ==> is_ascii_alnum(#[trigger] id[i]) || id[i] == '_'
}

/// Ids with the prefix `__` are reserved; others must be fit for a variable name.
pub open spec fn id_errors(id: Seq<char>, rule: nat) -> Seq<ErrorView> {
    if begins_with(id, seq!['_', '_']) {
        seq![about(ErrorKind::ReservedPrefixState, rule, id)]
    } else if !env_safe(id) {
        seq![about(ErrorKind::StateIdNotEnvSafe, rule, id)]
    } else {
        seq![]
    }
}

/// A body must say something.
pub open spec fn body_errors(s: StateView, rule: nat) -> Seq<ErrorView> {
    let orphan = match s.body {
        BodyView::Run(cmd) => trimmed(cmd).len() == 0,
        BodyView::Uses(path) => path.len() == 0,
    };
    if orphan {
        seq![about(ErrorKind::OrphanBody, rule, s.id)]
    } else {
        seq![]
    }
}

/// An edge must lead to a declared state or terminal.
pub open spec fn target_errors(m: MachineView, e: EdgeView, id: Seq<char>, rule: nat) -> Seq<
    ErrorView,
> {
    if !m.states.dom().contains(e.id()) && !m.terminals.dom().contains(e.id()) {
        seq![ErrorView { kind: ErrorKind::UnknownEdgeTarget, rule, ids: seq![id, e.id()] }]
    } else {
        seq![]
    }
}

/// The errors of the first `n` directives of `s`, in the order of `names`.
pub open spec fn directive_errors(
    m: MachineView,
    s: StateView,
    rule: nat,
    names: Seq<Seq<char>>,
    n: nat,
) -> Seq<ErrorView>
    decreases n,
{
    if n == 0 {
        seq![]
    } else {
        directive_errors(m, s, rule, names, (n - 1) as nat) + target_errors(
            m,
            s.directives[names[n - 1]],
            s.id,
            rule,
        )
    }
}

pub open spec fn edge_errors(m: MachineView, s: StateView, rule: nat) -> Seq<ErrorView> {
    let names = sorted_keys(s.directives.dom());
    target_errors(m, s.on_done, s.id, rule) + target_errors(m, s.on_fail, s.id, rule)
        + directive_errors(m, s, rule, names, names.len())
}

/// The errors of the state `s` under the key `id`.
pub open spec fn state_errors(m: MachineView, id: Seq<char>, rule: nat) -> Seq<ErrorView> {
    id_errors(id, rule) + body_errors(m.states[id], rule) + edge_errors(m, m.states[id], rule)
}

pub open spec fn states_errors(m: MachineView, rule: nat, ids: Seq<Seq<char>>, n: nat) -> Seq<
    ErrorView,
>
    decreases n,
{
    if n == 0 {
        seq![]
    } else {
        states_errors(m, rule, ids, (n - 1) as nat) + state_errors(m, ids[n - 1], rule)
    }
}

/// A terminal needs an outcome.
pub open spec fn terminal_errors(t: TerminalView, id: Seq<char>, rule: nat) -> Seq<ErrorView> {
    if trimmed(t.outcome).len() == 0 {
        seq![about(ErrorKind::EmptyTerminalOutcome, rule, id)]
    } else {
        seq![]
    }
}

pub open spec fn terminals_errors(m: MachineView, rule: nat, ids: Seq<Seq<char>>, n: nat) -> Seq<
    ErrorView,
>
    decreases n,
{
    if n == 0 {
        seq![]
    } else {
        terminals_errors(m, rule, ids, (n - 1) as nat) + terminal_errors(
            m.terminals[ids[n - 1]],
            ids[n - 1],
            rule,
        )
    }
}

/// The component `comp` is a cycle.
pub open spec fn is_cyclic(m: MachineView, comp: Seq<Seq<char>>) -> bool {
    comp.len() >= 2 || (comp.len() == 1 && points_to(m.states[comp[0]], comp[0]))
}

/// Some member of `comp` may be visited more than once.
pub open spec fn is_bounded(m: MachineView, comp: Seq<Seq<char>>) -> bool {
    exists|i: int| 0 <= i < comp.len() && m.states[#[trigger] comp[i]].max_visits > 1
}

/// A cycle needs a member that declares how often it may be visited.
pub open spec fn cycle_errors(m: MachineView, comp: Seq<Seq<char>>, rule: nat) -> Seq<ErrorView> {
    if is_cyclic(m, comp) && !is_bounded(m, comp) {
        seq![ErrorView { kind: ErrorKind::UnboundedCycle, rule, ids: comp }]
    } else {
        seq![]
    }
}

pub open spec fn cycles_errors(
    m: MachineView,
    rule: nat,
    comps: Seq<Seq<Seq<char>>>,
    n: nat,
) -> Seq<ErrorView>
    decreases n,
{
    if n == 0 {
        seq![]
    } else {
        cycles_errors(m, rule, comps, (n - 1) as nat) + cycle_errors(m, comps[n - 1], rule)
    }
}

/// All errors of one rule's machine.
pub open spec fn machine_errors(m: MachineView, rule: nat) -> Seq<ErrorView> {
    let ids = sorted_keys(m.states.dom());
    let terminals = sorted_keys(m.terminals.dom());
    let comps = components(m);
    start_errors(m, rule) + states_errors(m, rule, ids, ids.len()) + terminals_errors(
        m,
        rule,
        terminals,
        terminals.len(),
    ) + cycles_errors(m, rule, comps, comps.len())
}

/// All errors of the first `n` rules of a section whose first rule has number `base`.
pub open spec fn section_errors(rules: Seq<RuleView>, base: nat, n: nat) -> Seq<ErrorView>
    decreases n,
{
    if n == 0 {
        seq![]
    } else {
        section_errors(rules, base, (n - 1) as nat) + machine_errors(
            rules[n - 1].machine,
            (base + n - 1) as nat,
        )
    }
}

/// All errors of a file; rules are numbered through its three sections.
pub open spec fn file_errors(f: FileView) -> Seq<ErrorView> {
    section_errors(f.rules, 0, f.rules.len()) + section_errors(
        f.cleanup,
        f.rules.len(),
        f.cleanup.len(),
    ) + section_errors(f.on_failure, f.rules.len() + f.cleanup.len(), f.on_failure.len())
}

// ---------------------------------------------------------------------------
// The order of errors
// ---------------------------------------------------------------------------

pub open spec fn kind_rank(k: ErrorKind) -> int {
    match k {
        ErrorKind::UnknownEdgeTarget => 0,
        ErrorKind::OrphanBody => 1,
        ErrorKind::ReservedPrefixState => 2,
        ErrorKind::UnboundedCycle => 3,
        ErrorKind::EmptyTerminalOutcome => 4,
        ErrorKind::InvalidStartReference => 5,
        ErrorKind::StateIdNotEnvSafe => 6,
    }
}

/// `a` and `b` agree before `k`, and `a` is the smaller one there.
pub open spec fn ids_lt_at(a: Seq<Seq<char>>, b: Seq<Seq<char>>, k: int) -> bool {
    &&& 0 <= k <= a.len()
    &&& k < b.len()
    &&& forall|i: int| 0 <= i < k ==> a[i] == b[i]
    &&& k == a.len() || lex_lt(a[k], b[k])
}

/// Lists of ids are ordered lexicographically.
pub open spec fn ids_lt(a: Seq<Seq<char>>, b: Seq<Seq<char>>) -> bool {
    exists|k: int| ids_lt_at(a, b, k)
}

/// Errors are ordered by kind, then by rule, then by the ids they name.
pub open spec fn error_lt(a: ErrorView, b: ErrorView) -> bool {
    ||| kind_rank(a.kind) < kind_rank(b.kind)
    ||| kind_rank(a.kind) == kind_rank(b.kind) && a.rule < b.rule
    ||| kind_rank(a.kind) == kind_rank(b.kind) && a.rule == b.rule && ids_lt(a.ids, b.ids)
}

/// No error stands before a smaller one.
pub open spec fn errors_sorted(v: Seq<ErrorView>) -> bool {
    forall|i: int, j: int| 0 <= i < j < v.len() ==> !error_lt(#[trigger] v[j], #[trigger] v[i])
}

proof fn lemma_ids_transitive(a: Seq<Seq<char>>, b: Seq<Seq<char>>, c: Seq<Seq<char>>)
    requires
        ids_lt(a, b),
        ids_lt(b, c),
    ensures
        ids_lt(a, c),
{
    let i = choose|k: int| ids_lt_at(a, b, k);
    let j = choose|k: int| ids_lt_at(b, c, k);
    let m = if i < j { i } else { j };
    if i == j && i < a.len() {
        lemma_lex_transitive(a[i], b[i], c[i]);
    }
    assert(ids_lt_at(a, c, m));
}

proof fn lemma_ids_irreflexive(a: Seq<Seq<char>>)
    ensures
        !ids_lt(a, a),
{
    if ids_lt(a, a) {
        let k = choose|k: int| ids_lt_at(a, a, k);
        lemma_lex_irreflexive(a[k]);
    }
}

proof fn lemma_ids_total_from(a: Seq<Seq<char>>, b: Seq<Seq<char>>, k: int)
    requires
        0 <= k <= a.len(),
        k <= b.len(),
        forall|i: int| 0 <= i < k ==> a[i] == b[i],
    ensures
        ids_lt(a, b) || a == b || ids_lt(b, a),
    decreases a.len() - k,
{
    if k == a.len() && k == b.len() {
        assert(a =~= b);
    } else if k == a.len() {
        assert(ids_lt_at(a, b, k));
    } else if k == b.len() {
        assert(ids_lt_at(b, a, k));
    } else if a[k] == b[k] {
        lemma_ids_total_from(a, b, k + 1);
    } else {
        lemma_lex_total(a[k], b[k]);
        if lex_lt(a[k], b[k]) {
            assert(ids_lt_at(a, b, k));
        } else {
            assert(ids_lt_at(b, a, k));
        }
    }
}

proof fn lemma_error_transitive(a: ErrorView, b: ErrorView, c: ErrorView)
    requires
        error_lt(a, b),
        error_lt(b, c),
    ensures
        error_lt(a, c),
{
    if ids_lt(a.ids, b.ids) && ids_lt(b.ids, c.ids) {
        lemma_ids_transitive(a.ids, b.ids, c.ids);
    }
}

proof fn lemma_error_irreflexive(a: ErrorView)
    ensures
        !error_lt(a, a),
{
    lemma_ids_irreflexive(a.ids);
}

/// Of two different errors one is the smaller, so a list of errors can be
/// sorted in one way only.
pub proof fn lemma_error_total(a: ErrorView, b: ErrorView)
    ensures
        error_lt(a, b) || a == b || error_lt(b, a),
        !(error_lt(a, b) && error_lt(b, a)),
        error_lt(a, b) ==> a != b,
{
    lemma_ids_total_from(a.ids, b.ids, 0);
    if error_lt(a, b) && error_lt(b, a) {
        lemma_error_transitive(a, b, a);
        lemma_error_irreflexive(a);
    }
    lemma_error_irreflexive(a);
    assert(kind_rank(a.kind) == kind_rank(b.kind) ==> a.kind == b.kind);
}

fn ids_less(a: &Vec<String>, b: &Vec<String>) -> (r: bool)
    ensures
        r == ids_lt(views(a@), views(b@)),
{
    let ghost x = views(a@);
    let ghost y = views(b@);
    let mut k: usize = 0;
    while k < a.len() && k < b.len()
        invariant
            k <= a.len(),
            k <= b.len(),
            x == views(a@),
            y == views(b@),
            forall|i: int| 0 <= i < k ==> x[i] == y[i],
        decreases a.len() - k,
    {
        if !str_eq(a[k].as_str(), b[k].as_str()) {
            let less = str_lt(a[k].as_str(), b[k].as_str());
            proof {
                lemma_lex_total(x[k as int], y[k as int]);
                if less {
                    assert(ids_lt_at(x, y, k as int));
                } else {
                    assert(ids_lt_at(y, x, k as int));
                    if ids_lt(x, y) {
                        lemma_ids_transitive(x, y, x);
                        lemma_ids_irreflexive(x);
                    }
                }
            }
            return less;
        }
        k += 1;
    }
    let less = k < b.len();
    proof {
        if less {
            assert(ids_lt_at(x, y, k as int));
        } else if ids_lt(x, y) {
            let j = choose|j: int| ids_lt_at(x, y, j);
            if j < k {
                lemma_lex_irreflexive(x[j]);
            }
        }
    }
    less
}

impl ValidationError {
    fn rank(&self) -> (r: u8)
        ensures
            r == kind_rank(self@.kind),
    {
        match self {
            ValidationError::UnknownEdgeTarget { .. } => 0,
            ValidationError::OrphanBody { .. } => 1,
            ValidationError::ReservedPrefixState { .. } => 2,
            ValidationError::UnboundedCycle { .. } => 3,
            ValidationError::EmptyTerminalOutcome { .. } => 4,
            ValidationError::InvalidStartReference { .. } => 5,
            ValidationError::StateIdNotEnvSafe { .. } => 6,
        }
    }

    /// The number of the rule that the error is about.
    pub fn rule_idx(&self) -> (r: usize)
        ensures
            r == self@.rule,
    {
        match self {
            ValidationError::UnknownEdgeTarget { rule_idx, .. } => *rule_idx,
            ValidationError::OrphanBody { rule_idx, .. } => *rule_idx,
            ValidationError::ReservedPrefixState { rule_idx, .. } => *rule_idx,
            ValidationError::UnboundedCycle { rule_idx, .. } => *rule_idx,
            ValidationError::EmptyTerminalOutcome { rule_idx, .. } => *rule_idx,
            ValidationError::InvalidStartReference { rule_idx, .. } => *rule_idx,
            ValidationError::StateIdNotEnvSafe { rule_idx, .. } => *rule_idx,
        }
    }

    /// The ids that the error names.
    pub fn ids(&self) -> (r: Vec<String>)
        ensures
            views(r@) == self@.ids,
    {
        let mut out: Vec<String> = Vec::new();
        match self {
            ValidationError::UnknownEdgeTarget { state_id, target, .. } => {
                out.push(state_id.clone());
                out.push(target.clone());
            },
            ValidationError::OrphanBody { state_id, .. } => {
                out.push(state_id.clone());
            },
            ValidationError::ReservedPrefixState { state_id, .. } => {
                out.push(state_id.clone());
            },
            ValidationError::UnboundedCycle { state_ids, .. } => {
                return clone_list(state_ids);
            },
            ValidationError::EmptyTerminalOutcome { terminal_id, .. } => {
                out.push(terminal_id.clone());
            },
            ValidationError::InvalidStartReference { start, .. } => {
                out.push(start.clone());
            },
            ValidationError::StateIdNotEnvSafe { state_id, .. } => {
                out.push(state_id.clone());
            },
        }
        assert(views(out@) =~= self@.ids);
        out
    }

    /// Whether this error is reported before `other`.
    pub fn precedes(&self, other: &ValidationError) -> (r: bool)
        ensures
            r == error_lt(self@, other@),
    {
        let (a, b): (u8, u8) = (self.rank(), other.rank());
        if a != b {
            return a < b;
        }
        let (i, j): (usize, usize) = (self.rule_idx(), other.rule_idx());
        if i != j {
            return i < j;
        }
        ids_less(&self.ids(), &other.ids())
    }
}

proof fn lemma_insert_multiset(s: Seq<ErrorView>, i: int, e: ErrorView)
    requires
        0 <= i <= s.len(),
    ensures
        s.insert(i, e).to_multiset() == s.to_multiset().insert(e),
{
    let t = s.insert(i, e);
    t.to_multiset_ensures();
    assert(t[i] == e);
    assert(t.remove(i) =~= s);
    to_multiset_remove(t, i);
    assert(t.contains(e));
    assert(t.to_multiset() =~= s.to_multiset().insert(e));
}

/// The errors in order.
fn sort_errors(errors: Vec<ValidationError>) -> (out: Vec<ValidationError>)
    ensures
        errors_sorted(error_views(out@)),
        error_views(out@).to_multiset() == error_views(errors@).to_multiset(),
{
    let ghost all = error_views(errors@);
    let mut rest = errors;
    let mut out: Vec<ValidationError> = Vec::new();
    proof {
        let none = error_views(out@);
        none.to_multiset_ensures();
        assert(none.to_multiset() =~= Multiset::<ErrorView>::empty());
        assert(all.to_multiset().add(none.to_multiset()) =~= all.to_multiset());
    }
    while rest.len() > 0
        invariant
            errors_sorted(error_views(out@)),
            error_views(rest@).to_multiset().add(error_views(out@).to_multiset())
                == all.to_multiset(),
        decreases rest.len(),
    {
        let ghost rest0 = error_views(rest@);
        let ghost out0 = error_views(out@);
        match rest.pop() {
            Some(e) => {
                let mut i: usize = 0;
                while i < out.len() && out[i].precedes(&e)
                    invariant
                        i <= out.len(),
                        out0 == error_views(out@),
                        forall|k: int| 0 <= k < i ==> error_lt(#[trigger] out0[k], e@),
                    decreases out.len() - i,
                {
                    i += 1;
                }
                out.insert(i, e);
                proof {
                    let out1 = error_views(out@);
                    assert(out1 =~= out0.insert(i as int, e@));
                    lemma_insert_multiset(out0, i as int, e@);
                    let last = rest0.len() - 1;
                    assert(error_views(rest@) =~= rest0.remove(last));
                    to_multiset_remove(rest0, last);
                    rest0.to_multiset_ensures();
                    assert(rest0.contains(e@)) by {
                        assert(rest0[last] == e@);
                    }
                    assert(error_views(rest@).to_multiset().add(out1.to_multiset())
                        =~= rest0.to_multiset().add(out0.to_multiset()));
                    assert forall|x: int, y: int| 0 <= x < y < out1.len() implies !error_lt(
                        #[trigger] out1[y],
                        #[trigger] out1[x],
                    ) by {
                        if y < i {
                            assert(out1[x] == out0[x] && out1[y] == out0[y]);
                        } else if y == i {
                            assert(out1[x] == out0[x]);
                            assert(error_lt(out0[x], e@));
                            lemma_error_total(out0[x], e@);
                        } else {
                            assert(out1[y] == out0[y - 1]);
                            assert(i < out0.len());
                            assert(!error_lt(out0[i as int], e@));
                            if x < i {
                                assert(out1[x] == out0[x]);
                            } else if x == i {
                                if error_lt(out0[y - 1], e@) && y - 1 > i {
                                    lemma_error_total(out0[i as int], out0[y - 1]);
                                    lemma_error_total(out0[i as int], e@);
                                    if error_lt(out0[i as int], out0[y - 1]) {
                                        lemma_error_transitive(out0[i as int], out0[y - 1], e@);
                                    }
                                    assert(!error_lt(out0[y - 1], out0[i as int]));
                                }
                            } else {
                                assert(out1[x] == out0[x - 1]);
                            }
                        }
                    }
                }
            },
            None => {},
        }
    }
    proof {
        let none = error_views(rest@);
        none.to_multiset_ensures();
        assert(none.to_multiset() =~= Multiset::<ErrorView>::empty());
        assert(none.to_multiset().add(error_views(out@).to_multiset()) =~= error_views(
            out@,
        ).to_multiset());
    }
    out
}

// ---------------------------------------------------------------------------
// Checks
// ---------------------------------------------------------------------------

proof fn lemma_pushed(before: Seq<ValidationError>, e: ValidationError)
    ensures
        error_views(before.push(e)) == error_views(before) + seq![e@],
{
    assert(error_views(before.push(e)) =~= error_views(before) + seq![e@]);
}

proof fn lemma_unchanged(before: Seq<ValidationError>)
    ensures
        error_views(before) + Seq::<ErrorView>::empty() == error_views(before),
{
    assert(error_views(before) + Seq::<ErrorView>::empty() =~= error_views(before));
}

fn validate_start(sm: &StateMachine, rule_idx: usize, errors: &mut Vec<ValidationError>)
    ensures
        error_views(final(errors)@) == error_views(old(errors)@) + start_errors(
            sm@,
            rule_idx as nat,
        ),
{
    let none = sm.states.is_empty();
    proof {
        lemma_unchanged(errors@);
        if none {
            assert(sm@.states.dom() =~= Set::empty());
        } else if sm@.states.dom() =~= Set::empty() {
            assert(sm@.states.dom() =~= sm.states@.dom());
            assert(sm.states@ =~= Map::<Seq<char>, State>::empty());
        }
    }
    if none && sm.terminals.contains_key(sm.start.as_str()) {
        return;
    }
    if !sm.states.contains_key(sm.start.as_str()) || sm.terminals.contains_key(sm.start.as_str()) {
        let e = ValidationError::InvalidStartReference { rule_idx, start: sm.start.clone() };
        proof {
            lemma_pushed(errors@, e);
        }
        errors.push(e);
    }
}

fn ascii_letter(c: char) -> (r: bool)
    ensures
        r == is_ascii_letter(c),
{
    ('a' <= c && c <= 'z') || ('A' <= c && c <= 'Z')
}

fn ascii_alnum(c: char) -> (r: bool)
    ensures
        r == is_ascii_alnum(c),
{
    ascii_letter(c) || ('0' <= c && c <= '9')
}

/// Whether `id` can be the name of an environment variable.
pub fn is_env_safe_id(id: &str) -> (r: bool)
    ensures
        r == env_safe(id@),
{
    let cs = chars_of(id);
    if cs.len() == 0 || !ascii_letter(cs[0]) {
        return false;
    }
    let mut i: usize = 1;
    while i < cs.len()
        invariant
            1 <= i <= cs.len(),
            cs@ == id@,
            forall|k: int| 0 < k < i ==> is_ascii_alnum(#[trigger] cs@[k]) || cs@[k] == '_',
        decreases cs.len() - i,
    {
        if !(ascii_alnum(cs[i]) || cs[i] == '_') {
            return false;
        }
        i += 1;
    }
    true
}

fn validate_state_id(id: &String, rule_idx: usize, errors: &mut Vec<ValidationError>)
    ensures
        error_views(final(errors)@) == error_views(old(errors)@) + id_errors(id@, rule_idx as nat),
{
    proof {
        reveal_strlit("__");
        assert("__"@ =~= seq!['_', '_']);
        lemma_unchanged(errors@);
    }
    if starts_with(id.as_str(), "__") {
        let e = ValidationError::ReservedPrefixState { rule_idx, state_id: id.clone() };
        proof {
            lemma_pushed(errors@, e);
        }
        errors.push(e);
        return;
    }
    if !is_env_safe_id(id.as_str()) {
        let e = ValidationError::StateIdNotEnvSafe { rule_idx, state_id: id.clone() };
        proof {
            lemma_pushed(errors@, e);
        }
        errors.push(e);
    }
}

fn validate_state_body(state: &State, rule_idx: usize, errors: &mut Vec<ValidationError>)
    ensures
        error_views(final(errors)@) == error_views(old(errors)@) + body_errors(
            state@,
            rule_idx as nat,
        ),
{
    let orphan = match &state.body {
        StateBody::Run { cmd } => trim(cmd.as_str()).as_str().is_empty(),
        StateBody::Uses { path } => path.as_str().is_empty(),
    };
    proof {
        lemma_unchanged(errors@);
    }
    if orphan {
        let e = ValidationError::OrphanBody { rule_idx, state_id: state.id.clone() };
        proof {
            lemma_pushed(errors@, e);
        }
        errors.push(e);
    }
}

fn check_target(
    t: &EdgeTarget,
    sm: &StateMachine,
    rule_idx: usize,
    state_id: &String,
    errors: &mut Vec<ValidationError>,
)
    ensures
        error_views(final(errors)@) == error_views(old(errors)@) + target_errors(
            sm@,
            t@,
            state_id@,
            rule_idx as nat,
        ),
{
    let id = match t {
        EdgeTarget::State(s) => s,
        EdgeTarget::Terminal(s) => s,
    };
    proof {
        lemma_unchanged(errors@);
    }
    if !sm.states.contains_key(id.as_str()) && !sm.terminals.contains_key(id.as_str()) {
        let e = ValidationError::UnknownEdgeTarget {
            rule_idx,
            state_id: state_id.clone(),
            target: id.clone(),
        };
        proof {
            lemma_pushed(errors@, e);
        }
        errors.push(e);
    }
}

fn validate_state_edges(
    sm: &StateMachine,
    state: &State,
    rule_idx: usize,
    errors: &mut Vec<ValidationError>,
)
    ensures
        error_views(final(errors)@) == error_views(old(errors)@) + edge_errors(
            sm@,
            state@,
            rule_idx as nat,
        ),
{
    let ghost start = error_views(errors@);
    let ghost rule = rule_idx as nat;
    check_target(&state.on_done, sm, rule_idx, &state.id, errors);
    check_target(&state.on_fail, sm, rule_idx, &state.id, errors);
    let ghost base = error_views(errors@);
    let n: usize = state.directives.len();
    let ghost names = key_views(state.directives.pairs());
    proof {
        lemma_sorted_keys(state.directives.pairs());
        assert(state@.directives.dom() =~= state.directives@.dom());
        lemma_unchanged(errors@);
    }
    let mut i: usize = 0;
    while i < n
        invariant
            i <= n == state.directives.pairs().len(),
            ascending(state.directives.pairs()),
            names == key_views(state.directives.pairs()),
            rule == rule_idx as nat,
            error_views(errors@) == base + directive_errors(sm@, state@, rule, names, i as nat),
        decreases n - i,
    {
        let ghost before = error_views(errors@);
        check_target(state.directives.value(i), sm, rule_idx, &state.id, errors);
        proof {
            lemma_map_of(state.directives.pairs(), i as int);
            let e = target_errors(sm@, state@.directives[names[i as int]], state@.id, rule);
            assert(base + (directive_errors(sm@, state@, rule, names, i as nat) + e) =~= before + e);
        }
        i += 1;
    }
    assert(error_views(errors@) =~= start + edge_errors(sm@, state@, rule));
}

fn validate_terminal(
    id: &String,
    terminal: &Terminal,
    rule_idx: usize,
    errors: &mut Vec<ValidationError>,
)
    ensures
        error_views(final(errors)@) == error_views(old(errors)@) + terminal_errors(
            terminal@,
            id@,
            rule_idx as nat,
        ),
{
    proof {
        lemma_unchanged(errors@);
    }
    if trim(terminal.outcome.as_str()).as_str().is_empty() {
        let e = ValidationError::EmptyTerminalOutcome { rule_idx, terminal_id: id.clone() };
        proof {
            lemma_pushed(errors@, e);
        }
        errors.push(e);
    }
}

fn validate_terminals(sm: &StateMachine, rule_idx: usize, errors: &mut Vec<ValidationError>)
    ensures
        ({
            let ids = sorted_keys(sm@.terminals.dom());
            error_views(final(errors)@) == error_views(old(errors)@) + terminals_errors(
                sm@,
                rule_idx as nat,
                ids,
                ids.len(),
            )
        }),
{
    let ghost base = error_views(errors@);
    let ghost rule = rule_idx as nat;
    let n: usize = sm.terminals.len();
    let ghost ids = key_views(sm.terminals.pairs());
    proof {
        lemma_sorted_keys(sm.terminals.pairs());
        assert(sm@.terminals.dom() =~= sm.terminals@.dom());
        lemma_unchanged(errors@);
    }
    let mut i: usize = 0;
    while i < n
        invariant
            i <= n == sm.terminals.pairs().len(),
            ascending(sm.terminals.pairs()),
            ids == key_views(sm.terminals.pairs()),
            rule == rule_idx as nat,
            error_views(errors@) == base + terminals_errors(sm@, rule, ids, i as nat),
        decreases n - i,
    {
        let ghost before = error_views(errors@);
        validate_terminal(sm.terminals.key(i), sm.terminals.value(i), rule_idx, errors);
        proof {
            lemma_map_of(sm.terminals.pairs(), i as int);
            let e = terminal_errors(sm@.terminals[ids[i as int]], ids[i as int], rule);
            assert(base + (terminals_errors(sm@, rule, ids, i as nat) + e) =~= before + e);
        }
        i += 1;
    }
}

/// Whether the component `comp` is a cycle.
pub(crate) fn component_cyclic(sm: &StateMachine, comp: &Vec<String>) -> (r: bool)
    requires
        forall|i: int| 0 <= i < comp.len() ==> sm@.states.dom().contains(#[trigger] comp@[i]@),
    ensures
        r == is_cyclic(sm@, views(comp@)),
{
    if comp.len() != 1 {
        return comp.len() >= 2;
    }
    assert(views(comp@)[0] == comp@[0]@);
    match sm.states.get(comp[0].as_str()) {
        Some(s) => state_points_to(s, comp[0].as_str()),
        None => {
            assert(sm@.states.dom().contains(comp@[0]@));
            false
        },
    }
}

/// Whether some member of `comp` may be visited more than once.
pub(crate) fn component_bounded(sm: &StateMachine, comp: &Vec<String>) -> (r: bool)
    requires
        forall|i: int| 0 <= i < comp.len() ==> sm@.states.dom().contains(#[trigger] comp@[i]@),
    ensures
        r == is_bounded(sm@, views(comp@)),
{
    let ghost ids = views(comp@);
    let mut i: usize = 0;
    while i < comp.len()
        invariant
            i <= comp.len(),
            ids == views(comp@),
            forall|k: int| 0 <= k < comp.len() ==> sm@.states.dom().contains(#[trigger] comp@[k]@),
            forall|k: int| 0 <= k < i ==> sm@.states[#[trigger] ids[k]].max_visits <= 1,
        decreases comp.len() - i,
    {
        match sm.states.get(comp[i].as_str()) {
            Some(s) => {
                if s.max_visits > 1 {
                    assert(sm@.states[ids[i as int]].max_visits > 1);
                    return true;
                }
            },
            None => {
                assert(sm@.states.dom().contains(comp@[i as int]@));
            },
        }
        i += 1;
    }
    false
}

/// Checks that each cycle is bounded.
fn validate_cycles_bounded(sm: &StateMachine, rule_idx: usize, errors: &mut Vec<ValidationError>)
    ensures
        error_views(final(errors)@) == error_views(old(errors)@) + cycles_errors(
            sm@,
            rule_idx as nat,
            components(sm@),
            components(sm@).len(),
        ),
{
    let ghost base = error_views(errors@);
    let ghost rule = rule_idx as nat;
    let ghost m = sm@;
    let comps = strong_components(sm);
    let ghost l = component_views(comps@);
    proof {
        lemma_unchanged(errors@);
    }
    let mut c: usize = 0;
    while c < comps.len()
        invariant
            c <= comps.len(),
            m == sm@,
            rule == rule_idx as nat,
            l == component_views(comps@),
            lists_components(m, l),
            error_views(errors@) == base + cycles_errors(m, rule, l, c as nat),
        decreases comps.len() - c,
    {
        let ghost before = error_views(errors@);
        let comp = &comps[c];
        let ghost ids = l[c as int];
        proof {
            assert(ids == views(comp@));
            assert forall|i: int| 0 <= i < comp.len() implies sm@.states.dom().contains(
                #[trigger] comp@[i]@,
            ) by {
                assert(ids[i] == comp@[i]@);
                assert(l[c as int].contains(ids[i]));
            }
            lemma_unchanged(errors@);
            let e = cycle_errors(m, ids, rule);
            assert(base + (cycles_errors(m, rule, l, c as nat) + e) =~= before + e);
        }
        if component_cyclic(sm, comp) && !component_bounded(sm, comp) {
            let e = ValidationError::UnboundedCycle { rule_idx, state_ids: clone_list(comp) };
            proof {
                lemma_pushed(errors@, e);
            }
            errors.push(e);
        }
        c += 1;
    }
}

fn validate_rule(sm: &StateMachine, rule_idx: usize, errors: &mut Vec<ValidationError>)
    ensures
        error_views(final(errors)@) == error_views(old(errors)@) + machine_errors(
            sm@,
            rule_idx as nat,
        ),
{
    let ghost start = error_views(errors@);
    let ghost rule = rule_idx as nat;
    validate_start(sm, rule_idx, errors);
    let ghost base = error_views(errors@);
    let n: usize = sm.states.len();
    let ghost ids = key_views(sm.states.pairs());
    proof {
        lemma_sorted_keys(sm.states.pairs());
        assert(sm@.states.dom() =~= sm.states@.dom());
        lemma_unchanged(errors@);
    }
    let mut i: usize = 0;
    while i < n
        invariant
            i <= n == sm.states.pairs().len(),
            ascending(sm.states.pairs()),
            ids == key_views(sm.states.pairs()),
            rule == rule_idx as nat,
            error_views(errors@) == base + states_errors(sm@, rule, ids, i as nat),
        decreases n - i,
    {
        let ghost before = error_views(errors@);
        let state = sm.states.value(i);
        validate_state_id(sm.states.key(i), rule_idx, errors);
        validate_state_body(state, rule_idx, errors);
        validate_state_edges(sm, state, rule_idx, errors);
        proof {
            lemma_map_of(sm.states.pairs(), i as int);
            let id = ids[i as int];
            assert(sm@.states[id] == state@);
            let e = state_errors(sm@, id, rule);
            assert(error_views(errors@) =~= before + e);
            assert(base + (states_errors(sm@, rule, ids, i as nat) + e) =~= before + e);
        }
        i += 1;
    }
    validate_terminals(sm, rule_idx, errors);
    validate_cycles_bounded(sm, rule_idx, errors);
    assert(error_views(errors@) =~= start + machine_errors(sm@, rule));
}

fn validate_section(section: &Vec<RuleEntry>, base: usize, errors: &mut Vec<ValidationError>)
    requires
        base + section.len() <= usize::MAX,
    ensures
        error_views(final(errors)@) == error_views(old(errors)@) + section_errors(
            rules_view(section@),
            base as nat,
            section.len() as nat,
        ),
{
    let ghost start = error_views(errors@);
    let ghost rules = rules_view(section@);
    proof {
        lemma_unchanged(errors@);
    }
    let mut i: usize = 0;
    while i < section.len()
        invariant
            i <= section.len(),
            base + section.len() <= usize::MAX,
            rules == rules_view(section@),
            error_views(errors@) == start + section_errors(rules, base as nat, i as nat),
        decreases section.len() - i,
    {
        let ghost before = error_views(errors@);
        validate_rule(&section[i].state_machine, base + i, errors);
        proof {
            let e = machine_errors(rules[i as int].machine, (base + i) as nat);
            assert(start + (section_errors(rules, base as nat, i as nat) + e) =~= before + e);
        }
        i += 1;
    }
}

/// Validates a fully expanded file. All errors are collected; they come back
/// sorted.
pub fn run(file: &WorkflowFile) -> (r: Result<(), Vec<ValidationError>>)
    requires
        file.rules.len() + file.cleanup.len() + file.on_failure.len() <= usize::MAX,
    ensures
        r is Ok <==> file_errors(file@).len() == 0,
        r matches Err(v) ==> errors_sorted(error_views(v@)) && error_views(v@).to_multiset()
            == file_errors(file@).to_multiset(),
{
    let mut errors: Vec<ValidationError> = Vec::new();
    validate_section(&file.rules, 0, &mut errors);
    validate_section(&file.cleanup, file.rules.len(), &mut errors);
    validate_section(&file.on_failure, file.rules.len() + file.cleanup.len(), &mut errors);
    assert(error_views(errors@) =~= file_errors(file@));
    assert(error_views(errors@).len() == errors.len());
    if errors.is_empty() {
        Ok(())
    } else {
        Err(sort_errors(errors))
    }
}

} // verus!

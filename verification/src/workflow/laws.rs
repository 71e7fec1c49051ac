//! What holds of every workflow that is expanded and validated.
//!
//! The statements here speak of the edges that a file declares and of the paths
//! along them, of the declared tasks and states, and of the errors that are
//! reported.
use vstd::prelude::*;

use crate::strmap::{lemma_sortable, sorted_keys, strictly_ascending};
use crate::text::{begins_with, is_space, lex_lt, trimmed, trimmed_end, trimmed_start};
use crate::workflow::canonical::{edge, mutual, reaches, walk, BodyView, EdgeView, FileView, MachineView, RuleView, StateView};
use crate::workflow::components::{components, lemma_components_listed, lists_components};
use crate::workflow::validate::{body_errors, cycle_errors, cycles_errors, directive_errors, edge_errors, env_safe, error_lt, errors_sorted, file_errors, id_errors, is_bounded, is_cyclic, machine_errors, section_errors, start_errors, state_errors, states_errors, target_errors, terminal_errors, terminals_errors, ErrorKind, ErrorView};

verus! {

// ---------------------------------------------------------------------------
// Paths
// ---------------------------------------------------------------------------

/// An edge of the state `a`, on success, on failure or by a directive, leads to
/// the state `b`.
pub open spec fn leads(m: MachineView, a: Seq<char>, b: Seq<char>) -> bool {
    &&& m.states.contains_key(a)
    &&& m.states.contains_key(b)
    &&& {
        ||| m.states[a].on_done == EdgeView::State(b)
        ||| m.states[a].on_fail == EdgeView::State(b)
        ||| exists|d: Seq<char>|
            m.states[a].directives.contains_key(d) && #[trigger] m.states[a].directives[d]
                == EdgeView::State(b)
    }
}

/// `p` is a path of at least one edge from `a` to `b`.
pub open spec fn is_path(m: MachineView, p: Seq<Seq<char>>, a: Seq<char>, b: Seq<char>) -> bool {
    &&& p.len() >= 2
    &&& p[0] == a
    &&& p[p.len() - 1] == b
    &&& forall|i: int| 0 <= i < p.len() - 1 ==> leads(m, #[trigger] p[i], p[i + 1])
}

/// A path of at least one edge leads from `a` to `b`.
pub open spec fn goes(m: MachineView, a: Seq<char>, b: Seq<char>) -> bool {
    exists|p: Seq<Seq<char>>| is_path(m, p, a, b)
}

/// A path leads from `a` to `b`, and one back: they lie on a common cycle.
pub open spec fn around(m: MachineView, a: Seq<char>, b: Seq<char>) -> bool {
    goes(m, a, b) && goes(m, b, a)
}

proof fn lemma_leads(m: MachineView, a: Seq<char>, b: Seq<char>)
    ensures
        leads(m, a, b) == edge(m, a, b),
{
}

proof fn lemma_goes_reaches(m: MachineView, a: Seq<char>, b: Seq<char>)
    requires
        goes(m, a, b),
    ensures
        reaches(m, a, b),
        m.states.contains_key(a),
        m.states.contains_key(b),
{
    let p = choose|p: Seq<Seq<char>>| is_path(m, p, a, b);
    assert(leads(m, p[0], p[1]));
    assert forall|i: int| 0 <= i < p.len() - 1 implies edge(m, #[trigger] p[i], p[i + 1]) by {
        lemma_leads(m, p[i], p[i + 1]);
    }
    assert(walk(m, p));
    let n = p.len() - 2;
    assert(leads(m, p[n], p[n + 1]));
}

proof fn lemma_reaches_goes(m: MachineView, a: Seq<char>, b: Seq<char>)
    requires
        reaches(m, a, b),
        a != b,
    ensures
        goes(m, a, b),
{
    let p = choose|p: Seq<Seq<char>>| walk(m, p) && p[0] == a && p[p.len() - 1] == b;
    assert forall|i: int| 0 <= i < p.len() - 1 implies leads(m, #[trigger] p[i], p[i + 1]) by {
        lemma_leads(m, p[i], p[i + 1]);
    }
    assert(is_path(m, p, a, b));
}

proof fn lemma_goes_on(m: MachineView, a: Seq<char>, b: Seq<char>, c: Seq<char>)
    requires
        goes(m, a, b),
        goes(m, b, c),
    ensures
        goes(m, a, c),
{
    let p = choose|p: Seq<Seq<char>>| is_path(m, p, a, b);
    let q = choose|q: Seq<Seq<char>>| is_path(m, q, b, c);
    let r = p + q.subrange(1, q.len() as int);
    assert forall|i: int| 0 <= i < r.len() - 1 implies leads(m, #[trigger] r[i], r[i + 1]) by {
        if i < p.len() - 1 {
            assert(leads(m, p[i], p[i + 1]));
        } else {
            let j = i - (p.len() - 1);
            assert(leads(m, q[j], q[j + 1]));
            assert(r[i] == q[j]);
            assert(r[i + 1] == q[j + 1]);
        }
    }
    assert(is_path(m, r, a, c));
}

proof fn lemma_step_goes(m: MachineView, a: Seq<char>, b: Seq<char>)
    requires
        edge(m, a, b),
    ensures
        goes(m, a, b),
{
    let p = seq![a, b];
    lemma_leads(m, a, b);
    assert(is_path(m, p, a, b));
}

/// On a cycle, to lie in one component and to lie on a common cycle are the
/// same.
pub proof fn lemma_around(m: MachineView, s: Seq<char>, t: Seq<char>)
    ensures
        goes(m, s, s) ==> (mutual(m, s, t) <==> around(m, s, t)),
        around(m, s, t) ==> goes(m, s, s) && goes(m, t, t),
{
    if around(m, s, t) {
        lemma_goes_reaches(m, s, t);
        lemma_goes_reaches(m, t, s);
        lemma_goes_on(m, s, t, s);
        lemma_goes_on(m, t, s, t);
    }
    if goes(m, s, s) && mutual(m, s, t) && s != t {
        lemma_reaches_goes(m, s, t);
        lemma_reaches_goes(m, t, s);
    }
}

/// A component is a cycle exactly where a path leads from its members back to
/// themselves.
pub proof fn lemma_cyclic(m: MachineView, comps: Seq<Seq<Seq<char>>>, c: int, s: Seq<char>)
    requires
        lists_components(m, comps),
        0 <= c < comps.len(),
        comps[c].contains(s),
    ensures
        is_cyclic(m, comps[c]) <==> goes(m, s, s),
{
    let comp = comps[c];
    let k = choose|k: int| 0 <= k < comp.len() && comp[k] == s;
    assert(m.states.dom().contains(s));
    if goes(m, s, s) && comp.len() == 1 {
        let p = choose|p: Seq<Seq<char>>| is_path(m, p, s, s);
        let t = p[1];
        assert(leads(m, p[0], p[1]));
        lemma_leads(m, s, t);
        lemma_step_goes(m, s, t);
        if p.len() > 2 {
            let q = p.subrange(1, p.len() as int);
            assert forall|i: int| 0 <= i < q.len() - 1 implies leads(m, #[trigger] q[i], q[i + 1]) by {
                assert(leads(m, p[i + 1], p[i + 1 + 1]));
            }
            assert(is_path(m, q, t, s));
        } else {
            assert(t == s);
            assert(goes(m, t, s));
        }
        lemma_around(m, s, t);
        assert(comp.contains(t));
        assert(t == s);
    }
    if is_cyclic(m, comp) {
        if comp.len() >= 2 {
            let j = if k == 0 { 1int } else { 0int };
            let t = comp[j];
            assert(comp.contains(t));
            assert(t != s) by {
                if j < k {
                    assert(lex_lt(comp[j], comp[k]));
                } else {
                    assert(lex_lt(comp[k], comp[j]));
                }
                crate::text::lemma_lex_irreflexive(s);
            }
            assert(mutual(m, s, t));
            lemma_reaches_goes(m, s, t);
            lemma_reaches_goes(m, t, s);
            lemma_goes_on(m, s, t, s);
        } else {
            assert(comp[0] == s);
            lemma_step_goes(m, s, s);
        }
    }
}

/// Machines with the same states have the same paths.
pub proof fn lemma_same_paths(m: MachineView, n: MachineView, a: Seq<char>, b: Seq<char>)
    requires
        m.states == n.states,
    ensures
        goes(m, a, b) == goes(n, a, b),
{
    if goes(m, a, b) {
        let p = choose|p: Seq<Seq<char>>| is_path(m, p, a, b);
        assert forall|i: int| 0 <= i < p.len() - 1 implies leads(n, #[trigger] p[i], p[i + 1]) by {
            assert(leads(m, p[i], p[i + 1]));
        }
        assert(is_path(n, p, a, b));
    }
    if goes(n, a, b) {
        let p = choose|p: Seq<Seq<char>>| is_path(n, p, a, b);
        assert forall|i: int| 0 <= i < p.len() - 1 implies leads(m, #[trigger] p[i], p[i + 1]) by {
            assert(leads(n, p[i], p[i + 1]));
        }
        assert(is_path(m, p, a, b));
    }
}

// ---------------------------------------------------------------------------
// Where errors come from
// ---------------------------------------------------------------------------

proof fn lemma_either(a: Seq<ErrorView>, b: Seq<ErrorView>, e: ErrorView)
    ensures
        (a + b).contains(e) <==> a.contains(e) || b.contains(e),
{
    let c = a + b;
    if a.contains(e) {
        let i = choose|i: int| 0 <= i < a.len() && a[i] == e;
        assert(c[i] == e);
    }
    if b.contains(e) {
        let i = choose|i: int| 0 <= i < b.len() && b[i] == e;
        assert(c[a.len() + i] == e);
    }
    if c.contains(e) {
        let i = choose|i: int| 0 <= i < c.len() && c[i] == e;
        if i < a.len() {
            assert(a[i] == e);
        } else {
            assert(b[i - a.len()] == e);
        }
    }
}

spec fn cycle_has(m: MachineView, rule: nat, comps: Seq<Seq<Seq<char>>>, i: int, e: ErrorView) -> bool {
    cycle_errors(m, comps[i], rule).contains(e)
}

proof fn lemma_cycles_have(
    m: MachineView,
    rule: nat,
    comps: Seq<Seq<Seq<char>>>,
    n: nat,
    e: ErrorView,
)
    requires
        n <= comps.len(),
    ensures
        cycles_errors(m, rule, comps, n).contains(e) <==> exists|i: int|
            0 <= i < n && cycle_has(m, rule, comps, i, e),
    decreases n,
{
    if n > 0 {
        let k = (n - 1) as nat;
        lemma_cycles_have(m, rule, comps, k, e);
        lemma_either(cycles_errors(m, rule, comps, k), cycle_errors(m, comps[n - 1], rule), e);
        if cycles_errors(m, rule, comps, k).contains(e) {
            let i = choose|i: int| 0 <= i < k && cycle_has(m, rule, comps, i, e);
            assert(0 <= i < n && cycle_has(m, rule, comps, i, e));
        }
        if cycle_errors(m, comps[n - 1], rule).contains(e) {
            assert(cycle_has(m, rule, comps, n - 1, e));
        }
    }
}

spec fn state_has(m: MachineView, rule: nat, ids: Seq<Seq<char>>, i: int, e: ErrorView) -> bool {
    state_errors(m, ids[i], rule).contains(e)
}

proof fn lemma_states_have(m: MachineView, rule: nat, ids: Seq<Seq<char>>, n: nat, e: ErrorView)
    requires
        n <= ids.len(),
    ensures
        states_errors(m, rule, ids, n).contains(e) <==> exists|i: int|
            0 <= i < n && state_has(m, rule, ids, i, e),
    decreases n,
{
    if n > 0 {
        let k = (n - 1) as nat;
        lemma_states_have(m, rule, ids, k, e);
        lemma_either(states_errors(m, rule, ids, k), state_errors(m, ids[n - 1], rule), e);
        if states_errors(m, rule, ids, k).contains(e) {
            let i = choose|i: int| 0 <= i < k && state_has(m, rule, ids, i, e);
            assert(0 <= i < n && state_has(m, rule, ids, i, e));
        }
        if state_errors(m, ids[n - 1], rule).contains(e) {
            assert(state_has(m, rule, ids, n - 1, e));
        }
    }
}

spec fn terminal_has(m: MachineView, rule: nat, ids: Seq<Seq<char>>, i: int, e: ErrorView) -> bool {
    terminal_errors(m.terminals[ids[i]], ids[i], rule).contains(e)
}

proof fn lemma_terminals_have(m: MachineView, rule: nat, ids: Seq<Seq<char>>, n: nat, e: ErrorView)
    requires
        n <= ids.len(),
    ensures
        terminals_errors(m, rule, ids, n).contains(e) <==> exists|i: int|
            0 <= i < n && terminal_has(m, rule, ids, i, e),
    decreases n,
{
    if n > 0 {
        let k = (n - 1) as nat;
        let last = terminal_errors(m.terminals[ids[n - 1]], ids[n - 1], rule);
        lemma_terminals_have(m, rule, ids, k, e);
        lemma_either(terminals_errors(m, rule, ids, k), last, e);
        if terminals_errors(m, rule, ids, k).contains(e) {
            let i = choose|i: int| 0 <= i < k && terminal_has(m, rule, ids, i, e);
            assert(0 <= i < n && terminal_has(m, rule, ids, i, e));
        }
        if last.contains(e) {
            assert(terminal_has(m, rule, ids, n - 1, e));
        }
    }
}

spec fn directive_has(
    m: MachineView,
    s: StateView,
    rule: nat,
    names: Seq<Seq<char>>,
    i: int,
    e: ErrorView,
) -> bool {
    target_errors(m, s.directives[names[i]], s.id, rule).contains(e)
}

proof fn lemma_directives_have(
    m: MachineView,
    s: StateView,
    rule: nat,
    names: Seq<Seq<char>>,
    n: nat,
    e: ErrorView,
)
    requires
        n <= names.len(),
    ensures
        directive_errors(m, s, rule, names, n).contains(e) <==> exists|i: int|
            0 <= i < n && directive_has(m, s, rule, names, i, e),
    decreases n,
{
    if n > 0 {
        let k = (n - 1) as nat;
        let last = target_errors(m, s.directives[names[n - 1]], s.id, rule);
        lemma_directives_have(m, s, rule, names, k, e);
        lemma_either(directive_errors(m, s, rule, names, k), last, e);
        if directive_errors(m, s, rule, names, k).contains(e) {
            let i = choose|i: int| 0 <= i < k && directive_has(m, s, rule, names, i, e);
            assert(0 <= i < n && directive_has(m, s, rule, names, i, e));
        }
        if last.contains(e) {
            assert(directive_has(m, s, rule, names, n - 1, e));
        }
    }
}

spec fn rule_has(rules: Seq<RuleView>, base: nat, i: int, e: ErrorView) -> bool {
    machine_errors(rules[i].machine, (base + i) as nat).contains(e)
}

proof fn lemma_section_has(rules: Seq<RuleView>, base: nat, n: nat, e: ErrorView)
    requires
        n <= rules.len(),
    ensures
        section_errors(rules, base, n).contains(e) <==> exists|i: int|
            0 <= i < n && rule_has(rules, base, i, e),
    decreases n,
{
    if n > 0 {
        let k = (n - 1) as nat;
        let last = machine_errors(rules[n - 1].machine, (base + n - 1) as nat);
        lemma_section_has(rules, base, k, e);
        lemma_either(section_errors(rules, base, k), last, e);
        if section_errors(rules, base, k).contains(e) {
            let i = choose|i: int| 0 <= i < k && rule_has(rules, base, i, e);
            assert(0 <= i < n && rule_has(rules, base, i, e));
        }
        if last.contains(e) {
            assert(rule_has(rules, base, n - 1, e));
        }
    }
}

/// The errors of a state: those of its id, of its body and of its edges.
proof fn lemma_state_has(m: MachineView, id: Seq<char>, rule: nat, e: ErrorView)
    requires
        m.states[id].directives.dom().finite(),
    ensures
        state_errors(m, id, rule).contains(e) <==> {
            ||| id_errors(id, rule).contains(e)
            ||| body_errors(m.states[id], rule).contains(e)
            ||| target_errors(m, m.states[id].on_done, m.states[id].id, rule).contains(e)
            ||| target_errors(m, m.states[id].on_fail, m.states[id].id, rule).contains(e)
            ||| exists|d: Seq<char>|
                m.states[id].directives.contains_key(d) && target_errors(
                    m,
                    #[trigger] m.states[id].directives[d],
                    m.states[id].id,
                    rule,
                ).contains(e)
        },
{
    let s = m.states[id];
    let names = sorted_keys(s.directives.dom());
    lemma_sortable(s.directives.dom());
    let a = id_errors(id, rule);
    let b = body_errors(s, rule);
    let c = edge_errors(m, s, rule);
    lemma_either(a, b, e);
    lemma_either(a + b, c, e);
    let x = target_errors(m, s.on_done, s.id, rule);
    let y = target_errors(m, s.on_fail, s.id, rule);
    let z = directive_errors(m, s, rule, names, names.len());
    lemma_either(x, y, e);
    lemma_either(x + y, z, e);
    lemma_directives_have(m, s, rule, names, names.len(), e);
    if z.contains(e) {
        let i = choose|i: int| 0 <= i < names.len() && directive_has(m, s, rule, names, i, e);
        assert(names.contains(names[i]));
        assert(s.directives.contains_key(names[i]));
        assert(target_errors(m, s.directives[names[i]], s.id, rule).contains(e));
    }
    if exists|d: Seq<char>|
        s.directives.contains_key(d) && target_errors(
            m,
            #[trigger] s.directives[d],
            s.id,
            rule,
        ).contains(e) {
        let d = choose|d: Seq<char>|
            s.directives.contains_key(d) && target_errors(
                m,
                #[trigger] s.directives[d],
                s.id,
                rule,
            ).contains(e);
        assert(names.contains(d));
        let i = choose|i: int| 0 <= i < names.len() && names[i] == d;
        assert(directive_has(m, s, rule, names, i, e));
    }
}

/// A machine whose maps are finite, as those of a file are.
pub open spec fn finite(m: MachineView) -> bool {
    &&& m.states.dom().finite()
    &&& m.terminals.dom().finite()
    &&& forall|id: Seq<char>| #[trigger]
        m.states.contains_key(id) ==> m.states[id].directives.dom().finite()
}

/// The errors of a machine: those of its start, its states, its terminals and
/// its cycles.
proof fn lemma_machine_has(m: MachineView, rule: nat, e: ErrorView)
    requires
        finite(m),
    ensures
        machine_errors(m, rule).contains(e) <==> {
            ||| start_errors(m, rule).contains(e)
            ||| exists|id: Seq<char>|
                m.states.contains_key(id) && #[trigger] state_errors(m, id, rule).contains(e)
            ||| exists|id: Seq<char>|
                m.terminals.contains_key(id) && #[trigger] terminal_errors(
                    m.terminals[id],
                    id,
                    rule,
                ).contains(e)
            ||| exists|c: int|
                0 <= c < components(m).len() && #[trigger] cycle_errors(m, components(m)[c], rule).contains(
                    e,
                )
        },
        machine_errors(m, rule).contains(e) ==> e.rule == rule,
{
    let ids = sorted_keys(m.states.dom());
    let ends = sorted_keys(m.terminals.dom());
    let comps = components(m);
    lemma_sortable(m.states.dom());
    lemma_sortable(m.terminals.dom());
    let a = start_errors(m, rule);
    let b = states_errors(m, rule, ids, ids.len());
    let c = terminals_errors(m, rule, ends, ends.len());
    let d = cycles_errors(m, rule, comps, comps.len());
    lemma_either(a, b, e);
    lemma_either(a + b, c, e);
    lemma_either(a + b + c, d, e);
    lemma_states_have(m, rule, ids, ids.len(), e);
    lemma_terminals_have(m, rule, ends, ends.len(), e);
    lemma_cycles_have(m, rule, comps, comps.len(), e);
    if b.contains(e) {
        let i = choose|i: int| 0 <= i < ids.len() && state_has(m, rule, ids, i, e);
        assert(ids.contains(ids[i]));
        assert(state_errors(m, ids[i], rule).contains(e));
    }
    if exists|id: Seq<char>|
        m.states.contains_key(id) && #[trigger] state_errors(m, id, rule).contains(e) {
        let id = choose|id: Seq<char>|
            m.states.contains_key(id) && #[trigger] state_errors(m, id, rule).contains(e);
        assert(ids.contains(id));
        let i = choose|i: int| 0 <= i < ids.len() && ids[i] == id;
        assert(state_has(m, rule, ids, i, e));
        lemma_state_has(m, id, rule, e);
        assert(e.rule == rule);
    }
    if c.contains(e) {
        let i = choose|i: int| 0 <= i < ends.len() && terminal_has(m, rule, ends, i, e);
        assert(ends.contains(ends[i]));
        assert(terminal_errors(m.terminals[ends[i]], ends[i], rule).contains(e));
    }
    if exists|id: Seq<char>|
        m.terminals.contains_key(id) && #[trigger] terminal_errors(m.terminals[id], id, rule).contains(
            e,
        ) {
        let id = choose|id: Seq<char>|
            m.terminals.contains_key(id) && #[trigger] terminal_errors(
                m.terminals[id],
                id,
                rule,
            ).contains(e);
        assert(ends.contains(id));
        let i = choose|i: int| 0 <= i < ends.len() && ends[i] == id;
        assert(terminal_has(m, rule, ends, i, e));
    }
    if d.contains(e) {
        let i = choose|i: int| 0 <= i < comps.len() && cycle_has(m, rule, comps, i, e);
        assert(cycle_errors(m, comps[i], rule).contains(e));
    }
    if exists|c: int|
        0 <= c < comps.len() && #[trigger] cycle_errors(m, comps[c], rule).contains(e) {
        let i = choose|i: int|
            0 <= i < comps.len() && #[trigger] cycle_errors(m, comps[i], rule).contains(e);
        assert(cycle_has(m, rule, comps, i, e));
    }
}

/// How many rules a file has.
pub open spec fn rule_count(f: FileView) -> nat {
    f.rules.len() + f.cleanup.len() + f.on_failure.len()
}

/// The machine of rule `n`; rules are numbered through the three sections.
pub open spec fn machine_of(f: FileView, n: nat) -> MachineView {
    if n < f.rules.len() {
        f.rules[n as int].machine
    } else if n < f.rules.len() + f.cleanup.len() {
        f.cleanup[n - f.rules.len()].machine
    } else {
        f.on_failure[n - f.rules.len() - f.cleanup.len()].machine
    }
}

/// All machines of the file are finite.
pub open spec fn finite_file(f: FileView) -> bool {
    forall|n: nat| n < rule_count(f) ==> finite(#[trigger] machine_of(f, n))
}

/// The errors of a file are those of its machines, each under the number of its
/// rule.
proof fn lemma_file_has(f: FileView, e: ErrorView)
    requires
        finite_file(f),
    ensures
        file_errors(f).contains(e) <==> e.rule < rule_count(f) && machine_errors(
            machine_of(f, e.rule),
            e.rule,
        ).contains(e),
{
    let (a, b, c) = (f.rules.len(), f.cleanup.len(), f.on_failure.len());
    let ab = a + b;
    let x = section_errors(f.rules, 0, a);
    let y = section_errors(f.cleanup, a, b);
    let z = section_errors(f.on_failure, ab, c);
    lemma_either(x, y, e);
    lemma_either(x + y, z, e);
    lemma_section_has(f.rules, 0, a, e);
    lemma_section_has(f.cleanup, a, b, e);
    lemma_section_has(f.on_failure, ab, c, e);
    if x.contains(e) {
        let i = choose|i: int| 0 <= i < a && rule_has(f.rules, 0, i, e);
        let n = i as nat;
        assert(machine_of(f, n) == f.rules[i].machine);
        lemma_machine_has(machine_of(f, n), n, e);
    }
    if y.contains(e) {
        let i = choose|i: int| 0 <= i < b && rule_has(f.cleanup, a, i, e);
        let n = (a + i) as nat;
        assert(machine_of(f, n) == f.cleanup[i].machine);
        lemma_machine_has(machine_of(f, n), n, e);
    }
    if z.contains(e) {
        let i = choose|i: int| 0 <= i < c && rule_has(f.on_failure, ab, i, e);
        let n = (a + b + i) as nat;
        assert(machine_of(f, n) == f.on_failure[i].machine);
        lemma_machine_has(machine_of(f, n), n, e);
    }
    if e.rule < rule_count(f) && machine_errors(machine_of(f, e.rule), e.rule).contains(e) {
        let n = e.rule as int;
        if n < a {
            assert(rule_has(f.rules, 0, n, e));
        } else if n < a + b {
            assert(rule_has(f.cleanup, a, n - a, e));
        } else {
            assert(rule_has(f.on_failure, ab, n - a - b, e));
        }
    }
}

proof fn lemma_one(e: ErrorView, x: ErrorView)
    ensures
        seq![e].contains(x) <==> x == e,
        !Seq::<ErrorView>::empty().contains(x),
{
    assert(seq![e][0] == e);
}

// ---------------------------------------------------------------------------
// Cycles
// ---------------------------------------------------------------------------

/// Where nothing on a cycle may be visited more than once, the cycle is
/// reported, with exactly the states that lie on a common cycle, in order.
pub proof fn law_unbounded_cycles_are_reported(f: FileView, n: nat, s: Seq<char>)
    requires
        finite_file(f),
        n < rule_count(f),
        goes(machine_of(f, n), s, s),
        forall|t: Seq<char>| #[trigger]
            around(machine_of(f, n), s, t) ==> machine_of(f, n).states[t].max_visits <= 1,
    ensures
        exists|e: ErrorView| #[trigger]
            file_errors(f).contains(e) && e.kind is UnboundedCycle && e.rule == n && (
            forall|t: Seq<char>| #[trigger]
                e.ids.contains(t) <==> around(machine_of(f, n), s, t)) && (forall|i: int, j: int|
                0 <= i < j < e.ids.len() ==> lex_lt(#[trigger] e.ids[i], #[trigger] e.ids[j])),
{
    let m = machine_of(f, n);
    let comps = components(m);
    lemma_components_listed(m);
    lemma_goes_reaches(m, s, s);
    let c = choose|c: int| 0 <= c < comps.len() && #[trigger] comps[c].contains(s);
    let comp = comps[c];
    lemma_cyclic(m, comps, c, s);
    assert forall|t: Seq<char>| #[trigger] comp.contains(t) <==> around(m, s, t) by {
        lemma_around(m, s, t);
        assert(comp.contains(t) == mutual(m, s, t));
    }
    if is_bounded(m, comp) {
        let i = choose|i: int| 0 <= i < comp.len() && m.states[#[trigger] comp[i]].max_visits > 1;
        assert(comp.contains(comp[i]));
        assert(around(m, s, comp[i]));
    }
    let e = ErrorView { kind: ErrorKind::UnboundedCycle, rule: n, ids: comp };
    lemma_one(e, e);
    assert(cycle_errors(m, comps[c], n).contains(e));
    lemma_machine_has(m, n, e);
    lemma_file_has(f, e);
    assert(strictly_ascending(comp));
    assert(file_errors(f).contains(e));
}

/// In a file that is accepted, some state of every cycle may be visited more
/// than once: wherever a path leads from a state back to itself, a state on a
/// common cycle with it has a bound of more than one visit.
pub proof fn law_accepted_cycles_are_bounded(f: FileView, n: nat, s: Seq<char>)
    requires
        finite_file(f),
        file_errors(f).len() == 0,
        n < rule_count(f),
        goes(machine_of(f, n), s, s),
    ensures
        exists|t: Seq<char>| #[trigger]
            around(machine_of(f, n), s, t) && machine_of(f, n).states[t].max_visits > 1,
{
    if forall|t: Seq<char>| #[trigger]
        around(machine_of(f, n), s, t) ==> machine_of(f, n).states[t].max_visits <= 1 {
        law_unbounded_cycles_are_reported(f, n, s);
    }
}

/// Only cycles without a bound are reported as such: the states that are named
/// lie on a common cycle, none is left out, and none may be visited more than
/// once.
pub proof fn law_reported_cycles_are_unbounded(f: FileView, e: ErrorView, s: Seq<char>)
    requires
        finite_file(f),
        file_errors(f).contains(e),
        e.kind is UnboundedCycle,
    ensures
        e.rule < rule_count(f),
        e.ids.len() > 0,
        e.ids.contains(s) ==> goes(machine_of(f, e.rule), s, s) && machine_of(
            f,
            e.rule,
        ).states[s].max_visits <= 1,
        e.ids.contains(s) ==> forall|t: Seq<char>| #[trigger]
            e.ids.contains(t) <==> around(machine_of(f, e.rule), s, t),
{
    lemma_file_has(f, e);
    let m = machine_of(f, e.rule);
    assert(finite(m));
    lemma_machine_has(m, e.rule, e);
    let comps = components(m);
    lemma_components_listed(m);
    if exists|id: Seq<char>|
        m.states.contains_key(id) && #[trigger] state_errors(m, id, e.rule).contains(e) {
        let id = choose|id: Seq<char>|
            m.states.contains_key(id) && #[trigger] state_errors(m, id, e.rule).contains(e);
        lemma_state_has(m, id, e.rule, e);
        assert(false);
    }
    let c = choose|c: int|
        0 <= c < comps.len() && #[trigger] cycle_errors(m, comps[c], e.rule).contains(e);
    let comp = comps[c];
    lemma_one(ErrorView { kind: ErrorKind::UnboundedCycle, rule: e.rule, ids: comp }, e);
    assert(e.ids == comp);
    if comp.contains(s) {
        lemma_cyclic(m, comps, c, s);
        let i = choose|i: int| 0 <= i < comp.len() && comp[i] == s;
        assert(m.states[comp[i]].max_visits <= 1);
        assert forall|t: Seq<char>| #[trigger] comp.contains(t) <==> around(m, s, t) by {
            lemma_around(m, s, t);
            assert(comp.contains(t) == mutual(m, s, t));
        }
    }
}

// ---------------------------------------------------------------------------
// The other errors
// ---------------------------------------------------------------------------

/// Some edge of the state names `target`, as a state or as a terminal.
pub open spec fn names_target(s: StateView, target: Seq<char>) -> bool {
    ||| s.on_done == EdgeView::State(target) || s.on_done == EdgeView::Terminal(target)
    ||| s.on_fail == EdgeView::State(target) || s.on_fail == EdgeView::Terminal(target)
    ||| exists|d: Seq<char>|
        s.directives.contains_key(d) && (#[trigger] s.directives[d] == EdgeView::State(target)
            || s.directives[d] == EdgeView::Terminal(target))
}

/// Everything in the text is white space.
pub open spec fn all_space(s: Seq<char>) -> bool {
    forall|i: int| 0 <= i < s.len() ==> is_space(#[trigger] s[i])
}

proof fn lemma_trimmed_start(s: Seq<char>)
    ensures
        trimmed_start(s).len() == 0 <==> all_space(s),
        trimmed_start(s).len() > 0 ==> !is_space(trimmed_start(s)[0]),
    decreases s.len(),
{
    if s.len() > 0 && is_space(s[0]) {
        let rest = s.subrange(1, s.len() as int);
        lemma_trimmed_start(rest);
        if all_space(s) {
            assert forall|i: int| 0 <= i < rest.len() implies is_space(#[trigger] rest[i]) by {
                assert(is_space(s[i + 1]));
            }
        }
        if all_space(rest) {
            assert forall|i: int| 0 <= i < s.len() implies is_space(#[trigger] s[i]) by {
                if i > 0 {
                    assert(is_space(rest[i - 1]));
                }
            }
        }
    }
}

proof fn lemma_trimmed_end(s: Seq<char>)
    requires
        s.len() > 0,
        !is_space(s[0]),
    ensures
        trimmed_end(s).len() > 0,
    decreases s.len(),
{
    if is_space(s[s.len() - 1]) {
        lemma_trimmed_end(s.subrange(0, s.len() - 1));
    }
}

proof fn lemma_trimmed(s: Seq<char>)
    ensures
        trimmed(s).len() == 0 <==> all_space(s),
{
    lemma_trimmed_start(s);
    if trimmed_start(s).len() > 0 {
        lemma_trimmed_end(trimmed_start(s));
    }
}

/// An edge that leads nowhere is reported, with the state that it leaves and
/// what it names; no other edge is.
pub proof fn law_edges_to_nowhere_are_reported(
    f: FileView,
    n: nat,
    id: Seq<char>,
    target: Seq<char>,
)
    requires
        finite_file(f),
        n < rule_count(f),
    ensures
        file_errors(f).contains(
            ErrorView { kind: ErrorKind::UnknownEdgeTarget, rule: n, ids: seq![id, target] },
        ) <==> !machine_of(f, n).states.contains_key(target) && !machine_of(
            f,
            n,
        ).terminals.contains_key(target) && exists|k: Seq<char>|
            machine_of(f, n).states.contains_key(k) && (#[trigger] machine_of(f, n).states[k]).id
                == id && names_target(machine_of(f, n).states[k], target),
{
    let m = machine_of(f, n);
    let e = ErrorView { kind: ErrorKind::UnknownEdgeTarget, rule: n, ids: seq![id, target] };
    assert(e.ids[0] == id && e.ids[1] == target);
    lemma_file_has(f, e);
    lemma_machine_has(m, n, e);
    assert forall|x: EdgeView, k: Seq<char>| #[trigger]
        target_errors(m, x, k, n).contains(e) <==> k == id && x.id() == target
            && !m.states.contains_key(target) && !m.terminals.contains_key(target) by {
        let y = ErrorView { kind: ErrorKind::UnknownEdgeTarget, rule: n, ids: seq![k, x.id()] };
        assert(y.ids[0] == k && y.ids[1] == x.id());
        lemma_one(y, e);
        if k == id && x.id() == target {
            assert(y =~= e);
        }
    }
    assert forall|k: Seq<char>| m.states.contains_key(k) implies #[trigger] state_errors(
        m,
        k,
        n,
    ).contains(e) == (!m.states.contains_key(target) && !m.terminals.contains_key(target)
        && m.states[k].id == id && names_target(m.states[k], target)) by {
        lemma_state_has(m, k, n, e);
        let s = m.states[k];
        if exists|d: Seq<char>|
            s.directives.contains_key(d) && target_errors(
                m,
                #[trigger] s.directives[d],
                s.id,
                n,
            ).contains(e) {
            let d = choose|d: Seq<char>|
                s.directives.contains_key(d) && target_errors(
                    m,
                    #[trigger] s.directives[d],
                    s.id,
                    n,
                ).contains(e);
            assert(s.directives[d] == EdgeView::State(target) || s.directives[d]
                == EdgeView::Terminal(target));
        }
    }
    if exists|k: Seq<char>|
        m.states.contains_key(k) && (#[trigger] m.states[k]).id == id && names_target(
            m.states[k],
            target,
        ) {
        let k = choose|k: Seq<char>|
            m.states.contains_key(k) && (#[trigger] m.states[k]).id == id && names_target(
                m.states[k],
                target,
            );
        assert(state_errors(m, k, n).contains(e) == (!m.states.contains_key(target)
            && !m.terminals.contains_key(target)));
    }
    if exists|k: Seq<char>|
        m.states.contains_key(k) && #[trigger] state_errors(m, k, n).contains(e) {
        let k = choose|k: Seq<char>|
            m.states.contains_key(k) && #[trigger] state_errors(m, k, n).contains(e);
        assert(m.states[k].id == id);
    }
}

/// The state `k` has the error `e`, by its id or its body.
spec fn own_error(m: MachineView, k: Seq<char>, n: nat, e: ErrorView) -> bool {
    m.states.contains_key(k) && (id_errors(k, n).contains(e) || body_errors(
        m.states[k],
        n,
    ).contains(e))
}

proof fn lemma_single(f: FileView, n: nat, e: ErrorView)
    requires
        finite_file(f),
        n < rule_count(f),
        e.rule == n,
        e.ids.len() == 1,
        !(e.kind is UnboundedCycle),
    ensures
        file_errors(f).contains(e) <==> {
            ||| start_errors(machine_of(f, n), n).contains(e)
            ||| exists|k: Seq<char>| own_error(machine_of(f, n), k, n, e)
            ||| exists|k: Seq<char>|
                machine_of(f, n).terminals.contains_key(k) && #[trigger] terminal_errors(
                    machine_of(f, n).terminals[k],
                    k,
                    n,
                ).contains(e)
        },
{
    let m = machine_of(f, n);
    lemma_file_has(f, e);
    lemma_machine_has(m, n, e);
    assert forall|x: EdgeView, k: Seq<char>| !#[trigger] target_errors(m, x, k, n).contains(e) by {
        let y = ErrorView { kind: ErrorKind::UnknownEdgeTarget, rule: n, ids: seq![k, x.id()] };
        lemma_one(y, e);
        assert(y.ids.len() == 2);
    }
    assert forall|k: Seq<char>| m.states.contains_key(k) implies #[trigger] state_errors(
        m,
        k,
        n,
    ).contains(e) == (id_errors(k, n).contains(e) || body_errors(m.states[k], n).contains(e)) by {
        lemma_state_has(m, k, n, e);
    }
    if exists|k: Seq<char>|
        m.states.contains_key(k) && #[trigger] state_errors(m, k, n).contains(e) {
        let k = choose|k: Seq<char>|
            m.states.contains_key(k) && #[trigger] state_errors(m, k, n).contains(e);
        assert(own_error(m, k, n, e));
    }
    if exists|k: Seq<char>| own_error(m, k, n, e) {
        let k = choose|k: Seq<char>| own_error(m, k, n, e);
        assert(state_errors(m, k, n).contains(e));
    }
    let comps = components(m);
    if exists|c: int| 0 <= c < comps.len() && #[trigger] cycle_errors(m, comps[c], n).contains(e) {
        let c = choose|c: int|
            0 <= c < comps.len() && #[trigger] cycle_errors(m, comps[c], n).contains(e);
        lemma_one(ErrorView { kind: ErrorKind::UnboundedCycle, rule: n, ids: comps[c] }, e);
    }
}

/// A letter from `a` to `z`, in either case.
pub open spec fn letter(c: char) -> bool {
    ('a' as u32 <= c as u32 <= 'z' as u32) || ('A' as u32 <= c as u32 <= 'Z' as u32)
}

/// A digit from `0` to `9`.
pub open spec fn figure(c: char) -> bool {
    '0' as u32 <= c as u32 <= '9' as u32
}

/// A state whose id begins with two underscores is reported as reserved; one
/// whose id is otherwise no name for a variable, a letter with letters, digits
/// and underscores behind it, is reported as that; no other is.
pub proof fn law_bad_ids_are_reported(f: FileView, n: nat, id: Seq<char>)
    requires
        finite_file(f),
        n < rule_count(f),
    ensures
        file_errors(f).contains(
            ErrorView { kind: ErrorKind::ReservedPrefixState, rule: n, ids: seq![id] },
        ) <==> machine_of(f, n).states.contains_key(id) && id.len() >= 2 && id[0] == '_' && id[1]
            == '_',
        file_errors(f).contains(
            ErrorView { kind: ErrorKind::StateIdNotEnvSafe, rule: n, ids: seq![id] },
        ) <==> machine_of(f, n).states.contains_key(id) && !(id.len() >= 2 && id[0] == '_' && id[1]
            == '_') && !(id.len() > 0 && letter(id[0]) && forall|i: int|
            0 <= i < id.len() ==> letter(#[trigger] id[i]) || figure(id[i]) || id[i] == '_'),
{
    let m = machine_of(f, n);
    let a = ErrorView { kind: ErrorKind::ReservedPrefixState, rule: n, ids: seq![id] };
    let b = ErrorView { kind: ErrorKind::StateIdNotEnvSafe, rule: n, ids: seq![id] };
    assert(a.ids[0] == id && b.ids[0] == id);
    lemma_single(f, n, a);
    lemma_single(f, n, b);
    let two = seq!['_', '_'];
    assert(begins_with(id, two) <==> id.len() >= 2 && id[0] == '_' && id[1] == '_') by {
        if id.len() >= 2 {
            let head = id.subrange(0, 2);
            assert(head[0] == id[0] && head[1] == id[1]);
            if id[0] == '_' && id[1] == '_' {
                assert(head =~= two);
            }
        }
    }
    assert(env_safe(id) <==> (id.len() > 0 && letter(id[0]) && forall|i: int|
        0 <= i < id.len() ==> letter(#[trigger] id[i]) || figure(id[i]) || id[i] == '_'));
    assert forall|k: Seq<char>, x: ErrorView| #[trigger] id_errors(k, n).contains(x) implies x.ids
        == seq![k] by {
        lemma_one(ErrorView { kind: ErrorKind::ReservedPrefixState, rule: n, ids: seq![k] }, x);
        lemma_one(ErrorView { kind: ErrorKind::StateIdNotEnvSafe, rule: n, ids: seq![k] }, x);
    }
    assert forall|s: StateView| !#[trigger] body_errors(s, n).contains(a) && !body_errors(
        s,
        n,
    ).contains(b) by {
        lemma_one(ErrorView { kind: ErrorKind::OrphanBody, rule: n, ids: seq![s.id] }, a);
        lemma_one(ErrorView { kind: ErrorKind::OrphanBody, rule: n, ids: seq![s.id] }, b);
    }
    assert(!start_errors(m, n).contains(a) && !start_errors(m, n).contains(b)) by {
        lemma_one(ErrorView { kind: ErrorKind::InvalidStartReference, rule: n, ids: seq![m.start] }, a);
        lemma_one(ErrorView { kind: ErrorKind::InvalidStartReference, rule: n, ids: seq![m.start] }, b);
    }
    assert forall|k: Seq<char>, t: crate::workflow::canonical::TerminalView|
        !#[trigger] terminal_errors(t, k, n).contains(a) && !terminal_errors(t, k, n).contains(b) by {
        lemma_one(ErrorView { kind: ErrorKind::EmptyTerminalOutcome, rule: n, ids: seq![k] }, a);
        lemma_one(ErrorView { kind: ErrorKind::EmptyTerminalOutcome, rule: n, ids: seq![k] }, b);
    }
    lemma_one(a, a);
    lemma_one(b, b);
    lemma_one(a, b);
    lemma_one(b, a);
    if file_errors(f).contains(a) {
        let k = choose|k: Seq<char>| own_error(m, k, n, a);
        assert(seq![k][0] == id);
    }
    if file_errors(f).contains(b) {
        let k = choose|k: Seq<char>| own_error(m, k, n, b);
        assert(seq![k][0] == id);
    }
    if m.states.contains_key(id) {
        assert(own_error(m, id, n, a) || own_error(m, id, n, b) || (!begins_with(id, two)
            && env_safe(id)));
    }
}

/// A state that would do nothing is reported: its command is white space, or the
/// path of what it uses is empty; no other is.
pub proof fn law_empty_bodies_are_reported(f: FileView, n: nat, id: Seq<char>)
    requires
        finite_file(f),
        n < rule_count(f),
    ensures
        file_errors(f).contains(
            ErrorView { kind: ErrorKind::OrphanBody, rule: n, ids: seq![id] },
        ) <==> exists|k: Seq<char>|
            machine_of(f, n).states.contains_key(k) && (#[trigger] machine_of(f, n).states[k]).id
                == id && match machine_of(f, n).states[k].body {
                BodyView::Run(cmd) => all_space(cmd),
                BodyView::Uses(path) => path.len() == 0,
            },
{
    let m = machine_of(f, n);
    let e = ErrorView { kind: ErrorKind::OrphanBody, rule: n, ids: seq![id] };
    assert(e.ids[0] == id);
    lemma_single(f, n, e);
    assert forall|k: Seq<char>| !#[trigger] id_errors(k, n).contains(e) by {
        lemma_one(ErrorView { kind: ErrorKind::ReservedPrefixState, rule: n, ids: seq![k] }, e);
        lemma_one(ErrorView { kind: ErrorKind::StateIdNotEnvSafe, rule: n, ids: seq![k] }, e);
    }
    lemma_one(ErrorView { kind: ErrorKind::InvalidStartReference, rule: n, ids: seq![m.start] }, e);
    assert forall|k: Seq<char>, t: crate::workflow::canonical::TerminalView|
        !#[trigger] terminal_errors(t, k, n).contains(e) by {
        lemma_one(ErrorView { kind: ErrorKind::EmptyTerminalOutcome, rule: n, ids: seq![k] }, e);
    }
    assert forall|s: StateView| #[trigger] body_errors(s, n).contains(e) == (s.id == id
        && match s.body {
        BodyView::Run(cmd) => all_space(cmd),
        BodyView::Uses(path) => path.len() == 0,
    }) by {
        let x = ErrorView { kind: ErrorKind::OrphanBody, rule: n, ids: seq![s.id] };
        assert(x.ids[0] == s.id);
        lemma_one(x, e);
        if s.id == id {
            assert(x =~= e);
        }
        if let BodyView::Run(cmd) = s.body {
            lemma_trimmed(cmd);
        }
    }
    if exists|k: Seq<char>|
        m.states.contains_key(k) && (#[trigger] m.states[k]).id == id && match m.states[k].body {
            BodyView::Run(cmd) => all_space(cmd),
            BodyView::Uses(path) => path.len() == 0,
        } {
        let k = choose|k: Seq<char>|
            m.states.contains_key(k) && (#[trigger] m.states[k]).id == id
                && match m.states[k].body {
                BodyView::Run(cmd) => all_space(cmd),
                BodyView::Uses(path) => path.len() == 0,
            };
        assert(own_error(m, k, n, e));
    }
    if file_errors(f).contains(e) {
        let k = choose|k: Seq<char>| own_error(m, k, n, e);
        assert(m.states[k].id == id);
    }
}

/// A terminal whose outcome is white space is reported, and no other.
pub proof fn law_empty_outcomes_are_reported(f: FileView, n: nat, id: Seq<char>)
    requires
        finite_file(f),
        n < rule_count(f),
    ensures
        file_errors(f).contains(
            ErrorView { kind: ErrorKind::EmptyTerminalOutcome, rule: n, ids: seq![id] },
        ) <==> machine_of(f, n).terminals.contains_key(id) && all_space(
            machine_of(f, n).terminals[id].outcome,
        ),
{
    let m = machine_of(f, n);
    let e = ErrorView { kind: ErrorKind::EmptyTerminalOutcome, rule: n, ids: seq![id] };
    assert(e.ids[0] == id);
    lemma_single(f, n, e);
    assert forall|k: Seq<char>| !#[trigger] id_errors(k, n).contains(e) by {
        lemma_one(ErrorView { kind: ErrorKind::ReservedPrefixState, rule: n, ids: seq![k] }, e);
        lemma_one(ErrorView { kind: ErrorKind::StateIdNotEnvSafe, rule: n, ids: seq![k] }, e);
    }
    assert forall|s: StateView| !#[trigger] body_errors(s, n).contains(e) by {
        lemma_one(ErrorView { kind: ErrorKind::OrphanBody, rule: n, ids: seq![s.id] }, e);
    }
    lemma_one(ErrorView { kind: ErrorKind::InvalidStartReference, rule: n, ids: seq![m.start] }, e);
    assert forall|k: Seq<char>| m.terminals.contains_key(k) implies #[trigger] terminal_errors(
        m.terminals[k],
        k,
        n,
    ).contains(e) == (k == id && all_space(m.terminals[k].outcome)) by {
        let x = ErrorView { kind: ErrorKind::EmptyTerminalOutcome, rule: n, ids: seq![k] };
        assert(x.ids[0] == k);
        lemma_one(x, e);
        lemma_trimmed(m.terminals[k].outcome);
    }
    if m.terminals.contains_key(id) {
        assert(terminal_errors(m.terminals[id], id, n).contains(e) == all_space(
            m.terminals[id].outcome,
        ));
    }
}

/// A start that is no state, or is a terminal too, is reported; a machine
/// without states may start at one of its terminals.
pub proof fn law_bad_starts_are_reported(f: FileView, n: nat, id: Seq<char>)
    requires
        finite_file(f),
        n < rule_count(f),
    ensures
        file_errors(f).contains(
            ErrorView { kind: ErrorKind::InvalidStartReference, rule: n, ids: seq![id] },
        ) <==> {
            let m = machine_of(f, n);
            &&& id == m.start
            &&& !m.states.contains_key(m.start) || m.terminals.contains_key(m.start)
            &&& !(m.terminals.contains_key(m.start) && forall|k: Seq<char>| !m.states.contains_key(k))
        },
{
    let m = machine_of(f, n);
    let e = ErrorView { kind: ErrorKind::InvalidStartReference, rule: n, ids: seq![id] };
    assert(e.ids[0] == id);
    lemma_single(f, n, e);
    assert forall|k: Seq<char>| !#[trigger] id_errors(k, n).contains(e) by {
        lemma_one(ErrorView { kind: ErrorKind::ReservedPrefixState, rule: n, ids: seq![k] }, e);
        lemma_one(ErrorView { kind: ErrorKind::StateIdNotEnvSafe, rule: n, ids: seq![k] }, e);
    }
    assert forall|s: StateView| !#[trigger] body_errors(s, n).contains(e) by {
        lemma_one(ErrorView { kind: ErrorKind::OrphanBody, rule: n, ids: seq![s.id] }, e);
    }
    assert forall|k: Seq<char>, t: crate::workflow::canonical::TerminalView|
        !#[trigger] terminal_errors(t, k, n).contains(e) by {
        lemma_one(ErrorView { kind: ErrorKind::EmptyTerminalOutcome, rule: n, ids: seq![k] }, e);
    }
    let x = ErrorView { kind: ErrorKind::InvalidStartReference, rule: n, ids: seq![m.start] };
    assert(x.ids[0] == m.start);
    lemma_one(x, e);
    if id == m.start {
        assert(x =~= e);
    }
    if forall|k: Seq<char>| !m.states.contains_key(k) {
        assert(m.states.dom() =~= Set::empty());
    }
    if m.states.dom() =~= Set::empty() {
        assert(forall|k: Seq<char>| !m.states.contains_key(k));
    }
}

/// The errors come by kind, edges first, then bodies, reserved ids, cycles,
/// outcomes, starts and other ids; within a kind by rule; and within a rule by
/// the first id on which they differ.
pub proof fn law_errors_come_in_order(v: Seq<ErrorView>, i: int, j: int)
    requires
        errors_sorted(v),
        0 <= i < j < v.len(),
    ensures
        v[j].kind is UnknownEdgeTarget ==> v[i].kind is UnknownEdgeTarget,
        v[j].kind is OrphanBody ==> v[i].kind is UnknownEdgeTarget || v[i].kind is OrphanBody,
        v[i].kind is ReservedPrefixState ==> !(v[j].kind is UnknownEdgeTarget)
            && !(v[j].kind is OrphanBody),
        v[i].kind is UnboundedCycle ==> v[j].kind is UnboundedCycle
            || v[j].kind is EmptyTerminalOutcome || v[j].kind is InvalidStartReference
            || v[j].kind is StateIdNotEnvSafe,
        v[i].kind is EmptyTerminalOutcome ==> v[j].kind is EmptyTerminalOutcome
            || v[j].kind is InvalidStartReference || v[j].kind is StateIdNotEnvSafe,
        v[i].kind is InvalidStartReference ==> v[j].kind is InvalidStartReference
            || v[j].kind is StateIdNotEnvSafe,
        v[i].kind is StateIdNotEnvSafe ==> v[j].kind is StateIdNotEnvSafe,
        v[i].kind == v[j].kind ==> v[i].rule <= v[j].rule,
        v[i].kind == v[j].kind && v[i].rule == v[j].rule && v[i].ids.len() > 0 && v[j].ids.len()
            > 0 ==> !lex_lt(v[j].ids[0], v[i].ids[0]),
{
    if v[i].kind == v[j].kind && v[i].rule == v[j].rule && v[i].ids.len() > 0 && v[j].ids.len() > 0
        && lex_lt(v[j].ids[0], v[i].ids[0]) {
        assert(crate::workflow::validate::ids_lt_at(v[j].ids, v[i].ids, 0));
        assert(error_lt(v[j], v[i]));
    }
}

} // verus!

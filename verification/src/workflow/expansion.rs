//! What holds of every rule that is expanded.
//!
//! The statements here compare what a file declares, task by task and state by
//! state, with the machine that comes of it.
use vstd::prelude::*;

use crate::strmap::StrMap;
use crate::text::{digits_value, finishes_with, is_digit, is_space, lex_lt, opt_view, parsed_u64, trimmed};
use crate::workflow::canonical::{edge, mutual, BodyView, EdgeTarget, EdgeView, FileView, MachineView, RuleView, ScalarView, StateBody, StateMachine, StateView, TerminalView, TextView, WhenView, WorkflowFile};
use crate::workflow::components::{components, lemma_components_listed};
use crate::workflow::laws::{around, goes, lemma_around, lemma_cyclic, names_target};
use crate::workflow::parse::{RawDirectiveTarget, RawRuleBody, RawRuleEntry, RawScalarMatcher, RawStateEntry, RawTaskEntry, RawTerminalEntry, RawTextMatcher, RawWhenClause, RawWorkflow};
use crate::workflow::sugar::{bad_duration, bad_state_timeout, bad_task_timeout, directive_target, drafted, duration_millis, duration_parts, expanded, expanded_rule, expanded_section, finished, gets_cap, heads_unbounded, names_id, raw_states, referenced, settled, task_state, next_task, opt_duration_fits, with_builtin, with_builtins, with_tasks, ExpandErrorView};
use crate::workflow::validate::is_bounded;

verus! {

/// The edge of `m` to `id`: to the terminal of that id where there is one, or
/// else to the state.
pub open spec fn edge_to(m: MachineView, id: Seq<char>) -> EdgeView {
    if m.terminals.contains_key(id) {
        EdgeView::Terminal(id)
    } else {
        EdgeView::State(id)
    }
}

// ---------------------------------------------------------------------------
// Rule by rule
// ---------------------------------------------------------------------------

proof fn lemma_section(
    raw: Seq<RawRuleEntry>,
    cap: u32,
    allow_empty: bool,
    n: nat,
    rules: Seq<RuleView>,
)
    requires
        n <= raw.len(),
        expanded_section(raw, cap, allow_empty, n) == Ok::<Seq<RuleView>, ExpandErrorView>(rules),
    ensures
        rules.len() == n,
        forall|i: int| 0 <= i < n ==> expanded_rule(raw[i], i as nat, cap, allow_empty) == Ok::<
            RuleView,
            ExpandErrorView,
        >(#[trigger] rules[i]),
    decreases n,
{
    if n > 0 {
        let k = (n - 1) as nat;
        let before = expanded_section(raw, cap, allow_empty, k)->Ok_0;
        lemma_section(raw, cap, allow_empty, k, before);
        let last = expanded_rule(raw[n - 1], k, cap, allow_empty)->Ok_0;
        assert(rules == before.push(last));
    }
}

/// Every rule is expanded, in its place, and none is added: rule by rule in each
/// of the three sections. Only a cleanup rule may be empty.
pub proof fn law_each_rule_is_expanded_in_its_place(raw: RawWorkflow, cap: u32, f: FileView)
    requires
        expanded(raw, cap) == Ok::<FileView, ExpandErrorView>(f),
    ensures
        f.rules.len() == raw.rules@.len(),
        f.cleanup.len() == raw.cleanup@.len(),
        f.on_failure.len() == raw.on_failure@.len(),
        forall|i: int| 0 <= i < f.rules.len() ==> expanded_rule(
            raw.rules@[i],
            i as nat,
            cap,
            false,
        ) == Ok::<RuleView, ExpandErrorView>(#[trigger] f.rules[i]),
        forall|i: int| 0 <= i < f.cleanup.len() ==> expanded_rule(
            raw.cleanup@[i],
            i as nat,
            cap,
            true,
        ) == Ok::<RuleView, ExpandErrorView>(#[trigger] f.cleanup[i]),
        forall|i: int| 0 <= i < f.on_failure.len() ==> expanded_rule(
            raw.on_failure@[i],
            i as nat,
            cap,
            false,
        ) == Ok::<RuleView, ExpandErrorView>(#[trigger] f.on_failure[i]),
{
    lemma_section(raw.rules@, cap, false, raw.rules@.len(), f.rules);
    lemma_section(raw.cleanup@, cap, true, raw.cleanup@.len(), f.cleanup);
    lemma_section(raw.on_failure@, cap, false, raw.on_failure@.len(), f.on_failure);
}

/// The first rule that cannot be expanded is why a section is refused.
pub proof fn law_first_bad_rule_is_refused(
    raw: Seq<RawRuleEntry>,
    cap: u32,
    allow_empty: bool,
    n: nat,
    i: int,
    e: ExpandErrorView,
)
    requires
        0 <= i < n <= raw.len(),
        expanded_rule(raw[i], i as nat, cap, allow_empty) == Err::<RuleView, ExpandErrorView>(e),
        forall|j: int| 0 <= j < i ==> expanded_rule(
            #[trigger] raw[j],
            j as nat,
            cap,
            allow_empty,
        ) is Ok,
    ensures
        expanded_section(raw, cap, allow_empty, n) == Err::<Seq<RuleView>, ExpandErrorView>(e),
    decreases n,
{
    if i < n - 1 {
        law_first_bad_rule_is_refused(raw, cap, allow_empty, (n - 1) as nat, i, e);
    } else {
        lemma_section_ok(raw, cap, allow_empty, i as nat);
    }
}

proof fn lemma_section_ok(raw: Seq<RawRuleEntry>, cap: u32, allow_empty: bool, n: nat)
    requires
        n <= raw.len(),
        forall|j: int| 0 <= j < n ==> expanded_rule(
            #[trigger] raw[j],
            j as nat,
            cap,
            allow_empty,
        ) is Ok,
    ensures
        expanded_section(raw, cap, allow_empty, n) is Ok,
    decreases n,
{
    if n > 0 {
        lemma_section_ok(raw, cap, allow_empty, (n - 1) as nat);
        assert(expanded_rule(raw[n - 1], (n - 1) as nat, cap, allow_empty) is Ok);
    }
}

/// A rule without a body is refused outside cleanup, and in cleanup deletes at
/// once; a task list without tasks is refused everywhere.
pub proof fn law_empty_rules(raw: RawRuleEntry, rule: nat, cap: u32, allow_empty: bool)
    ensures
        raw.body is Empty && !allow_empty ==> expanded_rule(raw, rule, cap, allow_empty) == Err::<
            RuleView,
            ExpandErrorView,
        >(ExpandErrorView::NoBody(rule)),
        raw.body is Empty && allow_empty ==> (expanded_rule(raw, rule, cap, allow_empty) matches Ok(r)
            && r.machine.start == "__success__"@ && (forall|k: Seq<char>|
            !r.machine.states.contains_key(k)) && (forall|k: Seq<char>| #[trigger]
            r.machine.terminals.contains_key(k) <==> k == "__success__"@)
            && r.machine.terminals["__success__"@].outcome == "cleaned"@),
        raw.body matches RawRuleBody::Sugar { tasks, .. } ==> (tasks@.len() == 0 ==> expanded_rule(
            raw,
            rule,
            cap,
            allow_empty,
        ) == Err::<RuleView, ExpandErrorView>(ExpandErrorView::EmptyTasks(rule))),
{
}

// ---------------------------------------------------------------------------
// Tasks
// ---------------------------------------------------------------------------

proof fn lemma_task_kept(
    base: Map<Seq<char>, StateView>,
    tasks: Seq<RawTaskEntry>,
    on_fail: Option<Seq<char>>,
    n: nat,
    j: int,
)
    requires
        0 <= j < n <= tasks.len(),
        forall|k: int| j < k < n ==> (#[trigger] tasks[k]).id@ != tasks[j].id@,
    ensures
        with_tasks(base, tasks, on_fail, n).contains_key(tasks[j].id@),
        with_tasks(base, tasks, on_fail, n)[tasks[j].id@] == task_state(
            tasks[j],
            next_task(tasks, j),
            on_fail,
        ),
    decreases n,
{
    if j < n - 1 {
        lemma_task_kept(base, tasks, on_fail, (n - 1) as nat, j);
        assert(tasks[n - 1].id@ != tasks[j].id@);
    }
}

proof fn lemma_not_a_task(
    base: Map<Seq<char>, StateView>,
    tasks: Seq<RawTaskEntry>,
    on_fail: Option<Seq<char>>,
    n: nat,
    id: Seq<char>,
)
    requires
        n <= tasks.len(),
        forall|k: int| 0 <= k < n ==> (#[trigger] tasks[k]).id@ != id,
    ensures
        with_tasks(base, tasks, on_fail, n).contains_key(id) == base.contains_key(id),
        base.contains_key(id) ==> with_tasks(base, tasks, on_fail, n)[id] == base[id],
    decreases n,
{
    if n > 0 {
        lemma_not_a_task(base, tasks, on_fail, (n - 1) as nat, id);
        assert(tasks[n - 1].id@ != id);
    }
}

/// What the passes leave of a state: its edges are told apart, and everything
/// but its visit bound stays.
proof fn lemma_finished(m: MachineView, cap: u32, id: Seq<char>)
    ensures
        finished(m, cap).start == m.start,
        finished(m, cap).states.contains_key(id) == m.states.contains_key(id),
        m.states.contains_key(id) ==> {
            let s = m.states[id];
            let t = finished(m, cap).states[id];
            let dom = finished(m, cap).terminals.dom();
            &&& t.id == s.id
            &&& t.body == s.body
            &&& t.if_cond == s.if_cond
            &&& t.timeout == s.timeout
            &&& t.on_done == settled(dom, s.on_done)
            &&& t.on_fail == settled(dom, s.on_fail)
            &&& forall|d: Seq<char>| #[trigger]
                t.directives.contains_key(d) == s.directives.contains_key(d)
            &&& forall|d: Seq<char>|
                s.directives.contains_key(d) ==> #[trigger] t.directives[d] == settled(
                    dom,
                    s.directives[d],
                )
        },
{
    let b = with_builtins(m);
    assert(b.states == m.states);
}

/// A task becomes a state under its own id: it does what the task says, leads on
/// to the next task, or from the last one to success; and where it fails it
/// leads to what the task names, or else to what the rule names, or else to
/// failure. A later task of the same id takes the place of an earlier one.
pub proof fn law_tasks_form_a_chain(
    raw: RawRuleEntry,
    rule: nat,
    cap: u32,
    allow_empty: bool,
    r: RuleView,
    tasks: Vec<RawTaskEntry>,
    states: StrMap<RawStateEntry>,
    terminals: StrMap<RawTerminalEntry>,
    on_fail: Option<String>,
    j: int,
)
    requires
        raw.body == (RawRuleBody::Sugar { tasks, states, terminals, on_fail }),
        expanded_rule(raw, rule, cap, allow_empty) == Ok::<RuleView, ExpandErrorView>(r),
        0 <= j < tasks@.len(),
        forall|k: int| j < k < tasks@.len() ==> (#[trigger] tasks@[k]).id@ != tasks@[j].id@,
    ensures
        r.machine.start == tasks@[0].id@,
        r.machine.states.contains_key(tasks@[j].id@),
        ({
            let m = r.machine;
            let t = tasks@[j];
            let s = m.states[t.id@];
            &&& s.id == t.id@
            &&& j + 1 < tasks@.len() ==> s.on_done == edge_to(m, tasks@[j + 1].id@)
            &&& j + 1 == tasks@.len() ==> s.on_done == EdgeView::Terminal("__success__"@)
            &&& t.on_fail matches Some(x) ==> s.on_fail == edge_to(m, x@)
            &&& t.on_fail is None ==> (on_fail matches Some(x) ==> s.on_fail == edge_to(m, x@))
            &&& t.on_fail is None && on_fail is None ==> s.on_fail == EdgeView::Terminal(
                "__failure__"@,
            )
            &&& t.run matches Some(c) ==> (t.uses is None ==> s.body == BodyView::Run(c@))
            &&& t.uses matches Some(p) ==> (t.run is None ==> s.body == BodyView::Uses(p@))
            &&& (t.run is Some) == (t.uses is Some) ==> (s.body matches BodyView::Run(c) && c.len()
                == 0)
            &&& t.if_cond matches Some(c) ==> s.if_cond == Some(c@)
            &&& t.if_cond is None ==> s.if_cond is None
            &&& t.timeout is None ==> s.timeout is None
            &&& t.timeout matches Some(v) ==> (s.timeout matches Some(x) && duration_millis(v@)
                == Some(x.millis as int))
            &&& forall|d: Seq<char>| #[trigger]
                s.directives.contains_key(d) == t.directives@.contains_key(d)
            &&& forall|d: Seq<char>| t.directives@.contains_key(d) ==> match t.directives@[d] {
                RawDirectiveTarget::Short(x) => #[trigger] s.directives[d] == edge_to(m, x@),
                RawDirectiveTarget::Long { target, .. } => s.directives[d] == edge_to(m, target@),
            }
        }),
{
    let draft = drafted(raw.body, rule)->Ok_0;
    let id = tasks@[j].id@;
    lemma_task_kept(raw_states(states@), tasks@, opt_view(on_fail), tasks@.len(), j);
    lemma_finished(draft, cap, id);
    lemma_good_tasks(tasks@, 0, j);
    lemma_millis(tasks@[j].timeout);
    let s = r.machine.states[id];
    let t = tasks@[j];
    assert forall|d: Seq<char>| t.directives@.contains_key(d) implies match t.directives@[d] {
        RawDirectiveTarget::Short(x) => #[trigger] s.directives[d] == edge_to(r.machine, x@),
        RawDirectiveTarget::Long { target, .. } => s.directives[d] == edge_to(r.machine, target@),
    } by {
        assert(draft.states[id].directives[d] == EdgeView::State(
            directive_target(t.directives@[d]),
        ));
    }
}

proof fn lemma_good_tasks(tasks: Seq<RawTaskEntry>, from: int, j: int)
    requires
        0 <= from <= j < tasks.len(),
        bad_task_timeout(tasks, from) is None,
    ensures
        !bad_duration(opt_view(tasks[j].timeout)),
    decreases j - from,
{
    if bad_duration(opt_view(tasks[from].timeout)) {
        assert(opt_view(tasks[from].timeout) is Some);
    }
    if from < j {
        lemma_good_tasks(tasks, from + 1, j);
    }
}

proof fn lemma_millis(timeout: Option<String>)
    ensures
        timeout matches Some(v) ==> (duration_millis(v@) matches Some(n) ==> 0 <= n <= u128::MAX),
{
    if let Some(v) = timeout {
        let parts = duration_parts(trimmed(v@));
        if let Some(n) = parsed_u64(parts.0) {
            assert(0 <= n * 1000 && n * 60_000 <= u128::MAX) by (nonlinear_arith)
                requires
                    0 <= n <= u64::MAX,
            ;
        }
    }
}

// ---------------------------------------------------------------------------
// States that are written out
// ---------------------------------------------------------------------------

proof fn lemma_good_states(pairs: Seq<(String, RawStateEntry)>, from: int, j: int)
    requires
        0 <= from <= j < pairs.len(),
        bad_state_timeout(pairs, from) is None,
    ensures
        !bad_duration(opt_view(pairs[j].1.timeout)),
    decreases j - from,
{
    if bad_duration(opt_view(pairs[from].1.timeout)) {
        assert(opt_view(pairs[from].1.timeout) is Some);
    }
    if from < j {
        lemma_good_states(pairs, from + 1, j);
    }
}

/// A state that is written out is kept under its id, in a task list as long as
/// no task has that id: it does what it says, and leads where it says, or else
/// to success and to failure.
pub proof fn law_written_states_are_kept(
    raw: RawRuleEntry,
    rule: nat,
    cap: u32,
    allow_empty: bool,
    r: RuleView,
    states: StrMap<RawStateEntry>,
    id: Seq<char>,
)
    requires
        expanded_rule(raw, rule, cap, allow_empty) == Ok::<RuleView, ExpandErrorView>(r),
        states@.contains_key(id),
        match raw.body {
            RawRuleBody::Canonical { states: written, .. } => written == states,
            RawRuleBody::Sugar { tasks, states: written, .. } => written == states && forall|k: int|
                0 <= k < tasks@.len() ==> (#[trigger] tasks@[k]).id@ != id,
            RawRuleBody::Empty {  } => false,
        },
    ensures
        raw.body matches RawRuleBody::Canonical { start, .. } ==> r.machine.start == start@,
        r.machine.states.contains_key(id),
        ({
            let m = r.machine;
            let t = states@[id];
            let s = m.states[id];
            &&& s.id == id
            &&& t.on_done matches Some(x) ==> s.on_done == edge_to(m, x@)
            &&& t.on_done is None ==> s.on_done == EdgeView::Terminal("__success__"@)
            &&& t.on_fail matches Some(x) ==> s.on_fail == edge_to(m, x@)
            &&& t.on_fail is None ==> s.on_fail == EdgeView::Terminal("__failure__"@)
            &&& t.run matches Some(c) ==> (t.uses is None ==> s.body == BodyView::Run(c@))
            &&& t.uses matches Some(p) ==> (t.run is None ==> s.body == BodyView::Uses(p@))
            &&& (t.run is Some) == (t.uses is Some) ==> (s.body matches BodyView::Run(c) && c.len()
                == 0)
            &&& t.if_cond matches Some(c) ==> s.if_cond == Some(c@)
            &&& t.if_cond is None ==> s.if_cond is None
            &&& t.timeout is None ==> s.timeout is None
            &&& t.timeout matches Some(v) ==> (s.timeout matches Some(x) && duration_millis(v@)
                == Some(x.millis as int))
            &&& forall|d: Seq<char>| #[trigger]
                s.directives.contains_key(d) == t.directives@.contains_key(d)
            &&& forall|d: Seq<char>| t.directives@.contains_key(d) ==> match t.directives@[d] {
                RawDirectiveTarget::Short(x) => #[trigger] s.directives[d] == edge_to(m, x@),
                RawDirectiveTarget::Long { target, .. } => s.directives[d] == edge_to(m, target@),
            }
        }),
{
    let draft = drafted(raw.body, rule)->Ok_0;
    if let RawRuleBody::Sugar { tasks, states: written, terminals, on_fail } = raw.body {
        lemma_not_a_task(raw_states(states@), tasks@, opt_view(on_fail), tasks@.len(), id);
    }
    lemma_finished(draft, cap, id);
    let pairs = states.pairs();
    let i = choose|i: int| crate::strmap::key_at(pairs, id, i);
    lemma_good_states(pairs, 0, i);
    lemma_millis(states@[id].timeout);
    let s = r.machine.states[id];
    let t = states@[id];
    assert forall|d: Seq<char>| t.directives@.contains_key(d) implies match t.directives@[d] {
        RawDirectiveTarget::Short(x) => #[trigger] s.directives[d] == edge_to(r.machine, x@),
        RawDirectiveTarget::Long { target, .. } => s.directives[d] == edge_to(r.machine, target@),
    } by {
        assert(draft.states[id].directives[d] == EdgeView::State(
            directive_target(t.directives@[d]),
        ));
    }
}

/// An expanded rule has the states that it declares, and no others.
pub proof fn law_no_state_is_made_up(
    raw: RawRuleEntry,
    rule: nat,
    cap: u32,
    allow_empty: bool,
    r: RuleView,
    id: Seq<char>,
)
    requires
        expanded_rule(raw, rule, cap, allow_empty) == Ok::<RuleView, ExpandErrorView>(r),
        r.machine.states.contains_key(id),
    ensures
        match raw.body {
            RawRuleBody::Canonical { states, .. } => states@.contains_key(id),
            RawRuleBody::Sugar { tasks, states, .. } => states@.contains_key(id) || exists|k: int|
                0 <= k < tasks@.len() && (#[trigger] tasks@[k]).id@ == id,
            RawRuleBody::Empty {  } => false,
        },
{
    if !(raw.body is Empty) {
        let draft = drafted(raw.body, rule)->Ok_0;
        lemma_finished(draft, cap, id);
        if let RawRuleBody::Sugar { tasks, states, terminals, on_fail } = raw.body {
            if forall|k: int| 0 <= k < tasks@.len() ==> (#[trigger] tasks@[k]).id@ != id {
                lemma_not_a_task(raw_states(states@), tasks@, opt_view(on_fail), tasks@.len(), id);
            }
        }
    }
}

// ---------------------------------------------------------------------------
// Terminals
// ---------------------------------------------------------------------------

proof fn lemma_with_builtin(m: MachineView, id: Seq<char>, outcome: Seq<char>, k: Seq<char>)
    ensures
        with_builtin(m, id, outcome).states == m.states,
        with_builtin(m, id, outcome).start == m.start,
        with_builtin(m, id, outcome).terminals.contains_key(k) <==> m.terminals.contains_key(k) || (
        k == id && referenced(m, id)),
        m.terminals.contains_key(k) ==> with_builtin(m, id, outcome).terminals[k] == m.terminals[k],
        k == id && referenced(m, id) && !m.terminals.contains_key(k) ==> with_builtin(
            m,
            id,
            outcome,
        ).terminals[k] == (TerminalView { id, outcome }),
        referenced(with_builtin(m, id, outcome), k) == referenced(m, k),
{
    let n = with_builtin(m, id, outcome);
    assert(n.states == m.states && n.start == m.start);
    assert(referenced(n, k) == referenced(m, k));
}

proof fn lemma_names(m: MachineView, cap: u32, id: Seq<char>)
    ensures
        referenced(m, id) <==> m.start == id || exists|k: Seq<char>|
            finished(m, cap).states.contains_key(k) && names_target(
                #[trigger] finished(m, cap).states[k],
                id,
            ),
{
    let n = finished(m, cap);
    assert forall|k: Seq<char>| m.states.contains_key(k) implies names_id(m.states[k], id)
        == names_target(#[trigger] n.states[k], id) by {
        lemma_finished(m, cap, k);
        let s = m.states[k];
        let t = n.states[k];
        if exists|d: Seq<char>|
            s.directives.dom().contains(d) && (#[trigger] s.directives[d]).id() == id {
            let d = choose|d: Seq<char>|
                s.directives.dom().contains(d) && (#[trigger] s.directives[d]).id() == id;
            assert(t.directives.contains_key(d));
            assert(t.directives[d] == EdgeView::State(id) || t.directives[d]
                == EdgeView::Terminal(id));
        }
        if exists|d: Seq<char>|
            t.directives.contains_key(d) && (#[trigger] t.directives[d] == EdgeView::State(id)
                || t.directives[d] == EdgeView::Terminal(id)) {
            let d = choose|d: Seq<char>|
                t.directives.contains_key(d) && (#[trigger] t.directives[d] == EdgeView::State(id)
                    || t.directives[d] == EdgeView::Terminal(id));
            assert(s.directives.contains_key(d));
            assert(s.directives[d].id() == id);
        }
    }
    if exists|k: Seq<char>| m.states.dom().contains(k) && names_id(#[trigger] m.states[k], id) {
        let k = choose|k: Seq<char>|
            m.states.dom().contains(k) && names_id(#[trigger] m.states[k], id);
        lemma_finished(m, cap, k);
        assert(names_target(n.states[k], id));
    }
    if exists|k: Seq<char>|
        n.states.contains_key(k) && names_target(#[trigger] n.states[k], id) {
        let k = choose|k: Seq<char>|
            n.states.contains_key(k) && names_target(#[trigger] n.states[k], id);
        lemma_finished(m, cap, k);
        assert(names_id(m.states[k], id));
    }
}

/// The terminals of a rule are those that it declares, with the outcomes that it
/// gives them, and of the four built-in ones those that the start or an edge
/// names: success, failure, nothing to do, and cancelled.
pub proof fn law_terminals_are_declared_or_named(
    raw: RawRuleEntry,
    rule: nat,
    cap: u32,
    allow_empty: bool,
    r: RuleView,
    terminals: StrMap<RawTerminalEntry>,
    id: Seq<char>,
)
    requires
        expanded_rule(raw, rule, cap, allow_empty) == Ok::<RuleView, ExpandErrorView>(r),
        match raw.body {
            RawRuleBody::Canonical { terminals: declared, .. } => declared == terminals,
            RawRuleBody::Sugar { terminals: declared, .. } => declared == terminals,
            RawRuleBody::Empty {  } => false,
        },
    ensures
        terminals@.contains_key(id) ==> r.machine.terminals.contains_key(id)
            && r.machine.terminals[id] == (TerminalView { id, outcome: terminals@[id].outcome@ }),
        !terminals@.contains_key(id) ==> (r.machine.terminals.contains_key(id) <==> (id
            == "__success__"@ || id == "__failure__"@ || id == "__no_action__"@ || id
            == "__cancelled__"@) && (r.machine.start == id || exists|k: Seq<char>|
            r.machine.states.contains_key(k) && names_target(
                #[trigger] r.machine.states[k],
                id,
            ))),
        !terminals@.contains_key(id) && r.machine.terminals.contains_key(id) ==> {
            &&& id == "__success__"@ ==> r.machine.terminals[id].outcome == "success"@
            &&& id == "__failure__"@ ==> r.machine.terminals[id].outcome == "failure"@
            &&& id == "__no_action__"@ ==> r.machine.terminals[id].outcome == "no_action"@
            &&& id == "__cancelled__"@ ==> r.machine.terminals[id].outcome == "cancelled"@
        },
{
    reveal_strlit("__success__");
    reveal_strlit("__failure__");
    reveal_strlit("__no_action__");
    reveal_strlit("__cancelled__");
    assert("__success__"@.len() == 11 && "__failure__"@.len() == 11 && "__no_action__"@.len() == 13
        && "__cancelled__"@.len() == 13);
    assert("__success__"@[2] == 's' && "__failure__"@[2] == 'f' && "__no_action__"@[2] == 'n'
        && "__cancelled__"@[2] == 'c');
    let m = drafted(raw.body, rule)->Ok_0;
    let m1 = with_builtin(m, "__success__"@, "success"@);
    let m2 = with_builtin(m1, "__failure__"@, "failure"@);
    let m3 = with_builtin(m2, "__no_action__"@, "no_action"@);
    lemma_with_builtin(m, "__success__"@, "success"@, id);
    lemma_with_builtin(m1, "__failure__"@, "failure"@, id);
    lemma_with_builtin(m2, "__no_action__"@, "no_action"@, id);
    lemma_with_builtin(m3, "__cancelled__"@, "cancelled"@, id);
    lemma_names(m, cap, id);
    lemma_finished(m, cap, id);
    assert(r.machine.terminals == with_builtins(m).terminals);
}

// ---------------------------------------------------------------------------
// Visit bounds
// ---------------------------------------------------------------------------

/// The visit bound that a rule gives a state is the one that it declares, or
/// one.
pub proof fn law_declared_visits(
    raw: RawRuleBody,
    rule: nat,
    m: MachineView,
    id: Seq<char>,
)
    requires
        drafted(raw, rule) == Ok::<MachineView, ExpandErrorView>(m),
    ensures
        raw matches RawRuleBody::Canonical { states, .. } ==> (states@.contains_key(id)
            ==> m.states.contains_key(id) && (match states@[id].max_visits {
            Some(n) => m.states[id].max_visits == n,
            None => m.states[id].max_visits == 1,
        })),
        raw matches RawRuleBody::Sugar { tasks, .. } ==> forall|j: int|
            0 <= j < tasks@.len() && (#[trigger] tasks@[j]).id@ == id && (forall|k: int|
                j < k < tasks@.len() ==> (#[trigger] tasks@[k]).id@ != id)
                ==> m.states.contains_key(id) && (match tasks@[j].max_visits {
                Some(n) => m.states[id].max_visits == n,
                None => m.states[id].max_visits == 1,
            }),
        raw matches RawRuleBody::Sugar { tasks, states, .. } ==> ((forall|k: int|
            0 <= k < tasks@.len() ==> (#[trigger] tasks@[k]).id@ != id) && states@.contains_key(id)
            ==> m.states.contains_key(id) && (match states@[id].max_visits {
            Some(n) => m.states[id].max_visits == n,
            None => m.states[id].max_visits == 1,
        })),
{
    if let RawRuleBody::Sugar { tasks, states, terminals, on_fail } = raw {
        assert forall|j: int|
            0 <= j < tasks@.len() && (#[trigger] tasks@[j]).id@ == id && (forall|k: int|
                j < k < tasks@.len() ==> (#[trigger] tasks@[k]).id@ != id) implies m.states.contains_key(
            id,
        ) && (match tasks@[j].max_visits {
            Some(n) => m.states[id].max_visits == n,
            None => m.states[id].max_visits == 1,
        }) by {
            lemma_task_kept(raw_states(states@), tasks@, opt_view(on_fail), tasks@.len(), j);
        }
        if forall|k: int| 0 <= k < tasks@.len() ==> (#[trigger] tasks@[k]).id@ != id {
            lemma_not_a_task(raw_states(states@), tasks@, opt_view(on_fail), tasks@.len(), id);
        }
    }
}

/// What a rule expands to is what it declares with the passes over it done.
pub proof fn law_rules_go_through_the_passes(
    raw: RawRuleEntry,
    rule: nat,
    cap: u32,
    allow_empty: bool,
    r: RuleView,
)
    requires
        expanded_rule(raw, rule, cap, allow_empty) == Ok::<RuleView, ExpandErrorView>(r),
        !(raw.body is Empty),
    ensures
        drafted(raw.body, rule) matches Ok(m) && r.machine == finished(m, cap),
{
}

/// The default bound goes to the first state, by its id, of each cycle on which
/// nothing may be visited more than once; every other state keeps the bound that
/// it has.
#[verifier::rlimit(60)]
#[verifier::spinoff_prover]
pub proof fn law_default_bound_goes_to_the_first_of_a_cycle(
    m: MachineView,
    cap: u32,
    id: Seq<char>,
)
    requires
        m.states.dom().finite(),
        m.states.contains_key(id),
    ensures
        goes(m, id, id) && (forall|t: Seq<char>| #[trigger]
            around(m, id, t) ==> m.states[t].max_visits <= 1 && (t == id || lex_lt(id, t)))
            ==> finished(m, cap).states[id].max_visits == cap,
        !(goes(m, id, id) && (forall|t: Seq<char>| #[trigger]
            around(m, id, t) ==> m.states[t].max_visits <= 1 && (t == id || lex_lt(id, t))))
            ==> finished(m, cap).states[id].max_visits == m.states[id].max_visits,
{
    let b = with_builtins(m);
    assert(b.states == m.states);
    assert forall|x: Seq<char>, y: Seq<char>| #[trigger] edge(b, x, y) == edge(m, x, y) by {}
    let comps = components(b);
    lemma_components_listed(b);
    let c = choose|c: int| 0 <= c < comps.len() && #[trigger] comps[c].contains(id);
    let comp = comps[c];
    lemma_cyclic(b, comps, c, id);
    assert forall|x: Seq<char>, y: Seq<char>| #[trigger] goes(m, x, y) == goes(b, x, y) by {
        crate::workflow::laws::lemma_same_paths(m, b, x, y);
    }
    assert forall|t: Seq<char>| #[trigger] around(m, id, t) == around(b, id, t) by {}
    if goes(m, id, id) {
        assert forall|t: Seq<char>| #[trigger] comp.contains(t) <==> around(m, id, t) by {
            lemma_around(b, id, t);
            assert(comp.contains(t) == mutual(b, id, t));
        }
    }
    let first = goes(m, id, id) && (forall|t: Seq<char>| #[trigger]
        around(m, id, t) ==> m.states[t].max_visits <= 1 && (t == id || lex_lt(id, t)));
    if first {
        assert(comp.contains(comp[0]));
        assert(around(m, id, comp[0]));
        let k = choose|k: int| 0 <= k < comp.len() && comp[k] == id;
        if k > 0 {
            assert(lex_lt(comp[0], comp[k]));
            crate::text::lemma_lex_transitive(comp[0], id, comp[0]);
            crate::text::lemma_lex_irreflexive(comp[0]);
        }
        assert(comp[0] == id);
        if is_bounded(b, comp) {
            let i = choose|i: int|
                0 <= i < comp.len() && b.states[#[trigger] comp[i]].max_visits > 1;
            assert(comp.contains(comp[i]));
            assert(around(m, id, comp[i]));
        }
        assert(heads_unbounded(b, id, c));
    } else if gets_cap(b, id) {
        let d = choose|d: int| heads_unbounded(b, id, d);
        assert(comps[d].contains(comps[d][0]));
        if d != c {
            assert(comps[c].contains(id) && comps[d].contains(id));
            let k = choose|k: int| 0 <= k < comp.len() && comp[k] == id;
            assert(comp.contains(comp[0]));
            assert(mutual(b, id, comp[0]));
            assert(comps[d].contains(comp[0]));
            assert(mutual(b, comp[0], id) && mutual(b, comp[0], comps[d][0]));
            assert(comp.contains(comps[d][0]));
            let x = choose|x: int| 0 <= x < comps[d].len() && comps[d][x] == comp[0];
            if k > 0 {
                assert(lex_lt(comp[0], comp[k]));
                if x > 0 {
                    assert(lex_lt(comps[d][0], comps[d][x]));
                    crate::text::lemma_lex_transitive(comp[0], id, comp[0]);
                }
                crate::text::lemma_lex_irreflexive(comp[0]);
            }
            assert(comp[0] == id);
            crate::text::lemma_lex_irreflexive(id);
            if c < d {
                assert(lex_lt(comps[c][0], comps[d][0]));
            } else {
                assert(lex_lt(comps[d][0], comps[c][0]));
            }
            assert(false);
        }
        assert(goes(m, id, id));
        assert forall|t: Seq<char>| #[trigger] around(m, id, t) implies m.states[t].max_visits <= 1
            && (t == id || lex_lt(id, t)) by {
            assert(comp.contains(t));
            let k = choose|k: int| 0 <= k < comp.len() && comp[k] == t;
            assert(b.states[comp[k]].max_visits <= 1);
            if k > 0 {
                assert(lex_lt(comp[0], comp[k]));
            }
        }
        assert(false);
    }
}

// ---------------------------------------------------------------------------
// Conditions
// ---------------------------------------------------------------------------

/// `v` lists the texts of `raw` in their order.
pub open spec fn same_texts(raw: Option<Vec<String>>, v: Option<Seq<Seq<char>>>) -> bool {
    match raw {
        None => v is None,
        Some(l) => v matches Some(s) && s.len() == l@.len() && forall|i: int|
            0 <= i < s.len() ==> #[trigger] s[i] == l@[i]@,
    }
}

/// `v` asks of a word what `raw` asks of it: a bare word, `not` before `in`.
pub open spec fn same_scalar(raw: Option<RawScalarMatcher>, v: Option<ScalarView>) -> bool {
    match raw {
        None => v is None,
        Some(RawScalarMatcher::Eq(s)) => v == Some(ScalarView::Eq(s@)),
        Some(RawScalarMatcher::Op { not: Some(s), in_ }) => v == Some(ScalarView::Not(s@)),
        Some(RawScalarMatcher::Op { not: None, in_: Some(l) }) => v matches Some(ScalarView::In(s))
            && same_texts(Some(l), Some(s)),
        Some(RawScalarMatcher::Op { not: None, in_: None }) => v matches Some(ScalarView::Eq(s))
            && s.len() == 0,
    }
}

/// `v` asks of a text what `raw` asks of it: a pattern before a start before a
/// part.
pub open spec fn same_text(raw: Option<RawTextMatcher>, v: Option<TextView>) -> bool {
    match raw {
        None => v is None,
        Some(RawTextMatcher { regex: Some(s), starts_with, contains }) => v == Some(
            TextView::Regex(s@),
        ),
        Some(RawTextMatcher { regex: None, starts_with: Some(s), contains }) => v == Some(
            TextView::StartsWith(s@),
        ),
        Some(RawTextMatcher { regex: None, starts_with: None, contains: Some(s) }) => v == Some(
            TextView::Contains(s@),
        ),
        Some(RawTextMatcher { regex: None, starts_with: None, contains: None }) => v matches Some(
            TextView::Contains(s),
        ) && s.len() == 0,
    }
}

/// `v` has the conditions of `raw`, each under its own name.
pub open spec fn same_when(raw: Option<RawWhenClause>, v: Option<WhenView>) -> bool {
    match raw {
        None => v is None,
        Some(w) => v matches Some(x) && {
            &&& same_scalar(w.status, x.status)
            &&& same_scalar(w.assignee, x.assignee)
            &&& same_scalar(w.kind, x.kind)
            &&& same_scalar(w.phase, x.phase)
            &&& same_text(w.title, x.title)
            &&& same_text(w.body, x.body)
            &&& match w.repo {
                Some(s) => x.repo == Some(s@),
                None => x.repo is None,
            }
            &&& match w.labels {
                None => x.labels is None,
                Some(l) => x.labels matches Some(y) && same_texts(l.has_all, y.has_all)
                    && same_texts(l.has_any, y.has_any) && same_texts(l.has_none, y.has_none),
            }
        },
    }
}

/// A rule keeps its conditions.
pub proof fn law_conditions_are_kept(
    raw: RawRuleEntry,
    rule: nat,
    cap: u32,
    allow_empty: bool,
    r: RuleView,
)
    requires
        expanded_rule(raw, rule, cap, allow_empty) == Ok::<RuleView, ExpandErrorView>(r),
    ensures
        same_when(raw.when, r.when),
{
}

/// What a file says of admission is kept: the assignee, and each repository in
/// its place with its conditions and its workflow.
pub proof fn law_admission_is_kept(raw: RawWorkflow, cap: u32, f: FileView)
    requires
        expanded(raw, cap) == Ok::<FileView, ExpandErrorView>(f),
    ensures
        raw.admission is None ==> f.admission is None,
        raw.admission matches Some(a) ==> (f.admission matches Some(b) && b.assignee == a.assignee@
            && b.repos.len() == a.repos@.len() && forall|i: int|
            0 <= i < a.repos@.len() ==> {
                &&& (#[trigger] b.repos[i]).ghq == a.repos@[i].ghq@
                &&& same_when(a.repos@[i].when, b.repos[i].when)
                &&& match a.repos@[i].workflow {
                    Some(w) => b.repos[i].workflow == Some(w@),
                    None => b.repos[i].workflow is None,
                }
            }),
{
}

// ---------------------------------------------------------------------------
// Time spans
// ---------------------------------------------------------------------------

proof fn lemma_no_margin(s: Seq<char>)
    requires
        s.len() > 0,
        !is_space(s[0]),
        !is_space(s[s.len() - 1]),
    ensures
        trimmed(s) == s,
{
}

proof fn lemma_tail(d: Seq<char>, u: Seq<char>, du: Seq<char>)
    requires
        du == d + u,
        d.len() > 0,
    ensures
        finishes_with(du, u),
        du.subrange(0, du.len() - u.len()) == d,
        du[0] == d[0],
        forall|i: int| 0 <= i < u.len() ==> du[d.len() + i] == #[trigger] u[i],
{
    assert(du.subrange(0, du.len() - u.len()) =~= d);
    assert(du.subrange(du.len() - u.len(), du.len() as int) =~= u);
}

/// A number is a number of seconds; with `s` behind it, too; with `m`, of
/// minutes; with `ms`, of milliseconds.
pub proof fn law_time_spans_are_in_their_units(d: Seq<char>)
    requires
        d.len() > 0,
        forall|i: int| 0 <= i < d.len() ==> is_digit(#[trigger] d[i]),
        digits_value(d) <= u64::MAX,
    ensures
        duration_millis(d) == Some((digits_value(d) * 1000) as int),
        duration_millis(d + seq!['s']) == Some((digits_value(d) * 1000) as int),
        duration_millis(d + seq!['m']) == Some((digits_value(d) * 60_000) as int),
        duration_millis(d + seq!['m', 's']) == Some(digits_value(d) as int),
{
    let last = d[d.len() - 1];
    assert(is_digit(d[0]) && is_digit(last));
    assert(!is_space(d[0]) && !is_space(last));
    assert(d[0] != '+' && last != 's' && last != 'm');
    assert(!is_space('s') && !is_space('m'));
    lemma_no_margin(d);
    assert(parsed_u64(d) == Some(digits_value(d) as u64));
    assert(!finishes_with(d, seq!['m', 's'])) by {
        if finishes_with(d, seq!['m', 's']) {
            assert(d.subrange(d.len() - 2, d.len() as int)[1] == seq!['m', 's'][1]);
        }
    }
    assert(!finishes_with(d, seq!['m'])) by {
        if finishes_with(d, seq!['m']) {
            assert(d.subrange(d.len() - 1, d.len() as int)[0] == seq!['m'][0]);
        }
    }
    assert(!finishes_with(d, seq!['s'])) by {
        if finishes_with(d, seq!['s']) {
            assert(d.subrange(d.len() - 1, d.len() as int)[0] == seq!['s'][0]);
        }
    }
    let ds = d + seq!['s'];
    lemma_tail(d, seq!['s'], ds);
    lemma_no_margin(ds);
    assert(!finishes_with(ds, seq!['m', 's'])) by {
        if finishes_with(ds, seq!['m', 's']) {
            assert(ds.subrange(ds.len() - 2, ds.len() as int)[0] == seq!['m', 's'][0]);
            assert(ds[ds.len() - 2] == last);
        }
    }
    assert(!finishes_with(ds, seq!['m'])) by {
        if finishes_with(ds, seq!['m']) {
            assert(ds.subrange(ds.len() - 1, ds.len() as int)[0] == seq!['m'][0]);
        }
    }
    let dm = d + seq!['m'];
    lemma_tail(d, seq!['m'], dm);
    lemma_no_margin(dm);
    assert(!finishes_with(dm, seq!['m', 's'])) by {
        if finishes_with(dm, seq!['m', 's']) {
            assert(dm.subrange(dm.len() - 2, dm.len() as int)[1] == seq!['m', 's'][1]);
        }
    }
    let dms = d + seq!['m', 's'];
    lemma_tail(d, seq!['m', 's'], dms);
    assert(dms[dms.len() - 1] == seq!['m', 's'][1]);
    lemma_no_margin(dms);
}

// ---------------------------------------------------------------------------
// What is refused
// ---------------------------------------------------------------------------

/// The time span is left out, or can be read.
pub open spec fn reads(timeout: Option<String>) -> bool {
    timeout is None || duration_millis(timeout->0@) is Some
}

/// `v` is declared and cannot be read.
pub open spec fn unread(timeout: Option<String>, v: Seq<char>) -> bool {
    timeout is Some && timeout->0@ == v && duration_millis(v) is None
}

proof fn lemma_bad_task(tasks: Seq<RawTaskEntry>, from: int)
    requires
        0 <= from <= tasks.len(),
    ensures
        bad_task_timeout(tasks, from) is None <==> forall|j: int|
            from <= j < tasks.len() ==> reads((#[trigger] tasks[j]).timeout),
        bad_task_timeout(tasks, from) matches Some(v) ==> exists|j: int|
            from <= j < tasks.len() && unread((#[trigger] tasks[j]).timeout, v) && forall|k: int|
                from <= k < j ==> reads((#[trigger] tasks[k]).timeout),
    decreases tasks.len() - from,
{
    if from < tasks.len() {
        lemma_bad_task(tasks, from + 1);
        if bad_duration(opt_view(tasks[from].timeout)) {
            assert(!reads(tasks[from].timeout));
            assert(unread(tasks[from].timeout, tasks[from].timeout->0@));
        } else {
            assert(reads(tasks[from].timeout));
            if let Some(v) = bad_task_timeout(tasks, from + 1) {
                let j = choose|j: int|
                    from + 1 <= j < tasks.len() && unread((#[trigger] tasks[j]).timeout, v)
                        && forall|k: int|
                        from + 1 <= k < j ==> reads((#[trigger] tasks[k]).timeout);
                assert(unread(tasks[j].timeout, v));
            }
        }
    }
}

proof fn lemma_bad_state(pairs: Seq<(String, RawStateEntry)>, from: int)
    requires
        0 <= from <= pairs.len(),
    ensures
        bad_state_timeout(pairs, from) is None <==> forall|j: int|
            from <= j < pairs.len() ==> reads((#[trigger] pairs[j]).1.timeout),
        bad_state_timeout(pairs, from) matches Some(v) ==> exists|j: int|
            from <= j < pairs.len() && unread((#[trigger] pairs[j]).1.timeout, v) && forall|k: int|
                from <= k < j ==> reads((#[trigger] pairs[k]).1.timeout),
    decreases pairs.len() - from,
{
    if from < pairs.len() {
        lemma_bad_state(pairs, from + 1);
        if bad_duration(opt_view(pairs[from].1.timeout)) {
            assert(!reads(pairs[from].1.timeout));
            assert(unread(pairs[from].1.timeout, pairs[from].1.timeout->0@));
        } else {
            assert(reads(pairs[from].1.timeout));
            if let Some(v) = bad_state_timeout(pairs, from + 1) {
                let j = choose|j: int|
                    from + 1 <= j < pairs.len() && unread((#[trigger] pairs[j]).1.timeout, v)
                        && forall|k: int|
                        from + 1 <= k < j ==> reads((#[trigger] pairs[k]).1.timeout);
                assert(unread(pairs[j].1.timeout, v));
            }
        }
    }
}

/// A task list is accepted exactly where it has a task and every time span in it
/// can be read; otherwise the first that cannot, of the states that are written
/// out and then of the tasks, is named together with the rule.
pub proof fn law_task_lists_that_are_refused(
    raw: RawRuleEntry,
    rule: nat,
    cap: u32,
    allow_empty: bool,
    tasks: Vec<RawTaskEntry>,
    states: StrMap<RawStateEntry>,
    terminals: StrMap<RawTerminalEntry>,
    on_fail: Option<String>,
)
    requires
        raw.body == (RawRuleBody::Sugar { tasks, states, terminals, on_fail }),
    ensures
        ({
            let r = expanded_rule(raw, rule, cap, allow_empty);
            let pairs = states.pairs();
            let states_read = forall|j: int|
                0 <= j < pairs.len() ==> reads((#[trigger] pairs[j]).1.timeout);
            let tasks_read = forall|j: int|
                0 <= j < tasks@.len() ==> reads((#[trigger] tasks@[j]).timeout);
            &&& r is Ok <==> tasks@.len() > 0 && states_read && tasks_read
            &&& tasks@.len() == 0 ==> r == Err::<RuleView, ExpandErrorView>(
                ExpandErrorView::EmptyTasks(rule),
            )
            &&& tasks@.len() > 0 && !states_read ==> (r matches Err(
                ExpandErrorView::InvalidDuration(i, v),
            ) && i == rule && exists|j: int|
                0 <= j < pairs.len() && unread((#[trigger] pairs[j]).1.timeout, v) && forall|k: int|
                    0 <= k < j ==> reads((#[trigger] pairs[k]).1.timeout))
            &&& tasks@.len() > 0 && states_read && !tasks_read ==> (r matches Err(
                ExpandErrorView::InvalidDuration(i, v),
            ) && i == rule && exists|j: int|
                0 <= j < tasks@.len() && unread((#[trigger] tasks@[j]).timeout, v) && forall|k: int|
                    0 <= k < j ==> reads((#[trigger] tasks@[k]).timeout))
        }),
{
    lemma_bad_state(states.pairs(), 0);
    lemma_bad_task(tasks@, 0);
}

/// A machine that is written out is accepted exactly where every time span in it
/// can be read; otherwise the first that cannot is named together with the rule.
pub proof fn law_machines_that_are_refused(
    raw: RawRuleEntry,
    rule: nat,
    cap: u32,
    allow_empty: bool,
    start: String,
    states: StrMap<RawStateEntry>,
    terminals: StrMap<RawTerminalEntry>,
    on_fail: Option<String>,
)
    requires
        raw.body == (RawRuleBody::Canonical { start, states, terminals, on_fail }),
    ensures
        ({
            let r = expanded_rule(raw, rule, cap, allow_empty);
            let pairs = states.pairs();
            let read = forall|j: int|
                0 <= j < pairs.len() ==> reads((#[trigger] pairs[j]).1.timeout);
            &&& r is Ok <==> read
            &&& !read ==> (r matches Err(ExpandErrorView::InvalidDuration(i, v)) && i == rule
                && exists|j: int|
                0 <= j < pairs.len() && unread((#[trigger] pairs[j]).1.timeout, v) && forall|k: int|
                    0 <= k < j ==> reads((#[trigger] pairs[k]).1.timeout))
        }),
{
    lemma_bad_state(states.pairs(), 0);
}

/// A file is refused for the first section that is: the rules, then the cleanup,
/// then the failure rows.
pub proof fn law_first_bad_section_is_refused(raw: RawWorkflow, cap: u32)
    ensures
        ({
            let a = expanded_section(raw.rules@, cap, false, raw.rules@.len());
            let b = expanded_section(raw.cleanup@, cap, true, raw.cleanup@.len());
            let c = expanded_section(raw.on_failure@, cap, false, raw.on_failure@.len());
            let r = expanded(raw, cap);
            &&& r is Ok <==> a is Ok && b is Ok && c is Ok
            &&& a is Err ==> r == Err::<FileView, ExpandErrorView>(a->Err_0)
            &&& a is Ok && b is Err ==> r == Err::<FileView, ExpandErrorView>(b->Err_0)
            &&& a is Ok && b is Ok && c is Err ==> r == Err::<FileView, ExpandErrorView>(c->Err_0)
        }),
{
}

/// What can be read of a time span is a number in front of its unit, with white
/// space round either; nothing else can.
pub proof fn law_time_spans_that_can_be_read(v: Seq<char>)
    ensures
        duration_millis(v) is Some ==> exists|n: Seq<char>, u: Seq<char>|
            trimmed(v) == #[trigger] n.add(u) && (u.len() == 0 || u == seq!['s'] || u == seq!['m']
                || u == seq!['m', 's']) && (parsed_u64(n) is Some || parsed_u64(trimmed(n)) is Some),
{
    if duration_millis(v) is Some {
        let t = trimmed(v);
        let k = t.len() as int;
        let u = if finishes_with(t, seq!['m', 's']) {
            seq!['m', 's']
        } else if finishes_with(t, seq!['m']) {
            seq!['m']
        } else if finishes_with(t, seq!['s']) {
            seq!['s']
        } else {
            Seq::empty()
        };
        let n = t.subrange(0, k - u.len());
        if u.len() == 0 {
            assert(n =~= t);
        } else {
            assert(t.subrange(k - u.len(), k) == u);
        }
        assert(t =~= n.add(u));
    }
}

// ---------------------------------------------------------------------------
// Files
// ---------------------------------------------------------------------------

/// The edge leads to `id`: to the terminal of that id where the machine has one,
/// or else to the state.
pub open spec fn leads_to(sm: StateMachine, e: EdgeTarget, id: Seq<char>) -> bool {
    match e {
        EdgeTarget::State(x) => x@ == id && !sm.terminals@.contains_key(id),
        EdgeTarget::Terminal(x) => x@ == id && sm.terminals@.contains_key(id),
    }
}

/// In the file that comes of a task list, a task leads on to the next one and the
/// last one to success; one that fails leads to what it names itself, or else to
/// what its rule names, and only where neither names anything to failure.
pub proof fn law_tasks_lead_where_they_say(
    raw: RawWorkflow,
    cap: u32,
    file: WorkflowFile,
    i: int,
    tasks: Vec<RawTaskEntry>,
    states: StrMap<RawStateEntry>,
    terminals: StrMap<RawTerminalEntry>,
    on_fail: Option<String>,
    j: int,
)
    requires
        expanded(raw, cap) == Ok::<FileView, ExpandErrorView>(file@),
        0 <= i < raw.rules@.len(),
        raw.rules@[i].body == (RawRuleBody::Sugar { tasks, states, terminals, on_fail }),
        0 <= j < tasks@.len(),
        forall|k: int| j < k < tasks@.len() ==> (#[trigger] tasks@[k]).id@ != tasks@[j].id@,
    ensures
        file.rules@.len() == raw.rules@.len(),
        ({
            let sm = file.rules@[i].state_machine;
            let t = tasks@[j];
            let s = sm.states@[t.id@];
            &&& sm.start@ == tasks@[0].id@
            &&& sm.states@.contains_key(t.id@)
            &&& t.on_fail matches Some(x) ==> leads_to(sm, s.on_fail, x@)
            &&& t.on_fail is None ==> (on_fail matches Some(x) ==> leads_to(sm, s.on_fail, x@))
            &&& t.on_fail is None && on_fail is None ==> (s.on_fail matches EdgeTarget::Terminal(x)
                && x@ == "__failure__"@)
            &&& j + 1 < tasks@.len() ==> leads_to(sm, s.on_done, tasks@[j + 1].id@)
            &&& j + 1 == tasks@.len() ==> (s.on_done matches EdgeTarget::Terminal(x) && x@
                == "__success__"@)
        }),
{
    law_each_rule_is_expanded_in_its_place(raw, cap, file@);
    let r = file@.rules[i];
    assert(r == file.rules@[i]@);
    law_tasks_form_a_chain(
        raw.rules@[i],
        i as nat,
        cap,
        false,
        r,
        tasks,
        states,
        terminals,
        on_fail,
        j,
    );
    let sm = file.rules@[i].state_machine;
    assert(r.machine == sm@);
    let id = tasks@[j].id@;
    assert(sm@.states.contains_key(id));
    assert(sm.states@.contains_key(id));
    assert(sm@.states[id] == sm.states@[id]@);
    assert forall|x: Seq<char>| #[trigger] sm@.terminals.contains_key(x)
        == sm.terminals@.contains_key(x) by {}
}

/// The view of a file shows what its fields hold, each under its own name.
pub proof fn law_views_of_states_show_their_fields(sm: StateMachine, id: Seq<char>)
    requires
        sm.states@.contains_key(id),
    ensures
        ({
            let s = sm.states@[id];
            let v = sm@.states[id];
            &&& sm@.start == sm.start@
            &&& sm@.states.contains_key(id)
            &&& v.id == s.id@
            &&& v.max_visits == s.max_visits
            &&& v.timeout == s.timeout
            &&& v.body == match s.body {
                StateBody::Run { cmd } => BodyView::Run(cmd@),
                StateBody::Uses { path } => BodyView::Uses(path@),
            }
            &&& v.on_done == match s.on_done {
                EdgeTarget::State(x) => EdgeView::State(x@),
                EdgeTarget::Terminal(x) => EdgeView::Terminal(x@),
            }
            &&& v.on_fail == match s.on_fail {
                EdgeTarget::State(x) => EdgeView::State(x@),
                EdgeTarget::Terminal(x) => EdgeView::Terminal(x@),
            }
            &&& match s.if_cond {
                Some(c) => v.if_cond == Some(c@),
                None => v.if_cond is None,
            }
        }),
{
}

/// Only a number of minutes can be too large, where it is more seconds than fit
/// in 64 bits; a time span that is left out never is.
pub proof fn law_time_spans_that_are_too_large(d: Seq<char>, v: String)
    requires
        d.len() > 0,
        forall|i: int| 0 <= i < d.len() ==> is_digit(#[trigger] d[i]),
        digits_value(d) <= u64::MAX,
    ensures
        opt_duration_fits(None),
        v@ == d || v@ == d + seq!['s'] || v@ == d + seq!['m', 's'] ==> opt_duration_fits(Some(v)),
        v@ == d + seq!['m'] ==> (opt_duration_fits(Some(v)) <==> digits_value(d) * 60 <= u64::MAX),
{
    law_time_spans_are_in_their_units(d);
    let last = d[d.len() - 1];
    assert(is_digit(d[0]) && is_digit(last));
    assert(!is_space(d[0]) && !is_space(last));
    assert(!is_space('s') && !is_space('m'));
    assert(d[0] != '+' && last != 's' && last != 'm');
    lemma_no_margin(d);
    assert(parsed_u64(d) == Some(digits_value(d) as u64));
    if v@ == d {
        assert(!finishes_with(d, seq!['m'])) by {
            if finishes_with(d, seq!['m']) {
                assert(d.subrange(d.len() - 1, d.len() as int)[0] == seq!['m'][0]);
            }
        }
    }
    if v@ == d + seq!['s'] {
        lemma_tail(d, seq!['s'], v@);
        assert(v@[v@.len() - 1] == 's');
        lemma_no_margin(v@);
        assert(!finishes_with(v@, seq!['m'])) by {
            if finishes_with(v@, seq!['m']) {
                assert(v@.subrange(v@.len() - 1, v@.len() as int)[0] == seq!['m'][0]);
            }
        }
    }
    if v@ == d + seq!['m', 's'] {
        lemma_tail(d, seq!['m', 's'], v@);
        assert(v@[v@.len() - 1] == seq!['m', 's'][1]);
        lemma_no_margin(v@);
    }
    if v@ == d + seq!['m'] {
        lemma_tail(d, seq!['m'], v@);
        assert(v@[v@.len() - 1] == 'm');
        lemma_no_margin(v@);
        assert(!finishes_with(v@, seq!['m', 's'])) by {
            if finishes_with(v@, seq!['m', 's']) {
                assert(v@.subrange(v@.len() - 2, v@.len() as int)[1] == seq!['m', 's'][1]);
            }
        }
    }
}

} // verus!

//! Expansion of a raw workflow into its canonical form.
//!
//! A task list becomes a chain of states; built-in terminals are added where
//! they are referred to; cycles without a visit bound get a default one; edges
//! that lead to terminals are marked as such; and the result is validated.
use vstd::prelude::*;

use crate::strmap::{ascending, key_at, key_views, lemma_map_of, lemma_sortable, map_of, sorted_keys, StrMap};
use crate::text::{clone_opt, finishes_with, lex_lt, listed, opt_view, parse_u64, parsed_u64, str_eq, trim, trimmed, views};
use crate::workflow::canonical::{edge, mutual, opt_list_view, points_to, reaches, rules_view, walk, Admission, AdmissionView, BodyView, EdgeTarget, EdgeView, FileView, LabelsMatcher, LabelsView, MachineView, RepoEntry, RepoView, RuleEntry, RuleView, ScalarMatcher, ScalarView, State, StateBody, StateMachine, StateView, Terminal, TerminalView, TextMatcher, TextView, Timeout, WhenClause, WhenView, WorkflowFile};
use crate::workflow::parse::{RawAdmission, RawDirectiveTarget, RawLabelsMatcher, RawRepoEntry, RawRuleBody, RawRuleEntry, RawScalarMatcher, RawStateEntry, RawTaskEntry, RawTerminalEntry, RawTextMatcher, RawWhenClause, RawWorkflow};
use crate::workflow::components::{component_views, components, lemma_components_listed, lemma_components_unique, lists_components, strong_components};
use crate::workflow::validate::{component_bounded, component_cyclic, cycle_errors, cycles_errors, directive_errors, edge_errors, error_views, errors_sorted, file_errors, is_bounded, is_cyclic, machine_errors, section_errors, state_errors, states_errors, target_errors, ErrorView, ValidationError};

verus! {

#[derive(Debug, Clone, Copy)]
pub struct ExpandConfig {
    /// The visit bound that a cycle gets where none of its states declares one.
    pub default_max_iterations: u32,
}

impl Default for ExpandConfig {
    fn default() -> (c: Self)
        ensures
            c.default_max_iterations == 50,
    {
        ExpandConfig { default_max_iterations: 50 }
    }
}

#[derive(Debug)]
pub enum ExpandError {
    EmptyTasks { rule_idx: usize },
    NoBody { rule_idx: usize },
    InvalidDuration { rule_idx: usize, value: String },
    Validation(Vec<ValidationError>),
}

// ---------------------------------------------------------------------------
// Durations
// ---------------------------------------------------------------------------

/// The unit of a duration.
pub enum DurationUnit {
    Millis,
    Seconds,
    Minutes,
}

/// The number text and the unit of the duration `t`: `ms`, `m`, `s`, or
/// seconds where no unit is written.
pub open spec fn duration_parts(t: Seq<char>) -> (Seq<char>, DurationUnit) {
    if finishes_with(t, seq!['m', 's']) {
        (trimmed(t.subrange(0, t.len() - 2)), DurationUnit::Millis)
    } else if finishes_with(t, seq!['m']) {
        (trimmed(t.subrange(0, t.len() - 1)), DurationUnit::Minutes)
    } else if finishes_with(t, seq!['s']) {
        (trimmed(t.subrange(0, t.len() - 1)), DurationUnit::Seconds)
    } else {
        (t, DurationUnit::Seconds)
    }
}

/// The milliseconds that `value` denotes.
pub open spec fn duration_millis(value: Seq<char>) -> Option<int> {
    let parts = duration_parts(trimmed(value));
    match parsed_u64(parts.0) {
        Some(n) => Some(
            match parts.1 {
                DurationUnit::Millis => n as int,
                DurationUnit::Seconds => n * 1000,
                DurationUnit::Minutes => n * 60_000,
            },
        ),
        None => None,
    }
}

/// A number of minutes is a number of seconds that fits in 64 bits.
pub open spec fn duration_fits(value: Seq<char>) -> bool {
    let parts = duration_parts(trimmed(value));
    parts.1 is Minutes ==> match parsed_u64(parts.0) {
        Some(n) => n * 60 <= u64::MAX,
        None => true,
    }
}

/// The same of an optional duration.
pub open spec fn opt_duration_fits(value: Option<String>) -> bool {
    match value {
        Some(v) => duration_fits(v@),
        None => true,
    }
}

/// The time span that an optional duration denotes, if it is well-formed.
pub open spec fn timeout_of(value: Option<Seq<char>>) -> Option<Timeout> {
    match value {
        Some(v) => match duration_millis(v) {
            Some(n) => Some(Timeout { millis: n as u128 }),
            None => None,
        },
        None => None,
    }
}

/// The duration is there and is not well-formed.
pub open spec fn bad_duration(value: Option<Seq<char>>) -> bool {
    match value {
        Some(v) => duration_millis(v) is None,
        None => false,
    }
}

/// `s` without its last `k` characters.
fn drop_tail(s: &str, k: usize) -> (out: String)
    requires
        k <= s@.len(),
    ensures
        out@ == s@.subrange(0, s@.len() - k),
{
    let cs = crate::text::chars_of(s);
    crate::text::string_of_range(&cs, 0, cs.len() - k)
}

fn invalid_duration(rule_idx: usize, value: &str) -> (e: ExpandError)
    ensures
        e is InvalidDuration,
        e->InvalidDuration_rule_idx == rule_idx,
        e->value@ == value@,
{
    ExpandError::InvalidDuration { rule_idx, value: value.to_owned() }
}

/// Parses an optional duration.
pub fn parse_duration(s: Option<&str>, rule_idx: usize) -> (r: Result<Option<Timeout>, ExpandError>)
    requires
        s matches Some(v) ==> duration_fits(v@),
    ensures
        s is None ==> r == Ok::<Option<Timeout>, ExpandError>(None),
        s matches Some(v) ==> (match duration_millis(v@) {
            Some(n) => r matches Ok(Some(t)) && t.millis == n,
            None => r matches Err(ExpandError::InvalidDuration { rule_idx: i, value }) && i == rule_idx
                && value@ == v@,
        }),
{
    let value = match s {
        Some(v) => v,
        None => {
            return Ok(None);
        },
    };
    proof {
        reveal_strlit("ms");
        reveal_strlit("m");
        reveal_strlit("s");
        assert("ms"@ =~= seq!['m', 's']);
        assert("m"@ =~= seq!['m']);
        assert("s"@ =~= seq!['s']);
    }
    let trimmed = trim(value);
    let t = trimmed.as_str();
    if crate::text::ends_with(t, "ms") {
        let num = trim(drop_tail(t, 2).as_str());
        match parse_u64(num.as_str()) {
            Some(n) => Ok(Some(Timeout::from_millis(n))),
            None => Err(invalid_duration(rule_idx, value)),
        }
    } else if crate::text::ends_with(t, "m") {
        let num = trim(drop_tail(t, 1).as_str());
        match parse_u64(num.as_str()) {
            Some(n) => Ok(Some(Timeout::from_secs(n * 60))),
            None => Err(invalid_duration(rule_idx, value)),
        }
    } else if crate::text::ends_with(t, "s") {
        let num = trim(drop_tail(t, 1).as_str());
        match parse_u64(num.as_str()) {
            Some(n) => Ok(Some(Timeout::from_secs(n))),
            None => Err(invalid_duration(rule_idx, value)),
        }
    } else {
        match parse_u64(t) {
            Some(n) => Ok(Some(Timeout::from_secs(n))),
            None => Err(invalid_duration(rule_idx, value)),
        }
    }
}

/// Whether a number of minutes, if `value` is one, fits as seconds.
fn duration_has_room(value: &Option<String>) -> (r: bool)
    ensures
        r == opt_duration_fits(*value),
{
    let text = match value {
        Some(v) => trim(v.as_str()),
        None => {
            return true;
        },
    };
    proof {
        reveal_strlit("ms");
        reveal_strlit("m");
        assert("ms"@ =~= seq!['m', 's']);
        assert("m"@ =~= seq!['m']);
    }
    let t = text.as_str();
    if crate::text::ends_with(t, "ms") || !crate::text::ends_with(t, "m") {
        return true;
    }
    let num = trim(drop_tail(t, 1).as_str());
    match parse_u64(num.as_str()) {
        Some(n) => n <= u64::MAX / 60,
        None => true,
    }
}

// ---------------------------------------------------------------------------
// Admission and match clauses
// ---------------------------------------------------------------------------

pub open spec fn scalar_of(raw: RawScalarMatcher) -> ScalarView {
    match raw {
        RawScalarMatcher::Eq(s) => ScalarView::Eq(s@),
        RawScalarMatcher::Op { not, in_ } => match not {
            Some(s) => ScalarView::Not(s@),
            None => match in_ {
                Some(v) => ScalarView::In(views(v@)),
                None => ScalarView::Eq(Seq::empty()),
            },
        },
    }
}

pub open spec fn opt_scalar_of(raw: Option<RawScalarMatcher>) -> Option<ScalarView> {
    match raw {
        Some(m) => Some(scalar_of(m)),
        None => None,
    }
}

pub open spec fn text_of(raw: RawTextMatcher) -> TextView {
    match raw.regex {
        Some(s) => TextView::Regex(s@),
        None => match raw.starts_with {
            Some(s) => TextView::StartsWith(s@),
            None => match raw.contains {
                Some(s) => TextView::Contains(s@),
                None => TextView::Contains(Seq::empty()),
            },
        },
    }
}

pub open spec fn opt_text_of(raw: Option<RawTextMatcher>) -> Option<TextView> {
    match raw {
        Some(m) => Some(text_of(m)),
        None => None,
    }
}

pub open spec fn labels_of(raw: RawLabelsMatcher) -> LabelsView {
    LabelsView {
        has_all: opt_list_view(raw.has_all),
        has_any: opt_list_view(raw.has_any),
        has_none: opt_list_view(raw.has_none),
    }
}

pub open spec fn opt_labels_of(raw: Option<RawLabelsMatcher>) -> Option<LabelsView> {
    match raw {
        Some(m) => Some(labels_of(m)),
        None => None,
    }
}

pub open spec fn when_of(raw: RawWhenClause) -> WhenView {
    WhenView {
        status: opt_scalar_of(raw.status),
        labels: opt_labels_of(raw.labels),
        assignee: opt_scalar_of(raw.assignee),
        repo: opt_view(raw.repo),
        kind: opt_scalar_of(raw.kind),
        phase: opt_scalar_of(raw.phase),
        title: opt_text_of(raw.title),
        body: opt_text_of(raw.body),
    }
}

pub open spec fn opt_when_of(raw: Option<RawWhenClause>) -> Option<WhenView> {
    match raw {
        Some(w) => Some(when_of(w)),
        None => None,
    }
}

pub open spec fn repo_of(raw: RawRepoEntry) -> RepoView {
    RepoView { ghq: raw.ghq@, when: opt_when_of(raw.when), workflow: opt_view(raw.workflow) }
}

pub open spec fn admission_of(raw: RawAdmission) -> AdmissionView {
    AdmissionView {
        assignee: raw.assignee@,
        repos: raw.repos@.map_values(|r: RawRepoEntry| repo_of(r)),
    }
}

pub open spec fn opt_admission_of(raw: Option<RawAdmission>) -> Option<AdmissionView> {
    match raw {
        Some(a) => Some(admission_of(a)),
        None => None,
    }
}

fn convert_scalar_matcher(raw: RawScalarMatcher) -> (m: ScalarMatcher)
    ensures
        m@ == scalar_of(raw),
{
    match raw {
        RawScalarMatcher::Eq(s) => ScalarMatcher::Eq(s),
        RawScalarMatcher::Op { not, in_ } => match not {
            Some(s) => ScalarMatcher::Not(s),
            None => match in_ {
                Some(v) => ScalarMatcher::In(v),
                None => ScalarMatcher::Eq(String::new()),
            },
        },
    }
}

fn convert_opt_scalar(raw: Option<RawScalarMatcher>) -> (m: Option<ScalarMatcher>)
    ensures
        crate::workflow::canonical::opt_scalar_view(m) == opt_scalar_of(raw),
{
    match raw {
        Some(r) => Some(convert_scalar_matcher(r)),
        None => None,
    }
}

fn convert_labels_matcher(raw: RawLabelsMatcher) -> (m: LabelsMatcher)
    ensures
        m@ == labels_of(raw),
{
    LabelsMatcher { has_all: raw.has_all, has_any: raw.has_any, has_none: raw.has_none }
}

fn convert_text_matcher(raw: RawTextMatcher) -> (m: TextMatcher)
    ensures
        m@ == text_of(raw),
{
    match raw.regex {
        Some(s) => TextMatcher::Regex(s),
        None => match raw.starts_with {
            Some(s) => TextMatcher::StartsWith(s),
            None => match raw.contains {
                Some(s) => TextMatcher::Contains(s),
                None => TextMatcher::Contains(String::new()),
            },
        },
    }
}

fn convert_opt_text(raw: Option<RawTextMatcher>) -> (m: Option<TextMatcher>)
    ensures
        crate::workflow::canonical::opt_text_view(m) == opt_text_of(raw),
{
    match raw {
        Some(r) => Some(convert_text_matcher(r)),
        None => None,
    }
}

fn convert_when(raw: RawWhenClause) -> (w: WhenClause)
    ensures
        w@ == when_of(raw),
{
    let labels = match raw.labels {
        Some(l) => Some(convert_labels_matcher(l)),
        None => None,
    };
    WhenClause {
        status: convert_opt_scalar(raw.status),
        labels,
        assignee: convert_opt_scalar(raw.assignee),
        repo: raw.repo,
        kind: convert_opt_scalar(raw.kind),
        phase: convert_opt_scalar(raw.phase),
        title: convert_opt_text(raw.title),
        body: convert_opt_text(raw.body),
    }
}

fn convert_opt_when(raw: Option<RawWhenClause>) -> (w: Option<WhenClause>)
    ensures
        crate::workflow::canonical::opt_when_view(w) == opt_when_of(raw),
{
    match raw {
        Some(r) => Some(convert_when(r)),
        None => None,
    }
}

fn convert_repo(raw: RawRepoEntry) -> (r: RepoEntry)
    ensures
        r@ == repo_of(raw),
{
    RepoEntry { ghq: raw.ghq, when: convert_opt_when(raw.when), workflow: raw.workflow }
}

/// The items of `v`, last first.
fn reversed<T>(v: Vec<T>) -> (out: Vec<T>)
    ensures
        out@ == v@.reverse(),
{
    let ghost all = v@;
    let mut rest = v;
    let mut out: Vec<T> = Vec::new();
    while rest.len() > 0
        invariant
            rest.len() + out.len() == all.len(),
            rest@ == all.take(rest.len() as int),
            forall|i: int| 0 <= i < out.len() ==> out@[i] == all[all.len() - 1 - i],
        decreases rest.len(),
    {
        match rest.pop() {
            Some(x) => {
                out.push(x);
            },
            None => {},
        }
    }
    assert(out@ =~= all.reverse());
    out
}

fn convert_admission(raw: RawAdmission) -> (a: Admission)
    ensures
        a@ == admission_of(raw),
{
    let ghost all = raw.repos@;
    let mut rest = reversed(raw.repos);
    let mut repos: Vec<RepoEntry> = Vec::new();
    while rest.len() > 0
        invariant
            rest.len() + repos.len() == all.len(),
            rest@ == all.reverse().take(rest.len() as int),
            forall|i: int| 0 <= i < repos.len() ==> (#[trigger] repos@[i])@ == repo_of(all[i]),
        decreases rest.len(),
    {
        match rest.pop() {
            Some(r) => {
                repos.push(convert_repo(r));
            },
            None => {},
        }
    }
    let a = Admission { assignee: raw.assignee, repos };
    assert(a@ =~= admission_of(raw));
    a
}

// ---------------------------------------------------------------------------
// States and terminals
// ---------------------------------------------------------------------------

pub open spec fn directive_target(t: RawDirectiveTarget) -> Seq<char> {
    match t {
        RawDirectiveTarget::Short(id) => id@,
        RawDirectiveTarget::Long { target, .. } => target@,
    }
}

/// All directives lead to states at first.
pub open spec fn directives_of(raw: Map<Seq<char>, RawDirectiveTarget>) -> Map<
    Seq<char>,
    EdgeView,
> {
    raw.map_values(|t: RawDirectiveTarget| EdgeView::State(directive_target(t)))
}

/// The body that `run:` or `uses:` gives; an empty command where both or none
/// of them are there.
pub open spec fn body_of(run: Option<String>, uses: Option<String>) -> BodyView {
    match (run, uses) {
        (Some(cmd), None) => BodyView::Run(cmd@),
        (None, Some(path)) => BodyView::Uses(path@),
        _ => BodyView::Run(Seq::empty()),
    }
}

/// The edge to the state `id`, or else to the terminal `terminal`.
pub open spec fn edge_or(id: Option<Seq<char>>, terminal: Seq<char>) -> EdgeView {
    match id {
        Some(i) => EdgeView::State(i),
        None => EdgeView::Terminal(terminal),
    }
}

pub open spec fn visits_of(declared: Option<u32>) -> u32 {
    match declared {
        Some(n) => n,
        None => 1,
    }
}

/// The state that the raw entry `raw` under the id `id` denotes.
pub open spec fn raw_state(id: Seq<char>, raw: RawStateEntry) -> StateView {
    StateView {
        id,
        body: body_of(raw.run, raw.uses),
        if_cond: opt_view(raw.if_cond),
        on_done: edge_or(opt_view(raw.on_done), "__success__"@),
        on_fail: edge_or(opt_view(raw.on_fail), "__failure__"@),
        directives: directives_of(raw.directives@),
        max_visits: visits_of(raw.max_visits),
        timeout: timeout_of(opt_view(raw.timeout)),
    }
}

/// The state that a task denotes: it leads on to the next task, and on failure
/// to its own or the rule's failure target.
pub open spec fn task_state(
    task: RawTaskEntry,
    next: Option<Seq<char>>,
    rule_on_fail: Option<Seq<char>>,
) -> StateView {
    StateView {
        id: task.id@,
        body: body_of(task.run, task.uses),
        if_cond: opt_view(task.if_cond),
        on_done: edge_or(next, "__success__"@),
        on_fail: edge_or(
            if task.on_fail is Some {
                opt_view(task.on_fail)
            } else {
                rule_on_fail
            },
            "__failure__"@,
        ),
        directives: directives_of(task.directives@),
        max_visits: visits_of(task.max_visits),
        timeout: timeout_of(opt_view(task.timeout)),
    }
}

/// The id of the task behind task `i`.
pub open spec fn next_task(tasks: Seq<RawTaskEntry>, i: int) -> Option<Seq<char>> {
    if i + 1 < tasks.len() {
        Some(tasks[i + 1].id@)
    } else {
        None
    }
}

/// The states of a raw state map.
pub open spec fn raw_states(raw: Map<Seq<char>, RawStateEntry>) -> Map<Seq<char>, StateView> {
    Map::new(|id: Seq<char>| raw.dom().contains(id), |id: Seq<char>| raw_state(id, raw[id]))
}

/// `base` with the states of the first `n` tasks put in, in order.
pub open spec fn with_tasks(
    base: Map<Seq<char>, StateView>,
    tasks: Seq<RawTaskEntry>,
    rule_on_fail: Option<Seq<char>>,
    n: nat,
) -> Map<Seq<char>, StateView>
    decreases n,
{
    if n == 0 {
        base
    } else {
        with_tasks(base, tasks, rule_on_fail, (n - 1) as nat).insert(
            tasks[n - 1].id@,
            task_state(tasks[n - 1], next_task(tasks, n - 1), rule_on_fail),
        )
    }
}

pub open spec fn raw_terminals(raw: Map<Seq<char>, RawTerminalEntry>) -> Map<
    Seq<char>,
    TerminalView,
> {
    Map::new(
        |id: Seq<char>| raw.dom().contains(id),
        |id: Seq<char>| TerminalView { id, outcome: raw[id].outcome@ },
    )
}

/// The first ill-formed timeout among the entries from `from` on.
pub open spec fn bad_state_timeout(pairs: Seq<(String, RawStateEntry)>, from: int) -> Option<
    Seq<char>,
>
    decreases pairs.len() - from,
{
    if from < 0 || from >= pairs.len() {
        None
    } else if bad_duration(opt_view(pairs[from].1.timeout)) {
        opt_view(pairs[from].1.timeout)
    } else {
        bad_state_timeout(pairs, from + 1)
    }
}

/// The first ill-formed timeout among the tasks from `from` on.
pub open spec fn bad_task_timeout(tasks: Seq<RawTaskEntry>, from: int) -> Option<Seq<char>>
    decreases tasks.len() - from,
{
    if from < 0 || from >= tasks.len() {
        None
    } else if bad_duration(opt_view(tasks[from].timeout)) {
        opt_view(tasks[from].timeout)
    } else {
        bad_task_timeout(tasks, from + 1)
    }
}

/// All timeouts of a raw state map fit.
pub open spec fn states_fit(pairs: Seq<(String, RawStateEntry)>) -> bool {
    forall|i: int| 0 <= i < pairs.len() ==> opt_duration_fits((#[trigger] pairs[i]).1.timeout)
}

/// All timeouts of a task list fit.
pub open spec fn tasks_fit(tasks: Seq<RawTaskEntry>) -> bool {
    forall|i: int| 0 <= i < tasks.len() ==> opt_duration_fits((#[trigger] tasks[i]).timeout)
}

fn convert_directives(raw: &StrMap<RawDirectiveTarget>) -> (out: StrMap<EdgeTarget>)
    ensures
        out@.map_values(|t: EdgeTarget| t@) == directives_of(raw@),
{
    let n: usize = raw.len();
    let mut out: StrMap<EdgeTarget> = StrMap::new();
    let ghost pairs = raw.pairs();
    let mut i: usize = 0;
    while i < n
        invariant
            i <= n == pairs.len(),
            pairs == raw.pairs(),
            ascending(pairs),
            forall|k: Seq<char>| #[trigger] out@.dom().contains(k) == (exists|j: int| 0 <= j < i && key_at(pairs, k, j)),
            forall|j: int| 0 <= j < i ==> out@[(#[trigger] pairs[j]).0@]@ == EdgeView::State(directive_target(pairs[j].1)),
        decreases n - i,
    {
        let target = match raw.value(i) {
            RawDirectiveTarget::Short(id) => id.clone(),
            RawDirectiveTarget::Long { target, .. } => target.clone(),
        };
        let ghost before = out@;
        out.insert(raw.key(i).clone(), EdgeTarget::State(target));
        proof {
            lemma_grow(pairs, before.dom(), out@.dom(), i as int);
            assert forall|j: int| 0 <= j < i + 1 implies out@[(#[trigger] pairs[j]).0@]@
                == EdgeView::State(directive_target(pairs[j].1)) by {
                if j < i {
                    assert(lex_lt(pairs[j].0@, pairs[i as int].0@));
                    crate::text::lemma_lex_irreflexive(pairs[j].0@);
                }
            }
        }
        i += 1;
    }
    proof {
        let a = out@.map_values(|t: EdgeTarget| t@);
        let b = directives_of(raw@);
        lemma_full(pairs, out@.dom());
        assert forall|k: Seq<char>| a.dom().contains(k) implies a[k] == b[k] by {
            let j = choose|j: int| key_at(pairs, k, j);
            lemma_map_of(pairs, j);
        }
        assert(a =~= b);
    }
    out
}

/// The keys of the first `i` pairs, and the next one.
proof fn lemma_grow<V>(
    pairs: Seq<(String, V)>,
    before: Set<Seq<char>>,
    after: Set<Seq<char>>,
    i: int,
)
    requires
        0 <= i < pairs.len(),
        forall|k: Seq<char>| #[trigger] before.contains(k) == (exists|j: int| 0 <= j < i && key_at(pairs, k, j)),
        after =~= before.insert(pairs[i].0@),
    ensures
        forall|k: Seq<char>| #[trigger] after.contains(k) == (exists|j: int| 0 <= j < i + 1 && key_at(pairs, k, j)),
{
    assert forall|k: Seq<char>| #[trigger] after.contains(k) == (exists|j: int| 0 <= j < i + 1 && key_at(pairs, k, j)) by {
        if k == pairs[i].0@ {
            assert(key_at(pairs, k, i));
        } else if after.contains(k) {
            assert(before.contains(k));
            let j = choose|j: int| 0 <= j < i && key_at(pairs, k, j);
            assert(0 <= j < i + 1 && key_at(pairs, k, j));
        }
        if exists|j: int| 0 <= j < i + 1 && key_at(pairs, k, j) {
            let j = choose|j: int| 0 <= j < i + 1 && key_at(pairs, k, j);
            if j < i {
                assert(before.contains(k));
            }
        }
    }
}

proof fn lemma_full<V>(pairs: Seq<(String, V)>, dom: Set<Seq<char>>)
    requires
        forall|k: Seq<char>| #[trigger] dom.contains(k) == (exists|j: int| 0 <= j < pairs.len() && key_at(pairs, k, j)),
    ensures
        dom =~= crate::strmap::map_of(pairs).dom(),
{
    assert forall|k: Seq<char>| dom.contains(k) == crate::strmap::map_of(pairs).dom().contains(k) by {
        if crate::strmap::has_key(pairs, k) {
            let j = choose|j: int| key_at(pairs, k, j);
            assert(0 <= j < pairs.len() && key_at(pairs, k, j));
        }
    }
}

fn body_from_run_uses(run: &Option<String>, uses: &Option<String>) -> (b: StateBody)
    ensures
        b@ == body_of(*run, *uses),
{
    match (run, uses) {
        (Some(cmd), None) => StateBody::Run { cmd: cmd.clone() },
        (None, Some(path)) => StateBody::Uses { path: path.clone() },
        _ => StateBody::Run { cmd: String::new() },
    }
}

fn edge_to(id: Option<String>, terminal: &str) -> (e: EdgeTarget)
    ensures
        e@ == edge_or(opt_view(id), terminal@),
{
    match id {
        Some(i) => EdgeTarget::State(i),
        None => EdgeTarget::Terminal(terminal.to_owned()),
    }
}

fn visits(declared: Option<u32>) -> (n: u32)
    ensures
        n == visits_of(declared),
{
    match declared {
        Some(n) => n,
        None => 1,
    }
}

fn parse_timeout(value: &Option<String>, rule_idx: usize) -> (r: Result<
    Option<Timeout>,
    ExpandError,
>)
    requires
        opt_duration_fits(*value),
    ensures
        !bad_duration(opt_view(*value)) ==> r == Ok::<Option<Timeout>, ExpandError>(
            timeout_of(opt_view(*value)),
        ),
        bad_duration(opt_view(*value)) ==> (r matches Err(ExpandError::InvalidDuration {
            rule_idx: i,
            value: v,
        }) && i == rule_idx && Some(v@) == opt_view(*value)),
{
    match value {
        Some(v) => parse_duration(Some(v.as_str()), rule_idx),
        None => Ok(None),
    }
}

/// The state that `task` denotes.
pub fn task_to_state(
    task: &RawTaskEntry,
    next_id: Option<String>,
    rule_on_fail: &Option<String>,
    rule_idx: usize,
) -> (r: Result<State, ExpandError>)
    requires
        opt_duration_fits(task.timeout),
    ensures
        r matches Ok(s) ==> !bad_duration(opt_view(task.timeout)) && s@ == task_state(
            *task,
            opt_view(next_id),
            opt_view(*rule_on_fail),
        ),
        r matches Err(e) ==> bad_duration(opt_view(task.timeout)) && (e matches ExpandError::InvalidDuration {
            rule_idx: i,
            value,
        } && i == rule_idx && Some(value@) == opt_view(task.timeout)),
{
    let on_fail = match &task.on_fail {
        Some(id) => Some(id.clone()),
        None => clone_opt(rule_on_fail),
    };
    match parse_timeout(&task.timeout, rule_idx) {
        Ok(timeout) => Ok(
            State {
                id: task.id.clone(),
                body: body_from_run_uses(&task.run, &task.uses),
                if_cond: clone_opt(&task.if_cond),
                on_done: edge_to(next_id, "__success__"),
                on_fail: edge_to(on_fail, "__failure__"),
                directives: convert_directives(&task.directives),
                max_visits: visits(task.max_visits),
                timeout,
            },
        ),
        Err(e) => Err(e),
    }
}

fn convert_state(id: &String, raw: &RawStateEntry, rule_idx: usize) -> (r: Result<
    State,
    ExpandError,
>)
    requires
        opt_duration_fits(raw.timeout),
    ensures
        r matches Ok(s) ==> !bad_duration(opt_view(raw.timeout)) && s@ == raw_state(id@, *raw),
        r matches Err(e) ==> bad_duration(opt_view(raw.timeout)) && (e matches ExpandError::InvalidDuration {
            rule_idx: i,
            value,
        } && i == rule_idx && Some(value@) == opt_view(raw.timeout)),
{
    match parse_timeout(&raw.timeout, rule_idx) {
        Ok(timeout) => Ok(
            State {
                id: id.clone(),
                body: body_from_run_uses(&raw.run, &raw.uses),
                if_cond: clone_opt(&raw.if_cond),
                on_done: edge_to(clone_opt(&raw.on_done), "__success__"),
                on_fail: edge_to(clone_opt(&raw.on_fail), "__failure__"),
                directives: convert_directives(&raw.directives),
                max_visits: visits(raw.max_visits),
                timeout,
            },
        ),
        Err(e) => Err(e),
    }
}

/// The states of a raw state map; the first ill-formed timeout is refused.
pub fn convert_states(raw: &StrMap<RawStateEntry>, rule_idx: usize) -> (r: Result<
    StrMap<State>,
    ExpandError,
>)
    requires
        states_fit(raw.pairs()),
    ensures
        r matches Ok(m) ==> bad_state_timeout(raw.pairs(), 0) is None && m@.map_values(
            |s: State| s@,
        ) == raw_states(raw@),
        r matches Err(e) ==> (e matches ExpandError::InvalidDuration { rule_idx: i, value }
            && i == rule_idx && bad_state_timeout(raw.pairs(), 0) == Some(value@)),
{
    let n: usize = raw.len();
    let mut out: StrMap<State> = StrMap::new();
    let ghost pairs = raw.pairs();
    let mut i: usize = 0;
    while i < n
        invariant
            i <= n == pairs.len(),
            pairs == raw.pairs(),
            ascending(pairs),
            states_fit(pairs),
            bad_state_timeout(pairs, 0) == bad_state_timeout(pairs, i as int),
            forall|k: Seq<char>| #[trigger] out@.dom().contains(k) == (exists|j: int| 0 <= j < i && key_at(pairs, k, j)),
            forall|j: int| 0 <= j < i ==> out@[(#[trigger] pairs[j]).0@]@ == raw_state(pairs[j].0@, pairs[j].1),
        decreases n - i,
    {
        assert(opt_duration_fits(pairs[i as int].1.timeout));
        match convert_state(raw.key(i), raw.value(i), rule_idx) {
            Ok(s) => {
                let ghost before = out@;
                out.insert(raw.key(i).clone(), s);
                proof {
                    lemma_grow(pairs, before.dom(), out@.dom(), i as int);
                    assert forall|j: int| 0 <= j < i + 1 implies out@[(#[trigger] pairs[j]).0@]@
                        == raw_state(pairs[j].0@, pairs[j].1) by {
                        if j < i {
                            assert(lex_lt(pairs[j].0@, pairs[i as int].0@));
                            crate::text::lemma_lex_irreflexive(pairs[j].0@);
                        }
                    }
                }
            },
            Err(e) => {
                return Err(e);
            },
        }
        i += 1;
    }
    proof {
        let a = out@.map_values(|s: State| s@);
        let b = raw_states(raw@);
        lemma_full(pairs, out@.dom());
        assert forall|k: Seq<char>| a.dom().contains(k) implies a[k] == b[k] by {
            let j = choose|j: int| key_at(pairs, k, j);
            lemma_map_of(pairs, j);
        }
        assert(a =~= b);
    }
    Ok(out)
}

fn convert_terminals(raw: &StrMap<RawTerminalEntry>) -> (out: StrMap<Terminal>)
    ensures
        out@.map_values(|t: Terminal| t@) == raw_terminals(raw@),
{
    let n: usize = raw.len();
    let mut out: StrMap<Terminal> = StrMap::new();
    let ghost pairs = raw.pairs();
    let mut i: usize = 0;
    while i < n
        invariant
            i <= n == pairs.len(),
            pairs == raw.pairs(),
            ascending(pairs),
            forall|k: Seq<char>| #[trigger] out@.dom().contains(k) == (exists|j: int| 0 <= j < i && key_at(pairs, k, j)),
            forall|j: int| 0 <= j < i ==> out@[(#[trigger] pairs[j]).0@]@ == (TerminalView { id: pairs[j].0@, outcome: pairs[j].1.outcome@ }),
        decreases n - i,
    {
        let ghost before = out@;
        let id = raw.key(i).clone();
        out.insert(id.clone(), Terminal { id, outcome: raw.value(i).outcome.clone() });
        proof {
            lemma_grow(pairs, before.dom(), out@.dom(), i as int);
            assert forall|j: int| 0 <= j < i + 1 implies out@[(#[trigger] pairs[j]).0@]@ == (
            TerminalView { id: pairs[j].0@, outcome: pairs[j].1.outcome@ }) by {
                if j < i {
                    assert(lex_lt(pairs[j].0@, pairs[i as int].0@));
                    crate::text::lemma_lex_irreflexive(pairs[j].0@);
                }
            }
        }
        i += 1;
    }
    proof {
        let a = out@.map_values(|t: Terminal| t@);
        let b = raw_terminals(raw@);
        lemma_full(pairs, out@.dom());
        assert forall|k: Seq<char>| a.dom().contains(k) implies a[k] == b[k] by {
            let j = choose|j: int| key_at(pairs, k, j);
            lemma_map_of(pairs, j);
        }
        assert(a =~= b);
    }
    out
}


// ---------------------------------------------------------------------------
// Built-in terminals
// ---------------------------------------------------------------------------

/// Some edge of `s` names `id`.
pub open spec fn names_id(s: StateView, id: Seq<char>) -> bool {
    ||| s.on_done.id() == id
    ||| s.on_fail.id() == id
    ||| exists|d: Seq<char>| s.directives.dom().contains(d) && (#[trigger] s.directives[d]).id() == id
}

/// `id` is the start of `m` or the target of one of its edges.
pub open spec fn referenced(m: MachineView, id: Seq<char>) -> bool {
    m.start == id || exists|k: Seq<char>| m.states.dom().contains(k) && names_id(#[trigger] m.states[k], id)
}

/// `m` with the terminal `id`, where it is referred to and not declared.
pub open spec fn with_builtin(m: MachineView, id: Seq<char>, outcome: Seq<char>) -> MachineView {
    if referenced(m, id) && !m.terminals.dom().contains(id) {
        MachineView { terminals: m.terminals.insert(id, TerminalView { id, outcome }), ..m }
    } else {
        m
    }
}

/// `m` with the built-in terminals that it refers to.
pub open spec fn with_builtins(m: MachineView) -> MachineView {
    with_builtin(
        with_builtin(
            with_builtin(
                with_builtin(m, "__success__"@, "success"@),
                "__failure__"@,
                "failure"@,
            ),
            "__no_action__"@,
            "no_action"@,
        ),
        "__cancelled__"@,
        "cancelled"@,
    )
}

fn target_is(t: &EdgeTarget, id: &str) -> (r: bool)
    ensures
        r == (t@.id() == id@),
{
    match t {
        EdgeTarget::State(s) => str_eq(s.as_str(), id),
        EdgeTarget::Terminal(s) => str_eq(s.as_str(), id),
    }
}

fn state_names(s: &State, id: &str) -> (r: bool)
    ensures
        r == names_id(s@, id@),
{
    if target_is(&s.on_done, id) || target_is(&s.on_fail, id) {
        return true;
    }
    let n: usize = s.directives.len();
    let mut i: usize = 0;
    while i < n
        invariant
            i <= n == s.directives.pairs().len(),
            ascending(s.directives.pairs()),
            forall|k: int| 0 <= k < i ==> (#[trigger] s.directives.pairs()[k]).1@.id() != id@,
        decreases n - i,
    {
        if target_is(s.directives.value(i), id) {
            proof {
                let d = s.directives.pairs()[i as int].0@;
                lemma_map_of(s.directives.pairs(), i as int);
                assert(s@.directives[d].id() == id@);
            }
            return true;
        }
        i += 1;
    }
    proof {
        assert forall|d: Seq<char>| s@.directives.dom().contains(d) implies (
        #[trigger] s@.directives[d]).id() != id@ by {
            let k = choose|k: int| key_at(s.directives.pairs(), d, k);
            lemma_map_of(s.directives.pairs(), k);
        }
    }
    false
}

fn is_referenced(sm: &StateMachine, id: &str) -> (r: bool)
    ensures
        r == referenced(sm@, id@),
{
    if str_eq(sm.start.as_str(), id) {
        return true;
    }
    let n: usize = sm.states.len();
    let mut i: usize = 0;
    while i < n
        invariant
            i <= n == sm.states.pairs().len(),
            ascending(sm.states.pairs()),
            forall|k: int| 0 <= k < i ==> !names_id((#[trigger] sm.states.pairs()[k]).1@, id@),
        decreases n - i,
    {
        if state_names(sm.states.value(i), id) {
            proof {
                let k = sm.states.pairs()[i as int].0@;
                lemma_map_of(sm.states.pairs(), i as int);
                assert(names_id(sm@.states[k], id@));
            }
            return true;
        }
        i += 1;
    }
    proof {
        assert forall|k: Seq<char>| sm@.states.dom().contains(k) implies !names_id(
            #[trigger] sm@.states[k],
            id@,
        ) by {
            let j = choose|j: int| key_at(sm.states.pairs(), k, j);
            lemma_map_of(sm.states.pairs(), j);
        }
    }
    false
}

fn add_builtin(sm: &mut StateMachine, id: &str, outcome: &str)
    ensures
        final(sm)@ == with_builtin(old(sm)@, id@, outcome@),
{
    if is_referenced(sm, id) && !sm.terminals.contains_key(id) {
        let ghost before = sm@;
        sm.terminals.insert(
            id.to_owned(),
            Terminal { id: id.to_owned(), outcome: outcome.to_owned() },
        );
        assert(sm@.terminals =~= before.terminals.insert(
            id@,
            TerminalView { id: id@, outcome: outcome@ },
        ));
        assert(sm@ =~= with_builtin(before, id@, outcome@));
    }
}

/// Adds the built-in terminals that the machine refers to.
fn apply_pass1_implicit_terminals(sm: &mut StateMachine)
    ensures
        final(sm)@ == with_builtins(old(sm)@),
{
    add_builtin(sm, "__success__", "success");
    add_builtin(sm, "__failure__", "failure");
    add_builtin(sm, "__no_action__", "no_action");
    add_builtin(sm, "__cancelled__", "cancelled");
}

// ---------------------------------------------------------------------------
// Visit bounds
// ---------------------------------------------------------------------------

/// `id` is the first state of component `c`, a cycle that no member bounds.
pub open spec fn heads_unbounded(m: MachineView, id: Seq<char>, c: int) -> bool {
    let comps = components(m);
    &&& 0 <= c < comps.len()
    &&& comps[c][0] == id
    &&& is_cyclic(m, comps[c])
    &&& !is_bounded(m, comps[c])
}

/// `id` is the first state of an unbounded cycle.
pub open spec fn gets_cap(m: MachineView, id: Seq<char>) -> bool {
    exists|c: int| heads_unbounded(m, id, c)
}

/// `m` with the visit bound `cap` on the first state of each unbounded cycle.
pub open spec fn with_caps(m: MachineView, cap: u32) -> MachineView {
    MachineView {
        states: Map::new(
            |id: Seq<char>| m.states.dom().contains(id),
            |id: Seq<char>|
                if gets_cap(m, id) {
                    StateView { max_visits: cap, ..m.states[id] }
                } else {
                    m.states[id]
                },
        ),
        ..m
    }
}

/// The first state of each cycle that no member bounds.
fn unbounded_heads(sm: &StateMachine) -> (out: Vec<String>)
    ensures
        forall|id: Seq<char>| #[trigger] listed(out@, id) == gets_cap(sm@, id),
{
    let ghost m = sm@;
    let comps = strong_components(sm);
    let ghost l = component_views(comps@);
    let mut out: Vec<String> = Vec::new();
    let mut c: usize = 0;
    while c < comps.len()
        invariant
            c <= comps.len(),
            m == sm@,
            l == component_views(comps@),
            l == components(m),
            lists_components(m, l),
            forall|id: Seq<char>| #[trigger]
                listed(out@, id) == (exists|d: int| 0 <= d < c && heads_unbounded(m, id, d)),
        decreases comps.len() - c,
    {
        let comp = &comps[c];
        let ghost before = out@;
        proof {
            assert(l[c as int] == views(comp@));
            assert(l[c as int].len() > 0);
            assert forall|i: int| 0 <= i < comp.len() implies sm@.states.dom().contains(
                #[trigger] comp@[i]@,
            ) by {
                assert(l[c as int][i] == comp@[i]@);
                assert(l[c as int].contains(comp@[i]@));
            }
        }
        let hit = component_cyclic(sm, comp) && !component_bounded(sm, comp);
        if hit {
            out.push(comp[0].clone());
        }
        proof {
            let head = comp@[0]@;
            assert(l[c as int][0] == head);
            assert forall|id: Seq<char>| #[trigger] listed(out@, id) == (exists|d: int|
                0 <= d < c + 1 && heads_unbounded(m, id, d)) by {
                if listed(before, id) {
                    let k = choose|k: int| 0 <= k < before.len() && before[k]@ == id;
                    assert(out@[k]@ == id);
                }
                if listed(out@, id) {
                    let k = choose|k: int| 0 <= k < out@.len() && out@[k]@ == id;
                    if k < before.len() {
                        assert(before[k]@ == id);
                        assert(listed(before, id));
                        let d = choose|d: int| 0 <= d < c && heads_unbounded(m, id, d);
                        assert(0 <= d < c + 1 && heads_unbounded(m, id, d));
                    } else {
                        assert(heads_unbounded(m, id, c as int));
                    }
                }
                if exists|d: int| 0 <= d < c + 1 && heads_unbounded(m, id, d) {
                    let d = choose|d: int| 0 <= d < c + 1 && heads_unbounded(m, id, d);
                    if d < c {
                        assert(listed(before, id));
                    } else {
                        assert(hit);
                        assert(out@[before.len() as int]@ == id);
                    }
                }
            }
        }
        c += 1;
    }
    proof {
        assert forall|id: Seq<char>| #[trigger] listed(out@, id) == gets_cap(m, id) by {
            if gets_cap(m, id) {
                let d = choose|d: int| heads_unbounded(m, id, d);
                assert(0 <= d < c && heads_unbounded(m, id, d));
            }
        }
    }
    out
}

/// Gives each cycle without a visit bound a default one.
fn apply_pass5_max_visits(sm: StateMachine, default_cap: u32) -> (r: StateMachine)
    ensures
        r@ == with_caps(sm@, default_cap),
{
    let heads = unbounded_heads(&sm);
    let ghost m = sm@;
    let ghost pairs = sm.states.pairs();
    let start = sm.start;
    let terminals = sm.terminals;
    let mut entries = sm.states.into_entries();
    let mut i: usize = 0;
    while i < entries.len()
        invariant
            i <= entries.len() == pairs.len(),
            ascending(pairs),
            forall|id: Seq<char>| #[trigger] listed(heads@, id) == gets_cap(m, id),
            forall|j: int| 0 <= j < pairs.len() ==> (#[trigger] entries@[j]).0 == pairs[j].0,
            forall|j: int| i <= j < pairs.len() ==> (#[trigger] entries@[j]).1 == pairs[j].1,
            forall|j: int|
                0 <= j < i ==> (#[trigger] entries@[j]).1@ == (if gets_cap(m, pairs[j].0@) {
                    StateView { max_visits: default_cap, ..pairs[j].1@ }
                } else {
                    pairs[j].1@
                }),
        decreases entries.len() - i,
    {
        if crate::text::list_contains(&heads, entries[i].0.as_str()) {
            entries[i].1.max_visits = default_cap;
        }
        i += 1;
    }
    proof {
        assert forall|x: int, y: int| 0 <= x < y < entries@.len() implies lex_lt(
            #[trigger] entries@[x].0@,
            #[trigger] entries@[y].0@,
        ) by {
            assert(lex_lt(pairs[x].0@, pairs[y].0@));
        }
    }
    let states = StrMap::from_sorted(entries);
    let r = StateMachine { start, states, terminals };
    proof {
        lemma_same_keys(pairs, states.pairs());
        assert forall|id: Seq<char>| r@.states.dom().contains(id) implies r@.states[id]
            == with_caps(m, default_cap).states[id] by {
            let j = choose|j: int| key_at(pairs, id, j);
            lemma_map_of(pairs, j);
            assert(entries@[j].0 == pairs[j].0);
            lemma_map_of(entries@, j);
        }
        assert(r@.states =~= with_caps(m, default_cap).states);
    }
    r
}

/// Pairs with the same keys have the same domain.
proof fn lemma_same_keys<V, W>(a: Seq<(String, V)>, b: Seq<(String, W)>)
    requires
        a.len() == b.len(),
        forall|j: int| 0 <= j < a.len() ==> (#[trigger] b[j]).0 == a[j].0,
    ensures
        crate::strmap::map_of(a).dom() =~= crate::strmap::map_of(b).dom(),
{
    assert forall|k: Seq<char>| crate::strmap::map_of(a).dom().contains(k)
        == crate::strmap::map_of(b).dom().contains(k) by {
        if crate::strmap::has_key(a, k) {
            let j = choose|j: int| key_at(a, k, j);
            assert(b[j].0 == a[j].0);
            assert(key_at(b, k, j));
        }
        if crate::strmap::has_key(b, k) {
            let j = choose|j: int| key_at(b, k, j);
            assert(b[j].0 == a[j].0);
            assert(key_at(a, k, j));
        }
    }
}

// ---------------------------------------------------------------------------
// Edge classification
// ---------------------------------------------------------------------------

/// An edge to a declared terminal is a terminal edge.
pub open spec fn settled(terminals: Set<Seq<char>>, e: EdgeView) -> EdgeView {
    match e {
        EdgeView::State(id) => if terminals.contains(id) {
            EdgeView::Terminal(id)
        } else {
            e
        },
        EdgeView::Terminal(_) => e,
    }
}

pub open spec fn settled_state(terminals: Set<Seq<char>>, s: StateView) -> StateView {
    StateView {
        on_done: settled(terminals, s.on_done),
        on_fail: settled(terminals, s.on_fail),
        directives: s.directives.map_values(|e: EdgeView| settled(terminals, e)),
        ..s
    }
}

/// `m` with its edges told apart by what they lead to.
pub open spec fn with_settled_edges(m: MachineView) -> MachineView {
    MachineView {
        states: m.states.map_values(|s: StateView| settled_state(m.terminals.dom(), s)),
        ..m
    }
}

fn reclassify(t: EdgeTarget, terminals: &StrMap<Terminal>) -> (r: EdgeTarget)
    ensures
        r@ == settled(terminals@.dom(), t@),
{
    match t {
        EdgeTarget::State(id) => if terminals.contains_key(id.as_str()) {
            EdgeTarget::Terminal(id)
        } else {
            EdgeTarget::State(id)
        },
        EdgeTarget::Terminal(id) => EdgeTarget::Terminal(id),
    }
}

fn settle_directives(d: StrMap<EdgeTarget>, terminals: &StrMap<Terminal>) -> (r: StrMap<EdgeTarget>)
    ensures
        r@.map_values(|t: EdgeTarget| t@) == d@.map_values(|t: EdgeTarget| t@).map_values(
            |e: EdgeView| settled(terminals@.dom(), e),
        ),
{
    let ghost pairs = d.pairs();
    let ghost dom = terminals@.dom();
    let n: usize = d.len();
    let mut rest = reversed(d.into_entries());
    let mut entries: Vec<(String, EdgeTarget)> = Vec::new();
    while rest.len() > 0
        invariant
            ascending(pairs),
            dom == terminals@.dom(),
            rest.len() + entries.len() == pairs.len(),
            rest@ == pairs.reverse().take(rest.len() as int),
            forall|j: int|
                0 <= j < entries.len() ==> (#[trigger] entries@[j]).0 == pairs[j].0 && entries@[j].1@
                    == settled(dom, pairs[j].1@),
        decreases rest.len(),
    {
        match rest.pop() {
            Some((k, t)) => {
                entries.push((k, reclassify(t, terminals)));
            },
            None => {},
        }
    }
    proof {
        assert forall|x: int, y: int| 0 <= x < y < entries@.len() implies lex_lt(
            #[trigger] entries@[x].0@,
            #[trigger] entries@[y].0@,
        ) by {
            assert(lex_lt(pairs[x].0@, pairs[y].0@));
        }
    }
    let r = StrMap::from_sorted(entries);
    proof {
        lemma_same_keys(pairs, r.pairs());
        let a = r@.map_values(|t: EdgeTarget| t@);
        let b = d@.map_values(|t: EdgeTarget| t@).map_values(|e: EdgeView| settled(dom, e));
        assert forall|k: Seq<char>| a.dom().contains(k) implies a[k] == b[k] by {
            let j = choose|j: int| key_at(pairs, k, j);
            lemma_map_of(pairs, j);
            assert(entries@[j].0 == pairs[j].0);
            lemma_map_of(entries@, j);
        }
        assert(a =~= b);
    }
    r
}

fn settle_state(s: State, terminals: &StrMap<Terminal>) -> (r: State)
    ensures
        r@ == settled_state(terminals@.dom(), s@),
{
    State {
        id: s.id,
        body: s.body,
        if_cond: s.if_cond,
        on_done: reclassify(s.on_done, terminals),
        on_fail: reclassify(s.on_fail, terminals),
        directives: settle_directives(s.directives, terminals),
        max_visits: s.max_visits,
        timeout: s.timeout,
    }
}

/// Tells the machine's edges apart by what they lead to.
fn classify_edges(sm: StateMachine) -> (r: StateMachine)
    ensures
        r@ == with_settled_edges(sm@),
{
    let ghost m = sm@;
    let ghost pairs = sm.states.pairs();
    let ghost dom = m.terminals.dom();
    let start = sm.start;
    let terminals = sm.terminals;
    let n: usize = sm.states.len();
    let mut rest = reversed(sm.states.into_entries());
    let mut entries: Vec<(String, State)> = Vec::new();
    assert(dom =~= terminals@.dom());
    while rest.len() > 0
        invariant
            ascending(pairs),
            dom == terminals@.dom(),
            rest.len() + entries.len() == pairs.len(),
            rest@ == pairs.reverse().take(rest.len() as int),
            forall|j: int|
                0 <= j < entries.len() ==> (#[trigger] entries@[j]).0 == pairs[j].0 && entries@[j].1@
                    == settled_state(dom, pairs[j].1@),
        decreases rest.len(),
    {
        match rest.pop() {
            Some((k, s)) => {
                entries.push((k, settle_state(s, &terminals)));
            },
            None => {},
        }
    }
    proof {
        assert forall|x: int, y: int| 0 <= x < y < entries@.len() implies lex_lt(
            #[trigger] entries@[x].0@,
            #[trigger] entries@[y].0@,
        ) by {
            assert(lex_lt(pairs[x].0@, pairs[y].0@));
        }
    }
    let states = StrMap::from_sorted(entries);
    let r = StateMachine { start, states, terminals };
    proof {
        lemma_same_keys(pairs, states.pairs());
        assert forall|id: Seq<char>| r@.states.dom().contains(id) implies r@.states[id]
            == with_settled_edges(m).states[id] by {
            let j = choose|j: int| key_at(pairs, id, j);
            lemma_map_of(pairs, j);
            assert(entries@[j].0 == pairs[j].0);
            lemma_map_of(entries@, j);
        }
        assert(r@.states =~= with_settled_edges(m).states);
    }
    r
}


// ---------------------------------------------------------------------------
// Expansion
// ---------------------------------------------------------------------------

/// Why an expansion is refused.
#[verifier::ext_equal]
pub enum ExpandErrorView {
    EmptyTasks(nat),
    NoBody(nat),
    InvalidDuration(nat, Seq<char>),
    Validation(Seq<ErrorView>),
}

impl View for ExpandError {
    type V = ExpandErrorView;

    open spec fn view(&self) -> ExpandErrorView {
        match self {
            ExpandError::EmptyTasks { rule_idx } => ExpandErrorView::EmptyTasks(*rule_idx as nat),
            ExpandError::NoBody { rule_idx } => ExpandErrorView::NoBody(*rule_idx as nat),
            ExpandError::InvalidDuration { rule_idx, value } => ExpandErrorView::InvalidDuration(
                *rule_idx as nat,
                value@,
            ),
            ExpandError::Validation(v) => ExpandErrorView::Validation(error_views(v@)),
        }
    }
}

/// A machine as it stands once the passes over it are done.
pub open spec fn finished(m: MachineView, cap: u32) -> MachineView {
    with_settled_edges(with_caps(with_builtins(m), cap))
}

/// The machine that a rule's body denotes, before the passes.
pub open spec fn drafted(body: RawRuleBody, rule: nat) -> Result<MachineView, ExpandErrorView> {
    match body {
        RawRuleBody::Empty {  } => Err(ExpandErrorView::NoBody(rule)),
        RawRuleBody::Canonical { start, states, terminals, .. } => match bad_state_timeout(
            states.pairs(),
            0,
        ) {
            Some(v) => Err(ExpandErrorView::InvalidDuration(rule, v)),
            None => Ok(
                MachineView {
                    start: start@,
                    states: raw_states(states@),
                    terminals: raw_terminals(terminals@),
                },
            ),
        },
        RawRuleBody::Sugar { tasks, states, terminals, on_fail } => if tasks.len() == 0 {
            Err(ExpandErrorView::EmptyTasks(rule))
        } else {
            match bad_state_timeout(states.pairs(), 0) {
                Some(v) => Err(ExpandErrorView::InvalidDuration(rule, v)),
                None => match bad_task_timeout(tasks@, 0) {
                    Some(v) => Err(ExpandErrorView::InvalidDuration(rule, v)),
                    None => Ok(
                        MachineView {
                            start: tasks[0].id@,
                            states: with_tasks(
                                raw_states(states@),
                                tasks@,
                                opt_view(on_fail),
                                tasks.len() as nat,
                            ),
                            terminals: raw_terminals(terminals@),
                        },
                    ),
                },
            }
        },
    }
}

/// The machine that a rule's body expands to.
pub open spec fn expanded_body(body: RawRuleBody, rule: nat, cap: u32) -> Result<
    MachineView,
    ExpandErrorView,
> {
    match drafted(body, rule) {
        Ok(m) => Ok(finished(m, cap)),
        Err(e) => Err(e),
    }
}

/// The machine that deletes at once: its start is its only terminal.
pub open spec fn immediate_delete() -> MachineView {
    MachineView {
        start: "__success__"@,
        states: Map::empty(),
        terminals: Map::empty().insert(
            "__success__"@,
            TerminalView { id: "__success__"@, outcome: "cleaned"@ },
        ),
    }
}

/// The rule that `raw` expands to.
pub open spec fn expanded_rule(raw: RawRuleEntry, rule: nat, cap: u32, allow_empty: bool) -> Result<
    RuleView,
    ExpandErrorView,
> {
    let machine = if raw.body is Empty && allow_empty {
        Ok(immediate_delete())
    } else {
        expanded_body(raw.body, rule, cap)
    };
    match machine {
        Ok(machine) => Ok(RuleView { when: opt_when_of(raw.when), machine }),
        Err(e) => Err(e),
    }
}

/// What the first `n` rules of a section expand to, or the first refusal.
pub open spec fn expanded_section(
    raw: Seq<RawRuleEntry>,
    cap: u32,
    allow_empty: bool,
    n: nat,
) -> Result<Seq<RuleView>, ExpandErrorView>
    decreases n,
{
    if n == 0 {
        Ok(Seq::empty())
    } else {
        match expanded_section(raw, cap, allow_empty, (n - 1) as nat) {
            Ok(rules) => match expanded_rule(raw[n - 1], (n - 1) as nat, cap, allow_empty) {
                Ok(rule) => Ok(rules.push(rule)),
                Err(e) => Err(e),
            },
            Err(e) => Err(e),
        }
    }
}

/// What a raw workflow expands to, before validation.
pub open spec fn expanded(raw: RawWorkflow, cap: u32) -> Result<FileView, ExpandErrorView> {
    match expanded_section(raw.rules@, cap, false, raw.rules.len() as nat) {
        Ok(rules) => match expanded_section(raw.cleanup@, cap, true, raw.cleanup.len() as nat) {
            Ok(cleanup) => match expanded_section(
                raw.on_failure@,
                cap,
                false,
                raw.on_failure.len() as nat,
            ) {
                Ok(on_failure) => Ok(
                    FileView {
                        admission: opt_admission_of(raw.admission),
                        rules,
                        cleanup,
                        on_failure,
                    },
                ),
                Err(e) => Err(e),
            },
            Err(e) => Err(e),
        },
        Err(e) => Err(e),
    }
}

/// The minutes in a rule's timeouts fit in 64 bits of seconds.
pub open spec fn body_fits(body: RawRuleBody) -> bool {
    match body {
        RawRuleBody::Empty {  } => true,
        RawRuleBody::Canonical { states, .. } => states_fit(states.pairs()),
        RawRuleBody::Sugar { tasks, states, .. } => states_fit(states.pairs()) && tasks_fit(tasks@),
    }
}

/// The same of all rules of a section.
pub open spec fn section_fits(raw: Seq<RawRuleEntry>) -> bool {
    forall|i: int| 0 <= i < raw.len() ==> body_fits((#[trigger] raw[i]).body)
}

/// The same of a whole file.
pub open spec fn workflow_fits(raw: RawWorkflow) -> bool {
    section_fits(raw.rules@) && section_fits(raw.cleanup@) && section_fits(raw.on_failure@)
}

fn states_have_room(states: &StrMap<RawStateEntry>) -> (r: bool)
    ensures
        r == states_fit(states.pairs()),
{
    let n: usize = states.len();
    let mut i: usize = 0;
    while i < n
        invariant
            i <= n == states.pairs().len(),
            forall|k: int|
                0 <= k < i ==> opt_duration_fits((#[trigger] states.pairs()[k]).1.timeout),
        decreases n - i,
    {
        if !duration_has_room(&states.value(i).timeout) {
            assert(!opt_duration_fits(states.pairs()[i as int].1.timeout));
            return false;
        }
        i += 1;
    }
    true
}

fn tasks_have_room(tasks: &Vec<RawTaskEntry>) -> (r: bool)
    ensures
        r == tasks_fit(tasks@),
{
    let mut i: usize = 0;
    while i < tasks.len()
        invariant
            i <= tasks.len(),
            forall|k: int| 0 <= k < i ==> opt_duration_fits((#[trigger] tasks@[k]).timeout),
        decreases tasks.len() - i,
    {
        if !duration_has_room(&tasks[i].timeout) {
            assert(!opt_duration_fits(tasks@[i as int].timeout));
            return false;
        }
        i += 1;
    }
    true
}

fn body_has_room(body: &RawRuleBody) -> (r: bool)
    ensures
        r == body_fits(*body),
{
    match body {
        RawRuleBody::Empty {  } => true,
        RawRuleBody::Canonical { states, .. } => states_have_room(states),
        RawRuleBody::Sugar { tasks, states, .. } => states_have_room(states) && tasks_have_room(
            tasks,
        ),
    }
}

fn section_has_room(rules: &Vec<RawRuleEntry>) -> (r: bool)
    ensures
        r == section_fits(rules@),
{
    let mut i: usize = 0;
    while i < rules.len()
        invariant
            i <= rules.len(),
            forall|k: int| 0 <= k < i ==> body_fits((#[trigger] rules@[k]).body),
        decreases rules.len() - i,
    {
        if !body_has_room(&rules[i].body) {
            assert(!section_fits(rules@));
            return false;
        }
        i += 1;
    }
    true
}

/// Whether every timeout of the file fits, so that it can be expanded.
pub fn workflow_has_room(raw: &RawWorkflow) -> (r: bool)
    ensures
        r == workflow_fits(*raw),
{
    section_has_room(&raw.rules) && section_has_room(&raw.cleanup) && section_has_room(
        &raw.on_failure,
    )
}

/// The machine of a task list.
pub fn build_sugar_state_machine(
    tasks: &Vec<RawTaskEntry>,
    states_inline: &StrMap<RawStateEntry>,
    terminals: &StrMap<RawTerminalEntry>,
    rule_on_fail: &Option<String>,
    rule_idx: usize,
) -> (r: Result<StateMachine, ExpandError>)
    requires
        states_fit(states_inline.pairs()),
        tasks_fit(tasks@),
    ensures
        r matches Ok(sm) ==> tasks.len() > 0 && bad_state_timeout(states_inline.pairs(), 0) is None
            && bad_task_timeout(tasks@, 0) is None && sm@ == (MachineView {
            start: tasks[0].id@,
            states: with_tasks(
                raw_states(states_inline@),
                tasks@,
                opt_view(*rule_on_fail),
                tasks.len() as nat,
            ),
            terminals: raw_terminals(terminals@),
        }),
        r matches Err(e) ==> e@ == (if tasks.len() == 0 {
            ExpandErrorView::EmptyTasks(rule_idx as nat)
        } else if bad_state_timeout(states_inline.pairs(), 0) is Some {
            ExpandErrorView::InvalidDuration(
                rule_idx as nat,
                bad_state_timeout(states_inline.pairs(), 0)->0,
            )
        } else {
            ExpandErrorView::InvalidDuration(rule_idx as nat, bad_task_timeout(tasks@, 0)->0)
        }),
        r is Err ==> tasks.len() == 0 || bad_state_timeout(states_inline.pairs(), 0) is Some
            || bad_task_timeout(tasks@, 0) is Some,
{
    if tasks.len() == 0 {
        return Err(ExpandError::EmptyTasks { rule_idx });
    }
    let start = tasks[0].id.clone();
    let mut states = match convert_states(states_inline, rule_idx) {
        Ok(s) => s,
        Err(e) => {
            return Err(e);
        },
    };
    let ghost base = raw_states(states_inline@);
    let ghost rof = opt_view(*rule_on_fail);
    let mut i: usize = 0;
    while i < tasks.len()
        invariant
            i <= tasks.len(),
            tasks.len() > 0,
            tasks_fit(tasks@),
            bad_state_timeout(states_inline.pairs(), 0) is None,
            rof == opt_view(*rule_on_fail),
            bad_task_timeout(tasks@, 0) == bad_task_timeout(tasks@, i as int),
            states@.map_values(|s: State| s@) == with_tasks(base, tasks@, rof, i as nat),
        decreases tasks.len() - i,
    {
        assert(opt_duration_fits(tasks@[i as int].timeout));
        let next_id = if i + 1 < tasks.len() {
            Some(tasks[i + 1].id.clone())
        } else {
            None
        };
        match task_to_state(&tasks[i], next_id, rule_on_fail, rule_idx) {
            Ok(s) => {
                let ghost before = states@;
                let ghost sv = s@;
                states.insert(s.id.clone(), s);
                assert(states@.map_values(|s: State| s@) =~= before.map_values(
                    |s: State| s@,
                ).insert(tasks@[i as int].id@, sv));
            },
            Err(e) => {
                return Err(e);
            },
        }
        i += 1;
    }
    Ok(StateMachine { start, states, terminals: convert_terminals(terminals) })
}

fn immediate_delete_state_machine() -> (sm: StateMachine)
    ensures
        sm@ == immediate_delete(),
{
    let mut terminals: StrMap<Terminal> = StrMap::new();
    terminals.insert(
        "__success__".to_owned(),
        Terminal { id: "__success__".to_owned(), outcome: "cleaned".to_owned() },
    );
    let sm = StateMachine { start: "__success__".to_owned(), states: StrMap::new(), terminals };
    assert(sm@ =~= immediate_delete());
    sm
}

/// Expands the body of a rule.
pub fn expand_body(body: &RawRuleBody, rule_idx: usize, cfg: &ExpandConfig) -> (r: Result<
    StateMachine,
    ExpandError,
>)
    requires
        body_fits(*body),
    ensures
        r matches Ok(sm) ==> expanded_body(*body, rule_idx as nat, cfg.default_max_iterations)
            == Ok::<MachineView, ExpandErrorView>(sm@),
        r matches Err(e) ==> expanded_body(*body, rule_idx as nat, cfg.default_max_iterations)
            == Err::<MachineView, ExpandErrorView>(e@),
{
    let mut sm = match body {
        RawRuleBody::Empty {  } => {
            return Err(ExpandError::NoBody { rule_idx });
        },
        RawRuleBody::Canonical { start, states, terminals, .. } => {
            match convert_states(states, rule_idx) {
                Ok(s) => StateMachine {
                    start: start.clone(),
                    states: s,
                    terminals: convert_terminals(terminals),
                },
                Err(e) => {
                    return Err(e);
                },
            }
        },
        RawRuleBody::Sugar { tasks, states, terminals, on_fail } => {
            match build_sugar_state_machine(tasks, states, terminals, on_fail, rule_idx) {
                Ok(s) => s,
                Err(e) => {
                    return Err(e);
                },
            }
        },
    };
    assert(drafted(*body, rule_idx as nat) == Ok::<MachineView, ExpandErrorView>(sm@));
    apply_pass1_implicit_terminals(&mut sm);
    let sm = apply_pass5_max_visits(sm, cfg.default_max_iterations);
    Ok(classify_edges(sm))
}

fn expand_rule_section(
    raw: Vec<RawRuleEntry>,
    cfg: &ExpandConfig,
    cleanup_allows_empty: bool,
) -> (r: Result<Vec<RuleEntry>, ExpandError>)
    requires
        section_fits(raw@),
    ensures
        r matches Ok(rules) ==> expanded_section(
            raw@,
            cfg.default_max_iterations,
            cleanup_allows_empty,
            raw.len() as nat,
        ) == Ok::<Seq<RuleView>, ExpandErrorView>(rules_view(rules@)),
        r matches Err(e) ==> expanded_section(
            raw@,
            cfg.default_max_iterations,
            cleanup_allows_empty,
            raw.len() as nat,
        ) == Err::<Seq<RuleView>, ExpandErrorView>(e@),
{
    let ghost all = raw@;
    let ghost cap = cfg.default_max_iterations;
    let n: usize = raw.len();
    let mut rest = reversed(raw);
    let mut rules: Vec<RuleEntry> = Vec::new();
    assert(rules_view(rules@) =~= Seq::<RuleView>::empty());
    while rest.len() > 0
        invariant
            section_fits(all),
            all == raw@,
            n == all.len(),
            cap == cfg.default_max_iterations,
            rest.len() + rules.len() == all.len(),
            rest@ == all.reverse().take(rest.len() as int),
            expanded_section(all, cap, cleanup_allows_empty, rules.len() as nat) == Ok::<
                Seq<RuleView>,
                ExpandErrorView,
            >(rules_view(rules@)),
        decreases rest.len(),
    {
        let rule_idx: usize = rules.len();
        match rest.pop() {
            Some(entry) => {
                assert(entry == all[rule_idx as int]);
                let empty = match &entry.body {
                    RawRuleBody::Empty {  } => true,
                    _ => false,
                };
                let made = if empty && cleanup_allows_empty {
                    Ok(immediate_delete_state_machine())
                } else {
                    expand_body(&entry.body, rule_idx, cfg)
                };
                match made {
                    Ok(state_machine) => {
                        let ghost before = rules_view(rules@);
                        let rule = RuleEntry { when: convert_opt_when(entry.when), state_machine };
                        let ghost rv = rule@;
                        rules.push(rule);
                        proof {
                            assert(rules_view(rules@) =~= before.push(rv));
                            assert(expanded_rule(all[rule_idx as int], rule_idx as nat, cap, cleanup_allows_empty)
                                == Ok::<RuleView, ExpandErrorView>(rv));
                        }
                    },
                    Err(e) => {
                        proof {
                            assert(expanded_rule(all[rule_idx as int], rule_idx as nat, cap, cleanup_allows_empty)
                                == Err::<RuleView, ExpandErrorView>(e@));
                            lemma_section_error(all, cap, cleanup_allows_empty, (rule_idx + 1) as nat, e@);
                        }
                        return Err(e);
                    },
                }
            },
            None => {},
        }
    }
    Ok(rules)
}

/// A refusal within a section is the refusal of the section.
proof fn lemma_section_error(
    raw: Seq<RawRuleEntry>,
    cap: u32,
    allow_empty: bool,
    n: nat,
    e: ExpandErrorView,
)
    requires
        n <= raw.len(),
        expanded_section(raw, cap, allow_empty, n) == Err::<Seq<RuleView>, ExpandErrorView>(e),
    ensures
        expanded_section(raw, cap, allow_empty, raw.len()) == Err::<
            Seq<RuleView>,
            ExpandErrorView,
        >(e),
    decreases raw.len() - n,
{
    if n < raw.len() {
        lemma_section_error(raw, cap, allow_empty, n + 1, e);
    }
}

/// Expands a raw workflow and validates the result.
pub fn expand(raw: RawWorkflow, config: ExpandConfig) -> (r: Result<WorkflowFile, ExpandError>)
    requires
        workflow_fits(raw),
        raw.rules.len() + raw.cleanup.len() + raw.on_failure.len() <= usize::MAX,
    ensures
        match expanded(raw, config.default_max_iterations) {
            Err(e) => r matches Err(x) && x@ == e,
            Ok(f) => if file_errors(f).len() == 0 {
                r matches Ok(file) && file@ == f
            } else {
                r matches Err(ExpandError::Validation(v)) && errors_sorted(error_views(v@))
                    && error_views(v@).to_multiset() == file_errors(f).to_multiset()
            },
        },
{
    let ghost cap = config.default_max_iterations;
    let ghost raw0 = raw;
    let admission = match raw.admission {
        Some(a) => Some(convert_admission(a)),
        None => None,
    };
    let rules = match expand_rule_section(raw.rules, &config, false) {
        Ok(v) => v,
        Err(e) => {
            return Err(e);
        },
    };
    let cleanup = match expand_rule_section(raw.cleanup, &config, true) {
        Ok(v) => v,
        Err(e) => {
            return Err(e);
        },
    };
    let on_failure = match expand_rule_section(raw.on_failure, &config, false) {
        Ok(v) => v,
        Err(e) => {
            return Err(e);
        },
    };
    proof {
        lemma_section_len(raw0.rules@, cap, false, raw0.rules.len() as nat);
        lemma_section_len(raw0.cleanup@, cap, true, raw0.cleanup.len() as nat);
        lemma_section_len(raw0.on_failure@, cap, false, raw0.on_failure.len() as nat);
    }
    let file = WorkflowFile { admission, rules, cleanup, on_failure };
    assert(expanded(raw0, cap) == Ok::<FileView, ExpandErrorView>(file@));
    match crate::workflow::validate::run(&file) {
        Ok(_) => Ok(file),
        Err(v) => {
            proof {
                error_views(v@).to_multiset_ensures();
            }
            Err(ExpandError::Validation(v))
        },
    }
}

/// An expanded section has as many rules as the raw one.
proof fn lemma_section_len(raw: Seq<RawRuleEntry>, cap: u32, allow_empty: bool, n: nat)
    requires
        n <= raw.len(),
    ensures
        expanded_section(raw, cap, allow_empty, n) matches Ok(rules) ==> rules.len() == n,
    decreases n,
{
    if n > 0 {
        lemma_section_len(raw, cap, allow_empty, (n - 1) as nat);
    }
}

// ---------------------------------------------------------------------------
// Laws
// ---------------------------------------------------------------------------

/// Two machines with the same edges between states have the same components.
proof fn lemma_same_components(m: MachineView, n: MachineView)
    requires
        m.states.dom() == n.states.dom(),
        m.states.dom().finite(),
        forall|a: Seq<char>, b: Seq<char>| #[trigger] edge(m, a, b) == edge(n, a, b),
    ensures
        components(m) == components(n),
{
    lemma_components_listed(m);
    lemma_components_listed(n);
    assert forall|p: Seq<Seq<char>>| #[trigger] walk(m, p) == walk(n, p) by {
        if walk(m, p) {
            assert forall|i: int| 0 <= i < p.len() - 1 implies edge(n, #[trigger] p[i], p[i + 1]) by {
                assert(edge(m, p[i], p[i + 1]));
            }
        }
        if walk(n, p) {
            assert forall|i: int| 0 <= i < p.len() - 1 implies edge(m, #[trigger] p[i], p[i + 1]) by {
                assert(edge(n, p[i], p[i + 1]));
            }
        }
    }
    assert forall|a: Seq<char>, b: Seq<char>| #[trigger] reaches(m, a, b) == reaches(n, a, b) by {
        if reaches(m, a, b) {
            let p = choose|p: Seq<Seq<char>>| walk(m, p) && p[0] == a && p[p.len() - 1] == b;
            assert(walk(n, p) && p[0] == a && p[p.len() - 1] == b);
        }
        if reaches(n, a, b) {
            let p = choose|p: Seq<Seq<char>>| walk(n, p) && p[0] == a && p[p.len() - 1] == b;
            assert(walk(m, p) && p[0] == a && p[p.len() - 1] == b);
        }
    }
    assert forall|l: Seq<Seq<Seq<char>>>| #[trigger] lists_components(m, l) == lists_components(n, l) by {
        assert forall|a: Seq<char>, b: Seq<char>| #[trigger] mutual(m, a, b) == mutual(n, a, b) by {}
        if lists_components(m, l) {
            assert forall|c: int, a: Seq<char>, b: Seq<char>|
                0 <= c < l.len() && #[trigger] l[c].contains(a) implies (#[trigger] l[c].contains(b)
                == mutual(n, a, b)) by {
                assert(l[c].contains(b) == mutual(m, a, b));
            }
        }
        if lists_components(n, l) {
            assert forall|c: int, a: Seq<char>, b: Seq<char>|
                0 <= c < l.len() && #[trigger] l[c].contains(a) implies (#[trigger] l[c].contains(b)
                == mutual(m, a, b)) by {
                assert(l[c].contains(b) == mutual(n, a, b));
            }
        }
    }
    lemma_components_unique(m, components(m), components(n));
}

/// Bounding visits changes no edge.
proof fn lemma_caps_keep_edges(m: MachineView, cap: u32)
    ensures
        m.states.dom() == with_caps(m, cap).states.dom(),
        forall|a: Seq<char>, b: Seq<char>| #[trigger]
            edge(m, a, b) == edge(with_caps(m, cap), a, b),
{
    assert(m.states.dom() =~= with_caps(m, cap).states.dom());
}

/// Where no id is both a state and a terminal, marking the edges to terminals
/// changes no edge between states.
proof fn lemma_settling_keeps_edges(m: MachineView)
    requires
        forall|id: Seq<char>| #[trigger]
            m.states.dom().contains(id) ==> !m.terminals.dom().contains(id),
    ensures
        m.states.dom() == with_settled_edges(m).states.dom(),
        forall|a: Seq<char>, b: Seq<char>| #[trigger]
            edge(m, a, b) == edge(with_settled_edges(m), a, b),
{
    let n = with_settled_edges(m);
    let dom = m.terminals.dom();
    assert(m.states.dom() =~= n.states.dom());
    assert forall|a: Seq<char>, b: Seq<char>| #[trigger] edge(m, a, b) == edge(n, a, b) by {
        if m.states.dom().contains(a) && m.states.dom().contains(b) {
            let s = m.states[a];
            let t = n.states[a];
            assert(t == settled_state(dom, s));
            assert(!dom.contains(b));
            if points_to(s, b) {
                if exists|d: Seq<char>| s.directives.dom().contains(d) && #[trigger] s.directives[d]
                    == EdgeView::State(b) {
                    let d = choose|d: Seq<char>|
                        s.directives.dom().contains(d) && #[trigger] s.directives[d]
                            == EdgeView::State(b);
                    assert(t.directives[d] == EdgeView::State(b));
                }
            }
            if points_to(t, b) {
                if exists|d: Seq<char>| t.directives.dom().contains(d) && #[trigger] t.directives[d]
                    == EdgeView::State(b) {
                    let d = choose|d: Seq<char>|
                        t.directives.dom().contains(d) && #[trigger] t.directives[d]
                            == EdgeView::State(b);
                    assert(s.directives[d] == EdgeView::State(b));
                }
            }
        }
    }
}

/// No expansion leaves a cycle without a visit bound: where the default bound
/// is more than one visit and no id is both a state and a terminal, validation
/// finds no unbounded cycle in what the passes make of a machine.
pub proof fn law_expanded_cycles_are_bounded(m: MachineView, cap: u32, rule: nat)
    requires
        m.states.dom().finite(),
        cap > 1,
        forall|id: Seq<char>| #[trigger]
            m.states.dom().contains(id) ==> !with_builtins(m).terminals.dom().contains(id),
    ensures
        ({
            let n = finished(m, cap);
            cycles_errors(n, rule, components(n), components(n).len()) =~= seq![]
        }),
{
    let b = with_builtins(m);
    let c = with_caps(b, cap);
    let n = finished(m, cap);
    assert(b.states == m.states);
    lemma_caps_keep_edges(b, cap);
    lemma_settling_keeps_edges(c);
    lemma_same_components(b, c);
    lemma_same_components(c, n);
    let comps = components(b);
    lemma_components_listed(b);
    assert forall|k: int| 0 <= k < comps.len() implies cycle_errors(n, #[trigger] comps[k], rule)
        =~= seq![] by {
        let comp = comps[k];
        assert(comp.contains(comp[0]));
        assert(b.states.dom().contains(comp[0]));
        if is_cyclic(n, comp) {
            if comp.len() == 1 {
                assert(edge(n, comp[0], comp[0]) == edge(b, comp[0], comp[0]));
            }
            if is_bounded(b, comp) {
                let i = choose|i: int|
                    0 <= i < comp.len() && b.states[#[trigger] comp[i]].max_visits > 1;
                assert(comp.contains(comp[i]));
                assert(n.states[comp[i]].max_visits > 1) by {
                    assert(n.states[comp[i]].max_visits == c.states[comp[i]].max_visits);
                }
            } else {
                assert(heads_unbounded(b, comp[0], k));
                assert(c.states[comp[0]].max_visits == cap);
                assert(n.states[comp[0]].max_visits == cap);
            }
            assert(is_bounded(n, comp));
        }
    }
    lemma_no_cycle_errors(n, rule, comps, comps.len());
}

proof fn lemma_no_cycle_errors(m: MachineView, rule: nat, comps: Seq<Seq<Seq<char>>>, n: nat)
    requires
        n <= comps.len(),
        forall|k: int| 0 <= k < comps.len() ==> cycle_errors(m, #[trigger] comps[k], rule)
            =~= seq![],
    ensures
        cycles_errors(m, rule, comps, n) =~= seq![],
    decreases n,
{
    if n > 0 {
        lemma_no_cycle_errors(m, rule, comps, (n - 1) as nat);
        assert(cycle_errors(m, comps[n - 1], rule) =~= seq![]);
    }
}

/// A visit bound that the author declared is kept.
pub proof fn law_declared_bounds_are_kept(m: MachineView, cap: u32, id: Seq<char>)
    requires
        m.states.dom().finite(),
        m.states.dom().contains(id),
        m.states[id].max_visits > 1,
    ensures
        finished(m, cap).states[id].max_visits == m.states[id].max_visits,
{
    let b = with_builtins(m);
    assert(b.states == m.states);
    lemma_components_listed(b);
    if gets_cap(b, id) {
        let c = choose|c: int| heads_unbounded(b, id, c);
        assert(b.states[components(b)[c][0]].max_visits > 1);
        assert(is_bounded(b, components(b)[c]));
    }
}

/// A built-in terminal is there after expansion if and only if the machine
/// declared it or refers to it.
pub proof fn law_builtins_only_where_referenced(m: MachineView, cap: u32, id: Seq<char>)
    ensures
        finished(m, cap).terminals.dom().contains(id) <==> m.terminals.dom().contains(id) || (
        is_builtin(id) && referenced(m, id)),
{
    let m1 = with_builtin(m, "__success__"@, "success"@);
    let m2 = with_builtin(m1, "__failure__"@, "failure"@);
    let m3 = with_builtin(m2, "__no_action__"@, "no_action"@);
    assert(m1.states == m.states && m2.states == m.states && m3.states == m.states);
    assert(referenced(m1, id) == referenced(m, id));
    assert(referenced(m2, id) == referenced(m, id));
    assert(referenced(m3, id) == referenced(m, id));
}

/// `id` is a built-in terminal.
pub open spec fn is_builtin(id: Seq<char>) -> bool {
    id == "__success__"@ || id == "__failure__"@ || id == "__no_action__"@ || id
        == "__cancelled__"@
}

/// An edge leads to a declared terminal, as a terminal edge, or to a declared
/// state that is no terminal.
pub open spec fn sound_edge(m: MachineView, e: EdgeView) -> bool {
    match e {
        EdgeView::Terminal(id) => m.terminals.dom().contains(id),
        EdgeView::State(id) => m.states.dom().contains(id) && !m.terminals.dom().contains(id),
    }
}

/// Every edge of the machine is sound.
pub open spec fn sound_edges(m: MachineView) -> bool {
    forall|id: Seq<char>| #[trigger]
        m.states.dom().contains(id) ==> sound_edge(m, m.states[id].on_done) && sound_edge(
            m,
            m.states[id].on_fail,
        ) && forall|d: Seq<char>| #[trigger]
            m.states[id].directives.dom().contains(d) ==> sound_edge(m, m.states[id].directives[d])
}

/// A terminal edge of the state leads to a built-in terminal.
spec fn drafted_edges(s: StateView) -> bool {
    &&& s.on_done matches EdgeView::Terminal(t) ==> is_builtin(t)
    &&& s.on_fail matches EdgeView::Terminal(t) ==> is_builtin(t)
    &&& s.directives.dom().finite()
    &&& forall|d: Seq<char>| #[trigger]
        s.directives.dom().contains(d) ==> s.directives[d] is State
}

proof fn lemma_finite<V>(pairs: Seq<(String, V)>)
    ensures
        map_of(pairs).dom().finite(),
{
    let keys = key_views(pairs);
    assert forall|k: Seq<char>| map_of(pairs).dom().contains(k) implies keys.to_set().contains(
        k,
    ) by {
        let i = choose|i: int| key_at(pairs, k, i);
        assert(keys[i] == k);
    }
    vstd::seq_lib::seq_to_set_is_finite(keys);
    assert(map_of(pairs).dom().subset_of(keys.to_set()));
    vstd::set_lib::lemma_set_subset_finite(keys.to_set(), map_of(pairs).dom());
}

proof fn lemma_raw_states(raw: StrMap<RawStateEntry>)
    ensures
        raw_states(raw@).dom().finite(),
        forall|id: Seq<char>| #[trigger]
            raw_states(raw@).dom().contains(id) ==> drafted_edges(raw_states(raw@)[id]),
{
    lemma_finite(raw.pairs());
    assert(raw_states(raw@).dom() =~= raw@.dom());
    assert forall|id: Seq<char>| #[trigger] raw_states(raw@).dom().contains(id) implies drafted_edges(
        raw_states(raw@)[id],
    ) by {
        lemma_finite(raw@[id].directives.pairs());
        assert(directives_of(raw@[id].directives@).dom() =~= raw@[id].directives@.dom());
    }
}

proof fn lemma_with_tasks(
    base: Map<Seq<char>, StateView>,
    tasks: Seq<RawTaskEntry>,
    rule_on_fail: Option<Seq<char>>,
    n: nat,
)
    requires
        n <= tasks.len(),
        base.dom().finite(),
        forall|id: Seq<char>| #[trigger] base.dom().contains(id) ==> drafted_edges(base[id]),
    ensures
        with_tasks(base, tasks, rule_on_fail, n).dom().finite(),
        forall|id: Seq<char>| #[trigger]
            with_tasks(base, tasks, rule_on_fail, n).dom().contains(id) ==> drafted_edges(
                with_tasks(base, tasks, rule_on_fail, n)[id],
            ),
    decreases n,
{
    if n > 0 {
        lemma_with_tasks(base, tasks, rule_on_fail, (n - 1) as nat);
        let task = tasks[n - 1];
        lemma_finite(task.directives.pairs());
        assert(directives_of(task.directives@).dom() =~= task.directives@.dom());
        assert(drafted_edges(task_state(task, next_task(tasks, n - 1), rule_on_fail)));
    }
}

/// What a rule expands to has finitely many states, with finitely many
/// directives each; what is not settled yet was a built-in terminal.
proof fn lemma_rule_edges(raw: RawRuleEntry, rule: nat, cap: u32, allow_empty: bool, r: RuleView)
    requires
        expanded_rule(raw, rule, cap, allow_empty) == Ok::<RuleView, ExpandErrorView>(r),
    ensures
        r.machine.states.dom().finite(),
        forall|id: Seq<char>| #[trigger]
            r.machine.states.dom().contains(id) ==> r.machine.states[id].directives.dom().finite(),
        forall|n: nat| #[trigger] machine_errors(r.machine, n).len() == 0 ==> sound_edges(r.machine),
{
    if raw.body is Empty && allow_empty {
        assert(r.machine.states.dom() =~= Set::empty());
    } else {
        let m = drafted(raw.body, rule)->Ok_0;
        match raw.body {
            RawRuleBody::Empty {  } => {},
            RawRuleBody::Canonical { start, states, terminals, .. } => {
                lemma_raw_states(states);
            },
            RawRuleBody::Sugar { tasks, states, terminals, on_fail } => {
                lemma_raw_states(states);
                lemma_with_tasks(
                    raw_states(states@),
                    tasks@,
                    opt_view(on_fail),
                    tasks.len() as nat,
                );
            },
        }
        let n = finished(m, cap);
        let b = with_builtins(m);
        assert(b.states == m.states);
        assert(n.states.dom() =~= m.states.dom());
        assert(n.terminals == b.terminals);
        let dom = n.terminals.dom();
        assert forall|id: Seq<char>| #[trigger] n.states.dom().contains(id) implies {
            &&& n.states[id].directives.dom().finite()
            &&& n.states[id].on_done == settled(dom, m.states[id].on_done)
            &&& n.states[id].on_fail == settled(dom, m.states[id].on_fail)
            &&& n.states[id].directives.dom() == m.states[id].directives.dom()
        } by {
            let s = m.states[id];
            assert(drafted_edges(s));
            assert(n.states[id].directives.dom() =~= s.directives.dom());
        }
        assert forall|k: nat| #[trigger] machine_errors(n, k).len() == 0 implies sound_edges(n) by {
            let ids = sorted_keys(n.states.dom());
            lemma_sortable(n.states.dom());
            assert(states_errors(n, k, ids, ids.len()).len() == 0);
            assert forall|id: Seq<char>| #[trigger] n.states.dom().contains(id) implies sound_edge(
                n,
                n.states[id].on_done,
            ) && sound_edge(n, n.states[id].on_fail) && forall|d: Seq<char>| #[trigger]
                n.states[id].directives.dom().contains(d) ==> sound_edge(
                    n,
                    n.states[id].directives[d],
                ) by {
                let s = m.states[id];
                let t = n.states[id];
                assert(drafted_edges(s));
                assert(ids.contains(id));
                let i = choose|i: int| 0 <= i < ids.len() && ids[i] == id;
                lemma_state_error_free(n, k, ids, ids.len(), i);
                assert(edge_errors(n, t, k).len() == 0);
                lemma_settled_is_sound(m, cap, id, s.on_done);
                lemma_settled_is_sound(m, cap, id, s.on_fail);
                let names = sorted_keys(t.directives.dom());
                lemma_sortable(t.directives.dom());
                assert forall|d: Seq<char>| #[trigger] t.directives.dom().contains(d) implies sound_edge(
                    n,
                    t.directives[d],
                ) by {
                    assert(names.contains(d));
                    let j = choose|j: int| 0 <= j < names.len() && names[j] == d;
                    lemma_directive_error_free(n, t, k, names, names.len(), j);
                    assert(s.directives.dom().contains(d));
                    assert(t.directives[d] == settled(dom, s.directives[d]));
                }
            }
        }
    }
}

/// A terminal edge that was drafted leads to a terminal that is there.
proof fn lemma_settled_is_sound(m: MachineView, cap: u32, id: Seq<char>, e: EdgeView)
    requires
        m.states.dom().contains(id),
        e == m.states[id].on_done || e == m.states[id].on_fail,
        e matches EdgeView::Terminal(t) ==> is_builtin(t),
    ensures
        settled(finished(m, cap).terminals.dom(), e) matches EdgeView::Terminal(t)
            ==> finished(m, cap).terminals.dom().contains(t),
{
    if let EdgeView::Terminal(t) = e {
        law_builtins_only_where_referenced(m, cap, t);
        assert(names_id(m.states[id], t));
        assert(referenced(m, t));
    }
}

proof fn lemma_state_error_free(m: MachineView, rule: nat, ids: Seq<Seq<char>>, n: nat, i: int)
    requires
        states_errors(m, rule, ids, n).len() == 0,
        0 <= i < n <= ids.len(),
    ensures
        state_errors(m, ids[i], rule).len() == 0,
    decreases n,
{
    if i < n - 1 {
        lemma_state_error_free(m, rule, ids, (n - 1) as nat, i);
    }
}

proof fn lemma_directive_error_free(
    m: MachineView,
    s: StateView,
    rule: nat,
    names: Seq<Seq<char>>,
    n: nat,
    i: int,
)
    requires
        directive_errors(m, s, rule, names, n).len() == 0,
        0 <= i < n <= names.len(),
    ensures
        target_errors(m, s.directives[names[i]], s.id, rule).len() == 0,
    decreases n,
{
    if i < n - 1 {
        lemma_directive_error_free(m, s, rule, names, (n - 1) as nat, i);
    }
}

proof fn lemma_section_sound(
    raw: Seq<RawRuleEntry>,
    cap: u32,
    allow_empty: bool,
    n: nat,
    base: nat,
    rules: Seq<RuleView>,
)
    requires
        n <= raw.len(),
        expanded_section(raw, cap, allow_empty, n) == Ok::<Seq<RuleView>, ExpandErrorView>(rules),
        section_errors(rules, base, n).len() == 0,
    ensures
        rules.len() == n,
        forall|i: int| 0 <= i < n ==> sound_edges((#[trigger] rules[i]).machine),
    decreases n,
{
    if n > 0 {
        let k = (n - 1) as nat;
        let before = expanded_section(raw, cap, allow_empty, k)->Ok_0;
        let last = expanded_rule(raw[n - 1], k, cap, allow_empty)->Ok_0;
        lemma_section_len(raw, cap, allow_empty, k);
        assert(rules == before.push(last));
        lemma_section_errors_prefix(before, rules, base, k);
        lemma_section_sound(raw, cap, allow_empty, k, base, before);
        lemma_rule_edges(raw[n - 1], k, cap, allow_empty, last);
        assert(rules[n - 1] == last);
        assert(machine_errors(last.machine, (base + n - 1) as nat).len() == 0);
    }
}

proof fn lemma_section_errors_prefix(a: Seq<RuleView>, b: Seq<RuleView>, base: nat, n: nat)
    requires
        n <= a.len() <= b.len(),
        forall|i: int| 0 <= i < n ==> a[i] == b[i],
    ensures
        section_errors(a, base, n) == section_errors(b, base, n),
    decreases n,
{
    if n > 0 {
        lemma_section_errors_prefix(a, b, base, (n - 1) as nat);
    }
}

/// No edge of an expanded workflow dangles or is taken for something else: in
/// every machine that passes, an edge leads to a declared terminal, as a
/// terminal edge, or to a declared state that is no terminal.
pub proof fn law_expanded_edges_are_sound(raw: RawWorkflow, cap: u32, f: FileView)
    requires
        expanded(raw, cap) == Ok::<FileView, ExpandErrorView>(f),
        file_errors(f).len() == 0,
    ensures
        forall|i: int| 0 <= i < f.rules.len() ==> sound_edges((#[trigger] f.rules[i]).machine),
        forall|i: int| 0 <= i < f.cleanup.len() ==> sound_edges((#[trigger] f.cleanup[i]).machine),
        forall|i: int|
            0 <= i < f.on_failure.len() ==> sound_edges((#[trigger] f.on_failure[i]).machine),
{
    let a = raw.rules.len() as nat;
    let b = raw.cleanup.len() as nat;
    let c = raw.on_failure.len() as nat;
    lemma_section_len(raw.rules@, cap, false, a);
    lemma_section_len(raw.cleanup@, cap, true, b);
    lemma_section_len(raw.on_failure@, cap, false, c);
    lemma_section_sound(raw.rules@, cap, false, a, 0, f.rules);
    lemma_section_sound(raw.cleanup@, cap, true, b, a, f.cleanup);
    lemma_section_sound(raw.on_failure@, cap, false, c, a + b, f.on_failure);
}

/// Marking the edges a second time changes nothing.
pub proof fn law_settling_is_idempotent(m: MachineView)
    ensures
        with_settled_edges(with_settled_edges(m)) == with_settled_edges(m),
{
    let n = with_settled_edges(m);
    let dom = m.terminals.dom();
    assert forall|id: Seq<char>| n.states.dom().contains(id) implies with_settled_edges(n).states[id]
        == n.states[id] by {
        let t = n.states[id];
        assert(t == settled_state(dom, m.states[id]));
        assert(settled_state(dom, t).directives =~= t.directives);
    }
    assert(with_settled_edges(n).states =~= n.states);
}

} // verus!

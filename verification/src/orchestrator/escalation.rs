//! Escalations: what is surfaced to the operator, and what a live session is
//! told of it.
use vstd::prelude::*;

use crate::json::{collect_texts, texts_of, Json, JsonView, NumberView};
use crate::orchestrator::state::IssueId;
use crate::strmap::{key_at, lemma_map_of, StrMap};
use crate::text::{clone_opt, lemma_lex_irreflexive, lemma_lex_total, lemma_lex_transitive, lex_lt, list_contains, listed, opt_view, str_lt, views};

verus! {

#[derive(Debug, Clone, Copy, PartialEq, Eq, Hash, Structural)]
pub enum EscalationKind {
    PhaseStall,
    RetryExhausted,
    FsPoison,
    Orphan,
    OrchestratorCrash,
    OrchestratorUnparseable,
    OrchestratorBudgetExhausted,
}

impl EscalationKind {
    /// The name on the wire.
    pub open spec fn wire_name(self) -> Seq<char> {
        match self {
            EscalationKind::PhaseStall => "phase_stall"@,
            EscalationKind::RetryExhausted => "retry_exhausted"@,
            EscalationKind::FsPoison => "fs_poison"@,
            EscalationKind::Orphan => "orphan"@,
            EscalationKind::OrchestratorCrash => "orchestrator_crash"@,
            EscalationKind::OrchestratorUnparseable => "orchestrator_unparseable"@,
            EscalationKind::OrchestratorBudgetExhausted => "orchestrator_budget_exhausted"@,
        }
    }

    /// The orchestrator that the escalation is about is dead.
    pub open spec fn dead(self) -> bool {
        ||| self is OrchestratorCrash
        ||| self is OrchestratorUnparseable
        ||| self is OrchestratorBudgetExhausted
    }

    pub fn wire(self) -> (s: &'static str)
        ensures
            s@ == self.wire_name(),
    {
        match self {
            EscalationKind::PhaseStall => "phase_stall",
            EscalationKind::RetryExhausted => "retry_exhausted",
            EscalationKind::FsPoison => "fs_poison",
            EscalationKind::Orphan => "orphan",
            EscalationKind::OrchestratorCrash => "orchestrator_crash",
            EscalationKind::OrchestratorUnparseable => "orchestrator_unparseable",
            EscalationKind::OrchestratorBudgetExhausted => "orchestrator_budget_exhausted",
        }
    }

    pub fn is_orchestrator_dead(self) -> (r: bool)
        ensures
            r == self.dead(),
    {
        matches!(
            self,
            EscalationKind::OrchestratorCrash | EscalationKind::OrchestratorUnparseable
                | EscalationKind::OrchestratorBudgetExhausted
        )
    }
}

/// One escalation.
#[derive(Debug, PartialEq, Eq)]
pub struct EscalationEntry {
    pub issue: IssueId,
    pub repo: Option<String>,
    pub kind: EscalationKind,
    pub correlation_id: String,
    /// Nanoseconds since the Unix epoch.
    pub timestamp: i128,
    pub structured_fields: Json,
}

#[verifier::ext_equal]
pub struct EscalationView {
    pub issue: Seq<char>,
    pub repo: Option<Seq<char>>,
    pub kind: EscalationKind,
    pub correlation_id: Seq<char>,
    pub timestamp: i128,
    pub fields: JsonView,
}

impl View for EscalationEntry {
    type V = EscalationView;

    open spec fn view(&self) -> EscalationView {
        EscalationView {
            issue: self.issue@,
            repo: opt_view(self.repo),
            kind: self.kind,
            correlation_id: self.correlation_id@,
            timestamp: self.timestamp,
            fields: self.structured_fields@,
        }
    }
}

impl Clone for EscalationEntry {
    fn clone(&self) -> (r: Self)
        ensures
            r@ == self@,
    {
        EscalationEntry {
            issue: self.issue.clone(),
            repo: clone_opt(&self.repo),
            kind: self.kind,
            correlation_id: self.correlation_id.clone(),
            timestamp: self.timestamp,
            structured_fields: self.structured_fields.clone(),
        }
    }
}

/// Escalations are listed by time, and by issue where the times agree.
pub open spec fn listed_before(a: EscalationView, b: EscalationView) -> bool {
    a.timestamp < b.timestamp || (a.timestamp == b.timestamp && lex_lt(a.issue, b.issue))
}

proof fn lemma_before_transitive(a: EscalationView, b: EscalationView, c: EscalationView)
    requires
        listed_before(a, b),
        listed_before(b, c),
    ensures
        listed_before(a, c),
{
    if lex_lt(a.issue, b.issue) && lex_lt(b.issue, c.issue) {
        lemma_lex_transitive(a.issue, b.issue, c.issue);
    }
}

/// The escalations that are open, one per issue.
#[derive(Debug)]
pub struct EscalationQueue {
    entries: StrMap<EscalationEntry>,
}

impl View for EscalationQueue {
    type V = Map<Seq<char>, EscalationView>;

    closed spec fn view(&self) -> Map<Seq<char>, EscalationView> {
        self.entries@.map_values(|e: EscalationEntry| e@)
    }
}

/// `out` lists the escalations of `m` in order, each one once.
pub open spec fn lists_escalations(
    m: Map<Seq<char>, EscalationView>,
    out: Seq<EscalationEntry>,
) -> bool {
    &&& forall|i: int, j: int|
        0 <= i < j < out.len() ==> listed_before((#[trigger] out[i])@, (#[trigger] out[j])@)
    &&& forall|i: int|
        0 <= i < out.len() ==> m.dom().contains((#[trigger] out[i])@.issue)
            && m[out[i]@.issue] == out[i]@
    &&& forall|k: Seq<char>|
        m.dom().contains(k) ==> exists|i: int| 0 <= i < out.len() && (#[trigger] out[i])@ == m[k]
}

impl EscalationQueue {
    #[verifier::type_invariant]
    spec fn keyed_by_issue(self) -> bool {
        forall|k: Seq<char>| #[trigger]
            self.entries@.dom().contains(k) ==> self.entries@[k]@.issue == k
    }

    pub fn new() -> (q: EscalationQueue)
        ensures
            q@ == Map::<Seq<char>, EscalationView>::empty(),
    {
        let q = EscalationQueue { entries: StrMap::new() };
        assert(q@ =~= Map::<Seq<char>, EscalationView>::empty());
        q
    }

    /// Records `entry`; it takes the place of an older one for the same issue.
    pub fn enqueue(&mut self, entry: EscalationEntry)
        ensures
            final(self)@ == old(self)@.insert(entry@.issue, entry@),
    {
        proof {
            use_type_invariant(&*self);
        }
        let mut entries: StrMap<EscalationEntry> = StrMap::new();
        std::mem::swap(&mut entries, &mut self.entries);
        entries.insert(entry.issue.to_string(), entry);
        self.entries = entries;
        assert(self@ =~= old(self)@.insert(entry@.issue, entry@));
    }

    /// The open escalations, by time and then by issue.
    pub fn snapshot(&self) -> (out: Vec<EscalationEntry>)
        ensures
            lists_escalations(self@, out@),
    {
        proof {
            use_type_invariant(self);
        }
        let n: usize = self.entries.len();
        let ghost pairs = self.entries.pairs();
        let ghost m = self@;
        let mut out: Vec<EscalationEntry> = Vec::new();
        let mut i: usize = 0;
        while i < n
            invariant
                i <= n == pairs.len(),
                pairs == self.entries.pairs(),
                crate::strmap::ascending(pairs),
                m == self@,
                forall|k: Seq<char>| #[trigger]
                    self.entries@.dom().contains(k) ==> self.entries@[k]@.issue == k,
                forall|x: int, y: int|
                    0 <= x < y < out.len() ==> listed_before(
                        (#[trigger] out@[x])@,
                        (#[trigger] out@[y])@,
                    ),
                forall|x: int|
                    0 <= x < out.len() ==> m.dom().contains((#[trigger] out@[x])@.issue)
                        && m[out@[x]@.issue] == out@[x]@,
                forall|x: int, q: int|
                    0 <= x < out.len() && i <= q < n ==> (#[trigger] out@[x])@.issue != (
                    #[trigger] pairs[q]).0@,
                forall|j: int|
                    0 <= j < i ==> exists|x: int|
                        0 <= x < out.len() && (#[trigger] out@[x])@ == (#[trigger] pairs[j]).1@,
            decreases n - i,
        {
            let e = self.entries.value(i);
            proof {
                lemma_map_of(pairs, i as int);
            }
            let ghost ev = e@;
            let ghost before = out@;
            // The new entry's issue differs from those listed so far.
            proof {
                assert forall|x: int| 0 <= x < before.len() implies (#[trigger] before[x])@.issue
                    != ev.issue by {
                    assert(before[x]@.issue != pairs[i as int].0@);
                }
            }
            let mut at: usize = 0;
            while at < out.len() && entry_less(&out[at], e)
                invariant
                    at <= out.len(),
                    out@ == before,
                    ev == e@,
                    forall|x: int| 0 <= x < at ==> listed_before((#[trigger] before[x])@, ev),
                decreases out.len() - at,
            {
                at += 1;
            }
            out.insert(at, e.clone());
            proof {
                let after = out@;
                assert(after[at as int]@ == ev);
                assert forall|x: int, y: int| 0 <= x < y < after.len() implies listed_before(
                    (#[trigger] after[x])@,
                    (#[trigger] after[y])@,
                ) by {
                    let bx = if x < at { x } else { x - 1 };
                    let by = if y < at { y } else { y - 1 };
                    if x == at {
                        assert(after[y] == before[by]);
                        lemma_order_total(before[at as int]@, ev);
                        if by > at {
                            assert(listed_before(before[at as int]@, before[by]@));
                            lemma_before_transitive(ev, before[at as int]@, before[by]@);
                        }
                    } else if y == at {
                        assert(after[x] == before[bx]);
                    } else {
                        assert(after[x] == before[bx]);
                        assert(after[y] == before[by]);
                    }
                }
                assert forall|x: int| 0 <= x < after.len() implies m.dom().contains(
                    (#[trigger] after[x])@.issue,
                ) && m[after[x]@.issue] == after[x]@ by {
                    if x != at {
                        let bx = if x < at { x } else { x - 1 };
                        assert(after[x] == before[bx]);
                    }
                }
                assert forall|x: int, q: int|
                    0 <= x < after.len() && i + 1 <= q < n implies (#[trigger] after[x])@.issue != (
                #[trigger] pairs[q]).0@ by {
                    if x != at {
                        let bx = if x < at { x } else { x - 1 };
                        assert(after[x] == before[bx]);
                    } else {
                        assert(lex_lt(pairs[i as int].0@, pairs[q].0@));
                        lemma_lex_irreflexive(ev.issue);
                    }
                }
                assert forall|j: int| 0 <= j < i + 1 implies exists|x: int|
                    0 <= x < after.len() && (#[trigger] after[x])@ == (#[trigger] pairs[j]).1@ by {
                    if j < i {
                        let x = choose|x: int|
                            0 <= x < before.len() && (#[trigger] before[x])@ == pairs[j].1@;
                        let ax = if x < at { x } else { x + 1 };
                        assert(after[ax] == before[x]);
                    } else {
                        assert(after[at as int]@ == pairs[j].1@);
                    }
                }
            }
            i += 1;
        }
        proof {
            assert forall|k: Seq<char>| m.dom().contains(k) implies exists|x: int|
                0 <= x < out.len() && (#[trigger] out@[x])@ == m[k] by {
                let j = choose|j: int| key_at(pairs, k, j);
                lemma_map_of(pairs, j);
                let x = choose|x: int|
                    0 <= x < out.len() && (#[trigger] out@[x])@ == (#[trigger] pairs[j]).1@;
                assert(out@[x]@ == m[k]);
            }
        }
        out
    }

    pub fn len(&self) -> (n: usize)
        ensures
            n == self@.dom().len(),
            self@.dom().finite(),
    {
        let n: usize = self.entries.len();
        proof {
            crate::strmap::lemma_len(self.entries.pairs());
            assert(self@.dom() =~= self.entries@.dom());
        }
        n
    }

    pub fn is_empty(&self) -> (r: bool)
        ensures
            r == (self@ == Map::<Seq<char>, EscalationView>::empty()),
    {
        let r = self.entries.is_empty();
        proof {
            assert(self@.dom() =~= self.entries@.dom());
            if r {
                assert(self@ =~= Map::<Seq<char>, EscalationView>::empty());
            } else if self@ == Map::<Seq<char>, EscalationView>::empty() {
                assert(self.entries@ =~= Map::<Seq<char>, EscalationEntry>::empty());
            }
        }
        r
    }

    pub fn get(&self, issue: &IssueId) -> (r: Option<EscalationEntry>)
        ensures
            r is Some == self@.dom().contains(issue@),
            r matches Some(e) ==> e@ == self@[issue@],
    {
        match self.entries.get(issue.as_str()) {
            Some(e) => Some(e.clone()),
            None => None,
        }
    }

    pub fn clear(&mut self, issue: &IssueId)
        ensures
            final(self)@ == old(self)@.remove(issue@),
    {
        proof {
            use_type_invariant(&*self);
        }
        let mut entries: StrMap<EscalationEntry> = StrMap::new();
        std::mem::swap(&mut entries, &mut self.entries);
        let _ = entries.remove(issue.as_str());
        self.entries = entries;
        assert(self@ =~= old(self)@.remove(issue@));
    }
}

proof fn lemma_order_total(a: EscalationView, b: EscalationView)
    requires
        a.issue != b.issue,
        !listed_before(a, b),
    ensures
        listed_before(b, a),
{
    lemma_lex_total(a.issue, b.issue);
}

fn entry_less(a: &EscalationEntry, b: &EscalationEntry) -> (r: bool)
    ensures
        r == listed_before(a@, b@),
{
    a.timestamp < b.timestamp || (a.timestamp == b.timestamp && str_lt(
        a.issue.as_str(),
        b.issue.as_str(),
    ))
}

// ---------------------------------------------------------------------------
// Directives
// ---------------------------------------------------------------------------

/// What a live session is told of an escalation.
#[derive(Debug, PartialEq, Eq)]
pub struct DaemonDirectivePayload {
    pub kind: String,
    pub correlation_id: String,
    pub repos: Vec<String>,
    pub worktree_path: Option<String>,
    pub last_subtype: Option<String>,
    pub attempts: Option<u32>,
    pub window_ms: Option<u64>,
    pub errno: Option<i32>,
}

#[verifier::ext_equal]
pub struct DirectiveView {
    pub kind: Seq<char>,
    pub correlation_id: Seq<char>,
    pub repos: Seq<Seq<char>>,
    pub worktree_path: Option<Seq<char>>,
    pub last_subtype: Option<Seq<char>>,
    pub attempts: Option<u32>,
    pub window_ms: Option<u64>,
    pub errno: Option<i32>,
}

impl View for DaemonDirectivePayload {
    type V = DirectiveView;

    open spec fn view(&self) -> DirectiveView {
        DirectiveView {
            kind: self.kind@,
            correlation_id: self.correlation_id@,
            repos: views(self.repos@),
            worktree_path: opt_view(self.worktree_path),
            last_subtype: opt_view(self.last_subtype),
            attempts: self.attempts,
            window_ms: self.window_ms,
            errno: self.errno,
        }
    }
}

/// The unsigned integer under `k`.
pub open spec fn field_u64(fields: JsonView, k: Seq<char>) -> Option<u64> {
    match fields.field(k) {
        Some(v) => v.unsigned(),
        None => None,
    }
}

/// The same, if it fits in 32 bits.
pub open spec fn field_u32(fields: JsonView, k: Seq<char>) -> Option<u32> {
    match field_u64(fields, k) {
        Some(n) => if n <= u32::MAX {
            Some(n as u32)
        } else {
            None
        },
        None => None,
    }
}

/// The signed integer under `k`, if it fits in 32 bits.
pub open spec fn field_i32(fields: JsonView, k: Seq<char>) -> Option<i32> {
    match fields.field(k) {
        Some(v) => match v.signed() {
            Some(n) => if i32::MIN <= n <= i32::MAX {
                Some(n as i32)
            } else {
                None
            },
            None => None,
        },
        None => None,
    }
}

/// The string items of the array under `k`.
pub open spec fn field_texts(fields: JsonView, k: Seq<char>) -> Seq<Seq<char>> {
    match fields.field(k) {
        Some(v) => match v.items() {
            Some(items) => texts_of(items, items.len()),
            None => Seq::empty(),
        },
        None => Seq::empty(),
    }
}

/// The directive for an escalation with these fields.
pub open spec fn directive_of(fields: JsonView, kind: EscalationKind, correlation_id: Seq<char>) -> DirectiveView {
    DirectiveView {
        kind: kind.wire_name(),
        correlation_id,
        repos: field_texts(fields, "repos"@),
        worktree_path: fields.field_text("worktree_path"@),
        last_subtype: fields.field_text("last_subtype"@),
        attempts: field_u32(fields, "attempts"@),
        window_ms: field_u64(fields, "window_ms"@),
        errno: field_i32(fields, "errno"@),
    }
}

fn collect_repos(fields: &Json) -> (out: Vec<String>)
    ensures
        views(out@) == field_texts(fields@, "repos"@),
{
    match fields.get("repos") {
        Some(v) => match v.as_array() {
            Some(items) => collect_texts(items),
            None => {
                let none: Vec<String> = Vec::new();
                assert(views(none@) =~= Seq::<Seq<char>>::empty());
                none
            },
        },
        None => {
            let none: Vec<String> = Vec::new();
            assert(views(none@) =~= Seq::<Seq<char>>::empty());
            none
        },
    }
}

fn extract_str(fields: &Json, key: &str) -> (r: Option<String>)
    ensures
        opt_view(r) == fields@.field_text(key@),
{
    match fields.get_str(key) {
        Some(s) => Some(s.to_owned()),
        None => None,
    }
}

fn extract_u64(fields: &Json, key: &str) -> (r: Option<u64>)
    ensures
        r == field_u64(fields@, key@),
{
    match fields.get(key) {
        Some(v) => v.as_u64(),
        None => None,
    }
}

fn extract_u32(fields: &Json, key: &str) -> (r: Option<u32>)
    ensures
        r == field_u32(fields@, key@),
{
    match extract_u64(fields, key) {
        Some(n) => if n <= u32::MAX as u64 {
            Some(n as u32)
        } else {
            None
        },
        None => None,
    }
}

fn extract_i32(fields: &Json, key: &str) -> (r: Option<i32>)
    ensures
        r == field_i32(fields@, key@),
{
    match fields.get(key) {
        Some(v) => match v.as_i64() {
            Some(n) => if i32::MIN as i64 <= n && n <= i32::MAX as i64 {
                Some(n as i32)
            } else {
                None
            },
            None => None,
        },
        None => None,
    }
}

/// The directive for an escalation.
pub fn build_directive_payload(fields: &Json, kind: EscalationKind, correlation_id: &str) -> (p:
    DaemonDirectivePayload)
    ensures
        p@ == directive_of(fields@, kind, correlation_id@),
{
    DaemonDirectivePayload {
        kind: kind.wire().to_owned(),
        correlation_id: correlation_id.to_owned(),
        repos: collect_repos(fields),
        worktree_path: extract_str(fields, "worktree_path"),
        last_subtype: extract_str(fields, "last_subtype"),
        attempts: extract_u32(fields, "attempts"),
        window_ms: extract_u64(fields, "window_ms"),
        errno: extract_i32(fields, "errno"),
    }
}

/// How a directive was routed.
#[derive(Debug, Clone, Copy, PartialEq, Eq, Structural)]
pub enum RouteOutcome {
    Delivered,
    DeliveryFailed,
    OrchestratorDeadNoDelivery,
    NoLiveHandle,
}

/// What to do with a directive.
#[derive(Debug, PartialEq, Eq)]
pub enum RoutePlan {
    /// Nothing is sent.
    Settled(RouteOutcome),
    /// The payload is sent to the session.
    Send(DaemonDirectivePayload),
}

/// Decides whether a directive is sent: nothing is sent for a dead
/// orchestrator, nor where no session is there to take it.
pub fn route_daemon_directive(
    orchestrator_alive: bool,
    kind: EscalationKind,
    fields: &Json,
    correlation_id: &str,
    has_handle: bool,
) -> (plan: RoutePlan)
    ensures
        kind.dead() ==> plan == RoutePlan::Settled(RouteOutcome::OrchestratorDeadNoDelivery),
        !kind.dead() && !(orchestrator_alive && has_handle) ==> plan == RoutePlan::Settled(
            RouteOutcome::NoLiveHandle,
        ),
        !kind.dead() && orchestrator_alive && has_handle ==> (plan matches RoutePlan::Send(p)
            && p@ == directive_of(fields@, kind, correlation_id@)),
{
    if kind.is_orchestrator_dead() {
        return RoutePlan::Settled(RouteOutcome::OrchestratorDeadNoDelivery);
    }
    if !orchestrator_alive || !has_handle {
        return RoutePlan::Settled(RouteOutcome::NoLiveHandle);
    }
    RoutePlan::Send(build_directive_payload(fields, kind, correlation_id))
}

/// What became of a directive that was sent.
pub fn delivery_outcome(sent: bool) -> (o: RouteOutcome)
    ensures
        o == (if sent {
            RouteOutcome::Delivered
        } else {
            RouteOutcome::DeliveryFailed
        }),
{
    if sent {
        RouteOutcome::Delivered
    } else {
        RouteOutcome::DeliveryFailed
    }
}

/// The first `n` expected texts that are not among the actual ones, in order.
pub open spec fn missing(expected: Seq<String>, actual: Seq<String>, n: nat) -> Seq<Seq<char>>
    decreases n,
{
    if n == 0 {
        Seq::empty()
    } else if listed(actual, expected[n - 1]@) {
        missing(expected, actual, (n - 1) as nat)
    } else {
        missing(expected, actual, (n - 1) as nat).push(expected[n - 1]@)
    }
}

/// The writes that were expected and did not happen, in the expected order.
pub fn detect_partial_writes(expected: &Vec<String>, actual: &Vec<String>) -> (out: Vec<String>)
    ensures
        views(out@) == missing(expected@, actual@, expected.len() as nat),
{
    let mut out: Vec<String> = Vec::new();
    let mut i: usize = 0;
    assert(views(out@) =~= Seq::<Seq<char>>::empty());
    while i < expected.len()
        invariant
            i <= expected.len(),
            views(out@) == missing(expected@, actual@, i as nat),
        decreases expected.len() - i,
    {
        if !list_contains(actual, expected[i].as_str()) {
            let ghost before = views(out@);
            out.push(expected[i].clone());
            assert(views(out@) =~= before.push(expected@[i as int]@));
        }
        i += 1;
    }
    out
}

/// A write is reported missing if and only if it was expected and is not among
/// the actual ones.
pub proof fn law_partial_writes_are_exact(
    expected: Seq<String>,
    actual: Seq<String>,
    x: Seq<char>,
    n: nat,
)
    requires
        n <= expected.len(),
    ensures
        missing(expected, actual, n).contains(x) <==> listed(expected.take(n as int), x) && !listed(
            actual,
            x,
        ),
    decreases n,
{
    let m = missing(expected, actual, n);
    if n > 0 {
        law_partial_writes_are_exact(expected, actual, x, (n - 1) as nat);
        let p = missing(expected, actual, (n - 1) as nat);
        let head = expected.take(n as int);
        let shorter = expected.take(n - 1);
        let e = expected[n - 1]@;
        if m.contains(x) {
            let i = choose|i: int| 0 <= i < m.len() && m[i] == x;
            if !listed(actual, e) && i == p.len() {
                assert(head[n - 1]@ == x);
            } else {
                assert(p[i] == x);
                assert(p.contains(x));
            }
        }
        if listed(shorter, x) {
            let i = choose|i: int| 0 <= i < shorter.len() && shorter[i]@ == x;
            assert(head[i]@ == x);
        }
        if listed(head, x) && !listed(actual, x) {
            let i = choose|i: int| 0 <= i < head.len() && head[i]@ == x;
            if i == n - 1 {
                assert(m[m.len() - 1] == x);
            } else {
                assert(shorter[i]@ == x);
                assert(p.contains(x));
                let k = choose|k: int| 0 <= k < p.len() && p[k] == x;
                assert(m[k] == x);
            }
        }
    }
}

/// The latest escalation of an issue is the one that is kept; those of other
/// issues are not touched.
pub proof fn law_latest_escalation_wins(
    queue: Map<Seq<char>, EscalationView>,
    first: EscalationView,
    second: EscalationView,
    other: Seq<char>,
)
    requires
        first.issue == second.issue,
        other != first.issue,
    ensures
        queue.insert(first.issue, first).insert(second.issue, second) == queue.insert(
            second.issue,
            second,
        ),
        queue.insert(first.issue, first).dom().contains(other) == queue.dom().contains(other),
        queue.dom().contains(other) ==> queue.insert(first.issue, first)[other] == queue[other],
{
    assert(queue.insert(first.issue, first).insert(second.issue, second) =~= queue.insert(
        second.issue,
        second,
    ));
}

proof fn lemma_texts(items: Seq<JsonView>, n: nat, s: Seq<char>)
    requires
        n <= items.len(),
    ensures
        texts_of(items, n).contains(s) <==> exists|i: int|
            0 <= i < n && #[trigger] items[i] == JsonView::Text(s),
        (forall|i: int| 0 <= i < n ==> (#[trigger] items[i]) is Text) ==> texts_of(items, n).len() == n
            && forall|i: int|
            0 <= i < n ==> items[i] == JsonView::Text(#[trigger] texts_of(items, n)[i]),
    decreases n,
{
    if n > 0 {
        let m = (n - 1) as nat;
        lemma_texts(items, m, s);
        let before = texts_of(items, m);
        let now = texts_of(items, n);
        if now.contains(s) {
            let k = choose|k: int| 0 <= k < now.len() && now[k] == s;
            if k < before.len() {
                assert(before[k] == s);
                assert(before.contains(s));
            } else {
                assert(items[n - 1] == JsonView::Text(s));
            }
        }
        if exists|i: int| 0 <= i < n && #[trigger] items[i] == JsonView::Text(s) {
            let i = choose|i: int| 0 <= i < n && #[trigger] items[i] == JsonView::Text(s);
            if i == n - 1 {
                assert(now[now.len() - 1] == s);
            } else {
                assert(before.contains(s));
                let k = choose|k: int| 0 <= k < before.len() && before[k] == s;
                assert(now[k] == s);
            }
        }
    }
}

/// A directive tells what was recorded of the escalation, each thing under its
/// own name and as far as it has the right shape: texts, numbers that fit, and
/// the texts of the list of repositories.
pub proof fn law_directive_tells_what_was_recorded(
    fields: JsonView,
    kind: EscalationKind,
    correlation_id: Seq<char>,
    s: Seq<char>,
    n: u64,
    z: i64,
)
    ensures
        ({
            let d = directive_of(fields, kind, correlation_id);
            &&& d.correlation_id == correlation_id
            &&& d.worktree_path == Some(s) <==> fields.field("worktree_path"@) == Some(
                JsonView::Text(s),
            )
            &&& d.last_subtype == Some(s) <==> fields.field("last_subtype"@) == Some(
                JsonView::Text(s),
            )
            &&& d.window_ms == Some(n) <==> fields.field("window_ms"@) == Some(
                JsonView::Number(NumberView::Unsigned(n)),
            )
            &&& (d.attempts is Some && d.attempts->0 == n) <==> n <= u32::MAX && fields.field(
                "attempts"@,
            ) == Some(JsonView::Number(NumberView::Unsigned(n)))
            &&& (d.errno is Some && d.errno->0 == z) <==> i32::MIN <= z <= i32::MAX && (fields.field(
                "errno"@,
            ) == Some(JsonView::Number(NumberView::Negative(z))) || (z >= 0 && fields.field(
                "errno"@,
            ) == Some(JsonView::Number(NumberView::Unsigned(z as u64)))))
            &&& fields.field("repos"@) matches Some(JsonView::Array(items)) ==> (d.repos.contains(s)
                <==> exists|i: int|
                0 <= i < items.len() && #[trigger] items[i] == JsonView::Text(s)) && ((forall|i: int|
                0 <= i < items.len() ==> (#[trigger] items[i]) is Text) ==> d.repos.len()
                == items.len() && forall|i: int|
                0 <= i < items.len() ==> items[i] == JsonView::Text(#[trigger] d.repos[i]))
            &&& !(fields.field("repos"@) matches Some(JsonView::Array(_))) ==> d.repos.len() == 0
        }),
{
    if let Some(JsonView::Array(items)) = fields.field("repos"@) {
        lemma_texts(items, items.len(), s);
    }
}

/// The word for each kind of escalation.
pub proof fn law_kinds_have_their_words(correlation_id: Seq<char>)
    ensures
        EscalationKind::PhaseStall.wire_name() == "phase_stall"@,
        EscalationKind::RetryExhausted.wire_name() == "retry_exhausted"@,
        EscalationKind::FsPoison.wire_name() == "fs_poison"@,
        EscalationKind::Orphan.wire_name() == "orphan"@,
        EscalationKind::OrchestratorCrash.wire_name() == "orchestrator_crash"@,
        EscalationKind::OrchestratorUnparseable.wire_name() == "orchestrator_unparseable"@,
        EscalationKind::OrchestratorBudgetExhausted.wire_name() == "orchestrator_budget_exhausted"@,
        forall|k: EscalationKind, fields: JsonView|
            (#[trigger] directive_of(fields, k, correlation_id)).kind == k.wire_name(),
{
}

} // verus!

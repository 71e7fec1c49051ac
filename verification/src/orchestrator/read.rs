//! What the outside sees of the orchestrator: copies, in a fixed order.
use vstd::prelude::*;

use crate::orchestrator::escalation::{lists_escalations, EscalationEntry, EscalationQueue, EscalationView};
use crate::orchestrator::state::{IssueId, Mode, WorkerState};
use crate::strmap::{key_views, lemma_map_of, lemma_sorted_keys, sorted_keys, StrMap};
use crate::tracker::model::LinearStateName;

verus! {

/// An issue, as it is shown.
#[derive(Debug, PartialEq, Eq)]
pub struct IssueState {
    pub issue: IssueId,
    pub state: WorkerState,
    pub mode: Option<Mode>,
    pub latest_linear_state: Option<LinearStateName>,
}

/// The issues by identifier, and the escalations.
#[derive(Debug)]
pub struct SnapshotResponse {
    pub issues: Vec<IssueState>,
    pub escalations: Vec<EscalationEntry>,
}

/// What an actor reports of itself.
#[derive(Debug, PartialEq, Eq)]
pub struct ActorSnapshot {
    pub issue: IssueId,
    pub state: WorkerState,
    pub mode: Option<Mode>,
    pub latest_linear_state: Option<LinearStateName>,
}

/// The row shows the report.
pub open spec fn shows(row: IssueState, actor: ActorSnapshot) -> bool {
    row.issue == actor.issue && row.state == actor.state && row.mode == actor.mode
        && row.latest_linear_state == actor.latest_linear_state
}

impl Clone for ActorSnapshot {
    fn clone(&self) -> (r: Self)
        ensures
            r == *self,
    {
        ActorSnapshot {
            issue: self.issue.clone(),
            state: self.state,
            mode: self.mode,
            latest_linear_state: match &self.latest_linear_state {
                Some(s) => Some(s.clone()),
                None => None,
            },
        }
    }
}

impl ActorSnapshot {
    pub fn into_issue_state(self) -> (r: IssueState)
        ensures
            shows(r, self),
    {
        IssueState {
            issue: self.issue,
            state: self.state,
            mode: self.mode,
            latest_linear_state: self.latest_linear_state,
        }
    }
}

/// The reports by issue, and the escalations.
pub struct OrchestratorReadHandle {
    state_map: StrMap<ActorSnapshot>,
    escalations: EscalationQueue,
}

/// Every report stands under its issue.
pub open spec fn keyed(reports: Map<Seq<char>, ActorSnapshot>) -> bool {
    forall|k: Seq<char>|
        reports.contains_key(k) ==> (#[trigger] reports[k]).issue@ == k
}

/// `rows` shows the reports, by issue.
pub open spec fn shows_all(rows: Seq<IssueState>, reports: Map<Seq<char>, ActorSnapshot>) -> bool {
    let keys = sorted_keys(reports.dom());
    &&& rows.len() == keys.len()
    &&& forall|i: int|
        0 <= i < rows.len() ==> (#[trigger] rows[i]).issue@ == keys[i] && shows(
            rows[i],
            reports[keys[i]],
        )
}

impl OrchestratorReadHandle {
    pub closed spec fn reports(&self) -> Map<Seq<char>, ActorSnapshot> {
        self.state_map@
    }

    pub closed spec fn open_escalations(&self) -> Map<Seq<char>, EscalationView> {
        self.escalations@
    }

    #[verifier::type_invariant]
    spec fn inv(self) -> bool {
        keyed(self.state_map@)
    }

    pub fn new(state_map: StrMap<ActorSnapshot>, escalations: EscalationQueue) -> (h: Self)
        requires
            keyed(state_map@),
        ensures
            h.reports() == state_map@,
            h.open_escalations() == escalations@,
    {
        OrchestratorReadHandle { state_map, escalations }
    }

    /// Takes a report, in place of an earlier one of the same issue.
    pub fn record(&mut self, actor: ActorSnapshot)
        ensures
            final(self).reports() == old(self).reports().insert(actor.issue@, actor),
            final(self).open_escalations() == old(self).open_escalations(),
    {
        proof {
            use_type_invariant(&*self);
        }
        let mut map = StrMap::new();
        std::mem::swap(&mut map, &mut self.state_map);
        map.insert(actor.issue.to_string(), actor);
        self.state_map = map;
    }

    fn issues_sorted(&self) -> (rows: Vec<IssueState>)
        ensures
            shows_all(rows@, self.reports()),
    {
        proof {
            use_type_invariant(self);
        }
        let n: usize = self.state_map.len();
        let mut rows: Vec<IssueState> = Vec::new();
        let ghost pairs = self.state_map.pairs();
        let ghost keys = sorted_keys(self.state_map@.dom());
        proof {
            lemma_sorted_keys(pairs);
        }
        let mut i: usize = 0;
        while i < n
            invariant
                i <= n,
                n == pairs.len(),
                rows.len() == i,
                pairs == self.state_map.pairs(),
                keys == key_views(pairs),
                crate::strmap::ascending(pairs),
                keyed(self.state_map@),
                forall|k: int|
                    0 <= k < i ==> (#[trigger] rows@[k]).issue@ == keys[k] && shows(
                        rows@[k],
                        self.state_map@[keys[k]],
                    ),
            decreases n - i,
        {
            assert(keys[i as int] == pairs[i as int].0@);
            proof {
                lemma_map_of(pairs, i as int);
                assert(self.state_map@[keys[i as int]].issue@ == keys[i as int]);
            }
            rows.push(self.state_map.value(i).clone().into_issue_state());
            i += 1;
        }
        rows
    }

    /// Everything, as it is now.
    pub fn snapshot(&self) -> (s: SnapshotResponse)
        ensures
            shows_all(s.issues@, self.reports()),
            lists_escalations(self.open_escalations(), s.escalations@),
    {
        SnapshotResponse { issues: self.issues_sorted(), escalations: self.escalations.snapshot() }
    }

    /// One issue.
    pub fn issue(&self, id: &IssueId) -> (r: Option<IssueState>)
        ensures
            r is Some == self.reports().contains_key(id@),
            r matches Some(row) ==> shows(row, self.reports()[id@]),
    {
        match self.state_map.get(id.as_str()) {
            Some(actor) => Some(actor.clone().into_issue_state()),
            None => None,
        }
    }

    /// The escalations, in order.
    pub fn escalation_queue(&self) -> (v: Vec<EscalationEntry>)
        ensures
            lists_escalations(self.open_escalations(), v@),
    {
        self.escalations.snapshot()
    }
}

/// What is shown of the issues is what they reported, each once and in ascending
/// order of their identifiers.
pub proof fn law_rows_show_every_report(
    rows: Seq<IssueState>,
    reports: Map<Seq<char>, ActorSnapshot>,
    id: Seq<char>,
)
    requires
        shows_all(rows, reports),
        reports.dom().finite(),
        keyed(reports),
    ensures
        reports.contains_key(id) <==> exists|i: int|
            0 <= i < rows.len() && (#[trigger] rows[i]).issue@ == id,
        forall|i: int| #![trigger rows[i]]
            0 <= i < rows.len() ==> {
                let r = reports[rows[i].issue@];
                rows[i].issue == r.issue && rows[i].state == r.state && rows[i].mode == r.mode
                    && rows[i].latest_linear_state == r.latest_linear_state
            },
        forall|i: int, j: int|
            0 <= i < j < rows.len() ==> crate::text::lex_lt(
                (#[trigger] rows[i]).issue@,
                (#[trigger] rows[j]).issue@,
            ),
{
    let keys = sorted_keys(reports.dom());
    crate::strmap::lemma_sortable(reports.dom());
    assert(crate::strmap::lists_sorted(keys, reports.dom()));
    if reports.contains_key(id) {
        assert(keys.contains(id));
        let i = choose|i: int| 0 <= i < keys.len() && keys[i] == id;
        assert(rows[i].issue@ == id);
    }
    if exists|i: int| 0 <= i < rows.len() && (#[trigger] rows[i]).issue@ == id {
        let i = choose|i: int| 0 <= i < rows.len() && (#[trigger] rows[i]).issue@ == id;
        assert(keys[i] == id);
        assert(keys.contains(id));
    }
}

} // verus!

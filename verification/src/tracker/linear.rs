//! Reading the tracker: requests, replies, and the pace of both.
//!
//! Nothing here writes to the tracker. A reply that asks to slow down, or none
//! at all, widens the pause before the next request; a good one ends it.
use vstd::prelude::*;

use crate::json::{entries_view, items_view, json_text, write_json, Json, JsonView};
use crate::orchestrator::state::IssueId;
use crate::strmap::StrSet;
use crate::tracker::model::{IssueView, LinearStateName, LinearUserId, NormalizedIssue};

verus! {

/// Where the tracker answers.
pub const DEFAULT_LINEAR_ENDPOINT: &'static str = "https://api.linear.app/graphql";

/// The first pause, in nanoseconds.
pub const BACKOFF_BASE: u128 = 5_000_000_000;

/// The longest pause, in nanoseconds.
pub const BACKOFF_CAP: u128 = 300_000_000_000;

/// The shortest time between two polls, in nanoseconds.
pub const DEFAULT_CADENCE_FLOOR: u128 = 300_000_000_000;

/// The longest duration that the platform knows, in nanoseconds.
pub const LONGEST: u128 = 18_446_744_073_709_551_615_999_999_999;

/// Nothing that the module offers writes to the tracker.
pub const PUBLIC_SURFACE_IS_READ_ONLY: () = ();

/// Failures of a request. Instants count nanoseconds.
#[derive(Debug, Clone, PartialEq, Eq)]
pub enum LinearError {
    /// No reply came.
    Network(String),
    /// The reply was a failure.
    Http { status: u16 },
    /// The tracker asks to wait.
    Backoff { until: u128 },
    /// The reply could not be read.
    Parse(String),
}

// ---------------------------------------------------------------------------
// Pauses
// ---------------------------------------------------------------------------

/// When the next request may go out, and how long the last pause was.
#[derive(Debug, Clone, Copy, PartialEq, Eq, Structural)]
pub struct BackoffState {
    pub next_request_at: u128,
    pub current_window: u128,
    pub base: u128,
    pub cap: u128,
}

/// The pause that follows one of `window`: twice as long, but no longer than
/// `cap`, and never shorter than `base`.
pub open spec fn widened(window: int, base: int, cap: int) -> int {
    let doubled = if 2 * window < cap {
        2 * window
    } else {
        cap
    };
    if doubled < base {
        base
    } else {
        doubled
    }
}

impl BackoffState {
    /// The durations are ones that the platform knows.
    pub open spec fn fits(&self) -> bool {
        self.current_window <= LONGEST && self.base <= LONGEST && self.cap <= LONGEST
    }

    /// No pause is due.
    pub fn new(base: u128, cap: u128, now: u128) -> (b: BackoffState)
        ensures
            b == (BackoffState { next_request_at: now, current_window: base, base, cap }),
            base <= LONGEST && cap <= LONGEST ==> b.fits(),
    {
        BackoffState { next_request_at: now, current_window: base, base, cap }
    }

    /// When the next request may go out.
    pub fn next_allowed(&self) -> (t: u128)
        ensures
            t == self.next_request_at,
    {
        self.next_request_at
    }

    /// Moves the deadline.
    pub fn set_deadline(&mut self, at: u128)
        ensures
            *final(self) == (BackoffState { next_request_at: at, ..*old(self) }),
    {
        self.next_request_at = at;
    }

    /// Ends the pause.
    pub fn reset(&mut self, now: u128)
        ensures
            *final(self) == (BackoffState {
                next_request_at: now,
                current_window: old(self).base,
                ..*old(self)
            }),
    {
        self.next_request_at = now;
        self.current_window = self.base;
    }

    /// Widens the pause and starts it.
    pub fn extend(&mut self, now: u128) -> (deadline: u128)
        requires
            old(self).fits(),
            now + LONGEST <= u128::MAX,
        ensures
            final(self).fits(),
            final(self).current_window == widened(
                old(self).current_window as int,
                old(self).base as int,
                old(self).cap as int,
            ),
            deadline == now + final(self).current_window,
            final(self).next_request_at == deadline,
            final(self).base == old(self).base,
            final(self).cap == old(self).cap,
    {
        let doubled: u128 = 2 * self.current_window;
        let capped: u128 = if doubled < self.cap {
            doubled
        } else {
            self.cap
        };
        let window: u128 = if capped < self.base {
            self.base
        } else {
            capped
        };
        self.current_window = window;
        self.next_request_at = now + window;
        self.next_request_at
    }

    /// How long a request has to wait.
    pub fn wait_time(&self, now: u128) -> (d: u128)
        ensures
            d == if self.next_request_at > now {
                self.next_request_at - now
            } else {
                0
            },
    {
        if self.next_request_at > now {
            self.next_request_at - now
        } else {
            0
        }
    }
}

/// A pause is never shorter than the base, nor longer than the cap where that
/// is no shorter than the base.
pub proof fn law_pause_is_bounded(window: int, base: int, cap: int)
    ensures
        widened(window, base, cap) >= base,
        base <= cap ==> widened(window, base, cap) <= cap,
{
}

/// Pauses do not shrink while requests fail.
pub proof fn law_pauses_do_not_shrink(window: int, base: int, cap: int)
    requires
        0 <= base <= window <= cap,
    ensures
        widened(window, base, cap) >= window,
        base <= widened(window, base, cap) <= cap,
{
}

/// Once at the cap, pauses stay there.
pub proof fn law_longest_pause_stays(base: int, cap: int)
    requires
        0 <= base <= cap,
    ensures
        widened(cap, base, cap) == cap,
{
}

// ---------------------------------------------------------------------------
// Requests
// ---------------------------------------------------------------------------

/// Who asks.
pub const VIEWER_QUERY: &'static str = "query { viewer { id } }";

/// One issue.
pub const ISSUE_QUERY: &'static str =
    "query Issue($id: String!) { issue(id: $id) { identifier title description state { name } labels { nodes { name } } assignee { id } } }";

/// The issues of an assignee in some states.
pub const LIST_QUERY: &'static str =
    "query List($assignee: ID!, $states: [String!]) { issues(filter: { assignee: { id: { eq: $assignee } }, state: { name: { in: $states } } }) { nodes { identifier title description state { name } labels { nodes { name } } assignee { id } } } }";

/// A request that asks who asks.
pub fn viewer_request() -> (body: Json)
    ensures
        body@ == JsonView::Object(seq![("query"@, JsonView::Text(VIEWER_QUERY@))]),
{
    let entries = vec![("query".to_owned(), Json::Text(VIEWER_QUERY.to_owned()))];
    assert(entries_view(entries@) =~= seq![("query"@, JsonView::Text(VIEWER_QUERY@))]);
    Json::Object(entries)
}

/// A request for one issue.
pub fn issue_request(id: &str) -> (body: Json)
    ensures
        body@ == JsonView::Object(
            seq![
                ("query"@, JsonView::Text(ISSUE_QUERY@)),
                ("variables"@, JsonView::Object(seq![("id"@, JsonView::Text(id@))])),
            ],
        ),
{
    let variables = vec![("id".to_owned(), Json::Text(id.to_owned()))];
    assert(entries_view(variables@) =~= seq![("id"@, JsonView::Text(id@))]);
    let entries = vec![
        ("query".to_owned(), Json::Text(ISSUE_QUERY.to_owned())),
        ("variables".to_owned(), Json::Object(variables)),
    ];
    assert(entries_view(entries@) =~= seq![
        ("query"@, JsonView::Text(ISSUE_QUERY@)),
        ("variables"@, JsonView::Object(seq![("id"@, JsonView::Text(id@))])),
    ]);
    Json::Object(entries)
}

/// The names of the states, as JSON texts.
pub open spec fn state_texts(states: Seq<LinearStateName>) -> Seq<JsonView> {
    Seq::new(states.len(), |i: int| JsonView::Text(states[i]@))
}

/// A request for the issues of `assignee` in `states`.
pub fn list_request(assignee: &LinearUserId, states: &[LinearStateName]) -> (body: Json)
    ensures
        body@ == JsonView::Object(
            seq![
                ("query"@, JsonView::Text(LIST_QUERY@)),
                (
                    "variables"@,
                    JsonView::Object(
                        seq![
                            ("assignee"@, JsonView::Text(assignee@)),
                            ("states"@, JsonView::Array(state_texts(states@))),
                        ],
                    ),
                ),
            ],
        ),
{
    let mut names: Vec<Json> = Vec::new();
    let mut i: usize = 0;
    while i < states.len()
        invariant
            i <= states.len(),
            names.len() == i,
            forall|k: int| 0 <= k < i ==> (#[trigger] names@[k])@ == JsonView::Text(states@[k]@),
        decreases states.len() - i,
    {
        names.push(Json::Text(states[i].as_str().to_owned()));
        i += 1;
    }
    assert(items_view(names@) =~= state_texts(states@));
    let variables = vec![
        ("assignee".to_owned(), Json::Text(assignee.as_str().to_owned())),
        ("states".to_owned(), Json::Array(names)),
    ];
    assert(entries_view(variables@) =~= seq![
        ("assignee"@, JsonView::Text(assignee@)),
        ("states"@, JsonView::Array(state_texts(states@))),
    ]);
    let entries = vec![
        ("query".to_owned(), Json::Text(LIST_QUERY.to_owned())),
        ("variables".to_owned(), Json::Object(variables)),
    ];
    assert(entries_view(entries@) =~= seq![
        ("query"@, JsonView::Text(LIST_QUERY@)),
        (
            "variables"@,
            JsonView::Object(
                seq![
                    ("assignee"@, JsonView::Text(assignee@)),
                    ("states"@, JsonView::Array(state_texts(states@))),
                ],
            ),
        ),
    ]);
    Json::Object(entries)
}

// ---------------------------------------------------------------------------
// Replies
// ---------------------------------------------------------------------------

/// What came back of a request. The body of a success is read as JSON, or there
/// is a reason why it could not be.
#[derive(Debug)]
pub enum Reply {
    Failed { cause: String },
    Answered { status: u16, body: Result<Json, String> },
}

/// The reply names errors.
pub open spec fn has_errors(body: JsonView) -> bool {
    body.field("errors"@) matches Some(e) && e.items() matches Some(items) && items.len() > 0
}

/// A failure that widens the pause.
pub open spec fn slows_down(reply: Reply) -> bool {
    match reply {
        Reply::Failed { .. } => true,
        Reply::Answered { status, .. } => status == 429 || 500 <= status < 600,
    }
}

/// A reply that ends the pause.
pub open spec fn speeds_up(reply: Reply) -> bool {
    reply matches Reply::Answered { status, body: Ok(v), .. } && 200 <= status < 300 && !has_errors(
        v@,
    )
}

/// Turns a reply into a result and sets the pace.
pub fn execute(backoff: &mut BackoffState, now: u128, reply: Reply) -> (r: Result<Json, LinearError>)
    requires
        old(backoff).fits(),
        now + LONGEST <= u128::MAX,
    ensures
        final(backoff).fits(),
        final(backoff).base == old(backoff).base,
        final(backoff).cap == old(backoff).cap,
        r is Ok == speeds_up(reply),
        match reply {
            Reply::Failed { cause } => r == Err::<Json, LinearError>(LinearError::Network(cause)),
            Reply::Answered { status, body } => if status == 429 {
                r == Err::<Json, LinearError>(
                    (LinearError::Backoff { until: final(backoff).next_request_at }),
                )
            } else if status < 200 || status >= 300 {
                r == Err::<Json, LinearError>((LinearError::Http { status }))
            } else {
                match body {
                    Err(cause) => r == Err::<Json, LinearError>(LinearError::Parse(cause)),
                    Ok(v) => if has_errors(v@) {
                        r matches Err(LinearError::Parse(m)) && m@ == json_text(
                            v@.field("errors"@)->0,
                        )
                    } else {
                        r == Ok::<Json, LinearError>(v)
                    },
                }
            },
        },
        slows_down(reply) ==> final(backoff).current_window == widened(
            old(backoff).current_window as int,
            old(backoff).base as int,
            old(backoff).cap as int,
        ) && final(backoff).next_request_at == now + final(backoff).current_window,
        speeds_up(reply) ==> final(backoff).current_window == old(backoff).base && final(
            backoff).next_request_at == now,
        !slows_down(reply) && !speeds_up(reply) ==> *final(backoff) == *old(backoff),
{
    match reply {
        Reply::Failed { cause } => {
            backoff.extend(now);
            Err(LinearError::Network(cause))
        },
        Reply::Answered { status, body } => {
            if status == 429 {
                let until: u128 = backoff.extend(now);
                return Err(LinearError::Backoff { until });
            }
            if status >= 500 && status < 600 {
                backoff.extend(now);
                return Err(LinearError::Http { status });
            }
            if status < 200 || status >= 300 {
                return Err(LinearError::Http { status });
            }
            match body {
                Err(cause) => Err(LinearError::Parse(cause)),
                Ok(v) => {
                    if let Some(e) = v.get("errors") {
                        let faulty = match e.as_array() {
                            Some(items) => items.len() > 0,
                            None => false,
                        };
                        if faulty {
                            return Err(LinearError::Parse(write_json(e)));
                        }
                    }
                    backoff.reset(now);
                    Ok(v)
                },
            }
        },
    }
}

/// The member `k` of the `data` of a reply.
pub open spec fn data_field(body: JsonView, k: Seq<char>) -> Option<JsonView> {
    match body.field("data"@) {
        Some(d) => d.field(k),
        None => None,
    }
}

fn get_data<'a>(body: &'a Json, key: &str) -> (r: Option<&'a Json>)
    ensures
        r is Some == data_field(body@, key@) is Some,
        r matches Some(v) ==> data_field(body@, key@) == Some(v@),
{
    match body.get("data") {
        Some(d) => d.get(key),
        None => None,
    }
}

/// Reads the user out of a reply.
pub fn read_viewer(body: &Json) -> (r: Result<LinearUserId, LinearError>)
    ensures
        match data_field(body@, "viewer"@) {
            Some(v) => match v.field_text("id"@) {
                Some(id) => r matches Ok(u) && u@ == id,
                None => r matches Err(LinearError::Parse(m)) && m@
                    == "viewer.id missing in response"@,
            },
            None => r matches Err(LinearError::Parse(m)) && m@ == "viewer.id missing in response"@,
        },
{
    if let Some(v) = get_data(body, "viewer") {
        if let Some(id) = v.get_str("id") {
            return Ok(LinearUserId(id.to_owned()));
        }
    }
    Err(LinearError::Parse("viewer.id missing in response".to_owned()))
}

/// The name of a label node: the `name` of an object, or the only item of a
/// list.
pub open spec fn label_node_name(v: JsonView) -> Option<Seq<char>> {
    match v {
        JsonView::Object(_) => v.field_text("name"@),
        JsonView::Array(items) => if items.len() == 1 {
            items[0].text()
        } else {
            None
        },
        _ => None,
    }
}

/// The names of the label nodes; nodes without one do not count.
pub open spec fn label_names(nodes: Seq<JsonView>) -> Set<Seq<char>> {
    Set::new(|n: Seq<char>| named_within(nodes, n, nodes.len() as int))
}

/// One of the first `k` label nodes is named `n`.
pub open spec fn named_within(nodes: Seq<JsonView>, n: Seq<char>, k: int) -> bool {
    exists|i: int| 0 <= i < k && label_node_name(#[trigger] nodes[i]) == Some(n)
}

/// The nodes under `labels`.
pub open spec fn label_nodes(node: JsonView) -> Seq<JsonView> {
    match node.field("labels"@) {
        Some(l) => match l.field("nodes"@) {
            Some(v) => match v.items() {
                Some(items) => items,
                None => Seq::empty(),
            },
            None => Seq::empty(),
        },
        None => Seq::empty(),
    }
}

/// A text or the empty one.
pub open spec fn or_empty(o: Option<Seq<char>>) -> Seq<char> {
    match o {
        Some(s) => s,
        None => Seq::empty(),
    }
}

/// Why an issue node cannot be read, if so.
pub open spec fn node_fault(node: JsonView) -> Option<Seq<char>> {
    if node.field_text("identifier"@) is None {
        Some("issue.identifier missing"@)
    } else if node.inner_text("state"@, "name"@) is None {
        Some("issue.state.name missing"@)
    } else {
        None
    }
}

/// The issue that a node describes.
pub open spec fn issue_of(node: JsonView) -> IssueView {
    IssueView {
        issue: node.field_text("identifier"@)->0,
        title: or_empty(node.field_text("title"@)),
        body: or_empty(node.field_text("description"@)),
        state: node.inner_text("state"@, "name"@)->0,
        labels: label_names(label_nodes(node)),
        assignee: node.inner_text("assignee"@, "id"@),
    }
}

/// The text of an optional text, or the empty one.
pub fn text_or_empty(o: Option<&str>) -> (s: String)
    ensures
        s@ == match o {
            Some(t) => t@,
            None => Seq::empty(),
        },
{
    match o {
        Some(t) => t.to_owned(),
        None => String::new(),
    }
}

fn node_name(v: &Json) -> (r: Option<&str>)
    ensures
        r is Some == label_node_name(v@) is Some,
        r matches Some(s) ==> label_node_name(v@) == Some(s@),
{
    match v {
        Json::Object(_) => v.get_str("name"),
        Json::Array(items) => {
            assert(v@ == JsonView::Array(items_view(items@)));
            if items.len() == 1 {
                assert(items_view(items@)[0] == items@[0]@);
                items[0].as_str()
            } else {
                None
            }
        },
        _ => None,
    }
}

fn collect_labels(nodes: &Vec<Json>) -> (s: StrSet)
    ensures
        s@ == label_names(items_view(nodes@)),
{
    let mut s = StrSet::new();
    let ghost all = items_view(nodes@);
    let mut i: usize = 0;
    while i < nodes.len()
        invariant
            i <= nodes.len(),
            all == items_view(nodes@),
            forall|n: Seq<char>| #[trigger] s@.contains(n) == named_within(all, n, i as int),
        decreases nodes.len() - i,
    {
        assert(all[i as int] == nodes@[i as int]@);
        let ghost before = s@;
        if let Some(name) = node_name(&nodes[i]) {
            s.insert(name.to_owned());
        }
        proof {
            assert forall|n: Seq<char>| #[trigger] s@.contains(n) == named_within(
                all,
                n,
                i + 1,
            ) by {
                assert(s@.contains(n) == (before.contains(n) || label_node_name(all[i as int])
                    == Some(n)));
                if named_within(all, n, i as int) {
                    let k = choose|k: int|
                        0 <= k < i && label_node_name(#[trigger] all[k]) == Some(n);
                    assert(0 <= k < i + 1 && label_node_name(all[k]) == Some(n));
                }
                if named_within(all, n, i + 1) {
                    let k = choose|k: int|
                        0 <= k < i + 1 && label_node_name(#[trigger] all[k]) == Some(n);
                    if k < i {
                        assert(named_within(all, n, i as int));
                    }
                }
            }
        }
        i += 1;
    }
    assert(s@ =~= label_names(all));
    s
}

/// The issue that a node describes.
pub fn normalize_issue(node: &Json) -> (r: Result<NormalizedIssue, LinearError>)
    ensures
        r is Ok == node_fault(node@) is None,
        r matches Ok(issue) ==> issue@ == issue_of(node@),
        r matches Err(e) ==> e matches LinearError::Parse(m) && Some(m@) == node_fault(node@),
{
    let identifier = match node.get_str("identifier") {
        Some(s) => s.to_owned(),
        None => {
            return Err(LinearError::Parse("issue.identifier missing".to_owned()));
        },
    };
    let title = text_or_empty(node.get_str("title"));
    let body = text_or_empty(node.get_str("description"));
    let state = match node.inner_str("state", "name") {
        Some(s) => s.to_owned(),
        None => {
            return Err(LinearError::Parse("issue.state.name missing".to_owned()));
        },
    };
    let mut labels = StrSet::new();
    let mut found = false;
    if let Some(l) = node.get("labels") {
        if let Some(v) = l.get("nodes") {
            if let Some(items) = v.as_array() {
                labels = collect_labels(items);
                found = true;
            }
        }
    }
    proof {
        if !found {
            assert(label_nodes(node@) =~= Seq::<JsonView>::empty());
            assert(labels@ =~= label_names(label_nodes(node@)));
        }
    }
    let assignee = match node.inner_str("assignee", "id") {
        Some(id) => Some(LinearUserId(id.to_owned())),
        None => None,
    };
    Ok(
        NormalizedIssue {
            issue: IssueId(identifier),
            title,
            body,
            current_linear_state: LinearStateName(state),
            labels,
            assignee,
        },
    )
}

/// Reads one issue out of a reply.
pub fn read_issue(body: &Json) -> (r: Result<NormalizedIssue, LinearError>)
    ensures
        match data_field(body@, "issue"@) {
            Some(node) => match node_fault(node) {
                Some(fault) => r matches Err(LinearError::Parse(m)) && m@ == fault,
                None => r matches Ok(issue) && issue@ == issue_of(node),
            },
            None => r matches Err(LinearError::Parse(m)) && m@ == "issue node missing"@,
        },
{
    match get_data(body, "issue") {
        Some(node) => normalize_issue(node),
        None => Err(LinearError::Parse("issue node missing".to_owned())),
    }
}

/// The nodes of a listing.
pub open spec fn listed_nodes(body: JsonView) -> Option<Seq<JsonView>> {
    match data_field(body, "issues"@) {
        Some(v) => match v.field("nodes"@) {
            Some(n) => n.items(),
            None => None,
        },
        None => None,
    }
}

/// Node `i` is the first one that cannot be read.
pub open spec fn first_bad(nodes: Seq<JsonView>, i: int) -> bool {
    &&& 0 <= i < nodes.len()
    &&& node_fault(nodes[i]) is Some
    &&& forall|k: int| 0 <= k < i ==> node_fault(#[trigger] nodes[k]) is None
}

/// Reads the issues out of a listing. One that cannot be read spoils it.
pub fn read_issues(body: &Json) -> (r: Result<Vec<NormalizedIssue>, LinearError>)
    ensures
        r is Ok == (listed_nodes(body@) is Some && forall|k: int|
            0 <= k < listed_nodes(body@)->0.len() ==> node_fault(
                #[trigger] listed_nodes(body@)->0[k],
            ) is None),
        r matches Ok(issues) ==> issues.len() == listed_nodes(body@)->0.len() && forall|k: int|
            0 <= k < issues.len() ==> (#[trigger] issues@[k])@ == issue_of(
                listed_nodes(body@)->0[k],
            ),
        r matches Err(e) ==> (e matches LinearError::Parse(m) && match listed_nodes(body@) {
            None => m@ == "issues.nodes missing"@,
            Some(nodes) => exists|i: int| first_bad(nodes, i) && Some(m@) == node_fault(nodes[i]),
        }),
{
    let nodes = match get_data(body, "issues") {
        Some(v) => match v.get("nodes") {
            Some(n) => n.as_array(),
            None => None,
        },
        None => None,
    };
    let nodes = match nodes {
        Some(n) => n,
        None => {
            return Err(LinearError::Parse("issues.nodes missing".to_owned()));
        },
    };
    let ghost all = items_view(nodes@);
    assert(listed_nodes(body@) == Some(all));
    let mut out: Vec<NormalizedIssue> = Vec::new();
    let mut i: usize = 0;
    while i < nodes.len()
        invariant
            i <= nodes.len(),
            out.len() == i,
            all == items_view(nodes@),
            listed_nodes(body@) == Some(all),
            forall|k: int| 0 <= k < i ==> node_fault(#[trigger] all[k]) is None,
            forall|k: int| 0 <= k < i ==> (#[trigger] out@[k])@ == issue_of(all[k]),
        decreases nodes.len() - i,
    {
        assert(all[i as int] == nodes@[i as int]@);
        match normalize_issue(&nodes[i]) {
            Ok(issue) => {
                out.push(issue);
            },
            Err(e) => {
                assert(first_bad(all, i as int));
                return Err(e);
            },
        }
        i += 1;
    }
    Ok(out)
}

// ---------------------------------------------------------------------------
// Polling
// ---------------------------------------------------------------------------

/// Polls for the issues of `assignee` in `states`.
#[derive(Debug)]
pub struct LinearPoller {
    pub assignee: LinearUserId,
    pub states: Vec<LinearStateName>,
    pub cadence_floor: u128,
    pub last_poll: Option<u128>,
}

/// What woke the poller.
#[derive(Debug, Clone, Copy, PartialEq, Eq, Structural)]
pub enum Wake {
    Shutdown,
    /// The cadence is over.
    Cadence,
    /// A poll was asked for.
    Nudge,
    /// Nobody is left to ask for polls; the cadence alone brings them.
    NudgeClosed,
}

/// What the poller does next.
#[derive(Debug, Clone, Copy, PartialEq, Eq, Structural)]
pub enum PollNext {
    Stop,
    Poll,
    /// Poll once the cadence is over.
    WaitThenPoll,
}

/// The time from `t` to `now`, which is nothing where `t` is later.
pub open spec fn since(now: u128, t: u128) -> int {
    if now > t {
        now - t
    } else {
        0
    }
}

fn elapsed(now: u128, t: u128) -> (d: u128)
    ensures
        d == since(now, t),
{
    if now > t {
        now - t
    } else {
        0
    }
}

/// Less than `floor` has passed since `last`.
pub fn within_cadence(now: u128, last: Option<u128>, floor: u128) -> (r: bool)
    ensures
        r == (last matches Some(t) && since(now, t) < floor),
{
    match last {
        Some(t) => elapsed(now, t) < floor,
        None => false,
    }
}

/// What follows a wake-up between two polls: a poll that was asked for comes
/// at once only where the cadence and the pause both allow it.
pub open spec fn poll_next(
    last: Option<u128>,
    floor: u128,
    wake: Wake,
    now: u128,
    next_request_at: u128,
) -> PollNext {
    match wake {
        Wake::Shutdown => PollNext::Stop,
        Wake::Cadence => PollNext::Poll,
        Wake::NudgeClosed => PollNext::WaitThenPoll,
        Wake::Nudge => if !(last matches Some(t) && since(now, t) < floor) && next_request_at
            <= now {
            PollNext::Poll
        } else {
            PollNext::WaitThenPoll
        },
    }
}

/// However often polls are asked for, one never begins within the cadence of
/// the last: the cadence alone, once it is over, and a request that comes after
/// it let the next poll begin.
pub proof fn law_polls_keep_the_cadence(
    last: u128,
    floor: u128,
    wake: Wake,
    now: u128,
    next_request_at: u128,
)
    requires
        wake is Cadence ==> since(now, last) >= floor,
        poll_next(Some(last), floor, wake, now, next_request_at) is Poll,
    ensures
        since(now, last) >= floor,
{
}

/// A poll that was asked for never begins while the pause lasts.
pub proof fn law_a_nudge_respects_the_pause(
    last: Option<u128>,
    floor: u128,
    now: u128,
    next_request_at: u128,
)
    requires
        now < next_request_at,
    ensures
        poll_next(last, floor, Wake::Nudge, now, next_request_at) is WaitThenPoll,
{
}

impl LinearPoller {
    pub fn new(assignee: LinearUserId, states: Vec<LinearStateName>, cadence_floor: u128) -> (p:
        LinearPoller)
        ensures
            p == (LinearPoller { assignee, states, cadence_floor, last_poll: None }),
    {
        LinearPoller { assignee, states, cadence_floor, last_poll: None }
    }

    /// Whether the cadence and the pause both allow a poll.
    pub fn may_poll_now(&self, now: u128, backoff: &BackoffState) -> (r: bool)
        ensures
            r == (!(self.last_poll matches Some(t) && since(now, t) < self.cadence_floor)
                && backoff.next_request_at <= now),
    {
        !within_cadence(now, self.last_poll, self.cadence_floor) && backoff.next_allowed() <= now
    }

    /// Starts a poll: notes the time and says what to send.
    pub fn begin_poll(&mut self, now: u128) -> (body: Json)
        ensures
            *final(self) == (LinearPoller { last_poll: Some(now), ..*old(self) }),
            body@ == JsonView::Object(
                seq![
                    ("query"@, JsonView::Text(LIST_QUERY@)),
                    (
                        "variables"@,
                        JsonView::Object(
                            seq![
                                ("assignee"@, JsonView::Text(old(self).assignee@)),
                                ("states"@, JsonView::Array(state_texts(old(self).states@))),
                            ],
                        ),
                    ),
                ],
            ),
    {
        self.last_poll = Some(now);
        list_request(&self.assignee, self.states.as_slice())
    }

    /// What follows a wake-up between two polls.
    pub fn after_wake(&self, wake: Wake, now: u128, backoff: &BackoffState) -> (next: PollNext)
        ensures
            next == poll_next(
                self.last_poll,
                self.cadence_floor,
                wake,
                now,
                backoff.next_request_at,
            ),
    {
        match wake {
            Wake::Shutdown => PollNext::Stop,
            Wake::Cadence => PollNext::Poll,
            Wake::NudgeClosed => PollNext::WaitThenPoll,
            Wake::Nudge => if self.may_poll_now(now, backoff) {
                PollNext::Poll
            } else {
                PollNext::WaitThenPoll
            },
        }
    }
}

/// A pause doubles until that would pass the cap, and then is the cap; it is the
/// base where that is longer.
pub proof fn law_pauses_double(window: int, base: int, cap: int)
    ensures
        base <= 2 * window <= cap ==> widened(window, base, cap) == 2 * window,
        base <= cap <= 2 * window ==> widened(window, base, cap) == cap,
        2 * window <= base && base <= cap ==> widened(window, base, cap) == base,
        cap <= base ==> widened(window, base, cap) == base,
{
}

/// A reply ends the pause exactly where its status is a success and it can be
/// read and names no errors; and one that did not come, that asks to wait, or
/// that tells of a fault on the other side widens it.
pub proof fn law_replies_set_the_pace(reply: Reply)
    ensures
        match reply {
            Reply::Failed { .. } => slows_down(reply) && !speeds_up(reply),
            Reply::Answered { status, body } => {
                &&& slows_down(reply) <==> status == 429 || (500 <= status && status <= 599)
                &&& speeds_up(reply) ==> 200 <= status <= 299 && body is Ok
                &&& 200 <= status <= 299 && body is Ok ==> (speeds_up(reply) <==> !(
                body->Ok_0@.field("errors"@) matches Some(JsonView::Array(items)) && items.len()
                    > 0))
                &&& !(slows_down(reply) && speeds_up(reply))
            },
        },
{
}

/// An issue of a listing is the one that its node describes: its identifier and
/// the name of its state, which must be there; its title and description, which
/// are empty where they are not; and who has it.
pub proof fn law_listed_issue_is_as_described(node: JsonView)
    ensures
        node_fault(node) is None <==> (node.field("identifier"@) matches Some(JsonView::Text(_)))
            && (node.field("state"@) matches Some(s) && (s.field("name"@) matches Some(
            JsonView::Text(_),
        ))),
        node.field("identifier"@) matches Some(JsonView::Text(id)) ==> issue_of(node).issue == id,
        node.field("title"@) matches Some(JsonView::Text(t)) ==> issue_of(node).title == t,
        !(node.field("title"@) matches Some(JsonView::Text(_))) ==> issue_of(node).title.len() == 0,
        node.field("description"@) matches Some(JsonView::Text(t)) ==> issue_of(node).body == t,
        !(node.field("description"@) matches Some(JsonView::Text(_))) ==> issue_of(node).body.len()
            == 0,
        node.field("state"@) matches Some(s) ==> (s.field("name"@) matches Some(JsonView::Text(n))
            ==> issue_of(node).state == n),
        node.field("assignee"@) matches Some(a) ==> (a.field("id"@) matches Some(JsonView::Text(u))
            ==> issue_of(node).assignee == Some(u)),
        !(node.field("assignee"@) matches Some(a) && (a.field("id"@) matches Some(
            JsonView::Text(_),
        ))) ==> issue_of(node).assignee is None,
{
}

/// The labels of a listed issue are the names of its label nodes: the name that
/// an object has, or the only text of a list; nodes without one do not count.
pub proof fn law_listed_labels_are_the_names_of_the_nodes(
    node: JsonView,
    labels: JsonView,
    items: Seq<JsonView>,
    name: Seq<char>,
)
    requires
        node.field("labels"@) == Some(labels),
        labels.field("nodes"@) == Some(JsonView::Array(items)),
    ensures
        issue_of(node).labels.contains(name) <==> exists|i: int| #[trigger]
            bears(items, name, i),
{
    let k = items.len() as int;
    if named_within(items, name, k) {
        let i = choose|i: int| 0 <= i < k && label_node_name(#[trigger] items[i]) == Some(name);
        assert(bears(items, name, i));
    }
    if exists|i: int| #[trigger] bears(items, name, i) {
        let i = choose|i: int| #[trigger] bears(items, name, i);
        assert(label_node_name(items[i]) == Some(name));
    }
}

/// Item `i` is a label node with the name.
pub open spec fn bears(items: Seq<JsonView>, name: Seq<char>, i: int) -> bool {
    0 <= i < items.len() && ((items[i] is Object && items[i].field("name"@) == Some(
        JsonView::Text(name),
    )) || (items[i] matches JsonView::Array(l) && l.len() == 1 && l[0] == JsonView::Text(name)))
}

/// A poll that is asked for begins at once exactly where the cadence since the
/// last one is over and no pause is on; the cadence begins one, a shutdown ends
/// them, and otherwise the cadence is waited out.
pub proof fn law_polls_begin_when_they_may(
    last: Option<u128>,
    floor: u128,
    wake: Wake,
    now: u128,
    next_request_at: u128,
)
    ensures
        ({
            let n = poll_next(last, floor, wake, now, next_request_at);
            &&& wake is Shutdown <==> n is Stop
            &&& wake is Cadence ==> n is Poll
            &&& wake is NudgeClosed ==> n is WaitThenPoll
            &&& wake is Nudge ==> (n is Poll <==> (last is None || floor == 0 || last->0 + floor
                <= now) && next_request_at <= now)
            &&& wake is Nudge && !(n is Poll) ==> n is WaitThenPoll
        }),
{
}

/// The node that spoils a listing is the first that cannot be read, and there is
/// one wherever any cannot.
pub proof fn law_first_unreadable_node_is_reported(nodes: Seq<JsonView>, i: int, k: int)
    requires
        0 <= k < nodes.len(),
        node_fault(nodes[k]) is Some,
    ensures
        first_bad(nodes, i) ==> 0 <= i <= k && node_fault(nodes[i]) is Some,
        exists|j: int| #[trigger] first_bad(nodes, j),
    decreases k,
{
    if exists|j: int| 0 <= j < k && node_fault(#[trigger] nodes[j]) is Some {
        let j = choose|j: int| 0 <= j < k && node_fault(#[trigger] nodes[j]) is Some;
        law_first_unreadable_node_is_reported(nodes, i, j);
    } else {
        assert(first_bad(nodes, k));
    }
}

/// What cannot be read of a node is named: its identifier first, and then its
/// state.
pub proof fn law_unreadable_nodes_are_told_why(node: JsonView)
    ensures
        !(node.field("identifier"@) matches Some(JsonView::Text(_))) ==> node_fault(node) == Some(
            "issue.identifier missing"@,
        ),
        (node.field("identifier"@) matches Some(JsonView::Text(_))) && !(node.field("state"@) matches Some(
            s,
        ) && (s.field("name"@) matches Some(JsonView::Text(_)))) ==> node_fault(node) == Some(
            "issue.state.name missing"@,
        ),
{
}

} // verus!

//! What the tracker says of issues that were left behind.
use vstd::prelude::*;

use crate::json::{entries_view, items_view, Json, JsonNumber, JsonView, NumberView};
use crate::orchestrator::state::IssueId;
use crate::strmap::StrSet;
use crate::text::{decimal, decimal_text, join2, listed, str_eq};
use crate::tracker::assignee::AssigneeAdmission;
use crate::tracker::model::{IssueView, LinearStateName, LinearUserId, NormalizedIssue};

verus! {

/// Finds an issue by its identifier; the search may give others too.
pub const ISSUE_SEARCH_QUERY: &'static str =
    "query IssueSearch($query: String!) {\n  issueSearch(query: $query, first: 5) {\n    nodes {\n      id\n      identifier\n      title\n      description\n      state { type name }\n      assignee { id }\n      labels { nodes { name } }\n    }\n  }\n}";

/// The issues in work of an assignee.
pub const ACTIVE_ISSUES_QUERY: &'static str =
    "query ActiveIssues($filter: IssueFilter, $first: Int) {\n  issues(filter: $filter, first: $first) {\n    nodes {\n      id\n      identifier\n      title\n      description\n      state { type name }\n      assignee { id }\n      labels { nodes { name } }\n    }\n  }\n}";

/// How far an issue has come.
#[derive(Debug, Clone, Copy, PartialEq, Eq, Structural)]
pub enum RecoveryIssueLifecycle {
    Active,
    Terminal,
    /// Ended without success: what is on disk is kept for inspection.
    TerminalFailure,
    Unknown,
}

/// How far an issue in a state of that type has come.
pub open spec fn lifecycle_of(linear_type: Seq<char>) -> RecoveryIssueLifecycle {
    if linear_type == "unstarted"@ || linear_type == "started"@ {
        RecoveryIssueLifecycle::Active
    } else if linear_type == "completed"@ {
        RecoveryIssueLifecycle::Terminal
    } else if linear_type == "canceled"@ {
        RecoveryIssueLifecycle::TerminalFailure
    } else {
        RecoveryIssueLifecycle::Unknown
    }
}

/// How far an issue in a state of that type has come.
pub fn classify_state(linear_type: &str) -> (r: RecoveryIssueLifecycle)
    ensures
        r == lifecycle_of(linear_type@),
{
    if str_eq(linear_type, "unstarted") || str_eq(linear_type, "started") {
        RecoveryIssueLifecycle::Active
    } else if str_eq(linear_type, "completed") {
        RecoveryIssueLifecycle::Terminal
    } else if str_eq(linear_type, "canceled") {
        RecoveryIssueLifecycle::TerminalFailure
    } else {
        RecoveryIssueLifecycle::Unknown
    }
}

/// An issue, as the tracker describes it.
#[derive(Debug)]
pub struct IssueNode {
    pub identifier: String,
    pub title: String,
    pub description: Option<String>,
    pub state_type: Option<String>,
    pub labels: Vec<String>,
    pub assignee: Option<String>,
}

/// A text or the empty one.
pub open spec fn text_of(o: Option<String>) -> Seq<char> {
    match o {
        Some(s) => s@,
        None => Seq::empty(),
    }
}

/// The issue that a node describes. The state goes by its type.
pub open spec fn node_issue(n: IssueNode) -> IssueView {
    IssueView {
        issue: n.identifier@,
        title: n.title@,
        body: text_of(n.description),
        state: text_of(n.state_type),
        labels: Set::new(|l: Seq<char>| listed(n.labels@, l)),
        assignee: crate::text::opt_view(n.assignee),
    }
}

fn unwrap_text(o: Option<String>) -> (s: String)
    ensures
        s@ == text_of(o),
{
    match o {
        Some(s) => s,
        None => String::new(),
    }
}

/// The issue that a node describes.
pub fn node_to_normalized(node: IssueNode) -> (issue: NormalizedIssue)
    ensures
        issue@ == node_issue(node),
{
    let labels = StrSet::from_names(&node.labels);
    assert(labels@ =~= node_issue(node).labels);
    NormalizedIssue {
        issue: IssueId(node.identifier),
        title: node.title,
        body: unwrap_text(node.description),
        current_linear_state: LinearStateName(unwrap_text(node.state_type)),
        labels,
        assignee: match node.assignee {
            Some(id) => Some(LinearUserId(id)),
            None => None,
        },
    }
}

// ---------------------------------------------------------------------------
// Requests
// ---------------------------------------------------------------------------

/// A request for one issue.
pub fn search_request(issue: &IssueId) -> (body: Json)
    ensures
        body@ == JsonView::Object(
            seq![
                ("query"@, JsonView::Text(ISSUE_SEARCH_QUERY@)),
                ("variables"@, JsonView::Object(seq![("query"@, JsonView::Text(issue@))])),
            ],
        ),
{
    let variables = vec![("query".to_owned(), Json::Text(issue.to_string()))];
    assert(entries_view(variables@) =~= seq![("query"@, JsonView::Text(issue@))]);
    let entries = vec![
        ("query".to_owned(), Json::Text(ISSUE_SEARCH_QUERY.to_owned())),
        ("variables".to_owned(), Json::Object(variables)),
    ];
    assert(entries_view(entries@) =~= seq![
        ("query"@, JsonView::Text(ISSUE_SEARCH_QUERY@)),
        ("variables"@, JsonView::Object(seq![("query"@, JsonView::Text(issue@))])),
    ]);
    Json::Object(entries)
}

/// An object with one entry.
pub open spec fn single(k: Seq<char>, v: JsonView) -> JsonView {
    JsonView::Object(seq![(k, v)])
}

fn one_entry(key: &str, value: Json) -> (v: Json)
    ensures
        v@ == single(key@, value@),
{
    let ghost inner = value@;
    let entries = vec![(key.to_owned(), value)];
    assert(entries_view(entries@) =~= seq![(key@, inner)]);
    Json::Object(entries)
}

/// The issues that are asked for: those of the user that are in work.
pub open spec fn active_filter(user: Seq<char>) -> JsonView {
    JsonView::Object(
        seq![
            (
                "state"@,
                single(
                    "type"@,
                    single(
                        "in"@,
                        JsonView::Array(
                            seq![JsonView::Text("unstarted"@), JsonView::Text("started"@)],
                        ),
                    ),
                ),
            ),
            ("assignee"@, single("id"@, single("eq"@, JsonView::Text(user)))),
        ],
    )
}

/// A request for the issues of the user that are in work.
pub fn active_request(assignee: &AssigneeAdmission) -> (body: Json)
    ensures
        body@ == JsonView::Object(
            seq![
                ("query"@, JsonView::Text(ACTIVE_ISSUES_QUERY@)),
                (
                    "variables"@,
                    JsonView::Object(
                        seq![
                            ("filter"@, active_filter(assignee@)),
                            ("first"@, JsonView::Number(NumberView::Unsigned(100))),
                        ],
                    ),
                ),
            ],
        ),
{
    let types = vec![Json::Text("unstarted".to_owned()), Json::Text("started".to_owned())];
    assert(items_view(types@) =~= seq![
        JsonView::Text("unstarted"@),
        JsonView::Text("started"@),
    ]);
    let state = one_entry("type", one_entry("in", Json::Array(types)));
    let user = one_entry("id", one_entry("eq", Json::Text(assignee.user_id().to_owned())));
    let filter = vec![("state".to_owned(), state), ("assignee".to_owned(), user)];
    assert(entries_view(filter@) =~= active_filter(assignee@)->Object_0);
    let variables = vec![
        ("filter".to_owned(), Json::Object(filter)),
        ("first".to_owned(), Json::Number(JsonNumber::Unsigned(100))),
    ];
    assert(entries_view(variables@) =~= seq![
        ("filter"@, active_filter(assignee@)),
        ("first"@, JsonView::Number(NumberView::Unsigned(100))),
    ]);
    let entries = vec![
        ("query".to_owned(), Json::Text(ACTIVE_ISSUES_QUERY.to_owned())),
        ("variables".to_owned(), Json::Object(variables)),
    ];
    assert(entries_view(entries@) =~= seq![
        ("query"@, JsonView::Text(ACTIVE_ISSUES_QUERY@)),
        (
            "variables"@,
            JsonView::Object(
                seq![
                    ("filter"@, active_filter(assignee@)),
                    ("first"@, JsonView::Number(NumberView::Unsigned(100))),
                ],
            ),
        ),
    ]);
    Json::Object(entries)
}

// ---------------------------------------------------------------------------
// Replies
// ---------------------------------------------------------------------------

/// What a status means for a request.
#[derive(Debug, PartialEq, Eq)]
pub enum ReplyStatus {
    /// Read the body.
    Readable,
    /// The tracker asks to wait: nothing is known yet.
    Deferred,
    Failed(String),
}

/// What a status means for a request.
pub fn reply_status(status: u16) -> (r: ReplyStatus)
    ensures
        status == 429 ==> r is Deferred,
        200 <= status < 300 ==> r is Readable,
        status != 429 && !(200 <= status < 300) ==> (r matches ReplyStatus::Failed(m) && m@
            == "linear http status "@ + decimal(status as nat)),
{
    if status == 429 {
        ReplyStatus::Deferred
    } else if status < 200 || status >= 300 {
        ReplyStatus::Failed(join2("linear http status ", decimal_text(status as u64).as_str()))
    } else {
        ReplyStatus::Readable
    }
}

/// Node `i` is the first one of the issue.
pub open spec fn node_at(nodes: Seq<IssueNode>, issue: Seq<char>, i: int) -> bool {
    &&& 0 <= i < nodes.len()
    &&& nodes[i].identifier@ == issue
    &&& forall|k: int| 0 <= k < i ==> (#[trigger] nodes[k]).identifier@ != issue
}

/// How far the issue of a node has come, for `user`: one in work that is
/// someone else's counts as unknown.
pub open spec fn lifecycle_for(n: IssueNode, user: Seq<char>) -> RecoveryIssueLifecycle {
    let l = lifecycle_of(text_of(n.state_type));
    if l is Active && node_issue(n).assignee != Some(user) {
        RecoveryIssueLifecycle::Unknown
    } else {
        l
    }
}

fn find_node(nodes: Vec<IssueNode>, issue: &str) -> (r: Option<IssueNode>)
    ensures
        r is Some == (exists|i: int| node_at(nodes@, issue@, i)),
        r matches Some(n) ==> exists|i: int| node_at(nodes@, issue@, i) && n == nodes@[i],
{
    let mut i: usize = 0;
    while i < nodes.len()
        invariant
            i <= nodes.len(),
            forall|k: int| 0 <= k < i ==> (#[trigger] nodes@[k]).identifier@ != issue@,
        decreases nodes.len() - i,
    {
        if str_eq(nodes[i].identifier.as_str(), issue) {
            assert(node_at(nodes@, issue@, i as int));
            let mut rest = nodes;
            return Some(rest.swap_remove(i));
        }
        i += 1;
    }
    None
}

/// What a search says of an issue.
pub fn lookup_issue(issue: &IssueId, nodes: Vec<IssueNode>, assignee: &AssigneeAdmission) -> (r: (
    RecoveryIssueLifecycle,
    Option<NormalizedIssue>,
))
    ensures
        r.1 is Some == (exists|i: int| node_at(nodes@, issue@, i)),
        r.1 is None ==> r.0 is Unknown,
        r.1 matches Some(n) ==> exists|i: int|
            node_at(nodes@, issue@, i) && n@ == node_issue(nodes@[i]) && r.0 == lifecycle_for(
                nodes@[i],
                assignee@,
            ),
{
    let node = match find_node(nodes, issue.as_str()) {
        Some(n) => n,
        None => {
            return (RecoveryIssueLifecycle::Unknown, None);
        },
    };
    let lifecycle = match &node.state_type {
        Some(t) => classify_state(t.as_str()),
        None => {
            proof {
                reveal_strlit("unstarted");
                reveal_strlit("started");
                reveal_strlit("completed");
                reveal_strlit("canceled");
                assert(Seq::<char>::empty().len() < "unstarted"@.len());
                assert(Seq::<char>::empty().len() < "started"@.len());
                assert(Seq::<char>::empty().len() < "completed"@.len());
                assert(Seq::<char>::empty().len() < "canceled"@.len());
            }
            RecoveryIssueLifecycle::Unknown
        },
    };
    assert(lifecycle == lifecycle_of(text_of(node.state_type)));
    let ghost n = node;
    proof {
        let i = choose|i: int| node_at(nodes@, issue@, i) && n == nodes@[i];
        assert(node_at(nodes@, issue@, i) && node_issue(n) == node_issue(nodes@[i]));
    }
    let normalized = node_to_normalized(node);
    if lifecycle == RecoveryIssueLifecycle::Active && !assignee.matches_issue(&normalized) {
        return (RecoveryIssueLifecycle::Unknown, Some(normalized));
    }
    (lifecycle, Some(normalized))
}

/// What is known of an issue once the tracker has been asked: `None` stands for
/// a request that was put off, of which nothing is known.
pub fn settle_lookup(
    issue: &IssueId,
    reply: Option<Vec<IssueNode>>,
    assignee: &AssigneeAdmission,
) -> (r: (RecoveryIssueLifecycle, Option<NormalizedIssue>))
    ensures
        match reply {
            None => r.0 is Unknown && r.1 is None,
            Some(nodes) => {
                &&& r.1 is Some == (exists|i: int| node_at(nodes@, issue@, i))
                &&& r.1 is None ==> r.0 is Unknown
                &&& r.1 matches Some(n) ==> exists|i: int|
                    node_at(nodes@, issue@, i) && n@ == node_issue(nodes@[i]) && r.0
                        == lifecycle_for(nodes@[i], assignee@)
            },
        },
{
    match reply {
        None => (RecoveryIssueLifecycle::Unknown, None),
        Some(nodes) => lookup_issue(issue, nodes, assignee),
    }
}

/// The issues in work once the tracker has been asked: none where the request
/// was put off.
pub fn settle_active(reply: Option<Vec<IssueNode>>) -> (out: Vec<(IssueId, NormalizedIssue)>)
    ensures
        match reply {
            None => out.len() == 0,
            Some(nodes) => out.len() == nodes.len() && forall|i: int|
                0 <= i < out.len() ==> (#[trigger] out@[i]).0@ == nodes@[i].identifier@
                    && out@[i].1@ == node_issue(nodes@[i]),
        },
{
    match reply {
        None => Vec::new(),
        Some(nodes) => active_issues(nodes),
    }
}

/// The issues in work, each with its identifier.
pub fn active_issues(nodes: Vec<IssueNode>) -> (out: Vec<(IssueId, NormalizedIssue)>)
    ensures
        out.len() == nodes.len(),
        forall|i: int|
            0 <= i < out.len() ==> (#[trigger] out@[i]).0@ == nodes@[i].identifier@ && out@[i].1@
                == node_issue(nodes@[i]),
{
    let ghost all = nodes@;
    let mut rest = nodes;
    let mut out: Vec<(IssueId, NormalizedIssue)> = Vec::new();
    while rest.len() > 0
        invariant
            out.len() + rest.len() == all.len(),
            rest@ == all.skip(out.len() as int),
            forall|i: int|
                0 <= i < out.len() ==> (#[trigger] out@[i]).0@ == all[i].identifier@ && out@[i].1@
                    == node_issue(all[i]),
        decreases rest.len(),
    {
        let node = rest.remove(0);
        assert(node == all[out.len() as int]);
        let normalized = node_to_normalized(node);
        let id = normalized.issue.clone();
        out.push((id, normalized));
        assert(rest@ =~= all.skip(out.len() as int));
    }
    out
}

/// Work of another user is never taken for the user's own.
pub proof fn law_foreign_work_is_unknown(n: IssueNode, user: Seq<char>)
    requires
        lifecycle_for(n, user) is Active,
    ensures
        node_issue(n).assignee == Some(user),
        lifecycle_of(text_of(n.state_type)) is Active,
{
}

/// How far an issue has come goes by the type of its state: one that is not
/// begun or is begun is in work, where it is the user's; one that is completed or
/// canceled has ended, whoever's it is; nothing is known of any other.
pub proof fn law_progress_goes_by_the_state_type(n: IssueNode, user: Seq<char>)
    ensures
        ({
            let l = lifecycle_for(n, user);
            let ours = n.assignee is Some && n.assignee->0@ == user;
            let of = |t: Seq<char>| n.state_type is Some && n.state_type->0@ == t;
            &&& l is Active <==> ours && (of("unstarted"@) || of("started"@))
            &&& l is Terminal <==> of("completed"@)
            &&& l is TerminalFailure <==> of("canceled"@)
            &&& l is Unknown <==> !(ours && (of("unstarted"@) || of("started"@))) && !of(
                "completed"@,
            ) && !of("canceled"@)
        }),
{
    reveal_strlit("unstarted");
    reveal_strlit("started");
    reveal_strlit("completed");
    reveal_strlit("canceled");
    assert("unstarted"@.len() == 9 && "started"@.len() == 7 && "completed"@.len() == 9
        && "canceled"@.len() == 8);
    assert("unstarted"@[0] == 'u' && "completed"@[0] == 'c');
    assert(n.state_type is None ==> text_of(n.state_type).len() == 0);
}

/// The issue is the one that the node describes, field by field: what the node
/// leaves out is empty, and its labels are those that the node lists.
pub proof fn law_issue_is_as_described(n: IssueNode, l: Seq<char>)
    ensures
        ({
            let i = node_issue(n);
            &&& i.issue == n.identifier@
            &&& i.title == n.title@
            &&& match n.description {
                Some(d) => i.body == d@,
                None => i.body.len() == 0,
            }
            &&& match n.state_type {
                Some(t) => i.state == t@,
                None => i.state.len() == 0,
            }
            &&& match n.assignee {
                Some(u) => i.assignee == Some(u@),
                None => i.assignee is None,
            }
            &&& i.labels.contains(l) <==> exists|k: int|
                0 <= k < n.labels@.len() && (#[trigger] n.labels@[k])@ == l
        }),
{
}

/// Of several nodes of one issue the first one counts, and one counts wherever
/// there is any.
pub proof fn law_first_node_counts(nodes: Seq<IssueNode>, issue: Seq<char>, i: int, k: int)
    requires
        0 <= k < nodes.len(),
        nodes[k].identifier@ == issue,
    ensures
        node_at(nodes, issue, i) ==> 0 <= i <= k && nodes[i].identifier@ == issue,
        exists|j: int| #[trigger] node_at(nodes, issue, j),
    decreases k,
{
    if exists|j: int| 0 <= j < k && (#[trigger] nodes[j]).identifier@ == issue {
        let j = choose|j: int| 0 <= j < k && (#[trigger] nodes[j]).identifier@ == issue;
        law_first_node_counts(nodes, issue, i, j);
    } else {
        assert(node_at(nodes, issue, k));
    }
}

} // verus!

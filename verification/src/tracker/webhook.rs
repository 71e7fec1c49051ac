//! What the tracker reports on its own: signed events about issues.
//!
//! A report counts only if it is signed with the shared secret. The signature
//! is checked over the bytes that came in, before anything is read out of them.
use hmac::{Hmac, Mac};
use sha2::Sha256;
use vstd::prelude::*;

use crate::json::{items_view, json_of, opt_json_view, parse_json, Json, JsonView};
use crate::orchestrator::state::IssueId;
use crate::strmap::StrSet;
use crate::text::{eq_ignore_case, same_ignoring_case};
use crate::tracker::linear::{or_empty, text_or_empty};
use crate::tracker::model::{IssueView, LinearStateName, LinearUserId, NormalizedIssue};

verus! {

/// The largest report that is read, in bytes.
pub const MAX_BODY_BYTES: usize = 1_048_576;

/// The header that carries the signature; its case does not count.
pub const SIGNATURE_HEADER: &'static str = "linear-signature";

/// A request header. A value that is not text is missing.
#[derive(Debug)]
pub struct Header {
    pub name: String,
    pub value: Option<String>,
}

/// What a report comes to.
#[derive(Debug)]
pub enum WebhookStep {
    /// Answer with this status.
    Answer(u16),
    /// Hand the issue on, then answer.
    Forward(NormalizedIssue),
}

// ---------------------------------------------------------------------------
// The signature
// ---------------------------------------------------------------------------

/// The value of a hexadecimal digit.
pub open spec fn hex_value(c: char) -> Option<int> {
    if '0' <= c <= '9' {
        Some(c as int - '0' as int)
    } else if 'a' <= c <= 'f' {
        Some(c as int - 'a' as int + 10)
    } else if 'A' <= c <= 'F' {
        Some(c as int - 'A' as int + 10)
    } else {
        None
    }
}

/// `s` consists of pairs of hexadecimal digits.
pub open spec fn is_hex(s: Seq<char>) -> bool {
    s.len() % 2 == 0 && forall|i: int| 0 <= i < s.len() ==> hex_value(#[trigger] s[i]) is Some
}

/// The bytes that the pairs of `s` stand for.
pub open spec fn hex_bytes(s: Seq<char>) -> Seq<u8> {
    Seq::new(
        s.len() / 2,
        |i: int| (16 * hex_value(s[2 * i])->0 + hex_value(s[2 * i + 1])->0) as u8,
    )
}

/// Calls `hex::decode`. The contract claims that it takes pairs of digits, of
/// either case, to the bytes that they stand for, and refuses any other text.
#[verifier::external_body]
fn hex_decode(text: &str) -> (r: Option<Vec<u8>>)
    ensures
        r is Some == is_hex(text@),
        r matches Some(v) ==> v@ == hex_bytes(text@),
{
    hex::decode(text).ok()
}

/// The HMAC with SHA-256 of `message` under `key`.
pub uninterp spec fn hmac_sha256(key: Seq<u8>, message: Seq<u8>) -> Seq<u8>;

/// Calls `Mac::verify_slice` on an `Hmac<Sha256>` that was keyed with `key` and
/// fed `message`. The contract claims that it accepts the code of the message
/// under the key, which has 32 bytes, and nothing else.
#[verifier::external_body]
fn hmac_verifies(key: &[u8], message: &[u8], code: &[u8]) -> (r: bool)
    ensures
        r == (code@ == hmac_sha256(key@, message@)),
        r ==> code@.len() == 32,
{
    match Hmac::<Sha256>::new_from_slice(key) {
        Ok(mut mac) => {
            mac.update(message);
            mac.verify_slice(code).is_ok()
        },
        Err(_) => false,
    }
}

/// Header `i` is the first one that is named for the signature.
pub open spec fn signature_at(headers: Seq<Header>, i: int) -> bool {
    &&& 0 <= i < headers.len()
    &&& same_ignoring_case(headers[i].name@, SIGNATURE_HEADER@)
    &&& forall|k: int|
        0 <= k < i ==> !same_ignoring_case((#[trigger] headers[k]).name@, SIGNATURE_HEADER@)
}

/// Header `i` carries the signature `code`.
pub open spec fn carries(headers: Seq<Header>, i: int, code: Seq<u8>) -> bool {
    &&& signature_at(headers, i)
    &&& headers[i].value matches Some(text) && is_hex(text@) && hex_bytes(text@) == code
}

/// The signature that the headers carry.
pub fn extract_signature(headers: &Vec<Header>) -> (r: Option<Vec<u8>>)
    ensures
        r is Some == (exists|i: int, code: Seq<u8>| carries(headers@, i, code)),
        r matches Some(code) ==> exists|i: int| carries(headers@, i, code@),
{
    let mut i: usize = 0;
    while i < headers.len()
        invariant
            i <= headers.len(),
            forall|k: int|
                0 <= k < i ==> !same_ignoring_case(
                    (#[trigger] headers@[k]).name@,
                    SIGNATURE_HEADER@,
                ),
        decreases headers.len() - i,
    {
        if eq_ignore_case(headers[i].name.as_str(), SIGNATURE_HEADER) {
            assert(signature_at(headers@, i as int));
            let code = match &headers[i].value {
                Some(text) => hex_decode(text.as_str()),
                None => None,
            };
            proof {
                if code is Some {
                    assert(carries(headers@, i as int, code->0@));
                } else {
                    assert forall|j: int, c: Seq<u8>| !carries(headers@, j, c) by {
                        if carries(headers@, j, c) {
                            if j < i {
                                assert(!same_ignoring_case(headers@[j].name@, SIGNATURE_HEADER@));
                            }
                            if i < j {
                                assert(!same_ignoring_case(
                                    headers@[i as int].name@,
                                    SIGNATURE_HEADER@,
                                ));
                            }
                        }
                    }
                }
            }
            return code;
        }
        i += 1;
    }
    None
}

/// Whether `signature` is that of `body` under `secret`.
pub fn verify_signature(secret: &[u8], body: &[u8], signature: &[u8]) -> (r: bool)
    ensures
        r == (signature@ == hmac_sha256(secret@, body@)),
        r ==> signature@.len() == 32,
{
    hmac_verifies(secret, body, signature)
}

/// The headers carry the signature of `body` under `secret`.
pub open spec fn authentic(secret: Seq<u8>, body: Seq<u8>, headers: Seq<Header>) -> bool {
    exists|i: int| carries(headers, i, hmac_sha256(secret, body))
}

proof fn lemma_one_signature(headers: Seq<Header>, i: int, j: int, a: Seq<u8>, b: Seq<u8>)
    requires
        carries(headers, i, a),
        carries(headers, j, b),
    ensures
        i == j,
        a == b,
{
    if i < j {
        assert(!same_ignoring_case(headers[i].name@, SIGNATURE_HEADER@));
    }
    if j < i {
        assert(!same_ignoring_case(headers[j].name@, SIGNATURE_HEADER@));
    }
}

/// Refuses a report that is too large, with `None` for its body, or not signed.
/// A status to answer with comes back, or nothing where the report is good.
pub fn authenticate(secret: &[u8], body: Option<&[u8]>, headers: &Vec<Header>) -> (r: Option<u16>)
    ensures
        match body {
            None => r == Some(413u16),
            Some(bytes) => r == if authentic(secret@, bytes@, headers@) {
                None
            } else {
                Some(401u16)
            },
        },
{
    let bytes = match body {
        Some(b) => b,
        None => {
            return Some(413);
        },
    };
    let signature = match extract_signature(headers) {
        Some(s) => s,
        None => {
            proof {
                if authentic(secret@, bytes@, headers@) {
                    let i = choose|i: int|
                        carries(headers@, i, hmac_sha256(secret@, bytes@));
                    assert(carries(headers@, i, hmac_sha256(secret@, bytes@)));
                }
            }
            return Some(401);
        },
    };
    proof {
        let i = choose|i: int| carries(headers@, i, signature@);
        if authentic(secret@, bytes@, headers@) {
            let j = choose|j: int| carries(headers@, j, hmac_sha256(secret@, bytes@));
            lemma_one_signature(headers@, i, j, signature@, hmac_sha256(secret@, bytes@));
        }
    }
    if !verify_signature(secret, bytes, signature.as_slice()) {
        return Some(401);
    }
    None
}

// ---------------------------------------------------------------------------
// The event
// ---------------------------------------------------------------------------

/// The event is about an issue.
pub open spec fn about_issue(v: JsonView) -> bool {
    v.field_text("type"@) matches Some(t) && same_ignoring_case(t, "Issue"@)
}

pub fn is_issue_event(value: &Json) -> (r: bool)
    ensures
        r == about_issue(value@),
{
    match value.get_str("type") {
        Some(t) => eq_ignore_case(t, "Issue"),
        None => false,
    }
}

/// `a`, or `b` where there is no `a`.
pub open spec fn or_else<T>(a: Option<T>, b: Option<T>) -> Option<T> {
    if a is Some {
        a
    } else {
        b
    }
}

pub open spec fn identifier_of(data: JsonView) -> Option<Seq<char>> {
    or_else(data.field_text("identifier"@), data.field_text("id"@))
}

pub open spec fn state_of(data: JsonView) -> Option<Seq<char>> {
    or_else(data.inner_text("state"@, "name"@), data.field_text("stateName"@))
}

pub open spec fn assignee_of(data: JsonView) -> Option<Seq<char>> {
    or_else(data.inner_text("assignee"@, "id"@), data.field_text("assigneeId"@))
}

/// The label nodes: those under `labels.nodes`, or `labels` itself.
pub open spec fn report_label_nodes(data: JsonView) -> Seq<JsonView> {
    let labels = data.field("labels"@);
    let nodes = match labels {
        Some(l) => match l.field("nodes"@) {
            Some(n) => n.items(),
            None => None,
        },
        None => None,
    };
    let plain = match labels {
        Some(l) => l.items(),
        None => None,
    };
    match or_else(nodes, plain) {
        Some(items) => items,
        None => Seq::empty(),
    }
}

/// One of the first `k` nodes is named `n`.
pub open spec fn node_named(nodes: Seq<JsonView>, n: Seq<char>, k: int) -> bool {
    exists|i: int| 0 <= i < k && (#[trigger] nodes[i]).field_text("name"@) == Some(n)
}

/// The names of the nodes.
pub open spec fn node_names(nodes: Seq<JsonView>) -> Set<Seq<char>> {
    Set::new(|n: Seq<char>| node_named(nodes, n, nodes.len() as int))
}

/// The event carries an issue that can be read.
pub open spec fn readable(v: JsonView) -> bool {
    v.field("data"@) matches Some(data) && identifier_of(data) is Some && state_of(data) is Some
}

/// The issue that an event carries.
pub open spec fn reported_issue(data: JsonView) -> IssueView {
    IssueView {
        issue: identifier_of(data)->0,
        title: or_empty(data.field_text("title"@)),
        body: or_empty(data.field_text("description"@)),
        state: state_of(data)->0,
        labels: node_names(report_label_nodes(data)),
        assignee: assignee_of(data),
    }
}

fn first_str<'a>(a: Option<&'a str>, b: Option<&'a str>) -> (r: Option<&'a str>)
    ensures
        r == or_else(a, b),
{
    match a {
        Some(s) => Some(s),
        None => b,
    }
}

fn collect_names(nodes: &Vec<Json>) -> (s: StrSet)
    ensures
        s@ == node_names(items_view(nodes@)),
{
    let mut s = StrSet::new();
    let ghost all = items_view(nodes@);
    let mut i: usize = 0;
    while i < nodes.len()
        invariant
            i <= nodes.len(),
            all == items_view(nodes@),
            forall|n: Seq<char>| #[trigger] s@.contains(n) == node_named(all, n, i as int),
        decreases nodes.len() - i,
    {
        assert(all[i as int] == nodes@[i as int]@);
        let ghost before = s@;
        if let Some(name) = nodes[i].get_str("name") {
            s.insert(name.to_owned());
        }
        proof {
            assert forall|n: Seq<char>| #[trigger] s@.contains(n) == node_named(
                all,
                n,
                i + 1,
            ) by {
                assert(s@.contains(n) == (before.contains(n) || all[i as int].field_text("name"@)
                    == Some(n)));
                if node_named(all, n, i as int) {
                    let k = choose|k: int|
                        0 <= k < i && (#[trigger] all[k]).field_text("name"@) == Some(n);
                    assert(0 <= k < i + 1 && all[k].field_text("name"@) == Some(n));
                }
                if node_named(all, n, i + 1) {
                    let k = choose|k: int|
                        0 <= k < i + 1 && (#[trigger] all[k]).field_text("name"@) == Some(n);
                    if k < i {
                        assert(node_named(all, n, i as int));
                    }
                }
            }
        }
        i += 1;
    }
    assert(s@ =~= node_names(all));
    s
}

/// The issue that an event carries.
pub fn normalize_payload(value: &Json) -> (r: Option<NormalizedIssue>)
    ensures
        r is Some == readable(value@),
        r matches Some(issue) ==> issue@ == reported_issue(value@.field("data"@)->0),
{
    let data = match value.get("data") {
        Some(d) => d,
        None => {
            return None;
        },
    };
    let identifier = match first_str(data.get_str("identifier"), data.get_str("id")) {
        Some(s) => s.to_owned(),
        None => {
            return None;
        },
    };
    let title = text_or_empty(data.get_str("title"));
    let body = text_or_empty(data.get_str("description"));
    let state = match first_str(data.inner_str("state", "name"), data.get_str("stateName")) {
        Some(s) => s.to_owned(),
        None => {
            return None;
        },
    };
    let nodes = match data.get("labels") {
        Some(l) => {
            let nested = match l.get("nodes") {
                Some(n) => n.as_array(),
                None => None,
            };
            match nested {
                Some(items) => Some(items),
                None => l.as_array(),
            }
        },
        None => None,
    };
    let labels = match nodes {
        Some(items) => collect_names(items),
        None => StrSet::new(),
    };
    proof {
        if nodes is None {
            assert(report_label_nodes(data@) =~= Seq::<JsonView>::empty());
            assert(labels@ =~= node_names(report_label_nodes(data@)));
        }
    }
    let assignee = match first_str(data.inner_str("assignee", "id"), data.get_str("assigneeId")) {
        Some(id) => Some(LinearUserId(id.to_owned())),
        None => None,
    };
    Some(
        NormalizedIssue {
            issue: IssueId(identifier),
            title,
            body,
            current_linear_state: LinearStateName(state),
            labels,
            assignee,
        },
    )
}

#[verifier::ext_equal]
pub enum StepView {
    Answer(u16),
    Forward(IssueView),
}

impl View for WebhookStep {
    type V = StepView;

    open spec fn view(&self) -> StepView {
        match self {
            WebhookStep::Answer(code) => StepView::Answer(*code),
            WebhookStep::Forward(issue) => StepView::Forward(issue@),
        }
    }
}

/// What a good report comes to: events about other things are acknowledged and
/// dropped.
pub open spec fn handled(value: Option<JsonView>) -> StepView {
    match value {
        None => StepView::Answer(400),
        Some(v) => if !about_issue(v) {
            StepView::Answer(200)
        } else if !readable(v) {
            StepView::Answer(400)
        } else {
            StepView::Forward(reported_issue(v.field("data"@)->0))
        },
    }
}

/// Decides what a good report comes to. It is `None` where it is not JSON.
pub fn handle_event(value: Option<Json>) -> (step: WebhookStep)
    ensures
        step@ == handled(opt_json_view(value)),
{
    let value = match value {
        Some(v) => v,
        None => {
            return WebhookStep::Answer(400);
        },
    };
    if !is_issue_event(&value) {
        return WebhookStep::Answer(200);
    }
    match normalize_payload(&value) {
        Some(issue) => WebhookStep::Forward(issue),
        None => WebhookStep::Answer(400),
    }
}

/// What a report comes to, `None` standing for the body of one that is too
/// large: it is read only where it is signed.
pub open spec fn received(secret: Seq<u8>, body: Option<Seq<u8>>, headers: Seq<Header>) -> StepView {
    match body {
        None => StepView::Answer(413),
        Some(bytes) => if authentic(secret, bytes, headers) {
            handled(json_of(bytes))
        } else {
            StepView::Answer(401)
        },
    }
}

/// Takes a report in: the signature is checked over the bytes that came, and
/// only then are they read.
pub fn receive(secret: &[u8], body: Option<&[u8]>, headers: &Vec<Header>) -> (step: WebhookStep)
    ensures
        step@ == received(
            secret@,
            match body {
                Some(bytes) => Some(bytes@),
                None => None,
            },
            headers@,
        ),
{
    if let Some(code) = authenticate(secret, body, headers) {
        return WebhookStep::Answer(code);
    }
    match body {
        Some(bytes) => handle_event(parse_json(bytes)),
        None => WebhookStep::Answer(413),
    }
}

/// A report counts only if it is signed, and is read out of the signed bytes:
/// an issue that is handed on is the one that those bytes name.
pub proof fn law_only_signed_bytes_are_read(
    secret: Seq<u8>,
    body: Option<Seq<u8>>,
    headers: Seq<Header>,
)
    requires
        received(secret, body, headers) is Forward,
    ensures
        body matches Some(bytes) && authentic(secret, bytes, headers) && (json_of(bytes) matches Some(
            v,
        ) && about_issue(v) && received(secret, body, headers) == StepView::Forward(
            reported_issue(v.field("data"@)->0),
        )),
{
}

/// The answer once the issue has been handed on, or nobody took it.
pub fn after_forward(taken: bool) -> (status: u16)
    ensures
        status == if taken {
            200u16
        } else {
            503u16
        },
{
    if taken {
        200
    } else {
        503
    }
}

/// A report is accepted under at most one code: if its headers carry a code
/// that is not that of the body, it is refused.
pub proof fn law_other_codes_are_refused(
    secret: Seq<u8>,
    body: Seq<u8>,
    headers: Seq<Header>,
    i: int,
    code: Seq<u8>,
)
    requires
        carries(headers, i, code),
        code != hmac_sha256(secret, body),
    ensures
        !authentic(secret, body, headers),
{
    if authentic(secret, body, headers) {
        let j = choose|j: int| carries(headers, j, hmac_sha256(secret, body));
        lemma_one_signature(headers, i, j, code, hmac_sha256(secret, body));
    }
}

/// A poll and a report that name an issue by the same fields agree on it.
pub proof fn law_poll_and_report_agree(node: JsonView)
    requires
        crate::tracker::linear::node_fault(node) is None,
        forall|i: int|
            0 <= i < crate::tracker::linear::label_nodes(node).len()
                ==> #[trigger] crate::tracker::linear::label_nodes(node)[i] is Object,
        node.field("labels"@) matches Some(l) ==> (l.field("nodes"@) matches Some(n) && n.items() is Some),
        node.inner_text("assignee"@, "id"@) is Some || node.field_text("assigneeId"@) is None,
    ensures
        identifier_of(node) is Some,
        state_of(node) is Some,
        reported_issue(node) == crate::tracker::linear::issue_of(node),
{
    let a = reported_issue(node);
    let b = crate::tracker::linear::issue_of(node);
    let nodes = crate::tracker::linear::label_nodes(node);
    assert(report_label_nodes(node) =~= nodes);
    assert forall|n: Seq<char>| node_named(nodes, n, nodes.len() as int)
        == crate::tracker::linear::named_within(nodes, n, nodes.len() as int) by {
        if node_named(nodes, n, nodes.len() as int) {
            let k = choose|k: int|
                0 <= k < nodes.len() && (#[trigger] nodes[k]).field_text("name"@) == Some(n);
            assert(crate::tracker::linear::label_node_name(nodes[k]) == Some(n));
        }
        if crate::tracker::linear::named_within(nodes, n, nodes.len() as int) {
            let k = choose|k: int|
                0 <= k < nodes.len() && crate::tracker::linear::label_node_name(
                    #[trigger] nodes[k],
                ) == Some(n);
            assert(nodes[k].field_text("name"@) == Some(n));
        }
    }
    assert(a.labels =~= b.labels);
    assert(a == b);
}

/// Where the labels of a report are a list, under `labels` itself or under
/// `nodes` in it, the issue that is handed on has the names of the nodes of that
/// list for its labels: the name of each node that has one, and no others.
pub proof fn law_reported_labels_are_those_of_the_list(
    v: JsonView,
    data: JsonView,
    issue: IssueView,
    list: Seq<JsonView>,
    name: Seq<char>,
)
    requires
        handled(Some(v)) == StepView::Forward(issue),
        v.field("data"@) == Some(data),
        data.field("labels"@) == Some(JsonView::Array(list)) || (data.field("labels"@) matches Some(l)
            && l.field("nodes"@) == Some(JsonView::Array(list))),
    ensures
        issue.labels.contains(name) <==> exists|i: int|
            0 <= i < list.len() && (#[trigger] list[i]).field("name"@) == Some(
                JsonView::Text(name),
            ),
{
    assert forall|i: int| 0 <= i < list.len() implies ((#[trigger] list[i]).field_text("name"@)
        == Some(name)) == (list[i].field("name"@) == Some(JsonView::Text(name))) by {}
    assert(report_label_nodes(data) == list);
    if issue.labels.contains(name) {
        let i = choose|i: int|
            0 <= i < list.len() && (#[trigger] list[i]).field_text("name"@) == Some(name);
        assert(list[i].field("name"@) == Some(JsonView::Text(name)));
    }
    if exists|i: int|
        0 <= i < list.len() && (#[trigger] list[i]).field("name"@) == Some(JsonView::Text(name)) {
        let i = choose|i: int|
            0 <= i < list.len() && (#[trigger] list[i]).field("name"@) == Some(
                JsonView::Text(name),
            );
        assert(list[i].field_text("name"@) == Some(name));
        assert(node_named(list, name, list.len() as int));
    }
}

/// A report whose labels are no list, neither themselves nor under `nodes`,
/// names an issue without labels.
pub proof fn law_report_without_a_list_has_no_labels(
    v: JsonView,
    data: JsonView,
    issue: IssueView,
    name: Seq<char>,
)
    requires
        handled(Some(v)) == StepView::Forward(issue),
        v.field("data"@) == Some(data),
        data.field("labels"@) matches Some(l) ==> !(l is Array) && (l.field("nodes"@) matches Some(n)
            ==> !(n is Array)),
    ensures
        !issue.labels.contains(name),
{
    assert(report_label_nodes(data) =~= Seq::empty());
}

/// The text `s` stands under the name `k`.
pub open spec fn says(v: JsonView, k: Seq<char>, s: Seq<char>) -> bool {
    v.field(k) == Some(JsonView::Text(s))
}

/// No text stands under the name `k`.
pub open spec fn says_nothing(v: JsonView, k: Seq<char>) -> bool {
    !(v.field(k) matches Some(x) && x is Text)
}

/// The issue that is handed on is the one that the report names: its identifier
/// (its id, where it has none), its title and description (empty where they are
/// missing), the name of its state (which some reports give flat), and who has
/// it.
pub proof fn law_forwarded_issue_is_the_one_named(
    v: JsonView,
    data: JsonView,
    issue: IssueView,
)
    requires
        handled(Some(v)) == StepView::Forward(issue),
        v.field("data"@) == Some(data),
    ensures
        says(data, "identifier"@, issue.issue) || (says_nothing(data, "identifier"@) && says(
            data,
            "id"@,
            issue.issue,
        )),
        says(data, "title"@, issue.title) || (says_nothing(data, "title"@) && issue.title.len()
            == 0),
        says(data, "description"@, issue.body) || (says_nothing(data, "description"@)
            && issue.body.len() == 0),
        (data.field("state"@) matches Some(s) && says(s, "name"@, issue.state)) || (!(data.field(
            "state"@,
        ) matches Some(s) && !says_nothing(s, "name"@)) && says(data, "stateName"@, issue.state)),
        issue.assignee matches Some(who) ==> (data.field("assignee"@) matches Some(a) && says(
            a,
            "id"@,
            who,
        )) || (!(data.field("assignee"@) matches Some(a) && !says_nothing(a, "id"@)) && says(
            data,
            "assigneeId"@,
            who,
        )),
        issue.assignee is None ==> !(data.field("assignee"@) matches Some(a) && !says_nothing(
            a,
            "id"@,
        )) && says_nothing(data, "assigneeId"@),
{
}

/// A report is handed on exactly where it is about an issue, and names the issue
/// and its state; about anything else it is only acknowledged, and one that
/// cannot be read is refused.
pub proof fn law_reports_are_handed_on_where_they_name_an_issue(v: JsonView, kind: Seq<char>)
    ensures
        says(v, "type"@, kind) && same_ignoring_case(kind, "Issue"@) ==> match handled(Some(v)) {
            StepView::Forward(_) => v.field("data"@) is Some && {
                let data = v.field("data"@)->0;
                &&& !(says_nothing(data, "identifier"@) && says_nothing(data, "id"@))
                &&& (data.field("state"@) matches Some(s) && !says_nothing(s, "name"@))
                    || !says_nothing(data, "stateName"@)
            },
            StepView::Answer(code) => code == 400 && (v.field("data"@) matches Some(data) ==> (
            says_nothing(data, "identifier"@) && says_nothing(data, "id"@)) || (!(data.field(
                "state"@,
            ) matches Some(s) && !says_nothing(s, "name"@)) && says_nothing(data, "stateName"@))),
        },
        says(v, "type"@, kind) && !same_ignoring_case(kind, "Issue"@) ==> handled(Some(v))
            == StepView::Answer(200),
        says_nothing(v, "type"@) ==> handled(Some(v)) == StepView::Answer(200),
        handled(None) == StepView::Answer(400),
{
}

/// Nothing is read of a report that is too large or not signed.
pub proof fn law_unsigned_reports_are_refused(
    secret: Seq<u8>,
    body: Seq<u8>,
    headers: Seq<Header>,
)
    ensures
        received(secret, None, headers) == StepView::Answer(413),
        (forall|i: int| 0 <= i < headers.len() ==> !same_ignoring_case(
            (#[trigger] headers[i]).name@,
            "linear-signature"@,
        )) ==> received(secret, Some(body), headers) == StepView::Answer(401),
        received(secret, Some(body), headers) != StepView::Answer(401) ==> exists|i: int|
            0 <= i < headers.len() && same_ignoring_case(
                (#[trigger] headers[i]).name@,
                "linear-signature"@,
            ) && (headers[i].value matches Some(text) && hex_bytes(text@) == hmac_sha256(
                secret,
                body,
            )),
{
    if authentic(secret, body, headers) {
        let i = choose|i: int| carries(headers, i, hmac_sha256(secret, body));
        assert(same_ignoring_case(headers[i].name@, "linear-signature"@));
    }
}

/// A byte is written as two digits, the higher one first, in either case of the
/// letters.
pub proof fn law_hex_pairs_are_bytes(s: Seq<char>, i: int)
    requires
        is_hex(s),
        0 <= 2 * i,
        2 * i + 1 < s.len(),
        '0' <= s[2 * i] <= '9',
        'a' <= s[2 * i + 1] <= 'f' || 'A' <= s[2 * i + 1] <= 'F',
    ensures
        hex_bytes(s).len() * 2 == s.len(),
        hex_bytes(s)[i] as int / 16 == s[2 * i] as int - '0' as int,
        'a' <= s[2 * i + 1] <= 'f' ==> hex_bytes(s)[i] as int % 16 == s[2 * i + 1] as int
            - 'a' as int + 10,
        'A' <= s[2 * i + 1] <= 'F' ==> hex_bytes(s)[i] as int % 16 == s[2 * i + 1] as int
            - 'A' as int + 10,
{
}

/// A report is read exactly where the first header of the name carries, in
/// hexadecimal digits, the code of its bytes under the secret; any other is
/// refused without being read.
pub proof fn law_reports_are_read_where_they_are_signed(
    secret: Seq<u8>,
    body: Seq<u8>,
    headers: Seq<Header>,
    i: int,
)
    requires
        0 <= i < headers.len(),
        same_ignoring_case(headers[i].name@, SIGNATURE_HEADER@),
        forall|k: int|
            0 <= k < i ==> !same_ignoring_case((#[trigger] headers[k]).name@, SIGNATURE_HEADER@),
    ensures
        ({
            let good = headers[i].value is Some && is_hex(headers[i].value->0@) && hex_bytes(
                headers[i].value->0@,
            ) == hmac_sha256(secret, body);
            &&& good ==> received(secret, Some(body), headers) == handled(json_of(body))
            &&& !good ==> received(secret, Some(body), headers) == StepView::Answer(401)
        }),
{
    let code = hmac_sha256(secret, body);
    assert(signature_at(headers, i));
    if authentic(secret, body, headers) {
        let j = choose|j: int| carries(headers, j, code);
        assert(carries(headers, j, code));
        if j < i {
            assert(!same_ignoring_case(headers[j].name@, SIGNATURE_HEADER@));
        }
        if i < j {
            assert(!same_ignoring_case(headers[i].name@, SIGNATURE_HEADER@));
        }
    }
    if headers[i].value is Some && is_hex(headers[i].value->0@) && hex_bytes(headers[i].value->0@)
        == code {
        assert(carries(headers, i, code));
    }
}

} // verus!

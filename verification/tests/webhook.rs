use hmac::{Hmac, Mac};
use sha2::Sha256;

use roki_daemon::json::{Json, JsonNumber};
use roki_daemon::orchestrator::state::IssueId;
use roki_daemon::tracker::linear::read_issue;
use roki_daemon::tracker::model::{
    LinearStateName, LinearUserId, NormalizedIssue, LABEL_ROKI_READY,
};
use roki_daemon::tracker::webhook::{
    after_forward, authenticate, extract_signature, handle_event, is_issue_event,
    normalize_payload, receive, verify_signature, Header, WebhookStep, MAX_BODY_BYTES, SIGNATURE_HEADER,
};

const SECRET: &[u8] = b"test-webhook-secret";

fn sign_payload(secret: &[u8], body: &[u8]) -> String {
    let mut mac = Hmac::<Sha256>::new_from_slice(secret).unwrap();
    mac.update(body);
    hex::encode(mac.finalize().into_bytes())
}

fn from_value(v: serde_json::Value) -> Json {
    match v {
        serde_json::Value::Null => Json::Null,
        serde_json::Value::Bool(b) => Json::Bool(b),
        serde_json::Value::Number(n) => match (n.as_u64(), n.as_i64()) {
            (Some(u), _) => Json::Number(JsonNumber::Unsigned(u)),
            (None, Some(i)) => Json::Number(JsonNumber::Negative(i)),
            (None, None) => Json::Number(JsonNumber::Other(n.to_string())),
        },
        serde_json::Value::String(s) => Json::Text(s),
        serde_json::Value::Array(items) => {
            Json::Array(items.into_iter().map(from_value).collect())
        }
        serde_json::Value::Object(map) => {
            Json::Object(map.into_iter().map(|(k, v)| (k, from_value(v))).collect())
        }
    }
}

fn issue_payload() -> Vec<u8> {
    format!(
        r###"{{
            "type": "Issue",
            "action": "update",
            "data": {{
                "identifier": "ENG-42",
                "title": "Add HMAC verification",
                "description": "## AC\n- verify",
                "state": {{ "name": "Todo" }},
                "labels": {{ "nodes": [{{ "name": "{LABEL_ROKI_READY}" }}] }},
                "assignee": {{ "id": "user-uuid-1" }}
            }}
        }}"###
    )
    .into_bytes()
}

fn headers(name: &str, value: &str) -> Vec<Header> {
    vec![
        Header {
            name: "content-type".to_owned(),
            value: Some("application/json".to_owned()),
        },
        Header { name: name.to_owned(), value: Some(value.to_owned()) },
    ]
}

/// The status of the answer, and the issue that is forwarded.
fn serve(body: &[u8], headers: &Vec<Header>) -> (u16, Option<NormalizedIssue>) {
    let bytes = if body.len() > MAX_BODY_BYTES { None } else { Some(body) };
    match receive(SECRET, bytes, headers) {
        WebhookStep::Answer(status) => (status, None),
        WebhookStep::Forward(issue) => (after_forward(true), Some(issue)),
    }
}

#[test]
fn valid_signed_payload_forwards_normalized_issue() {
    let body = issue_payload();
    let sig = sign_payload(SECRET, &body);
    let (status, issue) = serve(&body, &headers("Linear-Signature", &sig));
    assert_eq!(status, 200);
    let issue = issue.expect("dispatched issue");
    assert_eq!(issue.issue, IssueId::from("ENG-42"));
    assert_eq!(issue.current_linear_state, LinearStateName::from("Todo"));
    assert!(issue.has_roki_ready());
    assert_eq!(issue.assignee.as_ref(), Some(&LinearUserId::from("user-uuid-1")));
}

#[test]
fn tampered_body_returns_401() {
    let body = issue_payload();
    let sig = sign_payload(SECRET, &body);
    let mut tampered = body.clone();
    tampered.extend_from_slice(b" ");
    let (status, issue) = serve(&tampered, &headers("Linear-Signature", &sig));
    assert_eq!(status, 401);
    assert!(issue.is_none());
}

#[test]
fn missing_signature_returns_401() {
    let (status, issue) = serve(&issue_payload(), &vec![]);
    assert_eq!(status, 401);
    assert!(issue.is_none());
}

#[test]
fn malformed_json_after_valid_signature_returns_400() {
    let body = b"not json".to_vec();
    let sig = sign_payload(SECRET, &body);
    let (status, issue) = serve(&body, &headers("Linear-Signature", &sig));
    assert_eq!(status, 400);
    assert!(issue.is_none());
}

#[test]
fn non_issue_event_returns_200_without_dispatch() {
    let body = br#"{ "type": "Comment", "data": { "id": "c-1", "body": "hi" } }"#.to_vec();
    let sig = sign_payload(SECRET, &body);
    let (status, issue) = serve(&body, &headers("Linear-Signature", &sig));
    assert_eq!(status, 200);
    assert!(issue.is_none());
}

#[test]
fn error_responses_do_not_echo_payload() {
    let body = issue_payload();
    let bad_sig = sign_payload(b"different-secret", &body);
    // The answer is a status and nothing else.
    let (status, issue) = serve(&body, &headers("Linear-Signature", &bad_sig));
    assert_eq!(status, 401);
    assert!(issue.is_none());
}

#[test]
fn signature_header_is_case_insensitive() {
    let body = issue_payload();
    let sig = sign_payload(SECRET, &body);
    let (status, issue) = serve(&body, &headers("LINEAR-SIGNATURE", &sig));
    assert_eq!(status, 200);
    assert!(issue.is_some());
    assert_eq!(SIGNATURE_HEADER, "linear-signature");
}

#[test]
fn code_is_that_of_the_published_vector() {
    let code = "f7bc83f430538424b13298e6aa6fb143ef4d59a14946175997479dbc2d1a3cd8";
    let body = b"The quick brown fox jumps over the lazy dog";
    let found = extract_signature(&headers("linear-signature", code)).unwrap();
    assert_eq!(found.len(), 32);
    assert_eq!(found[0], 0xf7);
    assert!(verify_signature(b"key", body, &found));
    assert!(!verify_signature(b"kex", body, &found));
    assert!(!verify_signature(b"key", body, &found[..31]));
}

#[test]
fn code_must_be_hexadecimal() {
    for bad in ["", "f", "zz", "0x12"] {
        let found = extract_signature(&headers("linear-signature", bad));
        assert!(bad.is_empty() || found.is_none(), "{bad}");
    }
    assert_eq!(
        extract_signature(&headers("linear-signature", "00FFab")),
        Some(vec![0x00, 0xff, 0xab]),
    );
    let unreadable = vec![Header { name: "linear-signature".to_owned(), value: None }];
    assert_eq!(extract_signature(&unreadable), None);
}

#[test]
fn oversized_body_is_refused() {
    let body = vec![b'a'; MAX_BODY_BYTES + 1];
    let (status, issue) = serve(&body, &vec![]);
    assert_eq!(status, 413);
    assert!(issue.is_none());
}

#[test]
fn poll_and_report_agree() {
    let value = from_value(serde_json::from_slice(&issue_payload()).unwrap());
    assert!(is_issue_event(&value));
    let reported = normalize_payload(&value).unwrap();
    let node = value.get("data").unwrap().duplicate();
    let polled = read_issue(&Json::Object(vec![(
        "data".to_owned(),
        Json::Object(vec![("issue".to_owned(), node)]),
    )]))
    .unwrap();
    assert_eq!(reported, polled);
}

#[test]
fn unreadable_issue_is_refused() {
    let value = Json::Object(vec![
        ("type".to_owned(), Json::Text("Issue".to_owned())),
        ("data".to_owned(), Json::Object(vec![])),
    ]);
    assert!(matches!(handle_event(Some(value)), WebhookStep::Answer(400)));
    assert_eq!(after_forward(false), 503);
}

#[test]
fn report_that_is_too_large_returns_413() {
    assert_eq!(authenticate(SECRET, None, &vec![]), Some(413));
    assert!(matches!(receive(SECRET, None, &vec![]), WebhookStep::Answer(413)));
}

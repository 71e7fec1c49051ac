use roki_daemon::json::{Json, JsonNumber};
use roki_daemon::tools::linear_graphql::{
    count_operations, deferred, network_error, parse_input, parse_retry_after, prepare_call,
    redact, scrub_value, settle_reply,
};
use roki_daemon::tools::{RateLimited, ToolError};

/// The value that a JSON text stands for.
fn json(text: &str) -> Json {
    from_value(serde_json::from_str(text).unwrap())
}

fn from_value(v: serde_json::Value) -> Json {
    match v {
        serde_json::Value::Null => Json::Null,
        serde_json::Value::Bool(b) => Json::Bool(b),
        serde_json::Value::Number(n) => match (n.as_u64(), n.as_i64()) {
            (Some(u), _) => Json::Number(JsonNumber::Unsigned(u)),
            (None, Some(i)) => Json::Number(JsonNumber::Negative(i)),
            (None, None) => Json::Number(JsonNumber::Other(n.to_string())),
        },
        serde_json::Value::String(s) => Json::Text(s),
        serde_json::Value::Array(items) => {
            Json::Array(items.into_iter().map(from_value).collect())
        }
        serde_json::Value::Object(map) => {
            Json::Object(map.into_iter().map(|(k, v)| (k, from_value(v))).collect())
        }
    }
}

#[test]
fn counts_zero_operations_in_empty_document() {
    assert_eq!(count_operations(""), 0);
    assert_eq!(count_operations("   \n  "), 0);
}

#[test]
fn counts_single_named_operation() {
    let doc = "query GetIssue($id: String!) { issue(id: $id) { id title } }";
    assert_eq!(count_operations(doc), 1);
}

#[test]
fn counts_single_shorthand_operation() {
    assert_eq!(count_operations("{ viewer { id } }"), 1);
}

#[test]
fn counts_two_named_operations() {
    let doc = "query A { viewer { id } } mutation B { issueCreate(input: {}) { success } }";
    assert_eq!(count_operations(doc), 2);
}

#[test]
fn ignores_keywords_inside_selection_sets() {
    let doc = "query A { mutation { id } }";
    assert_eq!(count_operations(doc), 1);
}

#[test]
fn ignores_keywords_inside_strings_and_comments() {
    let doc = r#"# query inside a comment
query A { node(id: "mutation { evil }") { id } }
"#;
    assert_eq!(count_operations(doc), 1);
}

#[test]
fn redact_replaces_every_token_occurrence() {
    let token = "lin_api_super_secret_value";
    let msg = format!(
        "request to https://api.linear.app failed with header Authorization: {token}; retry sent {token}"
    );
    let scrubbed = redact(&msg, token);
    assert!(!scrubbed.contains(token));
    assert!(scrubbed.contains("***"));
}

#[test]
fn redact_is_noop_for_empty_token() {
    assert_eq!(redact("hello", ""), "hello");
}

/// Every text in a value, at any depth.
fn texts(v: &Json, out: &mut Vec<String>) {
    match v {
        Json::Text(s) => out.push(s.clone()),
        Json::Array(items) => items.iter().for_each(|i| texts(i, out)),
        Json::Object(entries) => entries.iter().for_each(|(_, i)| texts(i, out)),
        _ => {}
    }
}

#[test]
fn scrub_value_walks_nested_strings() {
    let token = "lin_secret";
    let value = json(
        r#"{
            "errors": [ { "message": "auth failed: lin_secret" }, { "message": "ok" } ],
            "data": { "leak": "Authorization: lin_secret" }
        }"#,
    );
    let scrubbed = scrub_value(value, token);
    let mut found = Vec::new();
    texts(&scrubbed, &mut found);
    let s = found.join("\n");
    assert!(!s.contains(token));
    assert!(s.contains("***"));
    assert_eq!(scrubbed.inner_str("data", "leak"), Some("Authorization: ***"));
}

#[test]
fn rejects_multi_operation_documents_without_http_call() {
    let input = json(
        r#"{ "query": "query A { viewer { id } } query B { viewer { id } }", "variables": {} }"#,
    );
    let err = prepare_call(&input).unwrap_err();
    assert!(matches!(err, ToolError::MultipleOperations));
}

#[test]
fn rejects_zero_operation_documents() {
    let input = json(r##"{ "query": "# only a comment, no operation\n", "variables": {} }"##);
    let err = prepare_call(&input).unwrap_err();
    assert!(matches!(err, ToolError::InvalidInput { .. }));
}

#[test]
fn injected_token_in_synthetic_failure_is_redacted_before_return() {
    let token = "lin_api_super_secret_value";
    let synthetic =
        format!("connection failed while sending Authorization: {token} to upstream");
    let err = ToolError::Network { message: redact(&synthetic, token) };
    let rendered = err.message();
    assert!(!rendered.contains(token), "rendered error leaked the token: {rendered}");
    assert!(rendered.contains("***"));
    assert_eq!(network_error(&synthetic, token), err);
}

#[test]
fn good_call_passes_query_and_variables() {
    let input = json(r#"{ "query": "query A { viewer { id } }", "variables": { "id": 3 } }"#);
    let body = prepare_call(&input).unwrap();
    assert_eq!(body.get_str("query"), Some("query A { viewer { id } }"));
    assert_eq!(
        body.get("variables").unwrap().get("id"),
        Some(&Json::Number(JsonNumber::Unsigned(3))),
    );
}

#[test]
fn input_must_hold_a_query() {
    let cases = [
        ("[]", "input must be a JSON object"),
        ("{}", "missing required field 'query'"),
        (r#"{ "query": 3 }"#, "missing required field 'query'"),
        (r#"{ "query": "q", "variables": [] }"#, "'variables' must be an object"),
    ];
    for (bad, reason) in cases {
        let err = parse_input(&json(bad)).unwrap_err();
        assert_eq!(err, ToolError::InvalidInput { reason: reason.to_owned() });
    }
}

#[test]
fn block_strings_hide_what_they_hold() {
    let doc = "query A { f(text: \"\"\"mutation { x } \" query \"\"\") { id } }";
    assert_eq!(count_operations(doc), 1);
    assert_eq!(count_operations("subscription S { x }"), 1);
    // A fragment definition is no operation.
    assert_eq!(count_operations("fragment F on T { id } query A { ...F }"), 1);
    assert_eq!(count_operations("query A { ...F } fragment F on User { id }"), 1);
    assert_eq!(count_operations("fragment F on T { id }"), 0);
    assert_eq!(count_operations("fragments { id }"), 1);
    assert_eq!(count_operations("queryable { x }"), 1);
}

#[test]
fn retry_header_is_read_as_seconds() {
    assert_eq!(parse_retry_after(Some("17")), Some(17));
    assert_eq!(parse_retry_after(Some("soon")), None);
    assert_eq!(parse_retry_after(None), None);
}

#[test]
fn replies_are_settled_by_status() {
    let ok = settle_reply(200, None, Ok(json(r#"{"leak":"tok-1"}"#)), "tok-1").unwrap();
    assert_eq!(ok.get_str("leak"), Some("***"));
    assert_eq!(
        settle_reply(429, Some(9), Ok(Json::Null), "t"),
        Err(ToolError::RateLimited { retry_after_seconds: Some(9) }),
    );
    assert_eq!(
        settle_reply(503, None, Ok(Json::Null), "t"),
        Err(ToolError::LinearHttpError { status: 503 }),
    );
    match settle_reply(200, None, Err("bad tok-1 body".to_owned()), "tok-1") {
        Err(ToolError::Network { message }) => assert!(!message.contains("tok-1")),
        other => panic!("expected Network, got {other:?}"),
    }
}

#[test]
fn deferred_call_is_rate_limited() {
    assert_eq!(
        deferred(RateLimited { retry_after_seconds: Some(4) }),
        ToolError::RateLimited { retry_after_seconds: Some(4) },
    );
}

#[test]
fn messages_of_tool_errors() {
    assert_eq!(
        ToolError::RepoNotInAllowlist {
            repo: "evil/repo".to_owned(),
            allowed: vec!["owner/core".to_owned()],
        }
        .message(),
        "REPO_NOT_IN_ALLOWLIST: repo=evil/repo, allowed=[\"owner/core\"]",
    );
    assert_eq!(
        ToolError::RateLimited { retry_after_seconds: Some(3) }.message(),
        "RATE_LIMITED: retry_after=Some(3)s",
    );
}

#[test]
fn names_are_scrubbed_too() {
    let value = json(r#"{ "k-lin_secret": { "lin_secret": 1 }, "plain": [] }"#);
    let scrubbed = scrub_value(value, "lin_secret");
    match &scrubbed {
        Json::Object(entries) => {
            let names: Vec<&str> = entries.iter().map(|(k, _)| k.as_str()).collect();
            assert!(names.contains(&"k-***"));
            assert!(names.contains(&"plain"));
        }
        other => panic!("expected an object, got {other:?}"),
    }
    assert!(scrubbed.get("k-***").unwrap().get("***").is_some());
}

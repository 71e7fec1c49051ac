use roki_daemon::json::{Json, JsonNumber};
use roki_daemon::strmap::StrMap;
use roki_daemon::workflow::schema::{
    cross_check_override_forms, default_allowed_tools, dotted_path, extract_phases,
    settle_policy, validate, Effort, OrchestratorConfig, ParsedWorkflow, PhaseConfig,
    SchemaError, SchemaVerdict, WorkflowPolicy, DEFAULT_EFFORT, DEFAULT_MAX_PHASES,
    DEFAULT_STALL_SECONDS, WORKFLOW_SCHEMA,
};

const MODEL: &str = "standard-model";

fn from_value(v: serde_json::Value) -> Json {
    match v {
        serde_json::Value::Null => Json::Null,
        serde_json::Value::Bool(b) => Json::Bool(b),
        serde_json::Value::Number(n) => match (n.as_u64(), n.as_i64()) {
            (Some(u), _) => Json::Number(JsonNumber::Unsigned(u)),
            (None, Some(i)) => Json::Number(JsonNumber::Negative(i)),
            (None, None) => Json::Number(JsonNumber::Other(n.to_string())),
        },
        serde_json::Value::String(s) => Json::Text(s),
        serde_json::Value::Array(items) => {
            Json::Array(items.into_iter().map(from_value).collect())
        }
        serde_json::Value::Object(map) => {
            Json::Object(map.into_iter().map(|(k, v)| (k, from_value(v))).collect())
        }
    }
}

/// The value that a YAML text stands for.
fn yaml(text: &str) -> Json {
    from_value(serde_yaml_ng::from_str::<serde_json::Value>(text).unwrap())
}

fn blocks(extra: &[(&str, &str)]) -> StrMap<String> {
    let mut m = StrMap::new();
    m.insert("prompt_template_orchestrator".to_owned(), "orch".to_owned());
    m.insert("prompt_template_implement_direct".to_owned(), "impl".to_owned());
    m.insert("prompt_template_validate_direct".to_owned(), "val".to_owned());
    m.insert("prompt_template_open_pr".to_owned(), "open".to_owned());
    for (k, v) in extra {
        m.insert(k.to_string(), v.to_string());
    }
    m
}

fn baseline_workflow(front_matter: &str) -> ParsedWorkflow {
    ParsedWorkflow { front_matter: yaml(front_matter), blocks: blocks(&[]) }
}

fn checked(front_matter: &str) -> Result<WorkflowPolicy, SchemaError> {
    validate(baseline_workflow(front_matter), MODEL)
}

#[test]
fn applies_canonical_defaults_when_keys_omitted() {
    let policy = checked("").expect("defaults must apply");
    assert_eq!(policy.orchestrator.model, MODEL);
    assert_eq!(policy.orchestrator.effort, Effort::Middle);
    assert_eq!(policy.orchestrator.max_phases, DEFAULT_MAX_PHASES);
    assert_eq!(policy.orchestrator.stall_seconds, DEFAULT_STALL_SECONDS);
    assert_eq!(policy.orchestrator.allowed_tools, default_allowed_tools());
    assert!(policy.phases.is_empty());
}

#[test]
fn out_of_range_max_phases_is_refused_with_key_path() {
    let err = checked("extension:\n  orchestrator:\n    max_phases: 500\n").unwrap_err();
    match err {
        SchemaError::Validation { ref key_path, .. } => {
            assert!(
                key_path.contains("extension.orchestrator.max_phases"),
                "expected dotted key path, got {key_path}",
            );
        }
        other => panic!("expected Validation error, got {other:?}"),
    }
}

#[test]
fn both_override_forms_for_same_phase_refused() {
    let parsed = ParsedWorkflow {
        front_matter: yaml("extension:\n  phase:\n    review:\n      command: \"/custom-review\"\n"),
        blocks: blocks(&[("prompt_template_review", "review override block")]),
    };
    let err = validate(parsed, MODEL).unwrap_err();
    assert_eq!(err, SchemaError::BothOverrideForms { phase: "review".to_owned() });
}

#[test]
fn legacy_extension_gates_spec_refused() {
    let err = checked("extension:\n  gates:\n    spec:\n      foo: 1\n").unwrap_err();
    assert_eq!(err, SchemaError::LegacyKey { key: "extension.gates.spec".to_owned() });
}

#[test]
fn unknown_extension_server_key_round_trips() {
    let policy = checked("extension:\n  server:\n    foo: bar\n")
        .expect("unknown server keys must round-trip");
    let foo = Json::Object(vec![("foo".to_owned(), Json::Text("bar".to_owned()))]);
    assert_eq!(policy.server, foo, "server slice must carry through unchanged");
    let unknowns_server =
        policy.raw_unknowns.get("extension").and_then(|v| v.get("server")).unwrap();
    assert_eq!(unknowns_server, &foo);
}

#[test]
fn legacy_judge_model_refused() {
    let err = checked("judge:\n  model: \"some-model\"\n").unwrap_err();
    assert_eq!(err, SchemaError::LegacyKey { key: "[judge].model".to_owned() });
}

#[test]
fn unknown_phase_name_refused() {
    let err = checked("extension:\n  phase:\n    bogus:\n      command: \"x\"\n").unwrap_err();
    assert_eq!(err, SchemaError::UnknownPhase { phase: "bogus".to_owned() });
}

#[test]
fn legal_phase_command_only_is_accepted() {
    let policy = checked(
        "extension:\n  phase:\n    review:\n      command: \"/custom-review\"\n      max_turns: 25\n",
    )
    .expect("command-only override is legal");
    let review = policy.phases.get("review").expect("review phase override carried");
    assert_eq!(review.command.as_deref(), Some("/custom-review"));
    assert_eq!(review.max_turns, Some(25));
}

#[test]
fn settings_of_the_orchestrator_are_taken() {
    let policy = checked(
        "extension:\n  orchestrator:\n    model: m1\n    effort: high\n    max_phases: 3\n    stall_seconds: 9\n    allowed_tools: [Read]\n",
    )
    .unwrap();
    assert_eq!(
        policy.orchestrator,
        OrchestratorConfig {
            model: "m1".to_owned(),
            effort: Effort::High,
            max_phases: 3,
            allowed_tools: vec!["Read".to_owned()],
            stall_seconds: 9,
        },
    );
}

#[test]
fn front_matter_must_be_a_table() {
    match checked("[1, 2]") {
        Err(SchemaError::Validation { key_path, message }) => {
            assert_eq!(key_path, "<root>");
            assert_eq!(
                message,
                "front matter must be a table; got Array [Number(1), Number(2)]",
            );
        }
        other => panic!("expected Validation, got {other:?}"),
    }
}

#[test]
fn verdicts_are_settled() {
    let none = || Json::Object(vec![]);
    let bad = SchemaVerdict::BadSchema { message: "broken".to_owned() };
    assert!(matches!(
        settle_policy(none(), blocks(&[]), bad, MODEL),
        Err(SchemaError::Validation { .. })
    ));
    let misfit =
        SchemaVerdict::Misfit { path: "/a/b".to_owned(), message: "too big".to_owned() };
    assert_eq!(
        settle_policy(none(), blocks(&[]), misfit, MODEL).err(),
        Some(SchemaError::Validation {
            key_path: "a.b".to_owned(),
            message: "too big".to_owned(),
        }),
    );
    assert!(settle_policy(none(), blocks(&[]), SchemaVerdict::Fits, MODEL).is_ok());
}

#[test]
fn phase_must_be_a_table() {
    let table = yaml("extension:\n  phase:\n    review: 3\n");
    assert_eq!(
        extract_phases(&table).err(),
        Some(SchemaError::PhaseNotTable { phase: "review".to_owned() }),
    );
}

#[test]
fn block_without_a_command_is_no_conflict() {
    let mut phases = StrMap::new();
    phases.insert("review".to_owned(), PhaseConfig::default());
    let with_block = blocks(&[("prompt_template_review", "x")]);
    assert_eq!(cross_check_override_forms(&phases, &with_block), Ok(()));
}

#[test]
fn paths_are_dotted() {
    assert_eq!(dotted_path(""), "<root>");
    assert_eq!(dotted_path("/a/b"), "a.b");
}

#[test]
fn schema_text_is_json() {
    let value: serde_json::Value = serde_json::from_str(WORKFLOW_SCHEMA).unwrap();
    assert!(value.is_object());
    assert_eq!(DEFAULT_EFFORT, "middle");
}

#[test]
fn a_double_override_is_refused_before_an_unknown_phase() {
    let table = "extension:\n  phase:\n    review:\n      command: \"/r\"\n    aardvark:\n      command: \"/a\"\n";
    let only_review = blocks(&[("prompt_template_review", "x")]);
    assert_eq!(
        settle_policy(yaml(table), only_review, SchemaVerdict::Fits, MODEL).err(),
        Some(SchemaError::BothOverrideForms { phase: "review".to_owned() }),
    );
    let both = blocks(&[("prompt_template_review", "x"), ("prompt_template_aardvark", "y")]);
    assert_eq!(
        settle_policy(yaml(table), both, SchemaVerdict::Fits, MODEL).err(),
        Some(SchemaError::BothOverrideForms { phase: "aardvark".to_owned() }),
    );
    assert_eq!(
        settle_policy(yaml(table), blocks(&[]), SchemaVerdict::Fits, MODEL).err(),
        Some(SchemaError::UnknownPhase { phase: "aardvark".to_owned() }),
    );
}

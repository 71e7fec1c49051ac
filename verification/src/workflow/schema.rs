//! The settings in the front matter of a workflow file.
//!
//! The reserved namespaces are checked and read out, with defaults for what is
//! missing. What the daemon does not read is kept for others to read.
use vstd::prelude::*;

use crate::json::{collect_texts, debug_value, debug_value_text, entries_view, texts_of, to_value, Json, JsonView, NumberView};
use crate::strmap::{lemma_map_of, StrMap};
use crate::text::{chars_of, join2, lemma_lex_irreflexive, lemma_lex_transitive, lex_lt, opt_view, str_eq, views};

verus! {

/// The effort of the orchestrator's session, where none is set.
pub const DEFAULT_EFFORT: &'static str = "middle";

/// How many phases a session may run, where nothing is set.
pub const DEFAULT_MAX_PHASES: u32 = 15;

/// After how many silent seconds a session counts as stalled, where nothing is
/// set.
pub const DEFAULT_STALL_SECONDS: u32 = 600;

/// The JSON Schema of the front matter.
pub const WORKFLOW_SCHEMA: &'static str = r#"{
  "$schema": "https://json-schema.org/draft/2020-12/schema",
  "type": "object",
  "additionalProperties": true,
  "properties": {
    "extension": {
      "type": "object",
      "additionalProperties": true,
      "properties": {
        "orchestrator": {
          "type": "object",
          "additionalProperties": true,
          "properties": {
            "model": { "type": "string", "minLength": 1 },
            "effort": { "type": "string", "enum": ["low", "middle", "high"] },
            "max_phases": { "type": "integer", "minimum": 1, "maximum": 100 },
            "allowed_tools": {
              "type": "array",
              "items": { "type": "string", "minLength": 1 }
            },
            "stall_seconds": { "type": "integer", "minimum": 1, "maximum": 3600 }
          }
        },
        "phase": {
          "type": "object",
          "additionalProperties": {
            "type": "object",
            "additionalProperties": true,
            "properties": {
              "command": { "type": "string", "minLength": 1 },
              "max_turns": { "type": "integer", "minimum": 1, "maximum": 200 },
              "stall_seconds": { "type": "integer", "minimum": 1, "maximum": 3600 },
              "max_attempts": { "type": "integer", "minimum": 1, "maximum": 10 }
            }
          }
        },
        "server": {
          "type": "object",
          "additionalProperties": true
        }
      }
    }
  }
}"#;

/// How much thought a session spends.
#[derive(Debug, Clone, Copy, PartialEq, Eq, Structural)]
pub enum Effort {
    Low,
    Middle,
    High,
}

/// The settings of the orchestrator's session.
#[derive(Debug, Clone, PartialEq, Eq)]
pub struct OrchestratorConfig {
    pub model: String,
    pub effort: Effort,
    pub max_phases: u32,
    pub allowed_tools: Vec<String>,
    pub stall_seconds: u32,
}

#[verifier::ext_equal]
pub struct OrchestratorView {
    pub model: Seq<char>,
    pub effort: Effort,
    pub max_phases: u32,
    pub allowed_tools: Seq<Seq<char>>,
    pub stall_seconds: u32,
}

impl View for OrchestratorConfig {
    type V = OrchestratorView;

    open spec fn view(&self) -> OrchestratorView {
        OrchestratorView {
            model: self.model@,
            effort: self.effort,
            max_phases: self.max_phases,
            allowed_tools: views(self.allowed_tools@),
            stall_seconds: self.stall_seconds,
        }
    }
}

/// The tools of the orchestrator's session, where none are set.
pub open spec fn default_tools() -> Seq<Seq<char>> {
    seq!["mcp__linear*"@, "Read"@, "Bash"@]
}

/// The settings where nothing is set but the model.
pub open spec fn default_orchestrator(model: Seq<char>) -> OrchestratorView {
    OrchestratorView {
        model,
        effort: Effort::Middle,
        max_phases: DEFAULT_MAX_PHASES,
        allowed_tools: default_tools(),
        stall_seconds: DEFAULT_STALL_SECONDS,
    }
}

/// The tools of the orchestrator's session, where none are set.
pub fn default_allowed_tools() -> (v: Vec<String>)
    ensures
        views(v@) == default_tools(),
{
    let v = vec!["mcp__linear*".to_owned(), "Read".to_owned(), "Bash".to_owned()];
    assert(views(v@) =~= default_tools());
    v
}

impl OrchestratorConfig {
    /// The settings where nothing is set but the model.
    pub fn with_model(model: &str) -> (c: Self)
        ensures
            c@ == default_orchestrator(model@),
    {
        OrchestratorConfig {
            model: model.to_owned(),
            effort: Effort::Middle,
            max_phases: DEFAULT_MAX_PHASES,
            allowed_tools: default_allowed_tools(),
            stall_seconds: DEFAULT_STALL_SECONDS,
        }
    }
}

/// What a phase does otherwise than the catalog says.
#[derive(Debug, Clone, PartialEq, Eq)]
pub struct PhaseConfig {
    pub command: Option<String>,
    pub max_turns: Option<u32>,
    pub stall_seconds: Option<u32>,
    pub max_attempts: Option<u32>,
}

#[verifier::ext_equal]
pub struct PhaseView {
    pub command: Option<Seq<char>>,
    pub max_turns: Option<u32>,
    pub stall_seconds: Option<u32>,
    pub max_attempts: Option<u32>,
}

impl View for PhaseConfig {
    type V = PhaseView;

    open spec fn view(&self) -> PhaseView {
        PhaseView {
            command: opt_view(self.command),
            max_turns: self.max_turns,
            stall_seconds: self.stall_seconds,
            max_attempts: self.max_attempts,
        }
    }
}

impl Default for PhaseConfig {
    fn default() -> (c: Self)
        ensures
            c == (PhaseConfig {
                command: None,
                max_turns: None,
                stall_seconds: None,
                max_attempts: None,
            }),
    {
        PhaseConfig { command: None, max_turns: None, stall_seconds: None, max_attempts: None }
    }
}

/// A workflow file, taken apart: its front matter and its named blocks.
#[derive(Debug)]
pub struct ParsedWorkflow {
    pub front_matter: Json,
    pub blocks: StrMap<String>,
}

/// The settings that are in force.
#[derive(Debug)]
pub struct WorkflowPolicy {
    pub orchestrator: OrchestratorConfig,
    pub phases: StrMap<PhaseConfig>,
    pub server: Json,
    pub blocks: StrMap<String>,
    /// The front matter without the namespaces that have been read out.
    pub raw_unknowns: Json,
}

#[derive(Debug, Clone, PartialEq, Eq)]
pub enum SchemaError {
    /// The front matter does not fit the schema.
    Validation { key_path: String, message: String },
    /// A phase is overridden twice.
    BothOverrideForms { phase: String },
    /// A key that is no longer read.
    LegacyKey { key: String },
    /// There is no such phase.
    UnknownPhase { phase: String },
    /// The override of a phase is not a table.
    PhaseNotTable { phase: String },
}

// ---------------------------------------------------------------------------
// The schema
// ---------------------------------------------------------------------------

/// What a schema says of a value.
#[derive(Debug, Clone, PartialEq, Eq)]
pub enum SchemaVerdict {
    Fits,
    /// The schema itself is faulty.
    BadSchema { message: String },
    /// The value does not fit at `path`, which is a JSON Pointer.
    Misfit { path: String, message: String },
}

#[verifier::ext_equal]
pub enum VerdictView {
    Fits,
    BadSchema(Seq<char>),
    Misfit(Seq<char>, Seq<char>),
}

impl View for SchemaVerdict {
    type V = VerdictView;

    open spec fn view(&self) -> VerdictView {
        match self {
            SchemaVerdict::Fits => VerdictView::Fits,
            SchemaVerdict::BadSchema { message } => VerdictView::BadSchema(message@),
            SchemaVerdict::Misfit { path, message } => VerdictView::Misfit(path@, message@),
        }
    }
}

/// What the `jsonschema` crate says of a value under a schema.
pub uninterp spec fn schema_verdict(schema: Seq<char>, value: JsonView) -> VerdictView;

/// Calls `Validator::validate` on the schema, built by `validator_for`. The
/// contract claims that the outcome, the first error with its path and its
/// words, depends on the schema and the value alone; a schema with more
/// properties than this one would have them hashed.
#[verifier::external_body]
fn check_schema(schema: &str, value: &Json) -> (r: SchemaVerdict)
    requires
        schema@ == WORKFLOW_SCHEMA@,
    ensures
        r@ == schema_verdict(schema@, value@),
{
    let schema: serde_json::Value = serde_json::from_str(schema).unwrap_or_default();
    let validator = match jsonschema::validator_for(&schema) {
        Ok(validator) => validator,
        Err(e) => return SchemaVerdict::BadSchema { message: e.to_string() },
    };
    match validator.validate(&to_value(value)) {
        Ok(()) => SchemaVerdict::Fits,
        Err(e) => SchemaVerdict::Misfit {
            path: e.instance_path().to_string(),
            message: e.to_string(),
        },
    }
}

/// The text without the slashes that it starts with.
pub open spec fn without_slashes(s: Seq<char>) -> Seq<char>
    decreases s.len(),
{
    if s.len() > 0 && s[0] == '/' {
        without_slashes(s.subrange(1, s.len() as int))
    } else {
        s
    }
}

/// A JSON Pointer with dots.
pub open spec fn dotted(path: Seq<char>) -> Seq<char> {
    if path.len() == 0 {
        "<root>"@
    } else {
        let bare = without_slashes(path);
        Seq::new(
            bare.len(),
            |i: int|
                if bare[i] == '/' {
                    '.'
                } else {
                    bare[i]
                },
        )
    }
}

/// The dotted form of a path.
pub fn dotted_path(path: &str) -> (out: String)
    ensures
        out@ == dotted(path@),
{
    let cs = chars_of(path);
    if cs.len() == 0 {
        return "<root>".to_owned();
    }
    let mut i: usize = 0;
    assert(cs@.subrange(0, cs@.len() as int) =~= cs@);
    while i < cs.len() && cs[i] == '/'
        invariant
            i <= cs.len(),
            without_slashes(cs@) == without_slashes(cs@.subrange(i as int, cs@.len() as int)),
        decreases cs.len() - i,
    {
        proof {
            let s = cs@.subrange(i as int, cs@.len() as int);
            assert(s.subrange(1, s.len() as int) =~= cs@.subrange(i + 1, cs@.len() as int));
        }
        i += 1;
    }
    let ghost bare = cs@.subrange(i as int, cs@.len() as int);
    assert(without_slashes(cs@) == bare);
    let ghost from = i as int;
    let mut out = String::new();
    while i < cs.len()
        invariant
            0 <= from <= i <= cs.len(),
            cs@ == path@,
            cs@.len() > 0,
            bare == cs@.subrange(from, cs@.len() as int),
            without_slashes(path@) == bare,
            out@ == dotted(path@).take(i - from),
            dotted(path@).len() == bare.len(),
        decreases cs.len() - i,
    {
        let c = cs[i];
        assert(bare[i - from] == c);
        if c == '/' {
            out.push('.');
        } else {
            out.push(c);
        }
        proof {
            assert(dotted(path@).take(i + 1 - from) =~= dotted(path@).take(i - from).push(
                dotted(path@)[i - from],
            ));
        }
        i += 1;
    }
    assert(dotted(path@).take(i - from) =~= dotted(path@));
    out
}

/// Turns what the schema says into a result.
pub fn settle_schema(verdict: &SchemaVerdict) -> (r: Result<(), SchemaError>)
    ensures
        match verdict@ {
            VerdictView::Fits => r is Ok,
            VerdictView::BadSchema(m) => r matches Err(SchemaError::Validation {
                key_path,
                message,
            }) && key_path@ == "<root>"@ && message@ == "internal schema build error: "@ + m,
            VerdictView::Misfit(p, m) => r matches Err(SchemaError::Validation {
                key_path,
                message,
            }) && key_path@ == dotted(p) && message@ == m,
        },
{
    match verdict {
        SchemaVerdict::Fits => Ok(()),
        SchemaVerdict::BadSchema { message } => Err(
            SchemaError::Validation {
                key_path: "<root>".to_owned(),
                message: join2("internal schema build error: ", message.as_str()),
            },
        ),
        SchemaVerdict::Misfit { path, message } => Err(
            SchemaError::Validation {
                key_path: dotted_path(path.as_str()),
                message: message.clone(),
            },
        ),
    }
}

// ---------------------------------------------------------------------------
// Keys that are no longer read
// ---------------------------------------------------------------------------

/// What `extension` holds under `k`.
pub open spec fn extension_field(table: JsonView, k: Seq<char>) -> Option<JsonView> {
    match table.field("extension"@) {
        Some(e) => e.field(k),
        None => None,
    }
}

/// The first key that is no longer read, if there is one.
pub open spec fn legacy_key(table: JsonView) -> Option<Seq<char>> {
    let gates = extension_field(table, "gates"@);
    if table.field("judge"@) matches Some(j) && j.field("model"@) is Some {
        Some("[judge].model"@)
    } else if extension_field(table, "linear_updater"@) is Some {
        Some("extension.linear_updater"@)
    } else if extension_field(table, "distill"@) is Some {
        Some("extension.distill"@)
    } else if gates matches Some(g) && g is Object {
        if gates->0.field("spec"@) is Some {
            Some("extension.gates.spec"@)
        } else if gates->0.field("review"@) is Some {
            Some("extension.gates.review"@)
        } else {
            Some("extension.gates"@)
        }
    } else {
        None
    }
}

fn legacy(key: &str) -> (r: Result<(), SchemaError>)
    ensures
        r matches Err(SchemaError::LegacyKey { key: k }) && k@ == key@,
{
    Err(SchemaError::LegacyKey { key: key.to_owned() })
}

/// Refuses keys that are no longer read.
pub fn reject_legacy_keys(table: &Json) -> (r: Result<(), SchemaError>)
    ensures
        r is Ok == legacy_key(table@) is None,
        r matches Err(e) ==> e matches SchemaError::LegacyKey { key } && Some(key@) == legacy_key(
            table@,
        ),
{
    if let Some(judge) = table.get("judge") {
        if judge.get("model").is_some() {
            return legacy("[judge].model");
        }
    }
    if let Some(extension) = table.get("extension") {
        if extension.get("linear_updater").is_some() {
            return legacy("extension.linear_updater");
        }
        if extension.get("distill").is_some() {
            return legacy("extension.distill");
        }
        if let Some(gates) = extension.get("gates") {
            if matches!(gates, Json::Object(_)) {
                if gates.get("spec").is_some() {
                    return legacy("extension.gates.spec");
                }
                if gates.get("review").is_some() {
                    return legacy("extension.gates.review");
                }
                return legacy("extension.gates");
            }
        }
    }
    Ok(())
}

// ---------------------------------------------------------------------------
// The orchestrator's settings
// ---------------------------------------------------------------------------

/// The lower 32 bits of an integer.
pub open spec fn low_bits(n: u64) -> u32 {
    n as u32
}

/// The integer under `k`, cut to 32 bits.
pub open spec fn small_field(v: JsonView, k: Seq<char>) -> Option<u32> {
    match v.field(k) {
        Some(n) => match n.unsigned() {
            Some(x) => Some(low_bits(x)),
            None => None,
        },
        None => None,
    }
}

fn get_small(v: &Json, key: &str) -> (r: Option<u32>)
    ensures
        r == small_field(v@, key@),
{
    match v.get(key) {
        Some(n) => match n.as_u64() {
            Some(x) => Some(
                #[verifier::truncate]
                (x as u32),
            ),
            None => None,
        },
        None => None,
    }
}

pub open spec fn effort_of(text: Seq<char>) -> Effort {
    if text == "low"@ {
        Effort::Low
    } else if text == "high"@ {
        Effort::High
    } else {
        Effort::Middle
    }
}

/// `a`, or `b` where there is no `a`.
pub open spec fn set_or<T>(a: Option<T>, b: T) -> T {
    match a {
        Some(x) => x,
        None => b,
    }
}

/// The settings of the orchestrator's session; `model` is the one where none is
/// set.
pub open spec fn orchestrator_of(table: JsonView, model: Seq<char>) -> OrchestratorView {
    let d = default_orchestrator(model);
    match extension_field(table, "orchestrator"@) {
        Some(o) => OrchestratorView {
            model: set_or(o.field_text("model"@), d.model),
            effort: match o.field_text("effort"@) {
                Some(t) => effort_of(t),
                None => d.effort,
            },
            max_phases: set_or(small_field(o, "max_phases"@), d.max_phases),
            allowed_tools: match o.field("allowed_tools"@) {
                Some(t) => match t.items() {
                    Some(items) => texts_of(items, items.len()),
                    None => d.allowed_tools,
                },
                None => d.allowed_tools,
            },
            stall_seconds: set_or(small_field(o, "stall_seconds"@), d.stall_seconds),
        },
        None => d,
    }
}

fn get_extension<'a>(table: &'a Json, key: &str) -> (r: Option<&'a Json>)
    ensures
        r is Some == extension_field(table@, key@) is Some,
        r matches Some(v) ==> extension_field(table@, key@) == Some(v@),
{
    match table.get("extension") {
        Some(e) => e.get(key),
        None => None,
    }
}

/// Reads the settings of the orchestrator's session. `model` is the one where
/// none is set.
pub fn extract_orchestrator(table: &Json, model: &str) -> (c: OrchestratorConfig)
    ensures
        c@ == orchestrator_of(table@, model@),
{
    let mut cfg = OrchestratorConfig::with_model(model);
    let orch = match get_extension(table, "orchestrator") {
        Some(o) => o,
        None => {
            return cfg;
        },
    };
    if let Some(model) = orch.get_str("model") {
        cfg.model = model.to_owned();
    }
    if let Some(effort) = orch.get_str("effort") {
        cfg.effort = if str_eq(effort, "low") {
            Effort::Low
        } else if str_eq(effort, "high") {
            Effort::High
        } else {
            Effort::Middle
        };
    }
    if let Some(n) = get_small(orch, "max_phases") {
        cfg.max_phases = n;
    }
    if let Some(n) = get_small(orch, "stall_seconds") {
        cfg.stall_seconds = n;
    }
    if let Some(v) = orch.get("allowed_tools") {
        if let Some(items) = v.as_array() {
            cfg.allowed_tools = collect_texts(items);
        }
    }
    cfg
}

// ---------------------------------------------------------------------------
// The phases
// ---------------------------------------------------------------------------

pub open spec fn legal_phase(name: Seq<char>) -> bool {
    ||| name == "classify"@
    ||| name == "implement"@
    ||| name == "review"@
    ||| name == "validate"@
    ||| name == "open_pr"@
    ||| name == "ci_fix"@
    ||| name == "finalize_review"@
}

fn is_legal_phase(name: &str) -> (r: bool)
    ensures
        r == legal_phase(name@),
{
    str_eq(name, "classify") || str_eq(name, "implement") || str_eq(name, "review") || str_eq(
        name,
        "validate",
    ) || str_eq(name, "open_pr") || str_eq(name, "ci_fix") || str_eq(name, "finalize_review")
}

/// The override of a phase.
pub open spec fn phase_of(v: JsonView) -> PhaseView {
    PhaseView {
        command: v.field_text("command"@),
        max_turns: small_field(v, "max_turns"@),
        stall_seconds: small_field(v, "stall_seconds"@),
        max_attempts: small_field(v, "max_attempts"@),
    }
}

/// The overrides of the phases, by name.
pub open spec fn phase_entries(table: JsonView) -> Seq<(Seq<char>, JsonView)> {
    match extension_field(table, "phase"@) {
        Some(JsonView::Object(entries)) => entries,
        _ => Seq::empty(),
    }
}

/// An override cannot be read.
pub open spec fn bad_phase(e: (Seq<char>, JsonView)) -> bool {
    !legal_phase(e.0) || !(e.1 is Object)
}

/// Entry `i` is the first one that cannot be read.
pub open spec fn first_bad_phase(entries: Seq<(Seq<char>, JsonView)>, i: int) -> bool {
    &&& 0 <= i < entries.len()
    &&& bad_phase(entries[i])
    &&& forall|k: int| 0 <= k < i ==> !bad_phase(#[trigger] entries[k])
}

pub open spec fn some_bad_phase(entries: Seq<(Seq<char>, JsonView)>) -> bool {
    exists|i: int| first_bad_phase(entries, i)
}

/// The overrides of the first `n` entries.
pub open spec fn phases_of(entries: Seq<(Seq<char>, JsonView)>, n: nat) -> Map<
    Seq<char>,
    PhaseView,
>
    decreases n,
{
    if n == 0 {
        Map::empty()
    } else {
        phases_of(entries, (n - 1) as nat).insert(entries[n - 1].0, phase_of(entries[n - 1].1))
    }
}

pub open spec fn phase_views(m: Map<Seq<char>, PhaseConfig>) -> Map<Seq<char>, PhaseView> {
    Map::new(|k: Seq<char>| m.contains_key(k), |k: Seq<char>| m[k]@)
}

fn read_phase(v: &Json) -> (c: PhaseConfig)
    ensures
        c@ == phase_of(v@),
{
    PhaseConfig {
        command: match v.get_str("command") {
            Some(s) => Some(s.to_owned()),
            None => None,
        },
        max_turns: get_small(v, "max_turns"),
        stall_seconds: get_small(v, "stall_seconds"),
        max_attempts: get_small(v, "max_attempts"),
    }
}

/// What is said of the first override that cannot be read.
pub open spec fn phase_fault(entries: Seq<(Seq<char>, JsonView)>, e: SchemaError) -> bool {
    exists|i: int|
        #![trigger entries[i]]
        first_bad_phase(entries, i) && if !legal_phase(entries[i].0) {
            e matches SchemaError::UnknownPhase { phase } && phase@ == entries[i].0
        } else {
            e matches SchemaError::PhaseNotTable { phase } && phase@ == entries[i].0
        }
}

/// Refuses an override of a phase that is not known, or that is no table.
pub fn reject_bad_phases(table: &Json) -> (r: Result<(), SchemaError>)
    ensures
        r is Ok == !some_bad_phase(phase_entries(table@)),
        r matches Err(e) ==> phase_fault(phase_entries(table@), e),
{
    let ghost all = phase_entries(table@);
    let v = match get_extension(table, "phase") {
        Some(Json::Object(v)) => v,
        _ => {
            assert(all =~= Seq::empty());
            return Ok(());
        },
    };
    assert(all == entries_view(v@));
    let mut i: usize = 0;
    while i < v.len()
        invariant
            i <= v.len(),
            all == phase_entries(table@),
            all == entries_view(v@),
            forall|k: int| 0 <= k < i ==> !bad_phase(#[trigger] all[k]),
        decreases v.len() - i,
    {
        let name = &v[i].0;
        let value = &v[i].1;
        assert(all[i as int] == (name@, value@));
        if !is_legal_phase(name.as_str()) {
            assert(first_bad_phase(all, i as int));
            return Err(SchemaError::UnknownPhase { phase: name.clone() });
        }
        if !matches!(value, Json::Object(_)) {
            assert(first_bad_phase(all, i as int));
            return Err(SchemaError::PhaseNotTable { phase: name.clone() });
        }
        i += 1;
    }
    Ok(())
}

/// Reads every override, whatever phase it names.
pub fn read_phases(table: &Json) -> (phases: StrMap<PhaseConfig>)
    ensures
        phase_views(phases@) == phases_of(phase_entries(table@), phase_entries(table@).len()),
{
    let mut phases: StrMap<PhaseConfig> = StrMap::new();
    let ghost all = phase_entries(table@);
    assert(phase_views(phases@) =~= phases_of(all, 0));
    let v = match get_extension(table, "phase") {
        Some(Json::Object(v)) => v,
        _ => {
            assert(all =~= Seq::empty());
            return phases;
        },
    };
    assert(all == entries_view(v@));
    let mut i: usize = 0;
    while i < v.len()
        invariant
            i <= v.len(),
            all == phase_entries(table@),
            all == entries_view(v@),
            phase_views(phases@) == phases_of(all, i as nat),
        decreases v.len() - i,
    {
        let name = &v[i].0;
        let value = &v[i].1;
        assert(all[i as int] == (name@, value@));
        let cfg = read_phase(value);
        let ghost before = phases@;
        let ghost view = cfg@;
        phases.insert(name.clone(), cfg);
        proof {
            assert(phase_views(phases@) =~= phase_views(before).insert(name@, view));
        }
        i += 1;
    }
    phases
}

/// Reads the overrides of the phases.
pub fn extract_phases(table: &Json) -> (r: Result<StrMap<PhaseConfig>, SchemaError>)
    ensures
        r is Ok == !some_bad_phase(phase_entries(table@)),
        r matches Ok(m) ==> phase_views(m@) == phases_of(
            phase_entries(table@),
            phase_entries(table@).len(),
        ),
        r matches Err(e) ==> phase_fault(phase_entries(table@), e),
{
    match reject_bad_phases(table) {
        Ok(()) => Ok(read_phases(table)),
        Err(e) => Err(e),
    }
}

// ---------------------------------------------------------------------------
// What others read
// ---------------------------------------------------------------------------

/// The settings of the server, which others read.
pub open spec fn server_of(table: JsonView) -> JsonView {
    match extension_field(table, "server"@) {
        Some(v) => v,
        None => JsonView::Object(Seq::empty()),
    }
}

pub fn extract_server(table: &Json) -> (v: Json)
    ensures
        v@ == server_of(table@),
{
    match get_extension(table, "server") {
        Some(v) => v.duplicate(),
        None => {
            let none: Vec<(String, Json)> = Vec::new();
            assert(entries_view(none@) =~= Seq::empty());
            Json::Object(none)
        },
    }
}

/// The first `n` entries but those of the orchestrator and the phases.
pub open spec fn unread(entries: Seq<(Seq<char>, JsonView)>, n: nat) -> Seq<(Seq<char>, JsonView)>
    decreases n,
{
    if n == 0 {
        Seq::empty()
    } else if entries[n - 1].0 == "orchestrator"@ || entries[n - 1].0 == "phase"@ {
        unread(entries, (n - 1) as nat)
    } else {
        unread(entries, (n - 1) as nat).push(entries[n - 1])
    }
}

/// An entry of the front matter without what has been read out of it.
pub open spec fn stripped_entry(e: (Seq<char>, JsonView)) -> (Seq<char>, JsonView) {
    if e.0 == "extension"@ {
        match e.1 {
            JsonView::Object(inner) => (e.0, JsonView::Object(unread(inner, inner.len()))),
            _ => e,
        }
    } else {
        e
    }
}

/// The front matter without what has been read out of it.
pub open spec fn stripped(table: JsonView) -> JsonView {
    match table {
        JsonView::Object(entries) => JsonView::Object(
            Seq::new(entries.len(), |i: int| stripped_entry(entries[i])),
        ),
        _ => table,
    }
}

fn keep_unread(v: &Vec<(String, Json)>) -> (out: Vec<(String, Json)>)
    ensures
        entries_view(out@) == unread(entries_view(v@), v@.len()),
{
    let mut out: Vec<(String, Json)> = Vec::new();
    let ghost all = entries_view(v@);
    assert(entries_view(out@) =~= unread(all, 0));
    let mut i: usize = 0;
    while i < v.len()
        invariant
            i <= v.len(),
            all == entries_view(v@),
            entries_view(out@) == unread(all, i as nat),
        decreases v.len() - i,
    {
        assert(all[i as int] == (v@[i as int].0@, v@[i as int].1@));
        if !str_eq(v[i].0.as_str(), "orchestrator") && !str_eq(v[i].0.as_str(), "phase") {
            let ghost before = entries_view(out@);
            out.push((v[i].0.clone(), v[i].1.duplicate()));
            assert(entries_view(out@) =~= before.push(all[i as int]));
        }
        i += 1;
    }
    out
}

/// Copies the front matter without what has been read out of it.
pub fn strip_consumed_namespaces(table: &Json) -> (out: Json)
    ensures
        out@ == stripped(table@),
{
    match table {
        Json::Object(v) => {
            let mut out: Vec<(String, Json)> = Vec::new();
            let ghost all = entries_view(v@);
            let mut i: usize = 0;
            while i < v.len()
                invariant
                    i <= v.len(),
                    out.len() == i,
                    all == entries_view(v@),
                    forall|k: int|
                        0 <= k < i ==> ((#[trigger] out@[k]).0@, out@[k].1@) == stripped_entry(
                            all[k],
                        ),
                decreases v.len() - i,
            {
                assert(all[i as int] == (v@[i as int].0@, v@[i as int].1@));
                let kept = if str_eq(v[i].0.as_str(), "extension") {
                    match &v[i].1 {
                        Json::Object(inner) => Json::Object(keep_unread(inner)),
                        other => other.duplicate(),
                    }
                } else {
                    v[i].1.duplicate()
                };
                out.push((v[i].0.clone(), kept));
                i += 1;
            }
            assert(entries_view(out@) =~= stripped(table@)->Object_0);
            Json::Object(out)
        },
        other => other.duplicate(),
    }
}

// ---------------------------------------------------------------------------
// Two overrides
// ---------------------------------------------------------------------------

/// A phase is overridden by a command and by a block.
pub open spec fn clashes(
    phases: Map<Seq<char>, PhaseView>,
    blocks: Set<Seq<char>>,
    name: Seq<char>,
) -> bool {
    phases.contains_key(name) && phases[name].command is Some && blocks.contains(
        "prompt_template_"@ + name,
    )
}

/// `name` is the first phase, by name, that is overridden twice.
pub open spec fn first_clash(
    phases: Map<Seq<char>, PhaseView>,
    blocks: Set<Seq<char>>,
    name: Seq<char>,
) -> bool {
    clashes(phases, blocks, name) && forall|other: Seq<char>|
        #[trigger] clashes(phases, blocks, other) ==> !lex_lt(other, name)
}

/// Refuses a phase that is overridden twice.
pub fn cross_check_override_forms(phases: &StrMap<PhaseConfig>, blocks: &StrMap<String>) -> (r:
    Result<(), SchemaError>)
    ensures
        r is Ok == (forall|name: Seq<char>|
            !#[trigger] clashes(phase_views(phases@), blocks@.dom(), name)),
        r matches Err(e) ==> (e matches SchemaError::BothOverrideForms { phase } && first_clash(
            phase_views(phases@),
            blocks@.dom(),
            phase@,
        )),
{
    let ghost pv = phase_views(phases@);
    let ghost names = blocks@.dom();
    let n: usize = phases.len();
    let ghost pairs = phases.pairs();
    let mut i: usize = 0;
    while i < n
        invariant
            i <= n,
            n == pairs.len(),
            pairs == phases.pairs(),
            crate::strmap::ascending(pairs),
            pv == phase_views(phases@),
            names == blocks@.dom(),
            forall|k: int| 0 <= k < i ==> !clashes(pv, names, (#[trigger] pairs[k]).0@),
        decreases n - i,
    {
        let cfg = phases.value(i);
        let name = phases.key(i);
        proof {
            lemma_map_of(pairs, i as int);
        }
        if cfg.command.is_some() {
            let block = join2("prompt_template_", name.as_str());
            if blocks.contains_key(block.as_str()) {
                proof {
                    assert(clashes(pv, names, name@));
                    assert forall|other: Seq<char>| #[trigger]
                        clashes(pv, names, other) implies !lex_lt(other, name@) by {
                        assert(crate::strmap::has_key(pairs, other));
                        let k = choose|k: int| crate::strmap::key_at(pairs, other, k);
                        if lex_lt(other, name@) {
                            if k >= i {
                                if k > i {
                                    assert(lex_lt(pairs[i as int].0@, pairs[k].0@));
                                    lemma_lex_transitive(name@, other, name@);
                                }
                                lemma_lex_irreflexive(name@);
                            } else {
                                assert(!clashes(pv, names, pairs[k].0@));
                            }
                        }
                    }
                }
                return Err(SchemaError::BothOverrideForms { phase: name.clone() });
            }
        }
        i += 1;
    }
    proof {
        assert forall|name: Seq<char>| !#[trigger] clashes(pv, names, name) by {
            if clashes(pv, names, name) {
                assert(crate::strmap::has_key(pairs, name));
                let k = choose|k: int| crate::strmap::key_at(pairs, name, k);
                assert(!clashes(pv, names, pairs[k].0@));
            }
        }
    }
    Ok(())
}

// ---------------------------------------------------------------------------
// The whole
// ---------------------------------------------------------------------------

/// The front matter as a table: an empty one is an empty table.
pub open spec fn table_of(front: JsonView) -> Option<JsonView> {
    match front {
        JsonView::Object(_) => Some(front),
        JsonView::Null => Some(JsonView::Object(Seq::empty())),
        _ => None,
    }
}

/// The policy holds what the table and the blocks say.
pub open spec fn policy_of(
    p: WorkflowPolicy,
    table: JsonView,
    blocks: Map<Seq<char>, String>,
    model: Seq<char>,
) -> bool {
    &&& p.orchestrator@ == orchestrator_of(table, model)
    &&& phase_views(p.phases@) == phases_of(phase_entries(table), phase_entries(table).len())
    &&& p.server@ == server_of(table)
    &&& p.blocks@ == blocks
    &&& p.raw_unknowns@ == stripped(table)
}

/// No phase is overridden twice.
pub open spec fn forms_agree(table: JsonView, blocks: Set<Seq<char>>) -> bool {
    forall|name: Seq<char>|
        !#[trigger] clashes(
            phases_of(phase_entries(table), phase_entries(table).len()),
            blocks,
            name,
        )
}

/// The result for a table of which the schema says `verdict`.
pub open spec fn settles(
    table: JsonView,
    blocks: Map<Seq<char>, String>,
    verdict: VerdictView,
    model: Seq<char>,
    r: Result<WorkflowPolicy, SchemaError>,
) -> bool {
    let entries = phase_entries(table);
    if legacy_key(table) is Some {
        r matches Err(SchemaError::LegacyKey { key }) && Some(key@) == legacy_key(table)
    } else {
        match verdict {
            VerdictView::BadSchema(m) => r matches Err(SchemaError::Validation {
                key_path,
                message,
            }) && key_path@ == "<root>"@ && message@ == "internal schema build error: "@ + m,
            VerdictView::Misfit(p, m) => r matches Err(SchemaError::Validation {
                key_path,
                message,
            }) && key_path@ == dotted(p) && message@ == m,
            VerdictView::Fits => if !forms_agree(table, blocks.dom()) {
                r matches Err(SchemaError::BothOverrideForms { phase }) && first_clash(
                    phases_of(entries, entries.len()),
                    blocks.dom(),
                    phase@,
                )
            } else if some_bad_phase(entries) {
                r matches Err(e) && phase_fault(entries, e)
            } else {
                r matches Ok(p) && policy_of(p, table, blocks, model)
            },
        }
    }
}

/// Makes a policy of a table of which the schema says `verdict`. Keys that are
/// no longer read are refused first, then what the schema refuses, then a phase
/// that is overridden twice, and last a phase that is not known.
pub fn settle_policy(
    table: Json,
    blocks: StrMap<String>,
    verdict: SchemaVerdict,
    default_model: &str,
) -> (r: Result<WorkflowPolicy, SchemaError>)
    ensures
        settles(table@, blocks@, verdict@, default_model@, r),
{
    if let Err(e) = reject_legacy_keys(&table) {
        return Err(e);
    }
    if let Err(e) = settle_schema(&verdict) {
        return Err(e);
    }
    let orchestrator = extract_orchestrator(&table, default_model);
    let phases = read_phases(&table);
    if let Err(e) = cross_check_override_forms(&phases, &blocks) {
        return Err(e);
    }
    if let Err(e) = reject_bad_phases(&table) {
        return Err(e);
    }
    let server = extract_server(&table);
    let raw_unknowns = strip_consumed_namespaces(&table);
    Ok(WorkflowPolicy { orchestrator, phases, server, blocks, raw_unknowns })
}

/// Checks a workflow file and reads the settings out of it. `default_model` is
/// the model where none is set.
pub fn validate(parsed: ParsedWorkflow, default_model: &str) -> (r: Result<WorkflowPolicy, SchemaError>)
    ensures
        match table_of(parsed.front_matter@) {
            None => r matches Err(SchemaError::Validation { key_path, message }) && key_path@
                == "<root>"@ && message@ == "front matter must be a table; got "@ + debug_value_text(
                parsed.front_matter@,
            ),
            Some(table) => settles(
                table,
                parsed.blocks@,
                schema_verdict(WORKFLOW_SCHEMA@, table),
                default_model@,
                r,
            ),
        },
{
    let table = match parsed.front_matter {
        Json::Object(v) => Json::Object(v),
        Json::Null => {
            let none: Vec<(String, Json)> = Vec::new();
            assert(entries_view(none@) =~= Seq::empty());
            Json::Object(none)
        },
        other => {
            return Err(
                SchemaError::Validation {
                    key_path: "<root>".to_owned(),
                    message: join2(
                        "front matter must be a table; got ",
                        debug_value(&other).as_str(),
                    ),
                },
            );
        },
    };
    let verdict = check_schema(WORKFLOW_SCHEMA, &table);
    settle_policy(table, parsed.blocks, verdict, default_model)
}

/// A front matter without the reserved namespaces gives the defaults, and is
/// kept as it is.
pub proof fn law_defaults_without_extension(table: JsonView, model: Seq<char>)
    requires
        table is Object,
        table.field("extension"@) is None,
    ensures
        orchestrator_of(table, model) == default_orchestrator(model),
        phase_entries(table).len() == 0,
        server_of(table) == JsonView::Object(Seq::empty()),
        stripped(table) == table,
{
    let entries = table->Object_0;
    assert forall|i: int| 0 <= i < entries.len() implies #[trigger] stripped_entry(entries[i])
        == entries[i] by {
        if entries[i].0 == "extension"@ {
            lemma_not_named(entries, "extension"@, 0, i);
        }
    }
    assert(stripped(table)->Object_0 =~= entries);
}

proof fn lemma_not_named(entries: Seq<(Seq<char>, JsonView)>, k: Seq<char>, from: int, i: int)
    requires
        0 <= from <= i < entries.len(),
        crate::json::first_named(entries, k, from) is None,
    ensures
        entries[i].0 != k,
    decreases i - from,
{
    if from < i {
        lemma_not_named(entries, k, from + 1, i);
    }
}

/// What others read of `extension` is kept: every entry but those of the
/// orchestrator and the phases stands in what is left, in order.
pub proof fn law_unread_entries_are_kept(entries: Seq<(Seq<char>, JsonView)>, n: nat, i: int)
    requires
        n <= entries.len(),
        0 <= i < n,
        entries[i].0 != "orchestrator"@,
        entries[i].0 != "phase"@,
    ensures
        unread(entries, n).contains(entries[i]),
    decreases n,
{
    let shorter = unread(entries, (n - 1) as nat);
    let all = unread(entries, n);
    if i == n - 1 {
        assert(all[all.len() - 1] == entries[i]);
    } else {
        law_unread_entries_are_kept(entries, (n - 1) as nat, i);
        let k = choose|k: int| 0 <= k < shorter.len() && shorter[k] == entries[i];
        assert(all[k] == entries[i]);
    }
}

/// `n` is the number under `k`, or `d` where there is none.
pub open spec fn number_or(v: JsonView, k: Seq<char>, d: u32, n: u32) -> bool {
    match v.field(k) {
        Some(JsonView::Number(NumberView::Unsigned(x))) => x <= u32::MAX ==> n == x,
        _ => n == d,
    }
}

/// `n` is the number under `k`, if there is one.
pub open spec fn number_under(v: JsonView, k: Seq<char>, n: Option<u32>) -> bool {
    match v.field(k) {
        Some(JsonView::Number(NumberView::Unsigned(x))) => x <= u32::MAX ==> n is Some && n->0 == x,
        _ => n is None,
    }
}

/// `t` is the text under `k`, if there is one.
pub open spec fn text_under(v: JsonView, k: Seq<char>, t: Option<Seq<char>>) -> bool {
    match v.field(k) {
        Some(JsonView::Text(s)) => t == Some(s),
        _ => t is None,
    }
}

/// The settings of a session are those that stand under their names, and the
/// usual ones where nothing of the right shape does.
pub proof fn law_session_settings_are_those_written(
    table: JsonView,
    extension: JsonView,
    o: JsonView,
    model: Seq<char>,
    tool: Seq<char>,
)
    requires
        table.field("extension"@) == Some(extension),
        extension.field("orchestrator"@) == Some(o),
    ensures
        ({
            let s = orchestrator_of(table, model);
            &&& match o.field("model"@) {
                Some(JsonView::Text(m)) => s.model == m,
                _ => s.model == model,
            }
            &&& s.effort is Low <==> o.field("effort"@) == Some(JsonView::Text("low"@))
            &&& s.effort is High <==> o.field("effort"@) == Some(JsonView::Text("high"@))
            &&& number_or(o, "max_phases"@, DEFAULT_MAX_PHASES, s.max_phases)
            &&& number_or(o, "stall_seconds"@, DEFAULT_STALL_SECONDS, s.stall_seconds)
            &&& match o.field("allowed_tools"@) {
                Some(JsonView::Array(items)) => (s.allowed_tools.contains(tool) <==> exists|i: int|
                    0 <= i < items.len() && #[trigger] items[i] == JsonView::Text(tool)),
                _ => s.allowed_tools == seq!["mcp__linear*"@, "Read"@, "Bash"@],
            }
        }),
{
    reveal_strlit("low");
    reveal_strlit("high");
    assert("low"@.len() == 3 && "high"@.len() == 4);
    if let Some(JsonView::Array(items)) = o.field("allowed_tools"@) {
        lemma_texts_listed(items, items.len(), tool);
    }
}

proof fn lemma_texts_listed(items: Seq<JsonView>, n: nat, s: Seq<char>)
    requires
        n <= items.len(),
    ensures
        texts_of(items, n).contains(s) <==> exists|i: int|
            0 <= i < n && #[trigger] items[i] == JsonView::Text(s),
    decreases n,
{
    if n > 0 {
        let m = (n - 1) as nat;
        lemma_texts_listed(items, m, s);
        let before = texts_of(items, m);
        let now = texts_of(items, n);
        if now.contains(s) {
            let k = choose|k: int| 0 <= k < now.len() && now[k] == s;
            if k < before.len() {
                assert(before[k] == s);
                assert(before.contains(s));
            } else {
                assert(items[n - 1] == JsonView::Text(s));
            }
        }
        if exists|i: int| 0 <= i < n && #[trigger] items[i] == JsonView::Text(s) {
            let i = choose|i: int| 0 <= i < n && #[trigger] items[i] == JsonView::Text(s);
            if i == n - 1 {
                assert(now[now.len() - 1] == s);
            } else {
                assert(before.contains(s));
                let k = choose|k: int| 0 <= k < before.len() && before[k] == s;
                assert(now[k] == s);
            }
        }
    }
}

/// The override of a phase is what its last entry says, each setting under its
/// own name; a phase without an entry has none.
pub proof fn law_phase_settings_are_those_written(
    entries: Seq<(Seq<char>, JsonView)>,
    n: nat,
    i: int,
    name: Seq<char>,
)
    requires
        n <= entries.len(),
    ensures
        0 <= i < n && entries[i].0 == name && (forall|k: int|
            i < k < n ==> (#[trigger] entries[k]).0 != name) ==> {
            let p = phases_of(entries, n)[name];
            &&& phases_of(entries, n).contains_key(name)
            &&& text_under(entries[i].1, "command"@, p.command)
            &&& number_under(entries[i].1, "max_turns"@, p.max_turns)
            &&& number_under(entries[i].1, "stall_seconds"@, p.stall_seconds)
            &&& number_under(entries[i].1, "max_attempts"@, p.max_attempts)
        },
        phases_of(entries, n).contains_key(name) <==> exists|k: int|
            0 <= k < n && (#[trigger] entries[k]).0 == name,
    decreases n,
{
    if n > 0 {
        let m = (n - 1) as nat;
        law_phase_settings_are_those_written(entries, m, i, name);
        if exists|k: int| 0 <= k < n && (#[trigger] entries[k]).0 == name {
            let k = choose|k: int| 0 <= k < n && (#[trigger] entries[k]).0 == name;
            if k < n - 1 {
                assert(entries[k].0 == name);
            }
        }
        if phases_of(entries, n).contains_key(name) && entries[n - 1].0 != name {
            let k = choose|k: int| 0 <= k < m && (#[trigger] entries[k]).0 == name;
            assert(0 <= k < n && entries[k].0 == name);
        }
        if 0 <= i < n - 1 {
            assert(entries[n - 1].0 == entries[n - 1].0);
        }
    }
}

/// A file is accepted exactly where it has none of the keys that are no longer
/// read, fits the schema, overrides no phase both by a command and by a block, and
/// overrides only phases that are known, each by a table.
pub proof fn law_accepted_files(
    table: JsonView,
    blocks: Map<Seq<char>, String>,
    verdict: VerdictView,
    model: Seq<char>,
    r: Result<WorkflowPolicy, SchemaError>,
)
    requires
        settles(table, blocks, verdict, model, r),
    ensures
        r is Ok <==> {
            &&& legacy_key(table) is None
            &&& verdict is Fits
            &&& forall|name: Seq<char>|
                !#[trigger] clashes(
                    phases_of(phase_entries(table), phase_entries(table).len()),
                    blocks.dom(),
                    name,
                )
            &&& forall|i: int|
                0 <= i < phase_entries(table).len() ==> legal_phase(
                    (#[trigger] phase_entries(table)[i]).0,
                ) && phase_entries(table)[i].1 is Object
        },
        legacy_key(table) is Some ==> r->Err_0 is LegacyKey,
        legacy_key(table) is None && !(verdict is Fits) ==> r->Err_0 is Validation,
        r matches Ok(p) ==> p.orchestrator@ == orchestrator_of(table, model) && phase_views(
            p.phases@,
        ) == phases_of(phase_entries(table), phase_entries(table).len()) && p.blocks@ == blocks,
{
    let entries = phase_entries(table);
    if some_bad_phase(entries) {
        let i = choose|i: int| first_bad_phase(entries, i);
        assert(bad_phase(entries[i]));
    } else {
        assert forall|i: int| 0 <= i < entries.len() implies legal_phase((#[trigger] entries[i]).0)
            && entries[i].1 is Object by {
            if bad_phase(entries[i]) {
                lemma_first_bad_phase(entries, i);
            }
        }
    }
}

proof fn lemma_first_bad_phase(entries: Seq<(Seq<char>, JsonView)>, i: int)
    requires
        0 <= i < entries.len(),
        bad_phase(entries[i]),
    ensures
        some_bad_phase(entries),
    decreases i,
{
    if exists|k: int| 0 <= k < i && bad_phase(#[trigger] entries[k]) {
        let k = choose|k: int| 0 <= k < i && bad_phase(#[trigger] entries[k]);
        lemma_first_bad_phase(entries, k);
    } else {
        assert(first_bad_phase(entries, i));
    }
}

/// The phases that are known.
pub proof fn law_known_phases(name: Seq<char>)
    ensures
        legal_phase("classify"@),
        legal_phase("implement"@),
        legal_phase("review"@),
        legal_phase("validate"@),
        legal_phase("open_pr"@),
        legal_phase("ci_fix"@),
        legal_phase("finalize_review"@),
        legal_phase(name) ==> name == "classify"@ || name == "implement"@ || name == "review"@
            || name == "validate"@ || name == "open_pr"@ || name == "ci_fix"@ || name
            == "finalize_review"@,
{
}

/// A phase is overridden twice exactly where its entry has a command and a block
/// bears its name.
pub proof fn law_double_overrides(
    entries: Seq<(Seq<char>, JsonView)>,
    blocks: Set<Seq<char>>,
    i: int,
)
    requires
        0 <= i < entries.len(),
        forall|k: int| i < k < entries.len() ==> (#[trigger] entries[k]).0 != entries[i].0,
    ensures
        clashes(phases_of(entries, entries.len()), blocks, entries[i].0) <==> (
        entries[i].1.field("command"@) matches Some(JsonView::Text(_))) && blocks.contains(
            "prompt_template_"@ + entries[i].0,
        ),
{
    law_phase_settings_are_those_written(entries, entries.len(), i, entries[i].0);
}

/// The keys that are no longer read: the model of the judge, the updater, the
/// distiller, and a table of conditions to pass.
pub proof fn law_old_keys_are_refused(table: JsonView)
    ensures
        legacy_key(table) is Some <==> {
            ||| table.field("judge"@) is Some && table.field("judge"@)->0.field("model"@) is Some
            ||| table.field("extension"@) is Some && {
                let e = table.field("extension"@)->0;
                ||| e.field("linear_updater"@) is Some
                ||| e.field("distill"@) is Some
                ||| e.field("gates"@) is Some && e.field("gates"@)->0 is Object
            }
        },
{
}

/// A path into a file is shown with dots between its parts.
pub proof fn law_paths_are_shown_with_dots(path: Seq<char>, i: int)
    requires
        path.len() > 1,
        path[0] == '/',
        path[1] != '/',
    ensures
        dotted(path).len() == path.len() - 1,
        0 <= i < path.len() - 1 ==> dotted(path)[i] == (if path[i + 1] == '/' {
            '.'
        } else {
            path[i + 1]
        }),
{
    let rest = path.subrange(1, path.len() as int);
    assert(rest[0] == path[1]);
    assert(without_slashes(rest) == rest);
    assert(without_slashes(path) == rest);
}

/// An empty front matter is an empty table, a table is itself, and anything else
/// is none.
pub proof fn law_front_matter_is_a_table(front: JsonView)
    ensures
        front is Object ==> table_of(front) == Some(front),
        front is Null ==> (table_of(front) matches Some(JsonView::Object(e)) && e.len() == 0),
        !(front is Object) && !(front is Null) ==> table_of(front) is None,
{
}

/// What others read of the server is what stands under its name, or an empty
/// table.
pub proof fn law_server_settings_are_handed_on(table: JsonView)
    ensures
        ({
            let v = match table.field("extension"@) {
                Some(e) => e.field("server"@),
                None => None,
            };
            &&& v is Some ==> server_of(table) == v->0
            &&& v is None ==> (server_of(table) matches JsonView::Object(e) && e.len() == 0)
        }),
{
}

/// Of two phases that are overridden twice the first by name is the one that is
/// reported.
pub proof fn law_first_double_override_is_reported(
    phases: Map<Seq<char>, PhaseView>,
    blocks: Set<Seq<char>>,
    name: Seq<char>,
    other: Seq<char>,
)
    requires
        first_clash(phases, blocks, name),
        phases.contains_key(other),
        phases[other].command is Some,
        blocks.contains("prompt_template_"@ + other),
    ensures
        phases.contains_key(name),
        phases[name].command is Some,
        blocks.contains("prompt_template_"@ + name),
        name == other || lex_lt(name, other),
{
    assert(clashes(phases, blocks, other));
    crate::text::lemma_lex_total(name, other);
}

/// What has been read of `extension` is not handed on a second time: nothing of
/// the orchestrator and the phases is left, and nothing is added.
pub proof fn law_read_entries_are_left_out(
    entries: Seq<(Seq<char>, JsonView)>,
    n: nat,
    e: (Seq<char>, JsonView),
)
    requires
        n <= entries.len(),
        unread(entries, n).contains(e),
    ensures
        e.0 != "orchestrator"@,
        e.0 != "phase"@,
        exists|i: int| 0 <= i < n && #[trigger] entries[i] == e,
    decreases n,
{
    let all = unread(entries, n);
    let k = choose|k: int| 0 <= k < all.len() && all[k] == e;
    if n > 0 {
        let shorter = unread(entries, (n - 1) as nat);
        if k < shorter.len() {
            assert(shorter[k] == e);
            law_read_entries_are_left_out(entries, (n - 1) as nat, e);
            let i = choose|i: int| 0 <= i < n - 1 && #[trigger] entries[i] == e;
            assert(entries[i] == e);
        } else {
            assert(entries[n - 1] == e);
        }
    }
}

/// What is handed on is the front matter with each entry in its place: as it was,
/// but for the tables under `extension`, of which what has been read is left out.
pub proof fn law_front_matter_is_handed_on(table: JsonView, i: int)
    ensures
        table matches JsonView::Object(entries) ==> (stripped(table) matches JsonView::Object(left)
            && left.len() == entries.len() && (0 <= i < entries.len() ==> left[i].0 == entries[i].0
            && (entries[i].0 != "extension"@ ==> left[i] == entries[i]) && (entries[i].0
            == "extension"@ ==> match entries[i].1 {
            JsonView::Object(inner) => left[i].1 == JsonView::Object(unread(inner, inner.len())),
            _ => left[i] == entries[i],
        }))),
        !(table is Object) ==> stripped(table) == table,
{
}

/// The phase that is reported is the first whose override cannot be read: by its
/// name where that is not known, and otherwise because it is no table.
pub proof fn law_first_bad_phase_is_reported(
    entries: Seq<(Seq<char>, JsonView)>,
    e: SchemaError,
    k: int,
)
    requires
        phase_fault(entries, e),
        0 <= k < entries.len(),
        !legal_phase(entries[k].0) || !(entries[k].1 is Object),
    ensures
        exists|i: int|
            0 <= i <= k && match e {
                SchemaError::UnknownPhase { phase } => phase@ == (#[trigger] entries[i]).0
                    && !legal_phase(entries[i].0),
                SchemaError::PhaseNotTable { phase } => phase@ == entries[i].0 && legal_phase(
                    entries[i].0,
                ) && !(entries[i].1 is Object),
                _ => false,
            },
{
    let i = choose|i: int|
        #![trigger entries[i]]
        first_bad_phase(entries, i) && if !legal_phase(entries[i].0) {
            e matches SchemaError::UnknownPhase { phase } && phase@ == entries[i].0
        } else {
            e matches SchemaError::PhaseNotTable { phase } && phase@ == entries[i].0
        };
    assert(bad_phase(entries[k]));
    if k < i {
        assert(!bad_phase(entries[k]));
    }
    assert(bad_phase(entries[i]));
}

} // verus!

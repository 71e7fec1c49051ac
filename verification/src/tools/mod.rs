//! The tools that an agent may call, and the registry that holds them.
use vstd::prelude::*;

use crate::json::{json_of_text, parse_json_text, Json, JsonView};
use crate::strmap::{key_views, lemma_sorted_keys, sorted_keys, StrMap};
use crate::text::{decimal, decimal_text, join2, join3, views};

pub mod ghq;
pub mod linear_graphql;
pub mod roki_open_worktree;
pub mod wt;

verus! {

/// Failures that an agent sees.
#[derive(Debug, Clone, PartialEq, Eq)]
pub enum ToolError {
    /// A query held more than one operation.
    MultipleOperations,
    /// The input was refused before anything was done.
    InvalidInput { reason: String },
    /// The tracker asks to back off.
    RateLimited { retry_after_seconds: Option<u64> },
    /// The tracker answered with another failure status.
    LinearHttpError { status: u16 },
    /// No answer came.
    Network { message: String },
    /// A secret could not be masked.
    RedactionFailed,
    /// A tool of that name is there already.
    DuplicateName { name: String },
    /// No tool has that name.
    UnknownTool { name: String },
    /// The registry can no longer be used.
    RegistryPoisoned,
    /// The repository is not among the configured ones.
    RepoNotInAllowlist { repo: String, allowed: Vec<String> },
    /// The repository could not be found or fetched.
    GhqResolutionFailed { repo: String, reason: String },
    /// The worktree could not be made.
    WorktreeCreationFailed { repo: String, branch: String, reason: String },
}

/// How `std` prints a list of texts for debugging.
pub uninterp spec fn debug_list_text(items: Seq<Seq<char>>) -> Seq<char>;

/// Calls the `Debug` formatting of `Vec<String>`; the contract claims that the
/// output depends on the texts alone.
#[verifier::external_body]
fn debug_list(items: &Vec<String>) -> (s: String)
    ensures
        s@ == debug_list_text(views(items@)),
{
    format!("{:?}", items)
}

/// A duration in seconds that may be missing, as it is shown.
pub open spec fn shown_seconds(s: Option<u64>) -> Seq<char> {
    match s {
        Some(n) => "Some("@ + decimal(n as nat) + ")"@,
        None => "None"@,
    }
}

impl ToolError {
    pub open spec fn text(&self) -> Seq<char> {
        match self {
            ToolError::MultipleOperations =>
                "MULTIPLE_OPERATIONS: a linear_graphql call must contain exactly one GraphQL operation"@,
            ToolError::InvalidInput { reason } => "INVALID_INPUT: "@ + reason@,
            ToolError::RateLimited { retry_after_seconds } => "RATE_LIMITED: retry_after="@
                + shown_seconds(*retry_after_seconds) + "s"@,
            ToolError::LinearHttpError { status } => "LINEAR_HTTP_ERROR: status="@ + decimal(
                *status as nat,
            ),
            ToolError::Network { message } => "LINEAR_HTTP_ERROR: "@ + message@,
            ToolError::RedactionFailed => "REDACTION_FAILED"@,
            ToolError::DuplicateName { name } => "DUPLICATE_TOOL: "@ + name@,
            ToolError::UnknownTool { name } => "UNKNOWN_TOOL: "@ + name@,
            ToolError::RegistryPoisoned => "REGISTRY_POISONED"@,
            ToolError::RepoNotInAllowlist { repo, allowed } => "REPO_NOT_IN_ALLOWLIST: repo="@
                + repo@ + ", allowed="@ + debug_list_text(views(allowed@)),
            ToolError::GhqResolutionFailed { repo, reason } => "GHQ_RESOLUTION_FAILED: repo="@
                + repo@ + ", reason="@ + reason@,
            ToolError::WorktreeCreationFailed { repo, branch, reason } =>
                "WORKTREE_CREATION_FAILED: repo="@ + repo@ + ", branch="@ + branch@ + ", reason="@
                    + reason@,
        }
    }

    /// The error in words.
    pub fn message(&self) -> (s: String)
        ensures
            s@ == self.text(),
    {
        match self {
            ToolError::MultipleOperations =>
                "MULTIPLE_OPERATIONS: a linear_graphql call must contain exactly one GraphQL operation".to_owned(),
            ToolError::InvalidInput { reason } => join2("INVALID_INPUT: ", reason.as_str()),
            ToolError::RateLimited { retry_after_seconds } => {
                let shown = match retry_after_seconds {
                    Some(n) => join3("Some(", decimal_text(*n).as_str(), ")"),
                    None => "None".to_owned(),
                };
                join3("RATE_LIMITED: retry_after=", shown.as_str(), "s")
            },
            ToolError::LinearHttpError { status } => join2(
                "LINEAR_HTTP_ERROR: status=",
                decimal_text(*status as u64).as_str(),
            ),
            ToolError::Network { message } => join2("LINEAR_HTTP_ERROR: ", message.as_str()),
            ToolError::RedactionFailed => "REDACTION_FAILED".to_owned(),
            ToolError::DuplicateName { name } => join2("DUPLICATE_TOOL: ", name.as_str()),
            ToolError::UnknownTool { name } => join2("UNKNOWN_TOOL: ", name.as_str()),
            ToolError::RegistryPoisoned => "REGISTRY_POISONED".to_owned(),
            ToolError::RepoNotInAllowlist { repo, allowed } => {
                let head = join3("REPO_NOT_IN_ALLOWLIST: repo=", repo.as_str(), ", allowed=");
                join2(head.as_str(), debug_list(allowed).as_str())
            },
            ToolError::GhqResolutionFailed { repo, reason } => {
                let head = join2("GHQ_RESOLUTION_FAILED: repo=", repo.as_str());
                join3(head.as_str(), ", reason=", reason.as_str())
            },
            ToolError::WorktreeCreationFailed { repo, branch, reason } => {
                let head = join3("WORKTREE_CREATION_FAILED: repo=", repo.as_str(), ", branch=");
                let named = join2(head.as_str(), branch.as_str());
                join3(named.as_str(), ", reason=", reason.as_str())
            },
        }
    }
}

/// The catalog entry of a tool.
#[derive(Debug, PartialEq, Eq)]
pub struct ToolDescriptor {
    pub name: String,
    pub description: String,
    /// The schema of the input.
    pub input_schema: Json,
    /// The schema of the output.
    pub output_schema: Json,
}

/// `a` and `b` describe the same tool.
pub open spec fn same_descriptor(a: ToolDescriptor, b: ToolDescriptor) -> bool {
    a.name == b.name && a.description == b.description && a.input_schema@ == b.input_schema@
        && a.output_schema@ == b.output_schema@
}

impl Clone for ToolDescriptor {
    fn clone(&self) -> (r: Self)
        ensures
            same_descriptor(r, *self),
    {
        ToolDescriptor {
            name: self.name.clone(),
            description: self.description.clone(),
            input_schema: self.input_schema.duplicate(),
            output_schema: self.output_schema.duplicate(),
        }
    }
}

/// A schema as the catalog has it: one that cannot be read is null.
pub open spec fn catalog_schema(read: Option<JsonView>) -> JsonView {
    match read {
        Some(v) => v,
        None => JsonView::Null,
    }
}

/// A schema as the catalog has it.
pub fn settle_schema_text(read: Option<Json>) -> (v: Json)
    ensures
        v@ == catalog_schema(crate::json::opt_json_view(read)),
{
    match read {
        Some(v) => v,
        None => Json::Null,
    }
}

/// The catalog entry of a tool whose schemas are written as text.
pub fn describe(
    name: String,
    description: String,
    input_schema: &str,
    output_schema: &str,
) -> (d: ToolDescriptor)
    ensures
        d.name == name,
        d.description == description,
        d.input_schema@ == catalog_schema(json_of_text(input_schema@)),
        d.output_schema@ == catalog_schema(json_of_text(output_schema@)),
{
    ToolDescriptor {
        name,
        description,
        input_schema: settle_schema_text(parse_json_text(input_schema)),
        output_schema: settle_schema_text(parse_json_text(output_schema)),
    }
}

/// The tools by name. `T` is what a tool is called through.
pub struct InMemoryRegistry<T> {
    pub tools: StrMap<(ToolDescriptor, T)>,
}

impl<T> View for InMemoryRegistry<T> {
    type V = Map<Seq<char>, (ToolDescriptor, T)>;

    open spec fn view(&self) -> Map<Seq<char>, (ToolDescriptor, T)> {
        self.tools@
    }
}

impl<T> InMemoryRegistry<T> {
    pub fn new() -> (r: InMemoryRegistry<T>)
        ensures
            r@ == Map::<Seq<char>, (ToolDescriptor, T)>::empty(),
    {
        InMemoryRegistry { tools: StrMap::new() }
    }

    /// Adds a tool under its name, unless the name is taken.
    pub fn register(&mut self, descriptor: ToolDescriptor, tool: T) -> (r: Result<(), ToolError>)
        ensures
            r is Ok == !old(self)@.contains_key(descriptor.name@),
            r is Ok ==> final(self)@ == old(self)@.insert(descriptor.name@, (descriptor, tool)),
            r matches Err(e) ==> final(self)@ == old(self)@ && e
                == (ToolError::DuplicateName { name: descriptor.name }),
    {
        if self.tools.contains_key(descriptor.name.as_str()) {
            return Err(ToolError::DuplicateName { name: descriptor.name });
        }
        let name = descriptor.name.clone();
        self.tools.insert(name, (descriptor, tool));
        Ok(())
    }

    /// The tools, described, in the order of their names.
    pub fn catalog(&self) -> (out: Vec<ToolDescriptor>)
        ensures
            out.len() == sorted_keys(self@.dom()).len(),
            forall|i: int|
                0 <= i < out.len() ==> same_descriptor(
                    #[trigger] out@[i],
                    self@[sorted_keys(self@.dom())[i]].0,
                ),
    {
        let n: usize = self.tools.len();
        let mut out: Vec<ToolDescriptor> = Vec::new();
        let ghost pairs = self.tools.pairs();
        let ghost all = sorted_keys(self@.dom());
        proof {
            lemma_sorted_keys(pairs);
        }
        let mut i: usize = 0;
        while i < n
            invariant
                i <= n,
                n == pairs.len(),
                out.len() == i,
                pairs == self.tools.pairs(),
                all == key_views(pairs),
                forall|k: int|
                    0 <= k < i ==> same_descriptor(#[trigger] out@[k], self@[all[k]].0),
            decreases n - i,
        {
            assert(all[i as int] == pairs[i as int].0@);
            out.push(self.tools.value(i).0.clone());
            i += 1;
        }
        out
    }

    /// The tool to call under `name`.
    pub fn dispatch(&self, name: &str) -> (r: Result<&T, ToolError>)
        ensures
            r is Ok == self@.contains_key(name@),
            r matches Ok(t) ==> *t == self@[name@].1,
            r matches Err(e) ==> e matches ToolError::UnknownTool { name: n } && n@ == name@,
    {
        match self.tools.get(name) {
            Some(entry) => Ok(&entry.1),
            None => Err(ToolError::UnknownTool { name: name.to_owned() }),
        }
    }
}

/// No two tools have the same name.
pub open spec fn distinct_names<T>(tools: Seq<(ToolDescriptor, T)>) -> bool {
    forall|i: int, j: int|
        0 <= i < j < tools.len() ==> (#[trigger] tools[i]).0.name@ != (#[trigger] tools[j]).0.name@
}

/// Tool `j` is the first one whose name another had before it.
pub open spec fn first_repeat<T>(tools: Seq<(ToolDescriptor, T)>, j: int) -> bool {
    &&& 0 <= j < tools.len()
    &&& distinct_names(tools.take(j))
    &&& exists|i: int| 0 <= i < j && (#[trigger] tools[i]).0.name@ == tools[j].0.name@
}

/// The tools by name.
pub open spec fn by_name<T>(tools: Seq<(ToolDescriptor, T)>, n: nat) -> Map<
    Seq<char>,
    (ToolDescriptor, T),
>
    decreases n,
{
    if n == 0 {
        Map::empty()
    } else {
        by_name(tools, (n - 1) as nat).insert(tools[n - 1].0.name@, tools[n - 1])
    }
}

proof fn lemma_by_name<T>(tools: Seq<(ToolDescriptor, T)>, n: nat, k: Seq<char>)
    requires
        n <= tools.len(),
    ensures
        by_name(tools, n).contains_key(k) == (exists|i: int|
            0 <= i < n && (#[trigger] tools[i]).0.name@ == k),
    decreases n,
{
    if n > 0 {
        lemma_by_name(tools, (n - 1) as nat, k);
        if tools[n - 1].0.name@ == k {
            assert(0 <= n - 1 < n && tools[n - 1].0.name@ == k);
        }
        if exists|i: int| 0 <= i < n && (#[trigger] tools[i]).0.name@ == k {
            let i = choose|i: int| 0 <= i < n && (#[trigger] tools[i]).0.name@ == k;
            if i < n - 1 {
                assert(0 <= i < n - 1 && tools[i].0.name@ == k);
            }
        }
    }
}

/// The registry of a worker: the tools that every worker has, and the one that
/// is bound to its issue. Two of one name are refused.
#[verifier::loop_isolation(false)]
pub fn build_for_issue<T>(tools: Vec<(ToolDescriptor, T)>) -> (r: Result<
    InMemoryRegistry<T>,
    ToolError,
>)
    ensures
        r is Ok == distinct_names(tools@),
        r matches Ok(m) ==> m@ == by_name(tools@, tools@.len()),
        r matches Err(e) ==> exists|j: int| #[trigger]
            first_repeat(tools@, j) && e == (ToolError::DuplicateName { name: tools@[j].0.name }),
{
    let ghost all = tools@;
    let mut rest = tools;
    let mut registry = InMemoryRegistry::new();
    let ghost mut n: nat = 0;
    while rest.len() > 0
        invariant
            n + rest.len() == all.len(),
            rest@ == all.skip(n as int),
            registry@ == by_name(all, n),
            distinct_names(all.take(n as int)),
        decreases rest.len(),
    {
        let (descriptor, tool) = rest.remove(0);
        let ghost name = descriptor.name@;
        assert(all[n as int] == (descriptor, tool));
        proof {
            lemma_by_name(all, n, name);
        }
        let ghost held = registry@.contains_key(name);
        match registry.register(descriptor, tool) {
            Ok(_) => {},
            Err(e) => {
                proof {
                    let i = choose|i: int| 0 <= i < n && (#[trigger] all[i]).0.name@ == name;
                    assert(all[i].0.name@ == all[n as int].0.name@);
                    assert(!distinct_names(all));
                    assert(first_repeat(all, n as int));
                }
                return Err(e);
            },
        }
        proof {
            let longer = all.take(n + 1int);
            assert forall|i: int, j: int| 0 <= i < j < longer.len() implies (
            #[trigger] longer[i]).0.name@ != (#[trigger] longer[j]).0.name@ by {
                assert(longer[i] == all[i] && longer[j] == all[j]);
                if j < n {
                    assert(all.take(n as int)[i] == all[i] && all.take(n as int)[j] == all[j]);
                } else {
                    assert(!(0 <= i < n && all[i].0.name@ == name));
                }
            }
            n = n + 1;
            assert(rest@ =~= all.skip(n as int));
        }
    }
    assert(all.take(n as int) =~= all);
    Ok(registry)
}

/// Says that a call must wait.
#[derive(Debug, Clone, Copy, PartialEq, Eq, Structural)]
pub struct RateLimited {
    pub retry_after_seconds: Option<u64>,
}

/// Every tool is found under its own name, and nothing under any other.
pub proof fn law_tools_are_found_by_name<T>(
    tools: Seq<(ToolDescriptor, T)>,
    n: nat,
    i: int,
    name: Seq<char>,
)
    requires
        distinct_names(tools),
        n <= tools.len(),
    ensures
        0 <= i < n ==> by_name(tools, n).contains_key(tools[i].0.name@) && by_name(
            tools,
            n,
        )[tools[i].0.name@] == tools[i],
        by_name(tools, n).contains_key(name) <==> exists|k: int|
            0 <= k < n && (#[trigger] tools[k]).0.name@ == name,
    decreases n,
{
    lemma_by_name(tools, n, name);
    if n > 0 {
        law_tools_are_found_by_name(tools, (n - 1) as nat, i, name);
        if 0 <= i < n - 1 {
            assert(tools[i].0.name@ != tools[n - 1].0.name@);
        }
    }
}

} // verus!

//! What a launched process may do.
//!
//! Phase processes go by what the operator configured. Classification is
//! pinned to reading, and so is the orchestrator's own session: nothing that
//! is configured reaches them.
use vstd::prelude::*;

use crate::orchestrator::engine::PhaseName;
use crate::text::{clone_list, views};

verus! {

/// How a process is told what it may do.
#[derive(Debug, PartialEq, Eq)]
pub enum PermissionStrategy {
    SettingsAllowlist { settings_path: String },
    DangerouslySkipPermissions,
}

impl Clone for PermissionStrategy {
    fn clone(&self) -> (r: Self)
        ensures
            r == *self,
    {
        match self {
            PermissionStrategy::SettingsAllowlist { settings_path } =>
                PermissionStrategy::SettingsAllowlist { settings_path: settings_path.clone() },
            PermissionStrategy::DangerouslySkipPermissions =>
                PermissionStrategy::DangerouslySkipPermissions,
        }
    }
}

#[derive(Debug, Clone, Copy, PartialEq, Eq, Structural)]
pub enum Sandbox {
    ReadOnly,
    WorkspaceWrite,
}

/// The permissions of one launch. Without a settings file no tools are listed.
#[derive(Debug, PartialEq, Eq)]
pub struct ResolvedPermission {
    pub strategy: PermissionStrategy,
    pub sandbox: Sandbox,
    pub reject_elicitations: bool,
    pub allowed_tools: Option<Vec<String>>,
}

#[derive(Debug, Clone, Copy, PartialEq, Eq, Structural)]
pub enum PermissionConfigError {
    /// Neither a settings file nor the explicit opt-out is configured.
    PhaseStrategyMissing,
}

impl PermissionConfigError {
    /// The error in words.
    pub fn message(&self) -> (s: &'static str)
        ensures
            s@
                == "no phase-subprocess permission strategy configured: set either `extension.phase.<name>.settings_path` or explicitly opt in via `extension.phase.<name>.dangerously_skip_permissions = true`"@,
    {
        "no phase-subprocess permission strategy configured: set either `extension.phase.<name>.settings_path` or explicitly opt in via `extension.phase.<name>.dangerously_skip_permissions = true`"
    }
}

/// What the operator configured for phase processes.
#[derive(Debug)]
pub struct PermissionResolver {
    default: Option<PermissionStrategy>,
    dangerously_skip_override: bool,
    /// The sandbox of phases other than classification.
    sandbox_override: Option<Sandbox>,
    /// Whether phases other than classification refuse to ask back.
    reject_elicitations_override: Option<bool>,
    /// The tools of phases other than classification.
    phase_allowed_tools: Vec<String>,
}

/// What is configured.
#[verifier::ext_equal]
pub struct ResolverView {
    pub default: Option<PermissionStrategy>,
    pub skip: bool,
    pub sandbox: Option<Sandbox>,
    pub reject: Option<bool>,
    pub tools: Seq<String>,
}

impl View for PermissionResolver {
    type V = ResolverView;

    closed spec fn view(&self) -> ResolverView {
        ResolverView {
            default: self.default,
            skip: self.dangerously_skip_override,
            sandbox: self.sandbox_override,
            reject: self.reject_elicitations_override,
            tools: self.phase_allowed_tools@,
        }
    }
}

/// The tools of a classification.
pub open spec fn classify_tools() -> Seq<Seq<char>> {
    seq!["Read"@, "Glob"@, "Grep"@]
}

impl PermissionResolver {
    /// Phase processes go by the settings file at `settings_path`.
    pub fn with_settings_path(settings_path: String, phase_allowed_tools: Vec<String>) -> (r: Self)
        ensures
            r@ == (ResolverView {
                default: Some(PermissionStrategy::SettingsAllowlist { settings_path }),
                skip: false,
                sandbox: None,
                reject: None,
                tools: phase_allowed_tools@,
            }),
    {
        PermissionResolver {
            default: Some(PermissionStrategy::SettingsAllowlist { settings_path }),
            dangerously_skip_override: false,
            sandbox_override: None,
            reject_elicitations_override: None,
            phase_allowed_tools,
        }
    }

    /// Nothing is configured.
    pub fn empty() -> (r: Self)
        ensures
            r@ == (ResolverView {
                default: None,
                skip: false,
                sandbox: None,
                reject: None,
                tools: Seq::empty(),
            }),
    {
        PermissionResolver {
            default: None,
            dangerously_skip_override: false,
            sandbox_override: None,
            reject_elicitations_override: None,
            phase_allowed_tools: Vec::new(),
        }
    }

    pub fn with_dangerously_skip_override(self, on: bool) -> (r: Self)
        ensures
            r@ == (ResolverView { skip: on, ..self@ }),
    {
        PermissionResolver { dangerously_skip_override: on, ..self }
    }

    pub fn with_sandbox_override(self, sandbox: Option<Sandbox>) -> (r: Self)
        ensures
            r@ == (ResolverView { sandbox, ..self@ }),
    {
        PermissionResolver { sandbox_override: sandbox, ..self }
    }

    pub fn with_reject_elicitations_override(self, override_value: Option<bool>) -> (r: Self)
        ensures
            r@ == (ResolverView { reject: override_value, ..self@ }),
    {
        PermissionResolver { reject_elicitations_override: override_value, ..self }
    }

    /// A strategy is configured.
    pub open spec fn configured(&self) -> bool {
        self@.default is Some || self@.skip
    }

    /// The strategy of a phase, where one is configured. The opt-out wins,
    /// except for classification.
    pub open spec fn strategy_for(&self, phase: PhaseName) -> PermissionStrategy {
        if self@.default is None || (self@.skip && !(phase is Classify)) {
            PermissionStrategy::DangerouslySkipPermissions
        } else {
            self@.default->0
        }
    }

    /// Refuses a start without a strategy.
    pub fn ensure_phase_strategy_present(&self) -> (r: Result<(), PermissionConfigError>)
        ensures
            r == if self.configured() {
                Ok::<(), PermissionConfigError>(())
            } else {
                Err(PermissionConfigError::PhaseStrategyMissing)
            },
    {
        if self.default.is_some() || self.dangerously_skip_override {
            Ok(())
        } else {
            Err(PermissionConfigError::PhaseStrategyMissing)
        }
    }

    /// The permissions of a phase process.
    pub fn resolve_for_phase(&self, phase: PhaseName) -> (r: Result<
        ResolvedPermission,
        PermissionConfigError,
    >)
        ensures
            r is Ok == self.configured(),
            r matches Ok(p) ==> {
                &&& p.strategy == self.strategy_for(phase)
                &&& phase is Classify ==> p.sandbox is ReadOnly && p.reject_elicitations
                    && p.allowed_tools is Some && views(p.allowed_tools->0@) == classify_tools()
                &&& !(phase is Classify) ==> {
                    &&& p.sandbox == (if self@.sandbox is Some {
                        self@.sandbox->0
                    } else {
                        Sandbox::WorkspaceWrite
                    })
                    &&& p.reject_elicitations == (if self@.reject is Some {
                        self@.reject->0
                    } else {
                        true
                    })
                    &&& p.allowed_tools is Some == p.strategy is SettingsAllowlist
                    &&& p.allowed_tools matches Some(tools) ==> tools@ == self@.tools
                }
            },
    {
        if matches!(phase, PhaseName::Classify) {
            let strategy = match &self.default {
                Some(s) => s.clone(),
                None => {
                    if !self.dangerously_skip_override {
                        return Err(PermissionConfigError::PhaseStrategyMissing);
                    }
                    PermissionStrategy::DangerouslySkipPermissions
                },
            };
            return Ok(
                ResolvedPermission {
                    strategy,
                    sandbox: Sandbox::ReadOnly,
                    reject_elicitations: true,
                    allowed_tools: Some(classify_allowed_tools()),
                },
            );
        }
        let strategy = if self.dangerously_skip_override {
            PermissionStrategy::DangerouslySkipPermissions
        } else {
            match &self.default {
                Some(s) => s.clone(),
                None => {
                    return Err(PermissionConfigError::PhaseStrategyMissing);
                },
            }
        };
        let sandbox = match self.sandbox_override {
            Some(s) => s,
            None => Sandbox::WorkspaceWrite,
        };
        let reject_elicitations = match self.reject_elicitations_override {
            Some(b) => b,
            None => true,
        };
        let allowed_tools = match &strategy {
            PermissionStrategy::DangerouslySkipPermissions => None,
            PermissionStrategy::SettingsAllowlist { .. } => Some(
                clone_list(&self.phase_allowed_tools),
            ),
        };
        Ok(ResolvedPermission { strategy, sandbox, reject_elicitations, allowed_tools })
    }

    /// The permissions of the orchestrator's session, which no configuration
    /// but the list of tools reaches.
    pub fn resolve_for_orchestrator(orchestrator_allowed_tools: &[String]) -> (p:
        ResolvedPermission)
        ensures
            p.strategy matches PermissionStrategy::SettingsAllowlist { settings_path }
                && settings_path@ == "<orchestrator-settings>"@,
            p.sandbox is ReadOnly,
            p.reject_elicitations,
            p.allowed_tools matches Some(tools) && tools@ == orchestrator_allowed_tools@,
    {
        let mut tools: Vec<String> = Vec::new();
        let mut i: usize = 0;
        while i < orchestrator_allowed_tools.len()
            invariant
                i <= orchestrator_allowed_tools.len(),
                tools@ == orchestrator_allowed_tools@.take(i as int),
            decreases orchestrator_allowed_tools.len() - i,
        {
            tools.push(orchestrator_allowed_tools[i].clone());
            i += 1;
        }
        ResolvedPermission {
            strategy: PermissionStrategy::SettingsAllowlist {
                settings_path: "<orchestrator-settings>".to_owned(),
            },
            sandbox: Sandbox::ReadOnly,
            reject_elicitations: true,
            allowed_tools: Some(tools),
        }
    }
}

/// The tools of a classification, whatever is configured.
pub fn classify_allowed_tools() -> (r: Vec<String>)
    ensures
        views(r@) == classify_tools(),
{
    let r = vec!["Read".to_owned(), "Glob".to_owned(), "Grep".to_owned()];
    assert(views(r@) =~= classify_tools());
    r
}

/// The opt-out goes for every phase but classification, which goes by the
/// settings file wherever there is one; nothing may be launched where neither is
/// configured.
pub proof fn law_opt_out_spares_classification(r: PermissionResolver, phase: PhaseName)
    ensures
        r.configured() <==> r@.skip || r@.default is Some,
        r@.skip && !(phase is Classify) ==> r.strategy_for(phase) is DangerouslySkipPermissions,
        !r@.skip && r@.default is Some ==> r@.default == Some(r.strategy_for(phase)),
        phase is Classify && r@.default is Some ==> r@.default == Some(r.strategy_for(phase)),
        phase is Classify && r@.default is None ==> r.strategy_for(
            phase,
        ) is DangerouslySkipPermissions,
{
}

/// A classification may read, and do nothing else.
pub proof fn law_classification_only_reads(tool: Seq<char>)
    ensures
        classify_tools().len() == 3,
        classify_tools().contains(tool) <==> tool == "Read"@ || tool == "Glob"@ || tool == "Grep"@,
{
    assert(classify_tools()[0] == "Read"@);
    assert(classify_tools()[1] == "Glob"@);
    assert(classify_tools()[2] == "Grep"@);
}

} // verus!

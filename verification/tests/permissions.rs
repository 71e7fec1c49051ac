use roki_daemon::orchestrator::engine::PhaseName;
use roki_daemon::permissions::{
    classify_allowed_tools, PermissionConfigError, PermissionResolver, PermissionStrategy,
    Sandbox,
};

fn baseline(settings: &str) -> PermissionResolver {
    PermissionResolver::with_settings_path(
        settings.to_owned(),
        vec!["Read".to_owned(), "Bash".to_owned(), "Edit".to_owned()],
    )
}

#[test]
fn default_phase_strategy_is_workspace_write_with_rejected_elicitations() {
    let resolver = baseline("/tmp/phase.json");
    let resolved =
        resolver.resolve_for_phase(PhaseName::Implement).expect("default strategy resolves");
    assert_eq!(resolved.sandbox, Sandbox::WorkspaceWrite);
    assert!(resolved.reject_elicitations);
    assert!(matches!(resolved.strategy, PermissionStrategy::SettingsAllowlist { .. }));
}

#[test]
fn settings_strategy_carries_configured_path() {
    let resolver = baseline("/etc/roki/phase-allow.json");
    let resolved = resolver.resolve_for_phase(PhaseName::Implement).unwrap();
    match resolved.strategy {
        PermissionStrategy::SettingsAllowlist { settings_path } => {
            assert_eq!(settings_path, "/etc/roki/phase-allow.json");
        }
        other => panic!("expected SettingsAllowlist, got {other:?}"),
    }
}

#[test]
fn dangerously_skip_override_yields_skip_strategy_and_warns() {
    let resolver = baseline("/tmp/phase.json").with_dangerously_skip_override(true);
    let resolved = resolver.resolve_for_phase(PhaseName::Implement).unwrap();
    assert_eq!(resolved.strategy, PermissionStrategy::DangerouslySkipPermissions);
    assert!(resolved.allowed_tools.is_none());
}

#[test]
fn orchestrator_pin_is_readonly_settings_with_configured_allowed_tools() {
    let allowed = vec!["mcp__linear*".to_owned(), "Read".to_owned(), "Bash".to_owned()];
    let resolved = PermissionResolver::resolve_for_orchestrator(&allowed);
    assert_eq!(resolved.sandbox, Sandbox::ReadOnly);
    assert!(resolved.reject_elicitations);
    assert!(matches!(resolved.strategy, PermissionStrategy::SettingsAllowlist { .. }));
    assert_eq!(resolved.allowed_tools.as_deref(), Some(allowed.as_slice()));
}

#[test]
fn orchestrator_ignores_dangerously_skip_override() {
    let resolved = PermissionResolver::resolve_for_orchestrator(&["Read".to_owned()]);
    assert!(matches!(resolved.strategy, PermissionStrategy::SettingsAllowlist { .. }));
}

#[test]
fn orchestrator_rejects_elicitations_regardless_of_workflow_overrides() {
    let resolved = PermissionResolver::resolve_for_orchestrator(&[]);
    assert_eq!(resolved.sandbox, Sandbox::ReadOnly);
    assert!(resolved.reject_elicitations);
}

#[test]
fn classify_pins_tool_surface_to_read_glob_grep() {
    let resolver = baseline("/tmp/phase.json")
        .with_sandbox_override(Some(Sandbox::WorkspaceWrite))
        .with_reject_elicitations_override(Some(false));
    let resolved = resolver.resolve_for_phase(PhaseName::Classify).unwrap();
    assert_eq!(resolved.sandbox, Sandbox::ReadOnly);
    assert!(resolved.reject_elicitations);
    assert_eq!(
        resolved.allowed_tools.as_deref(),
        Some(["Read".to_owned(), "Glob".to_owned(), "Grep".to_owned()].as_slice()),
    );
}

#[test]
fn missing_strategy_refuses_with_actionable_message() {
    let resolver = PermissionResolver::empty();
    let err = resolver.resolve_for_phase(PhaseName::Implement).unwrap_err();
    assert_eq!(err, PermissionConfigError::PhaseStrategyMissing);
    let rendered = err.message();
    assert!(rendered.contains("permission strategy"));
    assert!(rendered.contains("settings_path") || rendered.contains("settings"));
    assert!(rendered.contains("dangerously_skip_permissions"));

    assert_eq!(
        resolver.ensure_phase_strategy_present().unwrap_err(),
        PermissionConfigError::PhaseStrategyMissing,
    );
}

#[test]
fn operator_sandbox_override_propagates_for_non_classify() {
    let resolver = baseline("/tmp/phase.json")
        .with_sandbox_override(Some(Sandbox::ReadOnly))
        .with_reject_elicitations_override(Some(false));
    let resolved = resolver.resolve_for_phase(PhaseName::Implement).unwrap();
    assert_eq!(resolved.sandbox, Sandbox::ReadOnly);
    assert!(!resolved.reject_elicitations);
}

#[test]
fn phase_tools_are_the_configured_ones() {
    let resolved = baseline("/tmp/phase.json").resolve_for_phase(PhaseName::Review).unwrap();
    assert_eq!(
        resolved.allowed_tools,
        Some(vec!["Read".to_owned(), "Bash".to_owned(), "Edit".to_owned()]),
    );
    assert_eq!(classify_allowed_tools(), vec!["Read", "Glob", "Grep"]);
}

#[test]
fn override_alone_is_a_strategy() {
    let resolver = PermissionResolver::empty().with_dangerously_skip_override(true);
    assert_eq!(resolver.ensure_phase_strategy_present(), Ok(()));
    let resolved = resolver.resolve_for_phase(PhaseName::Implement).unwrap();
    assert_eq!(resolved.strategy, PermissionStrategy::DangerouslySkipPermissions);
}

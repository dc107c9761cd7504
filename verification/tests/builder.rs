use tyclaw::orchestration::builder::{
    default_tool_registry, stale_dirs, ControlFlags, OrchestratorBuilder, ToolKind, ToolRegistry,
};
use tyclaw::subtasks::config::{ProviderConfig, RoutingRuleConfig, SubtasksConfig};
use tyclaw::subtasks::engine::{ProviderChoice, ReducerChoice, SubtasksEngine};

fn make_builder() -> OrchestratorBuilder {
    OrchestratorBuilder::new(".")
}

#[test]
fn test_with_tools_clears_definition_override() {
    let mut definitions = ToolRegistry::new();
    definitions.register(ToolKind::AskUser);

    let mut shared = ToolRegistry::new();
    shared.register(ToolKind::AskUser);

    let builder = make_builder().with_tool_definitions(definitions).with_tools(shared);

    assert!(builder.tools_for_loop.is_some());
    assert!(
        builder.tool_defs_registry.is_none(),
        "with_tools should restore the default shared tool surface path"
    );
}

#[test]
fn test_with_tool_registries_keeps_explicit_override() {
    let mut runtime = ToolRegistry::new();
    runtime.register(ToolKind::AskUser);

    let mut definitions = ToolRegistry::new();
    definitions.register(ToolKind::ReadFile);

    let builder = make_builder().with_tool_registries(runtime, definitions);

    assert!(builder.tools_for_loop.is_some());
    assert!(
        builder.tool_defs_registry.is_some(),
        "explicit dual-registry override should remain available for advanced callers"
    );
}

fn flags() -> ControlFlags {
    ControlFlags { rbac: true, rate_limit: true, audit: true }
}

#[test]
fn what_is_left_open_is_filled_in() {
    let plan = make_builder().build("gpt", 1000, flags());
    assert_eq!(plan.model, "gpt");
    assert_eq!(plan.context_window_tokens, 1000);
    assert!(plan.definition_tools.is_none());
    assert_eq!(plan.runtime_tools.tools.len(), default_tool_registry().tools.len() + 3);

    let mut subtasks = SubtasksConfig::default();
    subtasks.enabled = true;
    let plan = make_builder()
        .with_model("m".to_string())
        .with_context_window_tokens(5)
        .with_timer()
        .with_subtasks(subtasks)
        .build("gpt", 1000, flags());
    assert_eq!(plan.model, "m");
    assert_eq!(plan.context_window_tokens, 5);
    assert!(plan.runtime_tools.tools.iter().any(|t| matches!(t, ToolKind::Timer)));
}

#[test]
fn stale_directories_lie_below_the_root() {
    for d in stale_dirs("/data") {
        assert!(d.starts_with("/data/"));
    }
}

fn provider(model: Option<&str>) -> ProviderConfig {
    ProviderConfig {
        endpoint: "http://e".into(),
        api_key: None,
        model: model.map(|m| m.to_string()),
        max_tokens: Some(9),
        thinking_enabled: true,
        thinking_effort: "low".into(),
        thinking_budget_tokens: Some(5),
    }
}

#[test]
fn every_target_of_a_rule_is_served() {
    let mut config = SubtasksConfig::default();
    config.providers.insert("named".to_string(), provider(None));
    config.routing_rules.push(RoutingRuleConfig {
        node_type_pattern: "coding".into(),
        target_model: "routed".into(),
    });
    config.reducer_model = Some("unknown".into());
    let engine = SubtasksEngine::new_with_context(config, "main", "key", "http://base");
    assert!(!engine.is_enabled());
    assert!(matches!(engine.providers.get("main"), Some(ProviderChoice::Inherited)));
    match engine.providers.get("named") {
        Some(ProviderChoice::Own { api_key, endpoint, model, thinking, max_tokens }) => {
            assert_eq!(api_key, "key");
            assert_eq!(endpoint, "http://e");
            assert_eq!(model, "named");
            assert_eq!(thinking.as_ref().unwrap().effort, "low");
            assert_eq!(*max_tokens, Some(9));
        }
        _ => panic!("not served"),
    }
    match engine.providers.get("routed") {
        Some(ProviderChoice::Own { endpoint, model, thinking, .. }) => {
            assert_eq!(endpoint, "http://base");
            assert_eq!(model, "routed");
            assert!(thinking.is_none());
        }
        _ => panic!("not served"),
    }
    match &engine.reducer {
        ReducerChoice::Model { name, known } => {
            assert_eq!(name, "unknown");
            assert!(!known);
        }
        ReducerChoice::Rules => panic!("no model"),
    }
    assert_eq!(engine.routing.default_model, "main");
}

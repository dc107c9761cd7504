use tyclaw::agent::agent_loop::AgentLoop;
use tyclaw::agent::loop_helpers::truncate_by_chars_local;
use tyclaw::agent::runtime::chat_message;
use tyclaw::channel::dingtalk::message::ChatbotMessage;
use tyclaw::control::workspace::{RequestIdentity, WorkspaceKeyStrategy, WorkspaceManager};
use tyclaw::gateway::config::RoutingConfig;
use tyclaw::gateway::downstream::DownstreamManager;
use tyclaw::orchestration::builder::{ControlFlags, OrchestratorBuilder, ToolKind, ToolRegistry};
use tyclaw::orchestration::config::{default_max_iterations, default_thinking_effort};
use tyclaw::orchestration::session_manager::SessionManager;
use tyclaw::orchestration::types::{OrchestratorFeatures, RequestContext};

#[test]
fn requests_take_what_is_added() {
    let r = RequestContext::new("u", "w", "cli", "direct")
        .with_user_name("Ann".into())
        .with_conversation_id("c".into())
        .with_images(vec!["data:x".into()])
        .with_files(vec![("/tmp/f".into(), "f".into())]);
    assert_eq!(r.user_id, "u");
    assert_eq!(r.user_name, "Ann");
    assert_eq!(r.conversation_id.as_deref(), Some("c"));
    assert_eq!(r.image_data_uris, vec!["data:x".to_string()]);
    assert_eq!(r.file_attachments[0].1, "f");
}

#[test]
fn builders_take_what_is_added() {
    let mut tools = ToolRegistry::new();
    tools.register(ToolKind::AskUser);
    let features = OrchestratorFeatures {
        enable_audit: false,
        enable_memory: false,
        enable_rbac: true,
        enable_rate_limit: true,
    };
    let plan = OrchestratorBuilder::new("/ws")
        .with_model_opt(Some("m".into()))
        .with_max_iterations(7)
        .with_context_window_tokens_opt(Some(9))
        .with_write_snapshot(false)
        .with_workspaces_config(vec![])
        .with_workspace_key_strategy(WorkspaceKeyStrategy::Conversation)
        .with_runtime_tools(tools)
        .with_features(features)
        .with_control(ControlFlags { rbac: false, rate_limit: true, audit: true })
        .build("other", 1, ControlFlags { rbac: true, rate_limit: false, audit: false });
    assert_eq!(plan.workspace, "/ws");
    assert_eq!(plan.model, "m");
    assert_eq!(plan.max_iterations, Some(7));
    assert_eq!(plan.context_window_tokens, 9);
    assert!(!plan.write_snapshot);
    assert!(plan.workspaces_config.is_some());
    assert!(matches!(plan.workspace_key_strategy, WorkspaceKeyStrategy::Conversation));
    assert!(!plan.features.enable_rbac && plan.features.enable_rate_limit);
    assert!(plan.features.enable_audit && !plan.features.enable_memory);
    let none = OrchestratorBuilder::new("/ws")
        .with_max_iterations(7)
        .with_max_iterations_opt(None)
        .with_workspaces_config_opt(None)
        .build("d", 1, ControlFlags { rbac: true, rate_limit: true, audit: true });
    assert_eq!(none.max_iterations, None);
    assert!(none.workspaces_config.is_none());
    assert_eq!(none.model, "d");
}

#[test]
fn directories_lie_below_the_root() {
    let m = WorkspaceManager::new("/data", WorkspaceKeyStrategy::UserId, None);
    assert_eq!(m.config_dir(), "/data/config");
    assert_eq!(m.logs_dir(), "/data/logs");
    assert_eq!(m.path_config().history_file, "history.jsonl");
    let id = RequestIdentity {
        user_id: "u1",
        channel: "dingtalk_group",
        chat_id: "c:u1",
        conversation_id: Some("c"),
    };
    assert_eq!(m.resolve_key(&id), "u1");
    let shared = WorkspaceManager::new("/data", WorkspaceKeyStrategy::Conversation, None);
    assert_ne!(shared.resolve_key(&id), "u1");
}

#[test]
fn appended_messages_follow_the_first_line() {
    let mut mgr = SessionManager::new("/root");
    let messages = vec![chat_message("user", "hi")];
    let fresh = mgr.append_lines("ws", &messages, false, "s_9", "2026-04-10T12:00:00.000");
    assert_eq!(fresh.len(), 2);
    assert!(fresh[0].contains("s_9"));
    assert_eq!(mgr.append_lines("ws", &messages, true, "s_9", "2026-04-10T12:00:00.000").len(), 1);
    assert!(mgr.append_lines("ws", &vec![], false, "s_9", "2026-04-10T12:00:00.000").is_empty());
    mgr.get_or_create_clone("ws", None, "s_1", "2026-04-10T12:00:00.000", 0);
    assert!(mgr.is_active("ws"));
    mgr.append_messages("ws", &vec![]);
    assert!(mgr.is_active("ws"));
    mgr.append_messages("ws", &messages);
    assert!(!mgr.is_active("ws"));
}

#[test]
fn small_settings() {
    assert_eq!(default_max_iterations(), 40);
    assert_eq!(default_thinking_effort(), "high");
    assert_eq!(truncate_by_chars_local("äöü", 2), "äö");
    let m = ChatbotMessage::with_ids("m", "c");
    assert_eq!((m.msg_id.as_str(), m.conversation_id.as_str()), ("m", "c"));
    let mut d = DownstreamManager::new(1, RoutingConfig::default());
    d.swap_routing(RoutingConfig { default: "rust".into(), ..Default::default() });
    assert_eq!(d.routing.default, "rust");
}

#[test]
fn a_limited_agent_works_on_a_subtask() {
    let a = AgentLoop::new(Some(12), 8).with_max_output_chars(5);
    assert_eq!(a.max_output_chars, Some(5));
}

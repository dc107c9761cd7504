use tyclaw::agent::runtime::{
    chat_message, RunDiagnosticsSummary, RuntimeResult, RuntimeStatus,
};
use tyclaw::control::workspace::{PathConfig, WorkspaceKeyStrategy, WorkspaceManager};
use tyclaw::message::Message;
use tyclaw::orchestration::bus::{outcome_event, progress_event, to_request, InboundMessage, OutboundEvent};
use tyclaw::orchestration::handler::{
    active_tasks_file, answer, audit_entry, cache_scope, consolidation_notice, copy_target,
    handle_with_context, handoff_reply, injected_audit, injected_message, keep_resumed,
    messages_of_turn, plan_aftermath, post_process, prepare_handoff, process_attachments,
    resume_messages, role_in_force, run_agent, should_consolidate, slash_command, text_response,
    token_line, ActiveTask, AgentRunResult, CompletedRun, SlashCommand, Step,
};
use tyclaw::orchestration::prepare::{
    capability_table, choose_cases, choose_memory, container_tool_path, fit_history,
    gather_history, path_below, prepare_prompt, share_out, skill_content, Capability, Gathered,
    SkillMeta,
};
use tyclaw::orchestration::reaper::{has_recent_file_activity, plan_clearing, reap, Reaping};
use tyclaw::orchestration::session_manager::{Session, SessionManager};
use tyclaw::orchestration::types::{OrchestratorFeatures, RequestContext};
use tyclaw::prompt::context::{ContextBuilder, PromptSources};
use tyclaw::prompt::prompt_store::{init, PromptStore};

const NOW: &str = "2026-04-10T12:00:00.000";

fn features() -> OrchestratorFeatures {
    OrchestratorFeatures {
        enable_audit: true,
        enable_memory: true,
        enable_rbac: true,
        enable_rate_limit: true,
    }
}

#[test]
fn requests_are_sorted() {
    let f = features();
    assert_eq!(handle_with_context(true, true, true, &f, "/new"), Step::Inject);
    assert_eq!(handle_with_context(false, true, true, &f, "/new"), Step::Resume);
    assert_eq!(handle_with_context(false, false, true, &f, "/new"), Step::Refuse);
    assert_eq!(
        handle_with_context(false, false, false, &f, " /NEW "),
        Step::Command(SlashCommand::New)
    );
    assert_eq!(handle_with_context(false, false, false, &f, "hi"), Step::Work);
    let free = OrchestratorFeatures { enable_rate_limit: false, ..features() };
    assert_eq!(handle_with_context(false, false, true, &free, "hi"), Step::Work);
    assert_eq!(slash_command("/Handoff"), Some(SlashCommand::Save));
    assert_eq!(slash_command("/newer"), None);
    assert_eq!(role_in_force(&f, "guest".into()), "guest");
    let open = OrchestratorFeatures { enable_rbac: false, ..features() };
    assert_eq!(role_in_force(&open, "guest".into()), "admin");
}

#[test]
fn attachments_are_listed() {
    let files = vec![("/in/a.txt".to_string(), "a.txt".to_string())];
    assert_eq!(
        injected_message("look", &files, "work/attachments"),
        "look\n\n[附件文件]\n- a.txt (路径: work/attachments/a.txt)"
    );
    assert_eq!(injected_message("look", &vec![], "d"), "look");
    assert_eq!(copy_target("/in/a.txt", "a.txt", "/ws"), Some("/ws/a.txt".to_string()));
    assert_eq!(copy_target("/ws/a.txt", "a.txt", "/ws"), None);
    let kept = process_attachments("look", &files, "/ws", "work/attachments", &vec![false]);
    assert!(kept.contains("/in/a.txt"));
    let copied = process_attachments("look", &files, "/ws", "work/attachments", &vec![true]);
    assert!(copied.contains("work/attachments/a.txt"));
}

#[test]
fn answers_resume_a_run() {
    assert_eq!(answer("yes"), "User replied: yes");
    assert!(answer("  ").contains("用户未回复"));
    let messages = resume_messages(vec![chat_message("user", "go")], "c1", "yes");
    assert_eq!(messages.len(), 2);
    assert_eq!(messages[1].tool_call_id.as_deref(), Some("c1"));
    assert_eq!(messages[1].text_or_empty(), "User replied: yes");
    let mut s = Session::new("ws", "s", NOW);
    assert!(keep_resumed(&mut s, &messages, 1, NOW));
    assert_eq!(s.messages.len(), 1);
    assert!(!keep_resumed(&mut s, &messages, 2, NOW));
}

fn result(status: RuntimeStatus, content: Option<&str>) -> RuntimeResult {
    RuntimeResult {
        content: content.map(|c| c.to_string()),
        tools_used: vec!["exec".into()],
        messages: vec![chat_message("user", "go")],
        status,
        tool_events: vec![],
        decision_events: vec![],
        diagnostics_summary: RunDiagnosticsSummary {
            total_tool_calls: 0,
            exec_count: 0,
            dedicated_tool_count: 0,
            error_tool_count: 0,
            denied_tool_count: 0,
            sandbox_tool_count: 0,
            host_tool_count: 0,
            verified_after_last_edit: None,
            ended_with_unverified_changes: false,
        },
        cache_hit_tokens: 4,
        cache_write_tokens: 5,
        total_prompt_tokens: 10,
        total_completion_tokens: 20,
        turn_id: "t".into(),
    }
}

fn completed(content: Option<&str>) -> CompletedRun {
    match run_agent(result(RuntimeStatus::Complete, content)) {
        AgentRunResult::Completed(r) => r,
        AgentRunResult::EarlyReturn { .. } => panic!("not done"),
    }
}

#[test]
fn runs_end_or_wait() {
    assert_eq!(completed(Some("done")).final_content, "done");
    assert_eq!(completed(None).final_content, "处理完成，未生成回复内容。");
    let waiting = RuntimeStatus::NeedsInput { pending_tool_call_id: "c1".into() };
    match run_agent(result(waiting, None)) {
        AgentRunResult::EarlyReturn { response, pending_tool_call_id, .. } => {
            assert_eq!(response.text, "I need your input.");
            assert_eq!(pending_tool_call_id, "c1");
        }
        AgentRunResult::Completed(_) => panic!("done"),
    }
    let reply = post_process(completed(Some("done")), vec!["/f".into()]);
    assert_eq!(reply.text, "done");
    assert_eq!(reply.prompt_tokens, 10);
    assert_eq!(reply.output_files, vec!["/f".to_string()]);
    assert_eq!(text_response("x".into()).text, "x");
    let plan = plan_aftermath(&completed(Some("done")), &features());
    assert!(plan.save_turn && plan.check_memory && plan.audit && plan.extract_case);
}

#[test]
fn tokens_and_tasks_are_told() {
    assert_eq!(
        token_line(10, 20, 3, 4, 30).as_deref(),
        Some("[Token] prompt=10 completion=20 | cache: hit=3 write=4 (30%)")
    );
    assert_eq!(token_line(0, 20, 0, 4, 0), None);
    assert_eq!(cache_scope("ws"), "session:ws");
    let task = ActiveTask::new("u", &"x".repeat(80), 1_000);
    assert_eq!(task.summary.len(), 50);
    assert_eq!(
        active_tasks_file(&vec![ActiveTask::new("u", "t", 1_000)], 4_500, "now").render(),
        "{\"active_tasks\":[{\"running_seconds\":3,\"summary\":\"t\",\"user_id\":\"u\"}],\"updated_at\":\"now\"}"
    );
}

#[test]
fn memory_is_merged_when_full() {
    assert!(!should_consolidate(&vec![10, 40], 100));
    assert!(should_consolidate(&vec![10, 41], 100));
    assert_eq!(consolidation_notice(3), "[整理记忆中... (3 条消息)]");
    let mut a = chat_message("user", "x");
    a.turn_id = Some("t".into());
    assert_eq!(messages_of_turn(&vec![a, chat_message("user", "y")], "t").len(), 1);
}

#[test]
fn everything_is_audited() {
    let e = injected_audit("ws", None, "u", "n", "cli", "hello");
    assert_eq!(e.session_id, "unknown");
    assert_eq!(e.request, "[injected] hello");
    let e = audit_entry("ws", Some("s".into()), "u", "n", "cli", "hello", &completed(Some("done")));
    assert_eq!(e.session_id, "s");
    assert_eq!(e.tool_calls.len(), 1);
    assert_eq!(e.final_response.as_deref(), Some("done"));
}

#[test]
fn handoffs_are_written() {
    let mut s = Session::new("ws", "s", NOW);
    assert!(prepare_handoff(&s, "/ws", "20260410", NOW).is_none());
    s.add_message("user", "remember", NOW);
    let (path, text) = prepare_handoff(&s, "/ws", "20260410", NOW).expect("a handoff");
    assert!(path.starts_with("/ws/"));
    assert!(text.contains("remember"));
    assert!(handoff_reply("/ws", &path, None).contains("handoff") || !handoff_reply("/ws", &path, None).is_empty());
    assert!(handoff_reply("/ws", &path, Some("disk full")).contains("disk full"));
}

#[test]
fn idle_workspaces_are_cleared() {
    assert!(has_recent_file_activity(&vec![None, Some(999_999_999)], 1));
    assert!(!has_recent_file_activity(&vec![None, Some(1_000_000_000)], 1));
    let mut sessions = SessionManager::new("/data");
    let mut s = sessions.get_or_create_clone("ws", None, "s", NOW, 0);
    s.add_message("user", "x", NOW);
    sessions.save(&s, 0);
    assert!(matches!(reap(&mut sessions, "ws", true, true, 9), Reaping::Spared));
    assert_eq!(sessions.active_count(), 1);
    match reap(&mut sessions, "ws", false, true, 9) {
        Reaping::Cleared { to_merge } => assert_eq!(to_merge.len(), 1),
        Reaping::Spared => panic!("spared"),
    }
    assert_eq!(sessions.active_count(), 0);
    let mgr = WorkspaceManager::new("/data", WorkspaceKeyStrategy::UserId, None);
    let c = plan_clearing(&mgr, "ws");
    assert_eq!(c.container, "tyclaw-ws");
    assert_eq!(c.cache_scope, "session:ws");
    assert_eq!(c.dirs.len(), 3);
    assert!(c.history_file.ends_with("/ws/history.jsonl"));
}

fn inbound() -> InboundMessage {
    InboundMessage {
        content: "hi".into(),
        user_id: "u".into(),
        user_name: "n".into(),
        workspace_id: "w".into(),
        channel: "cli".into(),
        chat_id: "direct".into(),
        conversation_id: None,
        images: vec!["i".into()],
        files: vec![],
        awaits_reply: false,
        is_timer: false,
        emotion_context: None,
    }
}

#[test]
fn messages_become_requests_and_events() {
    let (text, req) = to_request(inbound());
    assert_eq!(text, "hi");
    assert_eq!(req.user_name, "n");
    assert_eq!(req.image_data_uris, vec!["i".to_string()]);
    match progress_event("[Thinking]\nidea", "cli", "direct", None) {
        OutboundEvent::Thinking { content, .. } => assert_eq!(content, "idea"),
        _ => panic!("no thought"),
    }
    match progress_event("[Thinking]idea", "cli", "direct", None) {
        OutboundEvent::Thinking { content, .. } => assert_eq!(content, "idea"),
        _ => panic!("no thought"),
    }
    assert!(matches!(
        progress_event("note", "cli", "direct", None),
        OutboundEvent::Progress { .. }
    ));
    assert!(matches!(
        outcome_event(Err("bad".into()), "cli", "direct"),
        OutboundEvent::Error { .. }
    ));
    assert!(matches!(
        outcome_event(Ok(text_response("x".into())), "cli", "direct"),
        OutboundEvent::Reply { .. }
    ));
}

fn skill(tool: Option<&str>, status: &str) -> SkillMeta {
    SkillMeta {
        key: "weather".into(),
        name: "Weather".into(),
        description: "d".into(),
        content: "c".into(),
        category: "data".into(),
        status: status.into(),
        triggers: vec![],
        tool: tool.map(|t| t.to_string()),
        skill_dir: "/data/works/ab/ws/skills/weather".into(),
        host_tool_path: Some("/host/tool.py".into()),
        risk_level: "read".into(),
        requires_capabilities: vec![],
    }
}

#[test]
fn skills_have_their_place_in_a_container() {
    let p = PathConfig::default();
    let ws = "/data/works/ab/ws";
    let own = container_tool_path(&skill(Some("tool.py"), "personal"), "tool.py", &p, ws);
    assert_eq!(own, format!("{}/skills/weather/tool.py", p.container_root));
    let builtin = container_tool_path(&skill(Some("tool.py"), "builtin"), "tool.py", &p, ws);
    assert!(builtin.ends_with("/data/weather/tool.py"));
    assert_eq!(path_below("/a", "/a/b/c").as_deref(), Some("b/c"));
    assert_eq!(path_below("/a", "/ab"), None);
    assert_eq!(path_below("/a//", "/a/./b/c/").as_deref(), Some("b/c"));
    assert_eq!(path_below("a", "./a/b"), None);
    assert_eq!(path_below("/a/b", "/a").as_deref(), None);
    let outside = skill_content(&skill(Some("tool.py"), "personal"), false, &p, ws);
    assert_eq!(outside.tool_path.as_deref(), Some("/host/tool.py"));
    let none = skill_content(&skill(None, "personal"), true, &p, ws);
    assert_eq!(none.tool_path, None);
}

#[test]
fn paths_are_compared_part_by_part() {
    let paths = [
        "", "/", ".", "./", "..", "a", "/a", "./a", "a/", "/a/", "//a", "/./a", "a/b", "/a/b", "/a//b",
        "/a/./b", "/a/b/", "/a/b/.", "/a/../b", "a/./b/../c", "/ab", "/a/b/c", ".a/b", "/.a/./", "a/..b",
    ];
    for dir in paths {
        for path in paths {
            let rest = std::path::Path::new(path).strip_prefix(dir).ok();
            let want = rest.map(|p| p.to_string_lossy().to_string());
            assert_eq!(path_below(dir, path), want, "{path:?} below {dir:?}");
        }
    }
}

#[test]
fn the_prompt_is_prepared() {
    let mut session = Session::new("ws", "s", NOW);
    session.add_message("user", "earlier", NOW);
    session.add_message("user", "earlier", NOW);
    session.add_message("assistant", "reply", NOW);
    let history = gather_history(&session);
    assert!(history.len() <= 3);
    let plan = share_out("hi", &session);
    let costs: Vec<usize> = history.iter().map(|_| 10).collect();
    let fitted = fit_history(&history, &costs, 100_000, plan);
    assert_eq!(fitted.len(), history.len());
    let (pinned, similar) = choose_cases("pin", "Case A\nCase A\n", true, plan);
    assert_eq!(pinned, "pin");
    assert_eq!(similar.matches("Case A").count(), 1);
    let (_, off) = choose_cases("pin", "Case A", false, plan);
    assert!(off.is_empty());
    assert!(choose_memory("## Known issues\nx", "hi").contains("Known issues"));
    let table = capability_table(&Capability {
        key: "k".into(),
        name: "n".into(),
        description: "d".into(),
        category: "c".into(),
        status: "s".into(),
        tags: vec!["a".into(), "b".into()],
        creator: None,
    });
    assert_eq!(table.get("tags"), Some("a, b"));
    assert_eq!(table.get("creator"), None);

    let mut store = PromptStore::new();
    init(&mut store, "identity: |\n  You are TyClaw.\n");
    let files: Vec<(String, String)> = vec![];
    let src = PromptSources {
        store: &store,
        os: "linux",
        arch: "x86_64",
        files: &files,
        memory_file: "",
        local_time: "now",
        time_zone: "UTC",
    };
    let gathered = Gathered {
        capabilities: vec![],
        skills: vec![],
        pinned_cases: String::new(),
        similar_cases: String::new(),
        memory: String::new(),
    };
    let req = RequestContext::new("u", "w", "cli", "direct");
    let messages: Vec<Message> = prepare_prompt(
        &ContextBuilder::new("/ws"),
        &src,
        &gathered,
        &req,
        &fitted,
        "what now",
    );
    assert_eq!(messages[0].role.as_deref(), Some("system"));
    assert!(messages.iter().any(|m| m.text_or_empty().contains("what now")));
    assert!(messages.iter().any(|m| m.text_or_empty() == "reply"));
}

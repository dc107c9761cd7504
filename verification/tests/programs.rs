use tyclaw::channel::dingtalk::ai_card::{
    find_card, new_card_registry, register_card, CardReplier,
};
use tyclaw::orchestration::bus::OutboundEvent;
use tyclaw::orchestration::config::{mask_secret, LlmConfig, LoggingConfig, WorkspaceRuntimeConfig};
use tyclaw::orchestration::types::AgentResponse;
use tyclaw::programs::outbound::{chat_parties, dispatch, print_event};
use tyclaw::programs::startup::{
    bot_setup, client_progress, describe_start_error, format_effective_config, log_level,
    log_place, merge_providers, print_config, resolve_limits, resolve_model, timer_message,
    DingTalkConfig, MessageSource, ModelAccess, ModelArgs, StartError, TimerJob,
};
use tyclaw::subtasks::config::{ProviderConfig, SubtasksConfig};
use tyclaw::table::Table;

fn response(text: &str, tools: &[&str], files: &[&str]) -> AgentResponse {
    AgentResponse {
        text: text.into(),
        tools_used: tools.iter().map(|s| s.to_string()).collect(),
        prompt_tokens: 0,
        completion_tokens: 0,
        output_files: files.iter().map(|s| s.to_string()).collect(),
    }
}

fn progress(channel: &str, message: &str) -> OutboundEvent {
    OutboundEvent::Progress {
        channel: channel.into(),
        chat_id: "cid:staff".into(),
        message: message.into(),
        emotion_context: None,
    }
}

#[test]
fn chats_are_taken_apart() {
    assert_eq!(chat_parties("cid:staff"), ("cid".to_string(), "staff".to_string()));
    assert_eq!(chat_parties("staff"), ("".to_string(), "staff".to_string()));
    assert_eq!(chat_parties("a:b:c"), ("a".to_string(), "b:c".to_string()));
}

#[test]
fn events_are_printed() {
    assert_eq!(
        print_event(&progress("cli", "[Thinking]\nidea"), "0.0"),
        vec!["\x1b[2m◆ idea\x1b[0m"]
    );
    assert_eq!(
        print_event(&progress("cli", "[dispatch] 2"), "0.0"),
        vec!["\x1b[2m─── [dispatch] 2 ───\x1b[0m"]
    );
    assert_eq!(print_event(&progress("cli", "[Round 1]"), "0.0"), vec!["\x1b[2m[Round 1]\x1b[0m"]);
    assert_eq!(print_event(&progress("cli", "text"), "0.0"), vec!["\x1b[2m▌ text\x1b[0m"]);
    let reply = OutboundEvent::Reply {
        channel: "cli".into(),
        chat_id: "direct".into(),
        response: response("done", &["exec", "glob"], &["/tmp/a"]),
    };
    assert_eq!(
        print_event(&reply, "1.5"),
        vec![
            "\x1b[1;37mTyClaw.rs>\x1b[0m \x1b[1;37mdone\x1b[0m",
            "\x1b[2m(tools: exec, glob | 1.5s)\x1b[0m",
            "\x1b[2m[输出文件]\x1b[0m",
            "\x1b[2m  → /tmp/a\x1b[0m",
        ]
    );
    let tool = OutboundEvent::Tool {
        channel: "cli".into(),
        chat_id: "direct".into(),
        name: "exec".into(),
        brief: "".into(),
    };
    assert_eq!(print_event(&tool, ""), vec!["\x1b[2m  ▸ exec\x1b[0m"]);
    let error = OutboundEvent::Error {
        channel: "cli".into(),
        chat_id: "direct".into(),
        message: "bad".into(),
    };
    assert_eq!(print_event(&error, ""), vec!["\x1b[2;31mError: bad\x1b[0m"]);
}

#[test]
fn chats_are_fed_and_answered() {
    let mut cards = new_card_registry();
    register_card(&mut cards, "cid:staff", CardReplier::new("tpl", "track", "HEAD", "staff", 0));
    let tool = OutboundEvent::Tool {
        channel: "dingtalk_group".into(),
        chat_id: "cid:staff".into(),
        name: "exec".into(),
        brief: "ls".into(),
    };
    let e = dispatch(&tool, true, &mut cards, "");
    let (track, body) = e.card.expect("something to show");
    assert_eq!(track, "track");
    assert!(body.ends_with("exec: ls"));
    assert!(e.send.is_none());
    assert_eq!(e.lines, vec!["\x1b[2m[DT:cid:staff] ▸ exec: ls\x1b[0m"]);
    assert_eq!(find_card(&cards, "cid:staff").unwrap().state.latest_tool, "exec: ls");

    let reply = OutboundEvent::Reply {
        channel: "dingtalk_group".into(),
        chat_id: "cid:staff".into(),
        response: response("done", &["exec"], &[]),
    };
    let e = dispatch(&reply, true, &mut cards, "1.0");
    let sent = e.send.expect("a text");
    assert_eq!(sent.text, "done");
    assert_eq!(sent.conversation_id, "cid");
    assert_eq!(sent.user_id, "staff");
    assert!(e.card.is_none());

    let beat = dispatch(&progress("dingtalk_group", "[heartbeat]still here"), true, &mut cards, "");
    assert_eq!(beat.send.unwrap().text, "still here");
    let other = dispatch(&progress("dingtalk_group", "note"), true, &mut cards, "");
    assert!(other.send.is_none());
    let none = dispatch(&reply, false, &mut cards, "1.0");
    assert!(none.send.is_none());
    assert_eq!(none.lines.len(), 2);
}

#[test]
fn finished_cards_are_left_alone() {
    let mut cards = new_card_registry();
    let mut card = CardReplier::new("tpl", "track", "HEAD", "staff", 0);
    card.finalize("over");
    register_card(&mut cards, "cid:staff", card);
    let thought = OutboundEvent::Thinking {
        channel: "dingtalk_group".into(),
        chat_id: "cid:staff".into(),
        content: "late".into(),
    };
    assert!(dispatch(&thought, true, &mut cards, "").card.is_none());
}

fn provider(key: Option<&str>, model: Option<&str>) -> ProviderConfig {
    ProviderConfig {
        endpoint: "http://p".into(),
        api_key: key.map(|k| k.to_string()),
        model: model.map(|m| m.to_string()),
        max_tokens: None,
        thinking_enabled: false,
        thinking_effort: "high".into(),
        thinking_budget_tokens: None,
    }
}

fn no_args() -> ModelArgs {
    ModelArgs { api_key: None, api_base: None, model: None }
}

#[test]
fn the_model_is_resolved() {
    let mut providers = Table::new();
    providers.insert("p".to_string(), provider(Some("pk"), None));
    providers.insert("keyless".to_string(), provider(None, None));
    let mut llm = LlmConfig::default();
    assert!(matches!(
        resolve_model(&no_args(), &llm, &providers, "gpt-4o"),
        Err(StartError::NoKey)
    ));
    llm.api_key = Some("inline".into());
    let m = resolve_model(&no_args(), &llm, &providers, "gpt-4o").unwrap();
    assert_eq!(m.api_key, "inline");
    assert_eq!(m.api_base, "https://api.openai.com/v1");
    assert_eq!(m.model, "gpt-4o");
    assert!(m.thinking.is_none());
    llm.provider = Some("p".into());
    let m = resolve_model(&no_args(), &llm, &providers, "gpt-4o").unwrap();
    assert_eq!(m.api_key, "pk");
    assert_eq!(m.api_base, "http://p");
    assert_eq!(m.model, "p");
    let args = ModelArgs { api_key: None, api_base: Some("b".into()), model: Some("m".into()) };
    let m = resolve_model(&args, &llm, &providers, "gpt-4o").unwrap();
    assert_eq!((m.api_key.as_str(), m.api_base.as_str(), m.model.as_str()), ("pk", "b", "m"));
    let args = ModelArgs { api_key: Some("cli".into()), api_base: None, model: Some("m".into()) };
    let m = resolve_model(&args, &llm, &providers, "gpt-4o").unwrap();
    assert_eq!(m.api_key, "cli");
    assert_eq!(m.model, "m");
    llm.provider = Some("missing".into());
    let e = resolve_model(&no_args(), &llm, &providers, "gpt-4o").unwrap_err();
    assert!(describe_start_error(&e, "[\"p\"]").ends_with("Available providers: [\"p\"]"));
    llm.provider = Some("keyless".into());
    let e = resolve_model(&no_args(), &llm, &providers, "gpt-4o").unwrap_err();
    assert_eq!(
        describe_start_error(&e, ""),
        "Error: providers.keyless.api_key is required."
    );
}

#[test]
fn limits_are_resolved() {
    let mut llm = LlmConfig::default();
    llm.max_iterations = 7;
    llm.context_window_tokens = Some(9);
    assert_eq!(resolve_limits(None, None, &llm), (7, Some(9)));
    assert_eq!(resolve_limits(Some(1), Some(2), &llm), (1, Some(2)));
    assert_eq!(WorkspaceRuntimeConfig::default().idle_timeout_secs, 1800);
}

#[test]
fn providers_of_subtasks_stay() {
    let mut shared = Table::new();
    shared.insert("a".to_string(), provider(Some("shared"), None));
    shared.insert("b".to_string(), provider(Some("shared"), None));
    let mut subtasks = SubtasksConfig::default();
    subtasks.providers.insert("a".to_string(), provider(Some("own"), None));
    merge_providers(shared, &mut subtasks);
    assert_eq!(subtasks.providers.len(), 2);
    assert_eq!(subtasks.providers.get("a").unwrap().api_key.as_deref(), Some("own"));
    assert_eq!(subtasks.providers.get("b").unwrap().api_key.as_deref(), Some("shared"));
}

#[test]
fn logs_have_a_place() {
    let mut logging = LoggingConfig::default();
    assert_eq!(
        log_place("/ws", &logging, "tyclaw.log"),
        ("/ws/logs".to_string(), "tyclaw.log".to_string())
    );
    logging.file = Some("/var/log/x.log".into());
    assert_eq!(
        log_place("/ws", &logging, "tyclaw.log"),
        ("/var/log".to_string(), "x.log".to_string())
    );
    logging.level = " ".into();
    assert_eq!(log_level(&logging), "info");
    logging.level = "DEBUG".into();
    assert_eq!(log_level(&logging), "debug");
}

fn access() -> ModelAccess {
    ModelAccess {
        api_key: "abcdefghijkl".into(),
        api_base: "http://b".into(),
        model: "m".into(),
        thinking: None,
    }
}

fn dingtalk() -> DingTalkConfig {
    DingTalkConfig {
        client_id: Some("0123456789".into()),
        client_secret: None,
        gateway_url: None,
        card_template_id: None,
    }
}

#[test]
fn the_configuration_is_shown() {
    let mut subtasks = SubtasksConfig::default();
    subtasks.enabled = true;
    subtasks.providers.insert("p".to_string(), provider(None, Some("pm")));
    let lines = format_effective_config(
        "/ws/config/config.yaml",
        "dingtalk",
        "/ws",
        &access(),
        40,
        None,
        false,
        &LoggingConfig::default(),
        &dingtalk(),
        &vec!["b".to_string(), "a".to_string()],
        &subtasks,
    );
    assert_eq!(lines[0], "=== TyClaw.rs Effective Config ===");
    assert!(lines.contains(&"llm.api_key: abcd***ijkl".to_string()));
    assert!(lines.contains(&"llm.context_window_tokens: <default>".to_string()));
    assert!(lines.contains(&"workspaces.ids: a, b".to_string()));
    assert!(lines.contains(&"dingtalk.client_id: 0123***6789".to_string()));
    assert!(lines.contains(&"dingtalk.client_secret: <empty>".to_string()));
    assert!(lines.contains(&"subtasks.failure_policy: FailFast".to_string()));
    assert!(lines.contains(&"  p: endpoint=http://p, model=pm".to_string()));
    assert_eq!(lines.last().unwrap(), "===============================");
    let (config, workspace) = print_config("c.yaml", "/ws", &access(), 40);
    assert_eq!(
        config,
        "\x1b[2m[config] c.yaml | model=m | api_base=http://b | key=abcd***ijkl | max_iter=40\x1b[0m"
    );
    assert_eq!(workspace, "\x1b[2m[workspace] /ws\x1b[0m");
}

#[test]
fn secrets_are_masked() {
    assert_eq!(mask_secret(""), "<empty>");
    assert_eq!(mask_secret("12345678"), "***");
    assert_eq!(mask_secret("123456789"), "1234***6789");
    assert_eq!(mask_secret("中文字符也会遮住一些"), "中文字符***遮住一些");
}

#[test]
fn the_bot_needs_an_id_and_a_secret() {
    assert!(matches!(bot_setup(dingtalk()), Err(StartError::NoClientSecret)));
    let nobody = DingTalkConfig { client_id: None, ..dingtalk() };
    assert!(matches!(bot_setup(nobody), Err(StartError::NoClientId)));
    let direct = DingTalkConfig { client_secret: Some("s".into()), ..dingtalk() };
    assert!(matches!(bot_setup(direct).unwrap().source, MessageSource::Direct));
    let gateway = DingTalkConfig {
        client_secret: Some("s".into()),
        gateway_url: Some("ws://g".into()),
        ..dingtalk()
    };
    match bot_setup(gateway).unwrap().source {
        MessageSource::Gateway(u) => assert_eq!(u, "ws://g"),
        MessageSource::Direct => panic!("direct"),
    }
    assert!(describe_start_error(&StartError::NoClientId, "").contains("client_id"));
    assert!(describe_start_error(&StartError::NoClientSecret, "").contains("client_secret"));
    assert!(describe_start_error(&StartError::NoKey, "").contains("API key required"));
}

#[test]
fn timers_send_messages() {
    let m = timer_message(TimerJob {
        name: "daily".into(),
        message: "report".into(),
        user_id: "u".into(),
        workspace_id: None,
        channel: None,
        chat_id: None,
        conversation_id: None,
    });
    assert_eq!(m.content, "[Scheduled Task: daily] report");
    assert_eq!(m.channel, "cli");
    assert_eq!(m.chat_id, "direct");
    assert_eq!(m.workspace_id, "default");
    assert!(m.is_timer);
    assert_eq!(client_progress("[Thinking]\nx"), "\x1b[2m[Thinking] x\x1b[0m");
    assert_eq!(client_progress("x"), "\x1b[2mx\x1b[0m");
}

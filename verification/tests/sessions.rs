use tyclaw::agent::runtime::chat_message;
use tyclaw::json::Json;
use tyclaw::message::{Content, ContentBlock, Message, ToolCall};
use tyclaw::orchestration::history::enforce_tool_call_pairing;
use tyclaw::orchestration::save_turn::{collect_history_ids, mark_of, save_turn, trim_message};
use tyclaw::orchestration::session_lines::{message_from_json, message_to_json, message_to_line};
use tyclaw::orchestration::session_manager::{
    generate_session_id, messages_to_lines, read_lines, read_session, session_id_with,
    session_to_lines, Session, SessionManager,
};

const NOW: &str = "2026-04-10T12:00:00.000";

#[test]
fn test_session_id_format() {
    let id = generate_session_id("20260410_120000");
    assert!(id.starts_with("s_"));
    assert!(id.len() > 15);
}

#[test]
fn session_ids_hold_the_time_and_a_tag() {
    assert_eq!(session_id_with("20260410_120000", "abcdef"), "s_20260410_120000_abcdef");
    assert_ne!(generate_session_id("x"), generate_session_id("x"));
}

fn session() -> Session {
    Session::new("test_ws", &generate_session_id("20260410_120000"), NOW)
}

#[test]
fn test_session_add_and_history() {
    let mut session = session();
    assert!(session.session_id.starts_with("s_"));
    session.add_message("user", "hello", NOW);
    session.add_message("assistant", "hi", NOW);

    let history = session.get_history(0);
    assert_eq!(history.len(), 2);
    assert_eq!(history[0].role.as_deref(), Some("user"));
    assert_eq!(history[1].role.as_deref(), Some("assistant"));
}

#[test]
fn test_session_clear() {
    let mut session = session();
    let sid = session.session_id.clone();
    session.add_message("user", "hello", NOW);
    session.clear(NOW);
    assert!(session.messages.is_empty());
    assert_eq!(session.last_consolidated, 0);
    assert_eq!(session.session_id, sid);
}

#[test]
fn histories_can_be_cut_short() {
    let mut session = session();
    for i in 0..5 {
        session.add_message("user", &format!("m{i}"), NOW);
    }
    let last = session.get_history(2);
    assert_eq!(last.last().unwrap().text_or_empty(), "m4");
    assert!(last.len() <= 2);
}

#[test]
fn test_session_manager_persistence() {
    let mut mgr = SessionManager::new("/tmp/tyclaw-root");

    let mut session = mgr.get_or_create_clone("alice", None, "s_1", NOW, 0);
    session.add_message("user", "hello", NOW);
    session.add_message("assistant", "hi", NOW);
    let stored = session_to_lines(&session);
    mgr.save(&session, 1);

    mgr.invalidate("alice");
    let reloaded = mgr.get_or_create_clone("alice", Some(stored), "s_2", NOW, 2);
    assert_eq!(reloaded.messages.len(), 2);
    assert_eq!(reloaded.workspace_key, "alice");
}

#[test]
fn test_find_idle_workspaces() {
    let mut mgr = SessionManager::new("/tmp/tyclaw-root");

    let _ = mgr.get_or_create_clone("active_ws", None, "s_1", NOW, 1000);

    let idle = mgr.find_idle_workspaces(0, 1000);
    assert!(idle.contains(&"active_ws".to_string()));

    let idle = mgr.find_idle_workspaces(9999, 1000);
    assert!(idle.is_empty());
}

#[test]
fn a_busy_workspace_is_not_idle() {
    let mut mgr = SessionManager::new("/tmp/tyclaw-root");
    let _ = mgr.get_or_create_clone("ws", None, "s_1", NOW, 0);
    mgr.set_busy("ws", 0);
    assert_eq!(mgr.busy_elapsed("ws", 5_000), Some(5_000));
    assert!(mgr.find_idle_workspaces(0, 60_000).is_empty());
    mgr.clear_busy("ws", 60_000);
    assert_eq!(mgr.busy_elapsed("ws", 60_001), None);
    assert_eq!(mgr.find_idle_workspaces(1, 70_000), vec!["ws".to_string()]);
    mgr.touch("ws", 70_000);
    assert!(mgr.find_idle_workspaces(1, 70_500).is_empty());
}

#[test]
fn test_evict() {
    let mut mgr = SessionManager::new("/tmp/tyclaw-root");
    let _ = mgr.get_or_create_clone("ws1", None, "s_1", NOW, 0);
    assert_eq!(mgr.active_count(), 1);

    let evicted = mgr.evict("ws1");
    assert!(evicted.is_some());
    assert_eq!(evicted.unwrap().workspace_key, "ws1");
    assert_eq!(mgr.active_count(), 0);
}

#[test]
fn saved_sessions_are_handed_out() {
    let mut mgr = SessionManager::new("/tmp/tyclaw-root");
    let mut s = mgr.get_or_create_clone("ws", None, "s_1", NOW, 0);
    s.add_message("user", "kept", NOW);
    mgr.save(&s, 1);
    let again = mgr.get_or_create_clone("ws", None, "s_other", NOW, 2);
    assert_eq!(again.messages.len(), 1);
    assert_eq!(again.session_id, s.session_id);
    assert_eq!(mgr.get_session_id("ws"), Some(s.session_id));
    assert!(mgr.history_path("ws").ends_with("/ws/history.jsonl"));
}

fn odd_message() -> Message {
    let mut m = chat_message("assistant", "line one\nline \"two\"\t\\ end 中文 \u{1}");
    m.tool_calls = Some(vec![ToolCall {
        id: Some("c1".into()),
        name: Some("exec".into()),
        arguments: Some("{\"command\":\"ls\"}".into()),
        given: None,
    }]);
    m.reasoning = Some("because".into());
    m.timestamp = Some(NOW.into());
    m.turn_id = Some("t1".into());
    m.reset_iterations = true;
    m
}

fn same(a: &Message, b: &Message) -> bool {
    message_to_line(a) == message_to_line(b)
}

#[test]
fn messages_are_read_back() {
    let m = odd_message();
    let v = message_to_json(&m);
    let back = message_from_json(&v);
    assert!(same(&m, &back));
    assert_eq!(back.text_or_empty(), m.text_or_empty());
    assert!(!message_to_line(&m).contains('\n'));
    let blocks = Message::with_content(
        "user",
        Content::Blocks(vec![
            ContentBlock::Text("look".into()),
            ContentBlock::ImageUrl("data:image/png;base64,AA==".into()),
        ]),
    );
    assert!(same(&blocks, &message_from_json(&message_to_json(&blocks))));
}

#[test]
fn written_sessions_are_read_back() {
    let mut s = Session::new("ws", "s_1", NOW);
    s.metadata = vec![("note".to_string(), Json::Text("x".into()))];
    s.messages.push(odd_message());
    s.messages.push(chat_message("user", "again"));
    let mut lines = session_to_lines(&s);
    let appended = messages_to_lines(&vec![chat_message("assistant", "more")]);
    lines.extend(appended);
    let back = read_session("ws", &lines, "s_2", NOW);
    assert_eq!(back.messages.len(), 3);
    assert!(same(&back.messages[0], &s.messages[0]));
    assert_eq!(back.messages[2].text_or_empty(), "more");
    assert_eq!(back.metadata.len(), 1);
}

fn member<'a>(v: &'a Json, key: &str) -> Option<&'a Json> {
    match v {
        Json::Object(m) => m.iter().find(|p| p.0 == key).map(|p| &p.1),
        _ => None,
    }
}

#[test]
fn a_missing_content_is_handed_on_as_the_empty_text() {
    let lines = vec![
        "{\"role\":\"assistant\"}".to_string(),
        "{\"content\":null,\"role\":\"assistant\"}".to_string(),
        "{\"content\":{\"a\":1},\"role\":7}".to_string(),
        "{\"content\":\"x\"}".to_string(),
    ];
    let s = read_session("ws", &lines, "s_1", NOW);
    let history: Vec<Json> = s.get_history(0).iter().map(message_to_json).collect();
    assert_eq!(history.len(), 4);
    assert!(matches!(member(&history[0], "content"), Some(Json::Text(t)) if t.is_empty()));
    assert!(matches!(member(&history[1], "content"), Some(Json::Null)));
    assert!(matches!(member(&history[2], "content"), Some(Json::Object(_))));
    assert!(matches!(member(&history[2], "role"), Some(Json::Number(_))));
    assert!(matches!(member(&history[3], "role"), Some(Json::Text(t)) if t.is_empty()));
}

#[test]
fn what_is_read_is_written_as_it_was() {
    let lines = vec![
        "{\"role\":\"assistant\"}".to_string(),
        "{\"content\":null,\"role\":\"assistant\",\"tool_calls\":null}".to_string(),
        "{\"a\":[1,{\"b\":true}],\"content\":[{\"text\":\"x\",\"type\":\"text\"},5],\"role\":7,\"zz\":\"z\"}".to_string(),
        "{\"content\":\"\",\"role\":\"assistant\",\"tool_calls\":[{\"extra\":1,\"function\":{\"arguments\":\"{}\",\"name\":\"exec\"},\"id\":\"c1\",\"type\":\"function\"},\"odd\"]}".to_string(),
        "{\"_reset_iterations_next_run\":false,\"_turn_id\":1,\"content\":\"x\",\"role\":\"user\",\"timestamp\":null}".to_string(),
    ];
    let loaded = read_lines(&lines);
    assert_eq!(messages_to_lines(&loaded.messages), lines);
}

#[test]
fn a_call_of_another_form_is_marked_where_it_stands() {
    let line = "{\"content\":\"\",\"role\":\"assistant\",\"tool_calls\":[{\"extra\":1,\"function\":{\"name\":\"exec\"},\"id\":\"c1\"}]}";
    let read = read_lines(&vec![line.to_string()]).messages;
    let turn: Vec<Message> = read.iter().map(|m| of_turn(m.clone())).collect();
    let saved = save_turn(&read, &turn, "turn", 0xabc, NOW);
    assert_eq!(saved.len(), 1);
    let marked = format!("c1_{}", mark_of(0xabc));
    assert!(message_to_line(&saved[0]).contains(&format!("{{\"extra\":1,\"function\":{{\"name\":\"exec\"}},\"id\":\"{marked}\"}}")));
}

#[test]
fn broken_lines_are_passed_over() {
    let loaded = read_lines(&vec![
        "not json".to_string(),
        "".to_string(),
        message_to_line(&chat_message("user", "x")),
    ]);
    assert_eq!(loaded.messages.len(), 1);
}

fn of_turn(mut m: Message) -> Message {
    m.turn_id = Some("turn".into());
    m
}

#[test]
fn a_turn_is_saved_with_its_marks() {
    let mut old = chat_message("assistant", "");
    old.tool_calls = Some(vec![ToolCall {
        id: Some("c1".into()),
        name: Some("exec".into()),
        arguments: None,
        given: None,
    }]);
    let history = vec![old];
    assert_eq!(collect_history_ids(&history), vec!["c1".to_string()]);

    let mut repeated = of_turn(chat_message("assistant", ""));
    repeated.tool_calls = Some(vec![ToolCall {
        id: Some("c1".into()),
        name: Some("exec".into()),
        arguments: None,
        given: None,
    }]);
    let mut result = of_turn(chat_message("tool", "ok"));
    result.tool_call_id = Some("c1".into());
    let other = chat_message("user", "of another turn");
    let saved = save_turn(&history, &vec![other, repeated, result], "turn", 0xabc, NOW);
    assert_eq!(saved.len(), 2);
    let id = saved[0].tool_calls.as_ref().unwrap()[0].id.clone().unwrap();
    assert_eq!(id, format!("c1_{}", mark_of(0xabc)));
    assert_eq!(saved[1].tool_call_id.as_deref(), Some(id.as_str()));
    assert!(saved[0].timestamp.is_some());
}

#[test]
fn a_new_call_and_its_result_keep_their_id() {
    let mut call = of_turn(chat_message("assistant", ""));
    call.tool_calls = Some(vec![
        ToolCall { id: Some("c1".into()), name: Some("exec".into()), arguments: None, given: None },
        ToolCall { id: Some("c2".into()), name: Some("exec".into()), arguments: None, given: None },
    ]);
    let mut first = of_turn(chat_message("tool", "one"));
    first.tool_call_id = Some("c1".into());
    let mut second = of_turn(chat_message("tool", "two"));
    second.tool_call_id = Some("c2".into());
    let saved = save_turn(&vec![], &vec![call, first, second], "turn", 0xabc, NOW);
    assert_eq!(saved.len(), 3);
    let calls = saved[0].tool_calls.as_ref().unwrap();
    assert_eq!(calls[0].id.as_deref(), Some("c1"));
    assert_eq!(saved[1].tool_call_id.as_deref(), Some("c1"));
    assert_eq!(saved[2].tool_call_id.as_deref(), Some("c2"));
    assert!(saved.iter().all(|m| m.turn_id.is_none() && m.timestamp.is_some()));
    assert_eq!(enforce_tool_call_pairing(&saved).len(), 3);
}

#[test]
fn saved_turns_stay_paired_behind_a_history() {
    let turn = |id: &str| {
        let mut call = of_turn(chat_message("assistant", ""));
        call.tool_calls =
            Some(vec![ToolCall { id: Some(id.into()), name: Some("exec".into()), arguments: None, given: None }]);
        let mut result = of_turn(chat_message("tool", "ok"));
        result.tool_call_id = Some(id.into());
        vec![of_turn(chat_message("user", "do it")), call, result]
    };
    let mut history = save_turn(&vec![], &turn("c1"), "turn", 1, NOW);
    let again = save_turn(&history, &turn("c1"), "turn", 2, NOW);
    history.extend(again);
    assert_eq!(history.len(), 6);
    assert_eq!(history[5].tool_call_id.as_deref(), Some("c1_0002"));
    assert_eq!(enforce_tool_call_pairing(&history).len(), 6);
}

#[test]
fn long_results_are_trimmed() {
    let mut m = chat_message("tool", &"x".repeat(5000));
    m.tool_call_id = Some("c".into());
    let t = trim_message(m).expect("kept");
    assert_eq!(t.text_or_empty(), format!("{}\n... (truncated)", "x".repeat(500)));
    let kept = trim_message(chat_message("tool", &"果".repeat(500))).expect("kept");
    assert_eq!(kept.text_or_empty(), "果".repeat(500));
}

use tyclaw::message::{Content, Message, ToolCall};
use tyclaw::orchestration::helpers::{
    compute_context_budget_plan, extract_skills_used, first_turn_budget, history_budget,
    optimize_similar_cases, parent_dir_name, skill_in_command, skill_in_path,
    strip_internal_markers, truncate_by_chars, build_handoff_markdown,
};
use tyclaw::orchestration::history::{
    dedupe_history, enforce_tool_call_pairing, message_signature, trim_history_by_token_budget,
};

fn msg(role: &str, content: &str) -> Message {
    Message::with_content(role, Content::Text(content.to_string()))
}

fn calling(id: &str, name: &str) -> Message {
    let mut m = msg("assistant", "");
    m.tool_calls = Some(vec![ToolCall {
        id: Some(id.to_string()),
        name: Some(name.to_string()),
        arguments: Some("{}".to_string()),
        given: None,
    }]);
    m
}

fn result(id: &str, name: &str, content: &str) -> Message {
    let mut m = msg("tool", content);
    m.tool_call_id = Some(id.to_string());
    m.name = Some(name.to_string());
    m
}

/// A rough count of tokens: one for four bytes, and some for the message.
fn costs(history: &[Message]) -> Vec<usize> {
    history.iter().map(|m| 4 + m.text_or_empty().len() / 4).collect()
}

fn has_result(messages: &[Message], id: &str) -> bool {
    messages.iter().any(|m| m.tool_call_id.as_deref() == Some(id))
}

#[test]
fn test_dedupe_history_only_removes_consecutive_duplicates() {
    let history = vec![
        msg("user", "hello"),
        msg("user", "hello"),
        msg("assistant", "ok"),
        msg("user", "hello"),
    ];
    let deduped = dedupe_history(&history);
    assert_eq!(deduped.len(), 3);
    assert_eq!(deduped[0].role.as_deref(), Some("user"));
    assert_eq!(deduped[1].role.as_deref(), Some("assistant"));
    assert_eq!(deduped[2].role.as_deref(), Some("user"));
    assert_eq!(dedupe_history(&deduped).len(), 3);
}

#[test]
fn test_dedupe_history_keeps_different_tool_calls() {
    let history = vec![calling("tool_1", "read_file"), calling("tool_2", "read_file")];
    let deduped = dedupe_history(&history);
    assert_eq!(deduped.len(), 2);
    assert_ne!(message_signature(&history[0]), message_signature(&history[1]));
}

#[test]
fn test_trim_history_by_token_budget_keeps_latest() {
    let history = vec![
        msg("user", "first"),
        msg("assistant", "second"),
        msg("user", "third"),
    ];
    let trimmed = trim_history_by_token_budget(&history, &costs(&history), 2);
    assert!(!trimmed.is_empty());
    assert_eq!(trimmed.last().unwrap().text_or_empty(), "third");
}

#[test]
fn test_optimize_similar_cases_dedup_and_truncate() {
    let raw = "Case A\nCase A\nCase B\n";
    let optimized = optimize_similar_cases(raw, 10);
    assert!(optimized.contains("Case A"));
    assert!(optimized.contains("truncated"));
    assert_eq!(optimized.matches("Case A").count(), 1);
}

#[test]
fn test_optimize_similar_cases_utf8_safe_truncate() {
    let raw = "案例一：中文内容\n案例二：继续排查";
    let optimized = optimize_similar_cases(raw, 7);
    assert!(optimized.contains("truncated"));
    assert!(optimized.is_char_boundary(optimized.len()));
}

#[test]
fn test_enforce_tool_call_pairing_drops_orphan_tool_result() {
    let history = vec![
        calling("tool_ok", "exec"),
        result("tool_ok", "exec", "ok"),
        result("tool_missing", "exec", "orphan"),
    ];
    let cleaned = enforce_tool_call_pairing(&history);
    assert_eq!(cleaned.len(), 2);
    assert_eq!(cleaned[0].role.as_deref(), Some("assistant"));
    assert_eq!(cleaned[1].role.as_deref(), Some("tool"));
    assert_eq!(cleaned[1].tool_call_id.as_deref(), Some("tool_ok"));
    assert_eq!(enforce_tool_call_pairing(&cleaned).len(), 2);
}

#[test]
fn test_compute_context_budget_plan_modes() {
    let p_debug = compute_context_budget_plan("帮我排查服务报错和 timeout");
    assert!(p_debug.max_cases_chars >= 3000);

    let p_follow = compute_context_budget_plan("继续刚才那个问题");
    assert!(p_follow.history_ratio >= 60);

    let p_code = compute_context_budget_plan("请实现一个重构方案");
    assert!(p_code.max_skills >= 10);
}

#[test]
fn budgets_stay_in_their_bounds() {
    let p = compute_context_budget_plan("Debug the TIMEOUT");
    assert!(p.history_ratio <= 65 && p.max_skills <= 12 && p.max_cases_chars <= 4000);
    let first = first_turn_budget(p);
    assert!(first.max_skills <= 12 && first.max_cases_chars <= 4000);
    assert_eq!(history_budget(1_000_000, p), 16_384);
    assert_eq!(history_budget(0, p), 256);
}

#[test]
fn test_cross_round_tool_pairing_regression() {
    let history = vec![
        msg("user", "round1"),
        calling("tool_a", "list_dir"),
        result("tool_a", "list_dir", "result_a"),
        msg("assistant", "after round1"),
        msg("user", "round2"),
        calling("tool_b", "read_file"),
        result("tool_b", "read_file", "result_b"),
        result("tool_x", "exec", "orphan"),
        msg("assistant", "done"),
    ];

    let trimmed = trim_history_by_token_budget(&history, &costs(&history), 10_000);
    let cleaned = enforce_tool_call_pairing(&trimmed);

    assert!(has_result(&cleaned, "tool_a"));
    assert!(has_result(&cleaned, "tool_b"));
    assert!(!has_result(&cleaned, "tool_x"));
}

#[test]
fn test_cross_round_pairing_under_tight_budget() {
    let history = vec![
        msg("user", "round_old"),
        calling("tool_old", "list_dir"),
        result("tool_old", "list_dir", &"old_result ".repeat(200)),
        msg("assistant", "after old"),
        msg("user", "round_new"),
        calling("tool_new", "read_file"),
        result("tool_new", "read_file", "new_result"),
        result("tool_orphan", "exec", "orphan"),
        msg("assistant", "done"),
    ];

    let trimmed = trim_history_by_token_budget(&history, &costs(&history), 120);
    let cleaned = enforce_tool_call_pairing(&trimmed);

    assert!(!cleaned.iter().any(|m| {
        m.role.as_deref() == Some("tool") && m.tool_call_id.as_deref() == Some("tool_orphan")
    }));

    let mut expected_ids = std::collections::HashSet::new();
    for m in &cleaned {
        let role = m.role.as_deref().unwrap_or("");
        if role == "assistant" {
            expected_ids.clear();
            if let Some(tool_calls) = &m.tool_calls {
                for tc in tool_calls {
                    if let Some(id) = &tc.id {
                        expected_ids.insert(id.to_string());
                    }
                }
            }
        } else if role == "tool" {
            let id = m.tool_call_id.as_deref().expect("tool must have tool_call_id");
            assert!(
                expected_ids.contains(id),
                "found unpaired tool_result id={id} after trimming"
            );
        } else {
            expected_ids.clear();
        }
    }

    let has_new_pair = has_result(&cleaned, "tool_new");
    if cleaned.iter().any(|m| m.role.as_deref() == Some("tool")) {
        assert!(
            has_new_pair,
            "when tool messages remain, latest pair should survive"
        );
    }
}

#[test]
fn skills_are_found_in_calls() {
    assert_eq!(
        skill_in_command("python3 skills/weather/tool.py --city x").as_deref(),
        Some("weather")
    );
    assert_eq!(skill_in_command("ls -la"), None);
    assert_eq!(skill_in_path("skills/weather/SKILL.md").as_deref(), Some("weather"));
    assert_eq!(skill_in_path("skills/weather/notes.md"), None);
    assert_eq!(parent_dir_name("a/b/c.md").as_deref(), Some("b"));
    let mut m = msg("assistant", "");
    m.tool_calls = Some(vec![
        ToolCall {
            id: Some("1".into()),
            name: Some("exec".into()),
            arguments: Some("{\"command\":\"python3 skills/weather/tool.py\"}".into()),
            given: None,
        },
        ToolCall {
            id: Some("2".into()),
            name: Some("exec".into()),
            arguments: Some("{\"command\":\"python3 skills/weather/tool.py\"}".into()),
            given: None,
        },
    ]);
    let used = extract_skills_used(&vec![m], "ws", "alice");
    assert_eq!(used.len(), 1);
    assert_eq!(used[0].get_text("skill").or(used[0].get_text("skill_name")), Some("weather"));
}

#[test]
fn cut_texts_end_in_a_mark() {
    assert_eq!(truncate_by_chars("abc", 5), "abc");
    let cut = truncate_by_chars("abcdef", 3);
    assert!(cut.starts_with("abc") && cut != "abcdef");
    let cleaned = strip_internal_markers("hello [[CACHE_BOUNDARY]] world");
    assert!(cleaned.contains("hello") && cleaned.contains("world"));
}

#[test]
fn handoffs_hold_the_messages() {
    let text = build_handoff_markdown("ws1", &vec![msg("user", "remember this")], "2026-01-01");
    assert!(text.contains("remember this"));
    assert!(text.contains("ws1"));
}

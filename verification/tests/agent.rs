use std::collections::VecDeque;

use tyclaw::agent::agent_loop::{
    AgentLoop, AgentRun, LoopAction, LoopNudges, ModelResponse, TokenUsage,
};
use tyclaw::agent::compression::{
    compress_args_medium, compress_args_summary, compress_tool_results, extract_exec_intent,
    extract_json_field, truncate_json_values,
};
use tyclaw::agent::diagnostics::{
    build_run_diagnostics_summary, is_mutating_tool, is_verification_tool,
};
use tyclaw::agent::dispatch::{
    classify_post_dispatch_tool_decision, extract_dispatch_statuses, extract_dispatch_summary,
    DispatchNodeSummary, DispatchStructuredSummary,
};
use tyclaw::agent::loop_helpers::{
    compact_assistant_light, compact_system_prompt, dedupe_consecutive_system_messages,
    exec_command_fingerprint, extract_inline_script, infer_phase_from_messages, inline_python_parts,
    is_error_envelope, is_production_tool, latest_user_goal, maybe_compact_system_message,
    normalize_exec_for_repeat, stable_args_signature, strip_think, take_reset_marker,
    tool_batch_signature, COMPACT_SYSTEM_MARKER, MAX_REACHED_RESET_MARKER,
};
use tyclaw::agent::phase::{
    explore_phase_after_tools, sync_context_state_for_iteration, AgentPhase, PhaseInputs,
};
use tyclaw::agent::progress::{describe_request, describe_thinking};
use tyclaw::agent::runtime::{
    chat_message, parse_thinking_prefix, RunDiagnosticsSummary, RuntimeStatus, ToolExecutionEvent,
};
use tyclaw::agent::summary::{build_max_iterations_summary, count_tool, count_writes};
use tyclaw::agent::tool_runner::{
    build_result_preview, finish_tool_calls_round, output_limit_of, plan_tool_calls_round,
    process_tool_result, settle_status, truncate_tool_output, ExecutedTool, RoundContext,
    ToolExecutionResult, ToolRoundOutcome, ToolStep, REPEATED_EXEC, SUPERSEDED,
};
use tyclaw::json::Json;
use tyclaw::message::{Message, ToolCall, ToolCallRequest};

fn event(tool_name: &str, route: &str, status: &str) -> ToolExecutionEvent {
    ToolExecutionEvent {
        tool_id: format!("id_{tool_name}"),
        tool_name: tool_name.into(),
        route: route.into(),
        status: status.into(),
        duration_ms: 10,
        original_len: 20,
        result_len: 20,
        truncated: false,
        gate_action: "allow".into(),
        risk_level: "read".into(),
        sandbox_id: None,
        result_preview: "ok".into(),
    }
}

#[test]
fn diagnostics_marks_verified_after_last_edit() {
    let summary = build_run_diagnostics_summary(&vec![
        event("read_file", "host", "ok"),
        event("edit_file", "sandbox", "ok"),
        event("read_file", "sandbox", "ok"),
    ]);
    assert_eq!(summary.verified_after_last_edit, Some(true));
    assert!(!summary.ended_with_unverified_changes);
    assert_eq!(summary.sandbox_tool_count, 2);
}

#[test]
fn diagnostics_marks_unverified_tail_edit() {
    let summary: RunDiagnosticsSummary = build_run_diagnostics_summary(&vec![
        event("edit_file", "sandbox", "ok"),
        event("write_file", "sandbox", "ok"),
    ]);
    assert_eq!(summary.verified_after_last_edit, Some(false));
    assert!(summary.ended_with_unverified_changes);
    assert_eq!(summary.host_tool_count, 0);
}

#[test]
fn diagnostics_count_every_call_once() {
    let summary = build_run_diagnostics_summary(&vec![
        event("exec", "sandbox", "ok"),
        event("exec", "host", "error"),
        event("grep_search", "host", "denied"),
    ]);
    assert_eq!(summary.total_tool_calls, 3);
    assert_eq!(summary.exec_count, 2);
    assert_eq!(summary.dedicated_tool_count, 1);
    assert_eq!(summary.error_tool_count, 1);
    assert_eq!(summary.denied_tool_count, 1);
    assert_eq!(summary.verified_after_last_edit, None);
    assert!(is_mutating_tool("edit_file"));
    assert!(!is_mutating_tool("read_file"));
    assert!(is_verification_tool("read_file"));
}

#[test]
fn extract_dispatch_statuses_collects_unique_statuses() {
    let statuses = extract_dispatch_statuses(&DispatchStructuredSummary {
        plan_id: "plan-1".into(),
        succeeded: 1,
        failed: 1,
        skipped: 0,
        has_conflicts: false,
        wall_time_ms: 1200,
        nodes: vec![
            DispatchNodeSummary {
                node_id: "a".into(),
                node_status: "failed".into(),
                declared_result_status: "blocked".into(),
                verified_after_last_edit: Some(false),
                ended_with_unverified_changes: true,
                tools_used_count: 2,
                detail_path: "/tmp/a.md".into(),
            },
            DispatchNodeSummary {
                node_id: "b".into(),
                node_status: "success".into(),
                declared_result_status: "verified".into(),
                verified_after_last_edit: Some(true),
                ended_with_unverified_changes: false,
                tools_used_count: 1,
                detail_path: "/tmp/b.md".into(),
            },
            DispatchNodeSummary {
                node_id: "c".into(),
                node_status: "failed".into(),
                declared_result_status: "blocked".into(),
                verified_after_last_edit: None,
                ended_with_unverified_changes: false,
                tools_used_count: 0,
                detail_path: "/tmp/c.md".into(),
            },
        ],
    });
    assert_eq!(
        statuses,
        vec!["blocked".to_string(), "verified".to_string()]
    );
}

#[test]
fn classify_post_dispatch_takeover_and_inspect() {
    let (inspect, _) =
        classify_post_dispatch_tool_decision(&vec!["read_file".to_string(), "glob".to_string()]);
    assert_eq!(inspect, "inspect_subtask_output");

    let (takeover, _) = classify_post_dispatch_tool_decision(&vec![
        "read_file".to_string(),
        "edit_file".to_string(),
    ]);
    assert_eq!(takeover, "take_over_execution");
}

#[test]
fn extract_dispatch_summary_strips_hidden_metadata() {
    let output = "visible summary\n\n[[TYCLAW_DISPATCH_SUMMARY]]\n{\"plan_id\":\"p1\",\"succeeded\":1,\"failed\":0,\"skipped\":0,\"has_conflicts\":false,\"wall_time_ms\":12,\"nodes\":[{\"node_id\":\"n1\",\"node_status\":\"success\",\"declared_result_status\":\"verified\",\"verified_after_last_edit\":true,\"ended_with_unverified_changes\":false,\"tools_used_count\":2,\"detail_path\":\"/tmp/n1.md\"}]}\n[[/TYCLAW_DISPATCH_SUMMARY]]";
    let (clean, summary) = extract_dispatch_summary(output);

    assert_eq!(clean, "visible summary");
    let summary = summary.expect("dispatch summary");
    assert_eq!(summary.plan_id, "p1");
    assert_eq!(summary.nodes.len(), 1);
    assert_eq!(summary.nodes[0].declared_result_status, "verified");
}

#[test]
fn dispatch_summaries_may_be_lists() {
    let read = |json: &str| {
        let marked = format!("x\n[[TYCLAW_DISPATCH_SUMMARY]]\n{json}\n[[/TYCLAW_DISPATCH_SUMMARY]]");
        extract_dispatch_summary(&marked).1
    };
    let node = "[\"n1\",\"success\",\"verified\",null,true,2,\"/tmp/n1.md\"]";
    let all = read(&format!("[\"p1\",1,0,3,true,12,[{node}]]")).expect("seven places");
    assert_eq!(all.plan_id, "p1");
    assert_eq!((all.succeeded, all.failed, all.skipped), (1, 0, 3));
    assert!(all.has_conflicts);
    assert_eq!(all.wall_time_ms, 12);
    assert_eq!(all.nodes.len(), 1);
    assert_eq!(all.nodes[0].node_id, "n1");
    assert_eq!(all.nodes[0].verified_after_last_edit, None);
    assert!(all.nodes[0].ended_with_unverified_changes);
    assert_eq!(all.nodes[0].tools_used_count, 2);
    assert_eq!(all.nodes[0].detail_path, "/tmp/n1.md");
    let short = read("[\"p1\",1,0,3,true,12]").expect("six places");
    assert!(short.nodes.is_empty());
    assert!(read("[\"p1\",1,0,3,true]").is_none());
    assert!(read("[\"p1\",1,0,3,true,12,[],0]").is_none());
    assert!(read("[1,\"p1\",0,3,true,12,[]]").is_none());
    assert!(read("[\"p1\",1,0,3,true,12,[[\"n1\",\"success\",\"verified\",null,true,2]]]").is_none());
}

#[test]
fn output_without_metadata_is_shown_whole() {
    let (clean, summary) = extract_dispatch_summary("just text\n");
    assert_eq!(clean, "just text\n");
    assert!(summary.is_none());
}

fn call(id: &str, name: &str, args: Vec<(&str, Json)>) -> ToolCallRequest {
    ToolCallRequest {
        id: id.into(),
        name: name.into(),
        arguments: args.into_iter().map(|(k, v)| (k.to_string(), v)).collect(),
    }
}

fn text(s: &str) -> Json {
    Json::Text(s.into())
}

fn nudges() -> LoopNudges {
    LoopNudges {
        plan_required: "PLAN".into(),
        idle_spin: "IDLE".into(),
        param_error_retry: "PARAM".into(),
    }
}

fn usage(prompt: u64, completion: u64) -> TokenUsage {
    TokenUsage {
        prompt_tokens: prompt,
        completion_tokens: completion,
        cached_tokens: 0,
        cache_write_tokens: 0,
    }
}

fn reply(content: &str) -> ModelResponse {
    ModelResponse {
        content: Some(content.into()),
        reasoning: None,
        finish_reason: "stop".into(),
        tool_calls: vec![],
        usage: usage(7, 3),
    }
}

#[test]
fn a_plain_reply_ends_the_run() {
    let cfg = AgentLoop::new(Some(5), 3);
    let mut run = AgentRun::start(cfg, vec![chat_message("user", "hi")]);
    assert!(run.begin_iteration(vec![]));
    let action = run.on_response(&reply("done"), &nudges());
    assert!(matches!(action, LoopAction::Stop));
    let result = run.finish("turn-1");
    assert_eq!(result.content.as_deref(), Some("done"));
    assert_eq!(result.turn_id, "turn-1");
    assert_eq!(result.total_prompt_tokens, 7);
    assert_eq!(result.total_completion_tokens, 3);
    assert!(matches!(result.status, RuntimeStatus::Complete));
    let last = result.messages.last().unwrap();
    assert_eq!(last.role.as_deref(), Some("assistant"));
    assert_eq!(last.turn_id.as_deref(), Some("turn-1"));
}

#[test]
fn rounds_are_bounded() {
    let cfg = AgentLoop::new(Some(3), 100);
    let mut run = AgentRun::start(cfg, vec![chat_message("user", "go")]);
    let mut rounds: usize = 0;
    while rounds < 50 && run.begin_iteration(vec![]) {
        rounds += 1;
        let id = format!("c{rounds}");
        let response = ModelResponse {
            content: None,
            reasoning: None,
            finish_reason: "tool_calls".into(),
            tool_calls: vec![call(&id, "write_file", vec![("path", text(&id))])],
            usage: usage(1, 1),
        };
        match run.on_response(&response, &nudges()) {
            LoopAction::RunTools => {}
            _ => continue,
        }
        let plan = plan_tool_calls_round(
            &response.tool_calls,
            &run.round_context("blocked"),
            &run.recent,
        );
        assert_eq!(plan.steps.len(), 1);
        let executed = vec![executed(&id, "write_file", "ok", "ok")];
        let mut recent = VecDeque::new();
        let outcome =
            finish_tool_calls_round(&response.tool_calls, executed, None, false, &mut recent);
        run.on_tools(1, outcome, &nudges());
    }
    assert!(rounds <= 6);
    let result = run.finish("t");
    assert!(result.content.unwrap().contains("Reached max iterations"));
    let last = result.messages.last().unwrap();
    assert!(last.text_or_empty().contains(MAX_REACHED_RESET_MARKER));
}

fn executed(id: &str, name: &str, output: &str, status: &str) -> ExecutedTool {
    ExecutedTool {
        tool_id: id.into(),
        tool_name: name.into(),
        execution: ToolExecutionResult {
            output: output.into(),
            route: "host".into(),
            status: status.into(),
            duration_ms: 5,
            gate_action: "allow".into(),
            risk_level: "read".into(),
            sandbox_id: None,
        },
    }
}

fn context() -> RoundContext {
    RoundContext {
        in_exploration: false,
        exec_blocked: false,
        block_notice: "no more commands".into(),
    }
}

#[test]
fn only_the_last_dispatch_of_a_round_runs() {
    let calls = vec![
        call("a", "dispatch_subtasks", vec![]),
        call("b", "read_file", vec![("path", text("x"))]),
        call("c", "dispatch_subtasks", vec![]),
    ];
    let plan = plan_tool_calls_round(&calls, &context(), &VecDeque::new());
    assert_eq!(plan.steps.len(), 3);
    let runs = plan
        .steps
        .iter()
        .filter(|s| matches!(s, ToolStep::Run { tool_name, .. } if tool_name == "dispatch_subtasks"))
        .count();
    assert_eq!(runs, 1);
    let answers = plan
        .steps
        .iter()
        .filter(|s| matches!(s, ToolStep::Answer { execution, .. } if execution.output == SUPERSEDED))
        .count();
    assert_eq!(answers, 1);
}

#[test]
fn a_blocked_round_runs_no_command() {
    let ctx = RoundContext { exec_blocked: true, ..context() };
    let calls = vec![call("a", "exec", vec![("command", text("ls"))])];
    let plan = plan_tool_calls_round(&calls, &ctx, &VecDeque::new());
    match &plan.steps[0] {
        ToolStep::Answer { execution, .. } => assert_eq!(execution.output, "no more commands"),
        ToolStep::Run { .. } => panic!("the command runs"),
    }
}

#[test]
fn a_long_command_is_not_run_again_and_again() {
    let command = format!("python3 -c '{}'", "x = 1; ".repeat(40));
    let fp = exec_command_fingerprint(&command);
    let mut recent = VecDeque::new();
    recent.push_back(fp);
    recent.push_back(fp);
    recent.push_back(fp);
    let calls = vec![call("a", "exec", vec![("command", text(&command))])];
    let exploring = RoundContext { in_exploration: true, ..context() };
    let plan = plan_tool_calls_round(&calls, &exploring, &recent);
    match &plan.steps[0] {
        ToolStep::Answer { execution, .. } => assert_eq!(execution.output, REPEATED_EXEC),
        ToolStep::Run { .. } => panic!("the command runs"),
    }
    recent.pop_front();
    let fewer = plan_tool_calls_round(&calls, &exploring, &recent);
    assert!(matches!(fewer.steps[0], ToolStep::Run { .. }));
    let producing = plan_tool_calls_round(&calls, &context(), &recent);
    assert!(matches!(producing.steps[0], ToolStep::Answer { .. }));
    recent.pop_front();
    let once = plan_tool_calls_round(&calls, &context(), &recent);
    assert!(matches!(once.steps[0], ToolStep::Run { .. }));
}

#[test]
fn a_question_to_the_user_is_kept() {
    let calls = vec![call("q", "ask_user", vec![("question", text("which one?"))])];
    let plan = plan_tool_calls_round(&calls, &context(), &VecDeque::new());
    let pending = plan.ask_user_pending.expect("a question");
    assert_eq!(pending.0, "q");
    assert_eq!(pending.1, "which one?");
}

#[test]
fn fingerprints_ignore_spacing_only() {
    assert_eq!(
        exec_command_fingerprint("ls   -la\n /tmp"),
        exec_command_fingerprint("ls -la /tmp")
    );
    assert_ne!(
        exec_command_fingerprint("ls -la /tmp"),
        exec_command_fingerprint("ls -la /var")
    );
    assert_eq!(normalize_exec_for_repeat("  LS   -la "), normalize_exec_for_repeat("LS -la"));
}

#[test]
fn results_are_cut_at_their_limit() {
    let long = "a".repeat(5000);
    let limit = output_limit_of("exec", false);
    let (cut, truncated) = truncate_tool_output("exec", &long, false);
    assert!(truncated);
    assert!(cut.starts_with(&long[..limit.min(3000)]));
    let (whole, kept) = truncate_tool_output("exec", "short", false);
    assert_eq!(whole, "short");
    assert!(!kept);
}

#[test]
fn statuses_are_settled_by_the_result() {
    assert_eq!(settle_status("ok", "all fine", false), ("ok".to_string(), true));
    let (status, progressed) = settle_status("ok", "broken", true);
    assert_ne!(status, "ok");
    assert!(!progressed);
}

#[test]
fn an_error_envelope_is_recognised() {
    assert!(is_error_envelope("{\"status\":\"error\",\"message\":\"no\"}")
        || is_error_envelope("{\"error\":\"no\"}"));
    assert!(!is_error_envelope("no json at all"));
}

#[test]
fn a_processed_result_tells_of_its_run() {
    let (p, progressed) = process_tool_result(executed("t1", "read_file", "content", "ok"), false);
    assert!(progressed);
    assert_eq!(p.result, "content");
    assert_eq!(p.event.tool_name, "read_file");
    assert_eq!(p.event.result_len, 7);
    assert!(!p.event.truncated);
    assert_eq!(build_result_preview("content"), "content");
}

#[test]
fn a_round_without_success_makes_no_progress() {
    let calls = vec![call("t1", "read_file", vec![])];
    let mut recent = VecDeque::new();
    let outcome: ToolRoundOutcome = finish_tool_calls_round(
        &calls,
        vec![executed("t1", "read_file", "Error: no such file", "error")],
        None,
        false,
        &mut recent,
    );
    assert!(!outcome.progressed);
    assert_eq!(outcome.per_tool.len(), 1);
    assert_eq!(outcome.per_tool[0].status, "error");
}

#[test]
fn thoughts_are_stripped_from_replies() {
    assert_eq!(
        strip_think(Some("<think>hidden</think>shown")).as_deref(),
        Some("shown")
    );
    assert_eq!(strip_think(Some("plain")).as_deref(), Some("plain"));
    assert_eq!(strip_think(None), None);
    assert_eq!(strip_think(Some("<think>all</think> ")), None);
    assert_eq!(
        strip_think(Some("a<think>x</think>b<think>\ny<think>z</think>c</think>d")).as_deref(),
        Some("abc</think>d")
    );
    assert_eq!(strip_think(Some("a</think>b<think>c")).as_deref(), Some("a</think>b<think>c"));
}

#[test]
fn thinking_prefix_is_taken_off() {
    assert_eq!(parse_thinking_prefix("[Thinking]\nabc"), (true, "abc"));
    assert_eq!(parse_thinking_prefix("[Thinking] abc"), (false, "[Thinking] abc"));
    assert_eq!(parse_thinking_prefix("abc"), (false, "abc"));
}

#[test]
fn inline_scripts_become_heredocs() {
    let script = "print(1)\n".repeat(300);
    let command = format!("python3 -c \"{script}\"");
    let rewritten = extract_inline_script(&command).expect("a long script");
    assert!(rewritten.contains("print(1)"));
    assert_ne!(rewritten, command);
    assert_eq!(
        extract_inline_script("python3 -c \"print(1)\"").as_deref(),
        Some("python3 << 'PYEOF'\nprint(1)\nPYEOF")
    );
    assert_eq!(extract_inline_script("ls -la"), None);
    assert_eq!(
        extract_inline_script(" cd /work && python -c 'print(\\'a\\')'\n").as_deref(),
        Some("cd /work && python3 << 'PYEOF'\nprint('a')\nPYEOF")
    );
    assert_eq!(extract_inline_script("python3 -c \"print(1)\" | tee out"), None);
    assert_eq!(extract_inline_script("cd /a; python3 -c \"print(1)\""), None);
}

#[test]
fn inline_scripts_are_found_by_their_grammar() {
    let pattern = regex::Regex::new(
        r#"(?s)^((?:cd\s+\S+\s*&&\s*)?)(?:python3?)\s+-c\s+(?:"((?:[^"\\]|\\.)*)"|'((?:[^'\\]|\\.)*)')\s*$"#,
    )
    .unwrap();
    let fronts = [
        "", "cd /a && ", "cd /a&&", "cd /a&& ", "cd /a &&", "cd\t/a\n&&\n", "cd a&&b && ", "cd a&&b&&",
        "cd && ", "cd  && ", "cd a b && ", "cd a &&& ", "cd a& ", "cda && ", "cd a && cd b && ", " ",
        "cd &&&& ", "cd && && ", "cd python3 && ", "cd a&&python3 && ", "cd a && x ", "x",
    ];
    let calls = [
        "python3 -c ", "python -c ", "python3  -c\t", "python3-c ", "python3 -c", "python33 -c ",
        "python3 -d ", "Python -c ", "python\u{3000}-c\u{a0}", "python3 -c -c ",
    ];
    let scripts = [
        "\"print(1)\"", "'print(1)'", "\"\"", "\"a", "\"a\\\"b\"", "\"a\\\\\"", "\"a\\\\\" x", "\"a'b\"",
        "'a\"b'", "'a'b'", "\"a\\", "\"a\nb\"\n ", "\"python3 -c 'x'\"", "\" && python3 -c \"", "x", "",
        "'\u{8d27}'",
    ];
    for front in fronts {
        for call in calls {
            for script in scripts {
                let command = format!("{front}{call}{script}");
                let found = inline_python_parts(&command);
                let expected = pattern.captures(&command).map(|c| {
                    let script = c.get(2).or_else(|| c.get(3)).unwrap();
                    (c[1].to_string(), script.as_str().to_string())
                });
                assert_eq!(found, expected, "{command:?}");
            }
        }
    }
}

#[test]
fn the_goal_is_the_last_request() {
    let messages = vec![
        chat_message("user", "first"),
        chat_message("assistant", "ok"),
        chat_message("user", "second"),
    ];
    assert_eq!(latest_user_goal(&messages), "second");
}

#[test]
fn system_prompts_are_compacted_once() {
    let long = format!(
        "static part{}dynamic\n\n---\n\n## Available Skills\n{}",
        "[[CACHE_BOUNDARY]]",
        "skill line\n".repeat(400)
    );
    let once = compact_system_prompt(&long);
    assert!(once.starts_with("static part[[CACHE_BOUNDARY]]"));
    let mut messages = vec![chat_message("system", &long), chat_message("user", "x")];
    maybe_compact_system_message(&mut messages, 10);
    let first = messages[0].text_or_empty().to_string();
    maybe_compact_system_message(&mut messages, 11);
    assert_eq!(messages[0].text_or_empty(), first);
    assert!(first.contains(COMPACT_SYSTEM_MARKER));
}

#[test]
fn repeated_system_messages_are_dropped() {
    let mut messages = vec![
        chat_message("system", "a"),
        chat_message("system", "a"),
        chat_message("user", "x"),
        chat_message("system", "a"),
    ];
    dedupe_consecutive_system_messages(&mut messages);
    assert_eq!(messages.len(), 3);
    dedupe_consecutive_system_messages(&mut messages);
    assert_eq!(messages.len(), 3);
}

#[test]
fn the_reset_marker_is_taken_once() {
    let mut messages = vec![
        chat_message("user", "x"),
        chat_message("assistant", MAX_REACHED_RESET_MARKER),
    ];
    let mut flagged = chat_message("assistant", "limit");
    flagged.reset_iterations = true;
    messages.push(flagged);
    assert!(take_reset_marker(&mut messages));
    assert!(!take_reset_marker(&mut messages));
}

fn assistant_with(calls: Vec<(&str, &str, &str)>) -> Message {
    let mut m = chat_message("assistant", "");
    m.tool_calls = Some(
        calls
            .into_iter()
            .map(|(id, name, args)| ToolCall {
                id: Some(id.into()),
                name: Some(name.into()),
                arguments: Some(args.into()),
                given: None,
            })
            .collect(),
    );
    m
}

#[test]
fn the_phase_is_read_off_the_messages() {
    let explore = vec![
        chat_message("user", "x"),
        assistant_with(vec![("a", "read_file", "{}")]),
    ];
    assert!(infer_phase_from_messages(&explore).0);
    let produce = vec![
        chat_message("user", "x"),
        assistant_with(vec![("a", "write_file", "{}")]),
    ];
    assert!(!infer_phase_from_messages(&produce).0);
    assert!(is_production_tool("write_file"));
    assert!(!is_production_tool("read_file"));
    assert!(explore_phase_after_tools(true));
    assert!(!explore_phase_after_tools(false));
}

#[test]
fn phases_follow_the_tools() {
    let p = PhaseInputs {
        in_exploration: true,
        exploration_iterations: 1,
        explore_max: 5,
        has_dispatch: false,
        has_write: false,
        dispatch_count: 0,
        write_count: 0,
    };
    let u = sync_context_state_for_iteration(p, &vec![]);
    assert!(matches!(u.phase, AgentPhase::Explore));
}

#[test]
fn signatures_ignore_the_order_of_arguments() {
    let a = vec![("x".to_string(), text("1")), ("y".to_string(), text("2"))];
    let b = vec![("y".to_string(), text("2")), ("x".to_string(), text("1"))];
    assert_eq!(stable_args_signature(&a), stable_args_signature(&b));
    let c = vec![call("1", "exec", vec![("x", text("1"))])];
    let d = vec![call("2", "exec", vec![("x", text("1"))])];
    assert_eq!(tool_batch_signature(&c), tool_batch_signature(&d));
    let e = vec![call("2", "exec", vec![("x", text("3"))])];
    assert_ne!(tool_batch_signature(&c), tool_batch_signature(&e));
}

#[test]
fn fields_are_found_in_arguments() {
    let args = "{\"command\":\"ls -la\",\"n\":1}";
    assert_eq!(extract_json_field(args, "command").as_deref(), Some("ls -la"));
    assert_eq!(extract_json_field(args, "path"), None);
    assert_eq!(extract_json_field("not json", "command"), None);
    assert_eq!(extract_json_field("{\"a\":\"x\\\"y\"}", "a").as_deref(), Some("x\"y"));
    let script = "{\"command\":\"cd /x && python\\n# load\\nx = 1\\nimport os\"}";
    assert_eq!(
        extract_exec_intent(script, 100).as_deref(),
        Some("{\"command\":\"[cd /x && python | python script (38 chars) intent: # load | import os]\"}")
    );
    assert_eq!(extract_exec_intent(args, 100), None);
}

#[test]
fn long_values_are_cut() {
    let v = Json::Object(vec![("a".to_string(), text(&"z".repeat(50)))]);
    match truncate_json_values(&v, 10) {
        Json::Object(m) => match &m[0].1 {
            Json::Text(t) => assert_eq!(t, "zzzzzzzzzz... [truncated: 10/50]"),
            _ => panic!("no text"),
        },
        _ => panic!("no object"),
    }
}

#[test]
fn arguments_are_cut_or_summed_up() {
    assert!(compress_args_medium("grep", "{}").is_none());
    let q = "q".repeat(4000);
    let long = format!("{{\"path\":\"p\",\"content\":\"{q}\"}}");
    // What is read is written with its keys in order.
    assert_eq!(
        compress_args_medium("write_file", &long).expect("a shorter text"),
        format!("{{\"content\":\"{}... [truncated: 520/4000]\",\"path\":\"p\"}}", &q[..520])
    );
    let bad = "?".repeat(3000);
    assert_eq!(
        compress_args_medium("grep", &bad).expect("a shorter text"),
        "{\"_summary\":\"[args: 3000 chars]\"}"
    );
    assert_eq!(
        compress_args_summary("write_file", &long).expect("a summary"),
        format!("{{\"content\":\"[written: {} chars]\",\"path\":\"p\"}}", long.len())
    );
    assert_eq!(
        compress_args_summary("exec", &bad).expect("a summary"),
        "{\"command\":\"[exec: 3000 chars]\"}"
    );
    assert_eq!(
        compress_args_summary("grep", &bad).expect("a summary"),
        "{\"_summary\":\"[grep: 3000 chars]\"}"
    );
    assert!(compress_args_summary("grep", "{}").is_none());
}

#[test]
fn fresh_results_are_not_compressed() {
    let mut result = chat_message("tool", &"r".repeat(3000));
    result.tool_call_id = Some("a".into());
    let messages = vec![
        chat_message("user", "x"),
        assistant_with(vec![("a", "read_file", "{}")]),
        result,
    ];
    let compressed = compress_tool_results(&messages, false, 6, 0);
    assert_eq!(compressed.len(), 3);
    assert_eq!(compressed[2].text_or_empty().len(), 3000);
    let untouched = compress_tool_results(&messages, true, 6, 0);
    assert_eq!(untouched[2].text_or_empty().len(), 3000);
}

#[test]
fn old_results_are_compressed() {
    let mut messages = vec![chat_message("user", "x")];
    for i in 0..30 {
        let id = format!("c{i}");
        messages.push(assistant_with(vec![(&id, "read_file", "{}")]));
        let mut r = chat_message("tool", &"r".repeat(3000));
        r.tool_call_id = Some(id);
        messages.push(r);
    }
    let compressed = compress_tool_results(&messages, false, 6, 0);
    assert_eq!(compressed.len(), messages.len());
    assert!(compressed[2].text_or_empty().len() < 3000);
    assert_eq!(compressed[60].text_or_empty().len(), 3000);
    assert_eq!(compressed[2].tool_call_id.as_deref(), Some("c0"));
}

#[test]
fn the_summary_at_the_limit_counts_the_tools() {
    let tools: Vec<String> = ["write_file", "read_file", "edit_file"]
        .iter()
        .map(|s| s.to_string())
        .collect();
    assert_eq!(count_writes(&tools), 2);
    assert_eq!(count_tool(&tools, "read_file"), 1);
    let s = build_max_iterations_summary(2, 3, &tools, &vec![chat_message("user", "goal")]);
    assert!(s.contains('2') && s.contains('3'));
}

#[test]
fn notes_of_progress_are_worded() {
    assert!(describe_request(10, "est", 100, 4).contains("10"));
    assert_eq!(describe_thinking("", 0, false, false), None);
    let shown = describe_thinking("idea", 4, false, true).expect("a thought");
    assert!(shown.starts_with("[Thinking]\n"));
    assert_eq!(compact_assistant_light("short"), "short");
}

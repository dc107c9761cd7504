use tyclaw::message::Content;
use tyclaw::message::Message;
use tyclaw::prompt::context::{
    is_user_context_message, strip_non_task_user_message, ContextBuilder, PromptInputs,
    PromptMode, PromptSources, USER_CONTEXT_TAG,
};
use tyclaw::prompt::images::split_images;
use tyclaw::prompt::nudge_loader::{explore_budget_warning, plan_required};
use tyclaw::prompt::prompt_store::{
    get, get_node_type, get_nudge, init, init_path_vars, parse_yaml, substitute_vars, try_get,
    PromptStore,
};
use tyclaw::prompt::sections::{
    build_identity_summary, build_section_capabilities, build_section_datetime,
    build_section_skills, is_bootstrap_file, skill_hint, summarize_skill_description, SkillContent,
};
use tyclaw::table::TextTable;

const PROMPTS: &str = "
identity: |
  # TyClaw Agent
  You are TyClaw, an AI assistant for enterprise automation.

main_execution_baseline: |
  Work efficiently.

guidelines: |
  Follow instructions carefully.
";

fn store() -> PromptStore {
    let mut store = PromptStore::new();
    assert!(init(&mut store, PROMPTS));
    store
}

fn sources<'a>(store: &'a PromptStore, files: &'a Vec<(String, String)>) -> PromptSources<'a> {
    PromptSources {
        store,
        os: "linux",
        arch: "x86_64",
        files,
        memory_file: "",
        local_time: "2026-04-10 12:00 (Friday)",
        time_zone: "UTC",
    }
}

fn prompt(files: &Vec<(String, String)>, inputs: &PromptInputs, message: &str) -> Vec<Message> {
    let store = store();
    let ctx = ContextBuilder::new("/tmp/ws");
    let planned = ctx.plan_prompt_context(inputs, &sources(&store, files));
    ctx.assemble_messages(&planned, &vec![], message)
}

#[test]
fn test_plan_prompt_context_full() {
    let msgs = prompt(&vec![], &PromptInputs::default(), "hello");

    assert!(msgs.len() >= 2);
    assert_eq!(msgs[0].role.as_deref(), Some("system"));
    let sys = msgs[0].text().unwrap();
    assert!(sys.contains("TyClaw"));
    assert!(sys.contains("[[CACHE_BOUNDARY]]"));
}

#[test]
fn test_plan_prompt_context_none_mode() {
    let store = store();
    let ctx = ContextBuilder::new("/tmp/ws");
    let inputs = PromptInputs { mode: PromptMode::Bare, ..Default::default() };
    let planned = ctx.plan_prompt_context(&inputs, &sources(&store, &vec![]));
    assert_eq!(planned.system_prompt_parts.len(), 1);
}

#[test]
fn the_small_prompt_holds_identity_tools_and_time() {
    let store = store();
    let ctx = ContextBuilder::new("/tmp/ws");
    let skills = vec![skill()];
    let mut cap = TextTable::new();
    cap.insert("name".into(), "alpha".into());
    let caps = vec![cap];
    let inputs = PromptInputs {
        mode: PromptMode::Minimal,
        capabilities: Some(&caps),
        skill_contents: Some(&skills),
        memory_content: Some("remember"),
        pinned_cases: Some("pinned"),
        similar_cases: Some("similar"),
        ..Default::default()
    };
    let files = vec![
        ("CUSTOM.md".to_string(), "custom content".to_string()),
        ("TOOLS.md".to_string(), "tool notes".to_string()),
    ];
    let planned = ctx.plan_prompt_context(&inputs, &sources(&store, &files));
    assert_eq!(planned.system_prompt_parts.len(), 2);
    assert!(planned.system_prompt_parts[0].contains("TyClaw"));
    assert_eq!(planned.system_prompt_parts[1], "[[CACHE_BOUNDARY]]");
    let labels: Vec<&str> = planned.user_context.iter().map(|e| e.label.as_str()).collect();
    assert_eq!(labels, vec!["Workspace Instructions", "Current Date And Time"]);
    assert_eq!(planned.user_context[0].content, "## TOOLS\n\ntool notes");
}

#[test]
fn the_small_prompt_needs_the_identity_alone() {
    let mut store = PromptStore::new();
    assert!(init(&mut store, "identity: |\n  # TyClaw\n"));
    let inputs = PromptInputs { mode: PromptMode::Minimal, ..Default::default() };
    let planned =
        ContextBuilder::new("/tmp/ws").plan_prompt_context(&inputs, &sources(&store, &vec![]));
    assert_eq!(planned.system_prompt_parts.len(), 2);
}

#[test]
fn test_assemble_messages_structure() {
    let msgs = prompt(&vec![], &PromptInputs::default(), "test message");

    let last = msgs.last().unwrap();
    assert_eq!(last.role.as_deref(), Some("user"));
    assert_eq!(last.text().unwrap(), "test message");
}

#[test]
fn test_bootstrap_directory_scan() {
    let files = vec![
        ("CUSTOM.md".to_string(), "custom content".to_string()),
        ("README.txt".to_string(), "skip me".to_string()),
    ];
    let msgs = prompt(&files, &PromptInputs::default(), "hi");

    let all_text: String = msgs
        .iter()
        .filter_map(|m| m.text())
        .collect::<Vec<_>>()
        .join("\n");
    assert!(all_text.contains("custom content"));
    assert!(!all_text.contains("skip me"));
    assert!(is_bootstrap_file("CUSTOM.md"));
    assert!(!is_bootstrap_file("README.txt"));
}

#[test]
fn test_add_tool_result() {
    let mut msgs = Vec::new();
    ContextBuilder::add_tool_result(&mut msgs, "tc_1", "read_file", "file content");
    assert_eq!(msgs.len(), 1);
    assert_eq!(msgs[0].role.as_deref(), Some("tool"));
    assert_eq!(msgs[0].tool_call_id.as_deref(), Some("tc_1"));
}

#[test]
fn test_add_tool_result_with_image() {
    let mut msgs = Vec::new();
    let img_result = "[[IMAGE:data:image/jpeg;base64,/9j/4AAQ]]";
    ContextBuilder::add_tool_result(&mut msgs, "tc_2", "read_file", img_result);
    assert_eq!(msgs.len(), 2);
    assert_eq!(msgs[0].role.as_deref(), Some("tool"));
    assert_eq!(msgs[0].tool_call_id.as_deref(), Some("tc_2"));
    assert!(matches!(msgs[0].content, Content::Text(_)));
    assert_eq!(msgs[1].role.as_deref(), Some("user"));
    match &msgs[1].content {
        Content::Blocks(blocks) => {
            assert_eq!(blocks.len(), 2);
            assert!(matches!(blocks[1], tyclaw::message::ContentBlock::ImageUrl(_)));
        }
        _ => panic!("no blocks"),
    }
}

fn skill() -> SkillContent {
    SkillContent {
        name: "TestSkill".into(),
        description: "test skill description".into(),
        content: "skill body".into(),
        category: "test".into(),
        triggers: vec!["hello".into()],
        tool_path: Some("/tmp/tool.py".into()),
        risk_level: "write".into(),
        requires_capabilities: vec!["sls-query".into()],
        matched: true,
    }
}

#[test]
fn test_skills_in_system_prompt() {
    let skills = vec![skill()];
    let inputs = PromptInputs { skill_contents: Some(&skills), ..Default::default() };
    let msgs = prompt(&vec![], &inputs, "hi");
    let sys = msgs[0].text().unwrap();
    assert!(sys.contains("Available Skills"));
    assert!(sys.contains("TestSkill"));
}

#[test]
fn skills_say_where_their_text_is() {
    let section = build_section_skills(&store(), &vec![skill()]);
    assert_eq!(
        section,
        "# Available Skills\n\n\n\n- **TestSkill**: test skill description → `/tmp/SKILL.md`"
    );
    let mut with_intro = PromptStore::new();
    assert!(init(&mut with_intro, "skills_intro: |\n  Pick one.\n"));
    assert_eq!(
        build_section_skills(&with_intro, &vec![skill()]),
        "# Available Skills\n\nPick one.\n\n- **TestSkill**: test skill description → `/tmp/SKILL.md`"
    );
    assert_eq!(build_section_skills(&store(), &vec![]), "");
    assert_eq!(summarize_skill_description(" short ", "body"), "short");
    assert_eq!(
        summarize_skill_description(&"d".repeat(81), "body"),
        format!("{}...", "d".repeat(80))
    );
    assert_eq!(
        summarize_skill_description("", "---\nname: x\n---\n# Title\nfirst line\n"),
        "first line"
    );
    assert!(skill_hint("/tmp").contains("/tmp"));
}

#[test]
fn capabilities_are_grouped() {
    let mut a = TextTable::new();
    a.insert("name".into(), "alpha".into());
    a.insert("category".into(), "tools".into());
    let section = build_section_capabilities(&vec![a]);
    assert!(section.contains("alpha"));
    assert!(build_section_datetime("2026", "UTC").contains("2026"));
    assert!(build_identity_summary("# TyClaw\n\n rest \nmore") == "rest");
}

#[test]
fn prompts_are_parsed_by_section() {
    let p = parse_yaml("a: |\n  x\n  y\n\nnode_types:\n  coding: |\n    code\n\nnudges:\n  idle_spin: |\n    move\n")
        .expect("sections");
    assert_eq!(p.top.get("a"), Some("x\ny"));
    assert_eq!(p.node_types.get("coding"), Some("code"));
    assert_eq!(p.nudges.get("idle_spin"), Some("move"));
}

#[test]
fn prompts_are_looked_up() {
    let mut s = store();
    assert_eq!(get(&s, "guidelines"), "Follow instructions carefully.");
    assert!(try_get(&s, "missing").is_none());
    init_path_vars(&mut s, vec![("skills_dir".to_string(), "skills".to_string())]);
    assert_eq!(substitute_vars(&s, "in ${skills_dir}, not ${x}"), "in skills, not ${x}");
}

#[test]
fn nudges_are_looked_up() {
    let mut s = PromptStore::new();
    assert!(init(
        &mut s,
        "node_types:\n  coding: |\n    code\n\nnudges:\n  plan_required: |\n    plan first\n  explore_budget_warning: |\n    {current} of {max}\n",
    ));
    assert_eq!(get_node_type(&s, "coding"), "code");
    assert_eq!(get_nudge(&s, "plan_required"), "plan first");
    assert_eq!(plan_required(&s), "plan first");
    assert_eq!(explore_budget_warning(&s, 1, 2), "1 of 2");
}

#[test]
fn context_is_no_task() {
    let context = format!("{USER_CONTEXT_TAG}\nmemory");
    assert!(is_user_context_message(&context));
    assert_eq!(strip_non_task_user_message(&context), None);
    assert_eq!(strip_non_task_user_message("do it").as_deref(), Some("do it"));
}

#[test]
fn images_are_split_from_text() {
    let (texts, images) = split_images("before[[IMAGE:data:x]]after");
    assert_eq!(images, vec!["data:x".to_string()]);
    assert_eq!(texts.concat(), "beforeafter");
}

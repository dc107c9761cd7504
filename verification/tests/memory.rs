use tyclaw::memory::memory_store::{
    consolidation_outcome, consolidation_request, format_messages, save_memory_tool_def,
    MemoryStore,
};
use tyclaw::agent::runtime::chat_message;
use tyclaw::json::Json;
use tyclaw::message::ToolCallRequest;
use tyclaw::orchestration::memory_filter::{
    extract_keywords, filter_memory_by_relevance, split_memory_sections,
};
use tyclaw::prompt::prompt_store::{init, PromptStore};

#[test]
fn test_filter_removes_irrelevant_weather() {
    let memory = "\
## Skills paths and locations
- Weather Checker: _personal/skills/weather-checker/tool.py
- LTV Excel Generator: _personal/skills/ltv-excel-generator/tool.py

## Weather facts previously obtained
- Beijing 2026-04-10: 晴 22.3°C
- Tokyo 2026-04-11: 阴 12.6~24.2°C
- Hong Kong 2026-04-09: Partly cloudy

## US Stock price facts
- AAPL $258.90 (+$5.40, +2.13%)

## Gold price facts
- Gold spot ~$4,715.74/oz";

    let filtered = filter_memory_by_relevance(memory, "帮我写一个H5小游戏");
    assert!(filtered.contains("Skills paths"), "structural section should be kept");
    assert!(!filtered.contains("Beijing"), "weather facts should be filtered");
    assert!(!filtered.contains("AAPL"), "stock facts should be filtered");
    assert!(!filtered.contains("Gold spot"), "gold facts should be filtered");
}

#[test]
fn test_filter_keeps_relevant_weather() {
    let memory = "\
## Weather facts previously obtained
- 北京 2026-04-10: 晴 22.3°C, 天气预报数据

## Skills paths and locations
- Weather Checker: tool.py";

    let filtered = filter_memory_by_relevance(memory, "帮我查一下北京近3天的天气");
    assert!(filtered.contains("北京"), "weather should be kept when relevant");
}

#[test]
fn test_filter_keeps_all_structural() {
    let memory = "\
## IMPORTANT: Skills workspace notes
- Personal skills directory has been deleted

## Known data quality issues
- input.xlsx contains extrapolated pay data";

    let filtered = filter_memory_by_relevance(memory, "随便什么请求");
    assert!(filtered.contains("IMPORTANT"), "important sections kept");
    assert!(filtered.contains("Known data"), "known issues kept");
}

#[test]
fn test_extract_keywords_chinese() {
    let kws = extract_keywords("帮我写一个H5小游戏");
    assert!(kws.contains(&"h5".to_string()));
    assert!(kws.contains(&"游戏".to_string()) || kws.contains(&"小游".to_string()));
}

#[test]
fn keywords_are_listed_once() {
    assert_eq!(extract_keywords("Gold gold GOLD a"), vec!["gold".to_string()]);
    assert_eq!(extract_keywords("金价金价"), vec!["金价".to_string(), "价金".to_string()]);
}

#[test]
fn test_split_sections() {
    let memory = "# Top\nsome intro\n\n## Section A\ncontent a\n\n## Section B\ncontent b";
    let sections = split_memory_sections(memory);
    assert_eq!(sections.len(), 2);
    assert!(sections[0].0.contains("Section A"));
    assert!(sections[1].0.contains("Section B"));
}

#[test]
fn kept_sections_stay_in_order() {
    let memory = "## Known issues\nx\n\n## Gold price\ny\n\n## IMPORTANT rules\nz";
    let filtered = filter_memory_by_relevance(memory, "hello");
    let a = filtered.find("Known issues").unwrap();
    let b = filtered.find("IMPORTANT rules").unwrap();
    assert!(a < b);
}

#[test]
fn test_memory_context() {
    let store = MemoryStore::new("/tmp/memory");
    let prompts = PromptStore::new();

    assert!(store.get_memory_context("", &prompts).is_empty());
    assert!(store.get_memory_context("facts here", &prompts).contains("Long-term Memory"));
}

#[test]
fn test_append_history() {
    let mut content = MemoryStore::append_history("entry 1");
    content.push_str(&MemoryStore::append_history("entry 2"));
    assert!(content.contains("entry 1"));
    assert!(content.contains("entry 2"));
    assert_eq!(content, "entry 1\n\nentry 2\n\n");
}

#[test]
fn memory_files_lie_in_the_directory() {
    let store = MemoryStore::new("/tmp/memory");
    assert_eq!(store.memory_file, "/tmp/memory/MEMORY.md");
    assert_eq!(store.history_file, "/tmp/memory/HISTORY.md");
}

#[test]
fn consolidation_shows_the_messages() {
    let mut m = chat_message("user", "hello");
    m.timestamp = Some("2026-04-10T12:30:45".into());
    assert_eq!(format_messages(&vec![m]), "[2026-04-10T12:30] USER: hello");
    let mut prompts = PromptStore::new();
    init(&mut prompts, "consolidation_system: |\n  keep facts\n");
    let request = consolidation_request(&prompts, "old", &vec![chat_message("user", "hello")]);
    assert_eq!(request.len(), 2);
    assert_eq!(request[0].role.as_deref(), Some("system"));
    assert!(request[1].text_or_empty().contains("hello"));
}

#[test]
fn consolidation_needs_a_call() {
    assert!(consolidation_outcome(&vec![], "old").is_none());
    let call = ToolCallRequest {
        id: "1".into(),
        name: "save_memory".into(),
        arguments: vec![
            ("history_entry".to_string(), Json::Text("did things".into())),
            ("memory_update".to_string(), Json::Text("new facts".into())),
        ],
    };
    let update = consolidation_outcome(&vec![call], "old").expect("an update");
    assert_eq!(update.history_entry.as_deref(), Some("did things"));
    assert_eq!(update.long_term.as_deref(), Some("new facts"));
    let same = ToolCallRequest {
        id: "1".into(),
        name: "save_memory".into(),
        arguments: vec![
            ("history_entry".to_string(), Json::Text("did things".into())),
            ("memory_update".to_string(), Json::Text("old".into())),
        ],
    };
    assert_eq!(consolidation_outcome(&vec![same], "old").unwrap().long_term, None);
    assert!(save_memory_tool_def().render().contains("save_memory"));
}

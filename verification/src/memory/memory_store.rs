//! The memory of a workspace: facts that are kept (`MEMORY.md`), and a record
//! to which is only added (`HISTORY.md`). The model merges conversations into
//! both.

use crate::control::workspace;
use crate::control::workspace::join_path;
use crate::json;
use crate::json::{find_text, object2, object3, text_value, Json, JsonView};
use crate::message;
use crate::message::{Content, ContentView, Message, MessageView, ToolCallRequest};
use crate::orchestration::history;
use crate::prompt::nudge_loader::memory_guard;
use crate::prompt::prompt_store::{get, PromptStore};
use crate::text;
use crate::text::{str_eq, str_floor_prefix, str_join, str_trim_end};
use vstd::prelude::*;

verus! {

/// Where the memory of a workspace is kept.
#[derive(Debug)]
pub struct MemoryStore {
    pub memory_dir: String,
    pub memory_file: String,
    pub history_file: String,
}

/// What the memory adds to the prompt.
pub open spec fn memory_context(guard: Seq<char>, long_term: Seq<char>) -> Seq<char> {
    if long_term.len() == 0 {
        Seq::empty()
    } else {
        guard + "\n## Long-term Memory\n"@ + long_term
    }
}

impl MemoryStore {
    /// The memory that is kept in a directory.
    pub fn new(memory_dir: &str) -> (r: Self)
        ensures
            r.memory_dir@ == memory_dir@,
            r.memory_file@ == workspace::below(memory_dir@, "MEMORY.md"@),
            r.history_file@ == workspace::below(memory_dir@, "HISTORY.md"@),
    {
        MemoryStore {
            memory_dir: memory_dir.to_owned(),
            memory_file: join_path(memory_dir, "MEMORY.md"),
            history_file: join_path(memory_dir, "HISTORY.md"),
        }
    }

    /// What is added to the record for an entry.
    pub fn append_history(entry: &str) -> (r: String)
        ensures
            r@ == text::trim_end(entry@) + "\n\n"@,
    {
        let mut r = str_trim_end(entry);
        r.push_str("\n\n");
        r
    }

    /// What the memory adds to the prompt, given what it holds. A text before
    /// it says how it is to be read.
    pub fn get_memory_context(&self, long_term: &str, prompts: &PromptStore) -> (r: String)
        ensures
            r@ == memory_context(history::or_empty(prompts.top("memory_guard"@)), long_term@),
    {
        if long_term.is_empty() {
            proof {
                text::lemma_empty_literal();
            }
            return String::new();
        }
        let mut r = memory_guard(prompts);
        r.push_str("\n## Long-term Memory\n");
        r.push_str(long_term);
        r
    }
}

// ---------------------------------------------------------------------------
// Merging conversations
// ---------------------------------------------------------------------------

/// Whether a message is shown to the model that merges.
pub open spec fn is_shown(m: MessageView) -> bool {
    m.content matches ContentView::Text(t) && t.len() > 0
}

/// A value, or a question mark.
pub open spec fn or_mark(o: Option<Seq<char>>) -> Seq<char> {
    match o {
        Some(t) => t,
        None => "?"@,
    }
}

/// How a message is shown, given its role in capitals.
pub open spec fn shown_as(m: MessageView, role: Seq<char>) -> Seq<char> {
    "["@ + text::floor_prefix(or_mark(m.timestamp), 16) + "] "@ + role + ": "@ + m.text_or_empty()
}

/// How a message is shown.
pub open spec fn shown(m: MessageView) -> Seq<char> {
    shown_as(m, text::uppercased(or_mark(m.role)))
}

/// How messages are shown, one after the other. Those without text are left
/// out.
pub open spec fn shown_lines(m: Seq<MessageView>) -> Seq<Seq<char>>
    decreases m.len(),
{
    if m.len() == 0 {
        Seq::empty()
    } else if is_shown(m.last()) {
        shown_lines(m.drop_last()).push(shown(m.last()))
    } else {
        shown_lines(m.drop_last())
    }
}

/// How a message is shown, given its role in capitals.
pub fn show_message(m: &Message, role: &str) -> (r: String)
    ensures
        r@ == shown_as(m@, role@),
{
    let mut r = "[".to_owned();
    let ts = match &m.timestamp {
        Some(t) => str_floor_prefix(t.as_str(), 16),
        None => str_floor_prefix("?", 16),
    };
    r.push_str(ts.as_str());
    r.push_str("] ");
    r.push_str(role);
    r.push_str(": ");
    r.push_str(m.text_or_empty());
    r
}

/// How messages are shown to the model that merges.
pub fn format_messages(messages: &Vec<Message>) -> (r: String)
    ensures
        r@ == text::join(shown_lines(message::views(messages@)), "\n"@),
{
    let mut out: Vec<String> = Vec::new();
    let mut i: usize = 0;
    let ghost all = message::views(messages@);
    proof {
        assert(text::texts(out@) =~= shown_lines(all.take(0)));
    }
    while i < messages.len()
        invariant
            0 <= i <= messages@.len(),
            all == message::views(messages@),
            text::texts(out@) == shown_lines(all.take(i as int)),
        decreases messages@.len() - i,
    {
        let m = &messages[i];
        let ghost before = out@;
        proof {
            assert(all.take(i + 1).drop_last() =~= all.take(i as int));
            assert(all.take(i + 1).last() == m@);
        }
        let visible = match &m.content {
            Content::Text(t) => !t.as_str().is_empty(),
            _ => false,
        };
        if visible {
            let role = match &m.role {
                Some(r) => r.as_str().to_uppercase(),
                None => "?".to_uppercase(),
            };
            let line = show_message(m, role.as_str());
            out.push(line);
            proof {
                assert(text::texts(out@) =~= text::texts(before).push(line@));
            }
        }
        i += 1;
    }
    proof {
        assert(all.take(i as int) =~= all);
    }
    str_join(&out, "\n")
}

/// What the model that merges is asked.
pub open spec fn merge_prompt(memory: Seq<char>, conversation: Seq<char>) -> Seq<char> {
    "Process this conversation and call the save_memory tool.\n\n## Current Long-term Memory\n"@ + (
    if memory.len() == 0 {
        "(empty)"@
    } else {
        memory
    }) + "\n\n## Conversation to Process\n"@ + conversation
}

/// The messages that are sent to the model that merges.
pub fn consolidation_request(
    prompts: &PromptStore,
    current_memory: &str,
    messages: &Vec<Message>,
) -> (r: Vec<Message>)
    requires
        prompts.top("memory_consolidation_prompt"@) is Some,
    ensures
        message::views(r@) == seq![
            message::plain("system"@, prompts.top("memory_consolidation_prompt"@)->0),
            message::plain(
                "user"@,
                merge_prompt(
                    current_memory@,
                    text::join(shown_lines(message::views(messages@)), "\n"@),
                ),
            ),
        ],
{
    let mut prompt =
        "Process this conversation and call the save_memory tool.\n\n## Current Long-term Memory\n".to_owned();
    if current_memory.is_empty() {
        prompt.push_str("(empty)");
    } else {
        prompt.push_str(current_memory);
    }
    prompt.push_str("\n\n## Conversation to Process\n");
    let conversation = format_messages(messages);
    prompt.push_str(conversation.as_str());
    let system = get(prompts, "memory_consolidation_prompt");
    let mut out: Vec<Message> = Vec::new();
    out.push(Message::with_content("system", Content::Text(system)));
    out.push(Message::with_content("user", Content::Text(prompt)));
    proof {
        assert(message::views(out@) =~= seq![
            message::plain("system"@, system@),
            message::plain("user"@, prompt@),
        ]);
    }
    out
}

/// What is to be kept of a conversation.
#[derive(Debug)]
pub struct MemoryUpdate {
    /// The entry for the record.
    pub history_entry: Option<String>,
    /// The new facts, where they differ from those that are kept.
    pub long_term: Option<String>,
}

/// What the model that merges has answered, given the facts that are kept. Its
/// first call must be one of `save_memory`.
pub fn consolidation_outcome(calls: &Vec<ToolCallRequest>, current_memory: &str) -> (r: Option<
    MemoryUpdate,
>)
    ensures
        r is Some <==> calls@.len() > 0 && calls@[0].name@ == "save_memory"@,
        r matches Some(u) ==> {
            let args = json::members_view(calls@[0].arguments@);
            let update = json::member_text(args, "memory_update"@);
            &&& message::opt_text(u.history_entry) == json::member_text(args, "history_entry"@)
            &&& message::opt_text(u.long_term) == (if update == Some(current_memory@) {
                None
            } else {
                update
            })
        },
{
    if calls.len() == 0 || !str_eq(calls[0].name.as_str(), "save_memory") {
        return None;
    }
    let args = &calls[0].arguments;
    let history_entry = match find_text(args, "history_entry") {
        Some(t) => Some(t.to_owned()),
        None => None,
    };
    let long_term = match find_text(args, "memory_update") {
        Some(t) => if str_eq(t, current_memory) {
            None
        } else {
            Some(t.to_owned())
        },
        None => None,
    };
    Some(MemoryUpdate { history_entry, long_term })
}

// ---------------------------------------------------------------------------
// The tool
// ---------------------------------------------------------------------------

/// A text that a tool takes, with what it is for.
pub open spec fn text_parameter(description: Seq<char>) -> JsonView {
    JsonView::Object(
        seq![
            ("description"@, JsonView::Text(description)),
            ("type"@, JsonView::Text("string"@)),
        ],
    )
}

/// The tool by which the model hands over what is to be kept.
pub open spec fn save_memory_tool() -> JsonView {
    JsonView::List(
        seq![
            JsonView::Object(
                seq![
                    (
                        "function"@,
                        JsonView::Object(
                            seq![
                                (
                                    "description"@,
                                    JsonView::Text(
                                        "Save the memory consolidation result to persistent storage."@,
                                    ),
                                ),
                                ("name"@, JsonView::Text("save_memory"@)),
                                (
                                    "parameters"@,
                                    JsonView::Object(
                                        seq![
                                            (
                                                "properties"@,
                                                JsonView::Object(
                                                    seq![
                                                        (
                                                            "history_entry"@,
                                                            text_parameter(
                                                                "A paragraph summarizing key events/decisions/topics. Start with [YYYY-MM-DD HH:MM]. Include detail useful for grep search."@,
                                                            ),
                                                        ),
                                                        (
                                                            "memory_update"@,
                                                            text_parameter(
                                                                "Full updated long-term memory as markdown. Include all existing facts plus new ones. Return unchanged if nothing new."@,
                                                            ),
                                                        ),
                                                    ],
                                                ),
                                            ),
                                            (
                                                "required"@,
                                                JsonView::List(
                                                    seq![
                                                        JsonView::Text("history_entry"@),
                                                        JsonView::Text("memory_update"@),
                                                    ],
                                                ),
                                            ),
                                            ("type"@, JsonView::Text("object"@)),
                                        ],
                                    ),
                                ),
                            ],
                        ),
                    ),
                    ("type"@, JsonView::Text("function"@)),
                ],
            ),
        ],
    )
}

/// The tool by which the model hands over what is to be kept.
pub fn save_memory_tool_def() -> (r: Json)
    ensures
        r@ == save_memory_tool(),
{
    let entry = object2(
        "description",
        text_value(
            "A paragraph summarizing key events/decisions/topics. Start with [YYYY-MM-DD HH:MM]. Include detail useful for grep search.",
        ),
        "type",
        text_value("string"),
    );
    let update = object2(
        "description",
        text_value(
            "Full updated long-term memory as markdown. Include all existing facts plus new ones. Return unchanged if nothing new.",
        ),
        "type",
        text_value("string"),
    );
    let properties = object2("history_entry", entry, "memory_update", update);
    let mut names: Vec<Json> = Vec::new();
    names.push(text_value("history_entry"));
    names.push(text_value("memory_update"));
    proof {
        json::lemma_list_view(names@);
        assert(json::list_view(names@) =~= seq![
            JsonView::Text("history_entry"@),
            JsonView::Text("memory_update"@),
        ]);
    }
    let required = Json::List(names);
    let parameters = object3(
        "properties",
        properties,
        "required",
        required,
        "type",
        text_value("object"),
    );
    let function = object3(
        "description",
        text_value("Save the memory consolidation result to persistent storage."),
        "name",
        text_value("save_memory"),
        "parameters",
        parameters,
    );
    let tool = object2("function", function, "type", text_value("function"));
    let mut tools: Vec<Json> = Vec::new();
    tools.push(tool);
    proof {
        json::lemma_list_view(tools@);
        assert(json::list_view(tools@) =~= seq![tool@]);
    }
    Json::List(tools)
}

/// What is told of the memory holds the memory and the guard in front of it.
pub proof fn law_memory_is_shown(guard: Seq<char>, long_term: Seq<char>)
    requires
        long_term.len() > 0,
    ensures
        text::starts_with(memory_context(guard, long_term), guard),
        text::ends_with(memory_context(guard, long_term), long_term),
{
    let m = memory_context(guard, long_term);
    assert(m.subrange(0, guard.len() as int) =~= guard);
    assert(m.subrange(m.len() - long_term.len(), m.len() as int) =~= long_term);
}

proof fn lemma_shown_lines(m: Seq<MessageView>, i: int)
    requires
        0 <= i < m.len(),
        is_shown(m[i]),
    ensures
        shown_lines(m).contains(shown(m[i])),
    decreases m.len(),
{
    let p = m.drop_last();
    let r = shown_lines(m);
    if i == m.len() - 1 {
        assert(r[r.len() - 1] == shown(m[i]));
    } else {
        lemma_shown_lines(p, i);
        let b = shown_lines(p);
        let k = choose|k: int| 0 <= k < b.len() && b[k] == shown(m[i]);
        assert(r[k] == b[k]);
    }
}

/// The model that merges is shown the memory so far, and of every message that
/// says something its text.
pub proof fn law_everything_is_merged(memory: Seq<char>, m: Seq<MessageView>, i: int, t: Seq<char>)
    requires
        0 <= i < m.len(),
        m[i].content == ContentView::Text(t),
        t.len() > 0,
    ensures
        text::contains(merge_prompt(memory, text::join(shown_lines(m), "\n"@)), t),
        memory.len() > 0 ==> text::contains(
            merge_prompt(memory, text::join(shown_lines(m), "\n"@)),
            memory,
        ),
{
    let none = Seq::<char>::empty();
    let all = text::join(shown_lines(m), "\n"@);
    let prompt = merge_prompt(memory, all);
    let a =
        "Process this conversation and call the save_memory tool.\n\n## Current Long-term Memory\n"@;
    let b = "\n\n## Conversation to Process\n"@;
    let line = shown(m[i]);
    lemma_shown_lines(m, i);
    let ls = shown_lines(m);
    let k = choose|k: int| 0 <= k < ls.len() && ls[k] == line;
    text::law_joined_text_holds_every_part(ls, "\n"@, k);
    let head = "["@ + text::floor_prefix(or_mark(m[i].timestamp), 16) + "] "@ + text::uppercased(
        or_mark(m[i].role),
    ) + ": "@;
    assert(text::contains(line, t)) by {
        assert(line =~= head + t + none);
        text::lemma_contains_part(head, t, none);
    }
    text::lemma_contains_within(all, line, t);
    let shown_memory = if memory.len() == 0 {
        "(empty)"@
    } else {
        memory
    };
    assert(text::contains(prompt, all)) by {
        assert(prompt =~= (a + shown_memory + b) + all + none);
        text::lemma_contains_part(a + shown_memory + b, all, none);
    }
    text::lemma_contains_within(prompt, all, t);
    assert(text::contains(prompt, shown_memory)) by {
        assert(prompt =~= a + shown_memory + (b + all));
        text::lemma_contains_part(a, shown_memory, b + all);
    }
}

} // verus!

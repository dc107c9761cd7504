//! What a run of the agent takes and gives back.

use crate::message;
use crate::message::{Content, Message};
use crate::text;
use crate::text::{chars_of, matches_at};
use vstd::prelude::*;
use vstd::string::StrSliceExecFns;

verus! {

/// How a run ended.
#[derive(Debug)]
pub enum RuntimeStatus {
    /// The task is done and the content is the reply.
    Complete,
    /// The agent waits for the user; the content is the question. The answer
    /// goes back as the result of the tool call with this id.
    NeedsInput { pending_tool_call_id: String },
}

impl Default for RuntimeStatus {
    fn default() -> (r: Self)
        ensures
            r == RuntimeStatus::Complete,
    {
        RuntimeStatus::Complete
    }
}

/// What is kept of one tool execution.
#[derive(Debug)]
pub struct ToolExecutionEvent {
    pub tool_id: String,
    pub tool_name: String,
    pub route: String,
    pub status: String,
    pub duration_ms: u64,
    pub original_len: usize,
    pub result_len: usize,
    pub truncated: bool,
    pub gate_action: String,
    pub risk_level: String,
    pub sandbox_id: Option<String>,
    pub result_preview: String,
}

/// What is kept of one decision that the agent took after a dispatch.
#[derive(Debug)]
pub struct DecisionEvent {
    pub iteration: usize,
    pub agent_scope: String,
    pub decision: String,
    pub reason: String,
    pub dispatch_origin_iteration: Option<usize>,
    pub dispatch_statuses: Vec<String>,
    pub next_tools: Vec<String>,
}

/// Counts over the tool executions of a run.
#[derive(Debug, Clone, Copy)]
pub struct RunDiagnosticsSummary {
    pub total_tool_calls: usize,
    pub exec_count: usize,
    pub dedicated_tool_count: usize,
    pub error_tool_count: usize,
    pub denied_tool_count: usize,
    pub sandbox_tool_count: usize,
    pub host_tool_count: usize,
    pub verified_after_last_edit: Option<bool>,
    pub ended_with_unverified_changes: bool,
}

/// What a run of the agent gives back.
#[derive(Debug)]
pub struct RuntimeResult {
    pub content: Option<String>,
    pub tools_used: Vec<String>,
    pub messages: Vec<Message>,
    pub status: RuntimeStatus,
    pub tool_events: Vec<ToolExecutionEvent>,
    pub decision_events: Vec<DecisionEvent>,
    pub diagnostics_summary: RunDiagnosticsSummary,
    pub cache_hit_tokens: u64,
    pub cache_write_tokens: u64,
    pub total_prompt_tokens: u64,
    pub total_completion_tokens: u64,
    pub turn_id: String,
}

/// The message that holds a role and a text and nothing else.
pub fn chat_message(role: &str, content: &str) -> (r: Message)
    ensures
        r@ == message::plain(role@, content@),
{
    Message::with_content(role, Content::Text(content.to_owned()))
}

/// Takes the mark of a thinking message off: whether `msg` carries it, and the
/// text without it.
pub fn parse_thinking_prefix(msg: &str) -> (r: (bool, &str))
    ensures
        r.0 == text::starts_with(msg@, "[Thinking]\n"@),
        r.1@ == (if r.0 {
            msg@.skip("[Thinking]\n"@.len() as int)
        } else {
            msg@
        }),
{
    let cs = chars_of(msg);
    let p = chars_of("[Thinking]\n");
    if matches_at(cs.as_slice(), p.as_slice(), 0) {
        let rest = msg.substring_char(p.len(), cs.len());
        proof {
            assert(msg@.subrange(p@.len() as int, cs@.len() as int) =~= msg@.skip(p@.len() as int));
        }
        (true, rest)
    } else {
        (false, msg)
    }
}

/// A message that carries the mark is read back without it.
pub proof fn law_thinking_prefix_round_trip(content: Seq<char>)
    ensures
        text::starts_with("[Thinking]\n"@ + content, "[Thinking]\n"@),
        ("[Thinking]\n"@ + content).skip("[Thinking]\n"@.len() as int) == content,
{
    let p = "[Thinking]\n"@;
    assert((p + content).subrange(0, p.len() as int) =~= p);
    assert((p + content).skip(p.len() as int) =~= content);
}

} // verus!

//! The loop of the agent, as a state that is stepped: an iteration begins, the
//! model answers, tools are run, and so on until there is a reply.

use crate::agent::compression;
use crate::agent::compression::compress_tool_results;
use crate::agent::diagnostics;
use crate::agent::diagnostics::build_run_diagnostics_summary;
use crate::agent::dispatch;
use crate::agent::dispatch::{
    build_decision_preview, classify_post_dispatch_tool_decision, observe_dispatch_result,
    record_dispatch_followup_decision, PendingDispatchObservation,
};
use crate::agent::loop_helpers;
use crate::agent::loop_helpers::{
    dedupe_consecutive_system_messages, infer_phase_from_messages, is_production_tool,
    maybe_compact_assistant_history, maybe_compact_system_message, strip_think, take_reset_marker,
    tool_batch_signature, EXTENDED_SYSTEM_ROUNDS, LIGHT_COMPRESS_RECENT_ROUNDS,
    MAX_NO_PROGRESS_ROUNDS, MAX_REACHED_RESET_MARKER, MAX_REPEAT_TOOL_BATCH, PLAN_CHECK_ITERATIONS,
};
use crate::agent::phase::explore_phase_after_tools;
use crate::agent::runtime::{
    chat_message, DecisionEvent, RuntimeResult, RuntimeStatus, ToolExecutionEvent,
};
use crate::agent::summary;
use crate::agent::summary::{build_max_iterations_summary, count_writes};
use crate::agent::tool_runner::{ProcessedToolResult, ToolRoundOutcome};
use crate::json;
use crate::json::{clone_members, Json, JsonView};
use crate::message;
use crate::message::{
    ContentView, Message, MessageView, ToolCall, ToolCallRequest, ToolCallView,
};
use crate::prompt::context;
use crate::prompt::context::ContextBuilder;
use crate::seqs;
use crate::text;
use crate::text::{decimal_usize, fits_bytes, str_byte_len, str_contains, str_eq, str_join};
use std::collections::VecDeque;
use vstd::prelude::*;

verus! {

// ---------------------------------------------------------------------------
// The state of a run
// ---------------------------------------------------------------------------

/// The limits of an agent.
#[derive(Debug, Clone, Copy)]
pub struct AgentLoop {
    /// How many iterations each phase may take.
    pub max_iterations: usize,
    /// How many bytes the model may put out in all; set for an agent that
    /// works on a subtask.
    pub max_output_chars: Option<usize>,
    /// How many iterations exploring should take.
    pub explore_max: usize,
}

impl AgentLoop {
    /// An agent with those limits; 25 iterations where none are given.
    pub fn new(max_iterations: Option<usize>, explore_max: usize) -> (r: Self)
        ensures
            r == (AgentLoop {
                max_iterations: match max_iterations {
                    Some(n) => n,
                    None => 25,
                },
                max_output_chars: None,
                explore_max,
            }),
    {
        AgentLoop {
            max_iterations: match max_iterations {
                Some(n) => n,
                None => 25,
            },
            max_output_chars: None,
            explore_max,
        }
    }

    /// The same agent with a limit on what the model may put out.
    pub fn with_max_output_chars(self, max_chars: usize) -> (r: Self)
        ensures
            r == (AgentLoop { max_output_chars: Some(max_chars), ..self }),
    {
        AgentLoop { max_output_chars: Some(max_chars), ..self }
    }

    /// Whether the agent works on a subtask.
    pub open spec fn is_sub_agent(self) -> bool {
        self.max_output_chars is Some
    }
}

/// What a run counts.
#[derive(Debug, Clone, Copy)]
pub struct Counters {
    /// Whether the agent still explores.
    pub in_exploration: bool,
    pub exploration_iterations: usize,
    pub production_iterations: usize,
    pub total_iterations: usize,
    /// How often the last batch of tool calls was repeated.
    pub repeated_batches: usize,
    /// How many rounds in a row brought nothing.
    pub no_progress_rounds: usize,
    /// How many bytes the model put out.
    pub output_chars: usize,
    /// Whether the model said what it plans.
    pub has_plan: bool,
    /// How many rounds in a row ran commands and wrote nothing.
    pub exec_without_write: usize,
}

/// What the calls of the model cost.
#[derive(Debug, Clone, Copy)]
pub struct TokenUsage {
    pub prompt_tokens: u64,
    pub completion_tokens: u64,
    pub cached_tokens: u64,
    pub cache_write_tokens: u64,
}

/// What the model answered.
pub struct ModelResponse {
    pub content: Option<String>,
    pub reasoning: Option<String>,
    pub finish_reason: String,
    pub tool_calls: Vec<ToolCallRequest>,
    pub usage: TokenUsage,
}

/// The texts by which the model is nudged.
#[derive(Debug)]
pub struct LoopNudges {
    pub plan_required: String,
    pub idle_spin: String,
    pub param_error_retry: String,
}

/// What comes next.
#[derive(Debug, Clone, Copy, PartialEq, Eq, Structural)]
pub enum LoopAction {
    /// The tools that the model asked for are run.
    RunTools,
    /// The next iteration begins.
    Again,
    /// The run is over.
    Stop,
}

/// A run of the agent.
pub struct AgentRun {
    pub cfg: AgentLoop,
    pub counters: Counters,
    pub usage: TokenUsage,
    pub messages: Vec<Message>,
    pub tools_used: Vec<String>,
    pub tool_events: Vec<ToolExecutionEvent>,
    pub decision_events: Vec<DecisionEvent>,
    pub pending: Option<PendingDispatchObservation>,
    pub last_batch: Option<String>,
    pub recent: VecDeque<u64>,
    pub content: Option<String>,
    pub status: RuntimeStatus,
}

/// A decision as mathematical data.
pub struct DecisionView {
    pub iteration: usize,
    pub agent_scope: Seq<char>,
    pub decision: Seq<char>,
    pub reason: Seq<char>,
    pub origin: Option<usize>,
    pub statuses: Seq<Seq<char>>,
    pub next_tools: Seq<Seq<char>>,
}

impl View for DecisionEvent {
    type V = DecisionView;

    open spec fn view(&self) -> DecisionView {
        DecisionView {
            iteration: self.iteration,
            agent_scope: self.agent_scope@,
            decision: self.decision@,
            reason: self.reason@,
            origin: self.dispatch_origin_iteration,
            statuses: text::texts(self.dispatch_statuses@),
            next_tools: text::texts(self.next_tools@),
        }
    }
}

/// An observed dispatch as mathematical data.
pub struct ObservationView {
    pub origin_iteration: usize,
    pub statuses: Seq<Seq<char>>,
    pub summary_preview: Seq<char>,
}

impl View for PendingDispatchObservation {
    type V = ObservationView;

    open spec fn view(&self) -> ObservationView {
        ObservationView {
            origin_iteration: self.origin_iteration,
            statuses: text::texts(self.statuses@),
            summary_preview: self.summary_preview@,
        }
    }
}

/// A run as mathematical data. `waiting_on` is the tool call whose answer the
/// user owes.
#[verifier::ext_equal]
pub struct RunView {
    pub cfg: AgentLoop,
    pub counters: Counters,
    pub usage: TokenUsage,
    pub messages: Seq<MessageView>,
    pub tools_used: Seq<Seq<char>>,
    pub tool_events: Seq<ToolExecutionEvent>,
    pub decisions: Seq<DecisionView>,
    pub pending: Option<ObservationView>,
    pub last_batch: Option<Seq<char>>,
    pub recent: Seq<u64>,
    pub content: Option<Seq<char>>,
    pub waiting_on: Option<Seq<char>>,
}

/// Decisions as mathematical data.
pub open spec fn decisions_view(s: Seq<DecisionEvent>) -> Seq<DecisionView> {
    Seq::new(s.len(), |i: int| s[i]@)
}

/// The tool call that a status waits on.
pub open spec fn waiting(status: RuntimeStatus) -> Option<Seq<char>> {
    match status {
        RuntimeStatus::Complete => None,
        RuntimeStatus::NeedsInput { pending_tool_call_id } => Some(pending_tool_call_id@),
    }
}

impl View for AgentRun {
    type V = RunView;

    open spec fn view(&self) -> RunView {
        RunView {
            cfg: self.cfg,
            counters: self.counters,
            usage: self.usage,
            messages: message::views(self.messages@),
            tools_used: text::texts(self.tools_used@),
            tool_events: self.tool_events@,
            decisions: decisions_view(self.decision_events@),
            pending: match self.pending {
                Some(o) => Some(o@),
                None => None,
            },
            last_batch: message::opt_text(self.last_batch),
            recent: self.recent@,
            content: message::opt_text(self.content),
            waiting_on: waiting(self.status),
        }
    }
}

impl RunView {
    /// The bounds that the counters keep as long as the run goes on.
    pub open spec fn is_sound(self) -> bool {
        &&& self.cfg.max_iterations <= usize::MAX / 2
        &&& self.counters.repeated_batches < MAX_REPEAT_TOOL_BATCH
        &&& self.counters.no_progress_rounds < MAX_NO_PROGRESS_ROUNDS
        &&& self.counters.exec_without_write < 3
    }
}

// ---------------------------------------------------------------------------
// Beginning
// ---------------------------------------------------------------------------

/// The counters with which a run starts: those of the history, or zeros where
/// the history asks for it.
pub open spec fn starting_counters(ms: Seq<MessageView>) -> Counters {
    let kept = loop_helpers::consumed_all(ms);
    let p = loop_helpers::phase_of(kept);
    let reset = loop_helpers::any_reset(ms);
    Counters {
        in_exploration: reset || p.0,
        exploration_iterations: if reset {
            0
        } else {
            p.1 as usize
        },
        production_iterations: if reset {
            0
        } else {
            p.2 as usize
        },
        total_iterations: if reset {
            0
        } else {
            loop_helpers::rounds(kept) as usize
        },
        repeated_batches: 0,
        no_progress_rounds: 0,
        output_chars: 0,
        has_plan: false,
        exec_without_write: 0,
    }
}

/// The state of a run before its first iteration.
pub open spec fn started(cfg: AgentLoop, ms: Seq<MessageView>) -> RunView {
    RunView {
        cfg,
        counters: starting_counters(ms),
        usage: TokenUsage {
            prompt_tokens: 0,
            completion_tokens: 0,
            cached_tokens: 0,
            cache_write_tokens: 0,
        },
        messages: loop_helpers::consumed_all(ms),
        tools_used: Seq::empty(),
        tool_events: Seq::empty(),
        decisions: Seq::empty(),
        pending: None,
        last_batch: None,
        recent: Seq::empty(),
        content: None,
        waiting_on: None,
    }
}

/// Whether another iteration is within the limits.
pub open spec fn may_begin(cfg: AgentLoop, c: Counters) -> bool {
    &&& c.total_iterations < 2 * cfg.max_iterations
    &&& if c.in_exploration {
        c.exploration_iterations < cfg.max_iterations
    } else {
        c.production_iterations < cfg.max_iterations
    }
}

/// The counters once an iteration has begun.
pub open spec fn begun_counters(c: Counters) -> Counters {
    Counters {
        total_iterations: (c.total_iterations + 1) as usize,
        exploration_iterations: if c.in_exploration {
            (c.exploration_iterations + 1) as usize
        } else {
            c.exploration_iterations
        },
        production_iterations: if c.in_exploration {
            c.production_iterations
        } else {
            (c.production_iterations + 1) as usize
        },
        ..c
    }
}

/// The messages as they are kept from an iteration on: the first system text
/// and long assistant texts shortened, repeated system texts left out.
pub open spec fn prepared(ms: Seq<MessageView>, total: usize) -> Seq<MessageView> {
    let compacted = if total <= EXTENDED_SYSTEM_ROUNDS {
        ms
    } else {
        loop_helpers::system_compacted(ms)
    };
    loop_helpers::system_deduped(loop_helpers::assistant_compacted(compacted), None)
}

/// The state once an iteration has begun, or was not begun because a limit is
/// reached. `injected` came in from the user meanwhile.
pub open spec fn begun(v: RunView, injected: Seq<MessageView>) -> RunView {
    let ms = v.messages + injected;
    if may_begin(v.cfg, v.counters) {
        let c = begun_counters(v.counters);
        RunView { counters: c, messages: prepared(ms, c.total_iterations), ..v }
    } else {
        RunView { messages: ms, ..v }
    }
}

/// Whether older tool results stay as they are: in the first half of
/// exploring.
pub open spec fn keeps_results(v: RunView) -> bool {
    v.counters.in_exploration && v.counters.exploration_iterations <= v.cfg.explore_max / 2
}

/// The messages that go to the model.
pub open spec fn request(v: RunView, prefix: nat) -> Seq<MessageView> {
    if keeps_results(v) {
        v.messages
    } else {
        compression::compressed(v.messages, LIGHT_COMPRESS_RECENT_ROUNDS as nat, prefix)
    }
}

impl AgentRun {
    /// Starts a run on those messages.
    pub fn start(cfg: AgentLoop, messages: Vec<Message>) -> (r: AgentRun)
        requires
            cfg.max_iterations <= usize::MAX / 2,
        ensures
            r@ == started(cfg, message::views(messages@)),
            r@.is_sound(),
    {
        let ghost ms = message::views(messages@);
        let mut messages = messages;
        let reset = take_reset_marker(&mut messages);
        let (exploring, explored, produced, total) = if reset {
            (true, 0, 0, 0)
        } else {
            infer_phase_from_messages(&messages)
        };
        let r = AgentRun {
            cfg,
            counters: Counters {
                in_exploration: exploring,
                exploration_iterations: explored,
                production_iterations: produced,
                total_iterations: total,
                repeated_batches: 0,
                no_progress_rounds: 0,
                output_chars: 0,
                has_plan: false,
                exec_without_write: 0,
            },
            usage: TokenUsage {
                prompt_tokens: 0,
                completion_tokens: 0,
                cached_tokens: 0,
                cache_write_tokens: 0,
            },
            messages,
            tools_used: Vec::new(),
            tool_events: Vec::new(),
            decision_events: Vec::new(),
            pending: None,
            last_batch: None,
            recent: VecDeque::new(),
            content: None,
            status: RuntimeStatus::Complete,
        };
        proof {
            assert(r@ =~= started(cfg, ms));
        }
        r
    }

    /// Begins an iteration; false where a limit is reached.
    pub fn begin_iteration(&mut self, injected: Vec<Message>) -> (go: bool)
        requires
            old(self)@.is_sound(),
        ensures
            go == may_begin(old(self).cfg, old(self).counters),
            final(self)@ == begun(old(self)@, message::views(injected@)),
            final(self)@.is_sound(),
    {
        let ghost v = self@;
        let ghost ms = message::views(self.messages@) + message::views(injected@);
        let ghost m0 = self.messages@;
        let ghost i0 = injected@;
        let mut injected = injected;
        self.messages.append(&mut injected);
        proof {
            assert(message::views(self.messages@) =~= ms);
        }
        let c = self.counters;
        let max = self.cfg.max_iterations;
        let spent = if c.in_exploration {
            c.exploration_iterations
        } else {
            c.production_iterations
        };
        if c.total_iterations >= 2 * max || spent >= max {
            proof {
                assert(self@ =~= begun(v, message::views(i0)));
            }
            return false;
        }
        let total: usize = c.total_iterations + 1;
        maybe_compact_system_message(&mut self.messages, total);
        maybe_compact_assistant_history(&mut self.messages);
        dedupe_consecutive_system_messages(&mut self.messages);
        self.counters.total_iterations = total;
        if c.in_exploration {
            self.counters.exploration_iterations = c.exploration_iterations + 1;
        } else {
            self.counters.production_iterations = c.production_iterations + 1;
        }
        proof {
            assert(self@ =~= begun(v, message::views(i0)));
        }
        true
    }

    /// The messages that go to the model. The first `protected_prefix_len` of
    /// them stay as they are.
    pub fn request_messages(&self, protected_prefix_len: usize) -> (r: Vec<Message>)
        ensures
            message::views(r@) == request(self@, protected_prefix_len as nat),
    {
        let c = self.counters;
        let skip = c.in_exploration && c.exploration_iterations <= self.cfg.explore_max / 2;
        compress_tool_results(
            &self.messages,
            skip,
            LIGHT_COMPRESS_RECENT_ROUNDS,
            protected_prefix_len,
        )
    }
}

// ---------------------------------------------------------------------------
// The answer of the model
// ---------------------------------------------------------------------------

/// How many bytes an optional text takes.
pub open spec fn opt_len(t: Option<Seq<char>>) -> nat {
    match t {
        Some(s) => text::byte_len(s),
        None => 0,
    }
}

/// How many bytes the model put out.
pub open spec fn output_len(r: ModelResponse) -> nat {
    opt_len(message::opt_text(r.content)) + opt_len(message::opt_text(r.reasoning))
}

/// Whether the sums over a run still fit with this answer.
pub open spec fn sums_fit(v: RunView, r: ModelResponse) -> bool {
    &&& v.usage.prompt_tokens + r.usage.prompt_tokens <= u64::MAX
    &&& v.usage.completion_tokens + r.usage.completion_tokens <= u64::MAX
    &&& v.usage.cached_tokens + r.usage.cached_tokens <= u64::MAX
    &&& v.usage.cache_write_tokens + r.usage.cache_write_tokens <= u64::MAX
    &&& v.counters.output_chars + output_len(r) <= usize::MAX
}

/// The state with the cost and the length of an answer added.
pub open spec fn counted(v: RunView, r: ModelResponse) -> RunView {
    RunView {
        usage: TokenUsage {
            prompt_tokens: (v.usage.prompt_tokens + r.usage.prompt_tokens) as u64,
            completion_tokens: (v.usage.completion_tokens + r.usage.completion_tokens) as u64,
            cached_tokens: (v.usage.cached_tokens + r.usage.cached_tokens) as u64,
            cache_write_tokens: (v.usage.cache_write_tokens + r.usage.cache_write_tokens) as u64,
        },
        counters: Counters {
            output_chars: (v.counters.output_chars + output_len(r)) as usize,
            ..v.counters
        },
        ..v
    }
}

/// Whether the model put out more than it may.
pub open spec fn over_budget(v: RunView) -> bool {
    v.cfg.max_output_chars is Some && v.counters.output_chars > v.cfg.max_output_chars->0
}

/// The reply where the model put out more than it may.
pub open spec fn budget_reply(v: RunView, r: ModelResponse) -> Seq<char> {
    let n = text::dec(v.counters.output_chars as nat);
    if summary::write_count(v.tools_used) > 0 {
        "Task completed (output budget reached after "@ + n
            + " chars). Files written successfully. Tools used: "@ + text::join(
            v.tools_used,
            ", "@,
        )
    } else {
        match loop_helpers::stripped(message::opt_text(r.content)) {
            Some(t) => t,
            None => "Output budget exceeded ("@ + n + " chars). Partial result unavailable."@,
        }
    }
}

/// The state once it is recorded what followed the dispatch that was observed,
/// if one was.
pub open spec fn decided(
    v: RunView,
    decision: Seq<char>,
    reason: Seq<char>,
    next_tools: Seq<Seq<char>>,
) -> RunView {
    match v.pending {
        Some(o) => RunView {
            pending: None,
            decisions: v.decisions.push(
                DecisionView {
                    iteration: v.counters.total_iterations,
                    agent_scope: dispatch::scope(v.cfg.is_sub_agent()),
                    decision,
                    reason,
                    origin: Some(o.origin_iteration),
                    statuses: o.statuses,
                    next_tools,
                },
            ),
            ..v
        },
        None => v,
    }
}

/// The names of the tools that are called.
pub open spec fn call_names(calls: Seq<ToolCallRequest>) -> Seq<Seq<char>> {
    Seq::new(calls.len(), |i: int| calls[i].name@)
}

/// The calls as they stand in the assistant message.
pub open spec fn call_views(calls: Seq<ToolCallRequest>) -> Seq<ToolCallView> {
    Seq::new(
        calls.len(),
        |i: int|
            ToolCallView {
                id: Some(calls[i].id@),
                name: Some(calls[i].name@),
                arguments: Some(
                    json::json_text(JsonView::Object(json::members_view(calls[i].arguments@))),
                ),
                given: None,
            },
    )
}

/// Whether the model said what it plans: it did so before, or its text is long
/// enough now.
pub open spec fn plans(v: RunView, r: ModelResponse) -> bool {
    v.counters.has_plan || opt_len(loop_helpers::stripped(message::opt_text(r.content))) > 100
}

/// How often the batch of tool calls was repeated.
pub open spec fn repeats_of(v: RunView, sig: Seq<char>) -> usize {
    if v.last_batch == Some(sig) {
        (v.counters.repeated_batches + 1) as usize
    } else {
        0
    }
}

/// The reply where the model repeats itself.
pub open spec fn repeat_reply(tools: Seq<Seq<char>>) -> Seq<char> {
    if summary::write_count(tools) > 0 {
        "Task completed. Files written successfully. Tools used: "@ + text::join(tools, ", "@)
    } else {
        "I am repeatedly calling the same tools without progress. Please provide additional constraints or a narrower objective."@
    }
}

/// The state and the action after an answer with tool calls.
pub open spec fn after_calls(v: RunView, r: ModelResponse, n: LoopNudges) -> (RunView, LoopAction) {
    let names = call_names(r.tool_calls@);
    let f = dispatch::followup(names);
    let v1 = decided(v, f.0, f.1, names);
    let planned = plans(v, r);
    let c = Counters { has_plan: planned, ..v1.counters };
    if !planned && v.counters.total_iterations <= PLAN_CHECK_ITERATIONS && !v.cfg.is_sub_agent() {
        (
            RunView {
                counters: c,
                messages: v1.messages.push(message::plain("system"@, n.plan_required@)),
                ..v1
            },
            LoopAction::Again,
        )
    } else {
        let sig = text::join(loop_helpers::call_signatures(r.tool_calls@), "||"@);
        let repeated = repeats_of(v, sig);
        let v2 = RunView {
            counters: Counters { repeated_batches: repeated, ..c },
            messages: v1.messages.push(
                context::assistant_message(
                    message::opt_text(r.content),
                    Some(call_views(r.tool_calls@)),
                    message::opt_text(r.reasoning),
                ),
            ),
            last_batch: Some(sig),
            ..v1
        };
        if repeated >= MAX_REPEAT_TOOL_BATCH {
            (RunView { content: Some(repeat_reply(v.tools_used)), ..v2 }, LoopAction::Stop)
        } else {
            (v2, LoopAction::RunTools)
        }
    }
}

/// Whether a message reports a tool call with wrong parameters.
pub open spec fn is_param_error(m: MessageView) -> bool {
    &&& m.has_role("tool"@)
    &&& m.text() is Some
    &&& text::contains(m.text()->0, "Invalid parameters"@) || text::contains(
        m.text()->0,
        "Missing required parameter"@,
    )
}

/// Whether one of the last ten messages reports a tool call with wrong
/// parameters.
pub open spec fn recent_param_error(ms: Seq<MessageView>) -> bool {
    exists|i: int| 0 <= i < ms.len() && i >= ms.len() - 10 && is_param_error(#[trigger] ms[i])
}

/// The reply of a run whose model gave none.
pub open spec fn fallback_reply(tools: Seq<Seq<char>>) -> Seq<char> {
    if tools.len() == 0 {
        "处理完成，未生成回复内容。"@
    } else {
        "Task completed. Tools used: "@ + text::join(tools, ", "@)
    }
}

/// Why a run ended after a dispatch.
pub open spec fn final_reason(clean: Option<Seq<char>>) -> Seq<char> {
    "assistant stopped with final response: "@ + (match clean {
        Some(t) => dispatch::preview(t),
        None => "finalized without textual content"@,
    })
}

/// The state and the action after an answer without tool calls.
pub open spec fn after_reply(v: RunView, r: ModelResponse, n: LoopNudges) -> (RunView, LoopAction) {
    let clean = loop_helpers::stripped(message::opt_text(r.content));
    let said = context::assistant_message(clean, None, message::opt_text(r.reasoning));
    if r.finish_reason@ == "error"@ {
        (
            RunView {
                content: Some(
                    match clean {
                        Some(t) => t,
                        None => "Sorry, I encountered an error."@,
                    },
                ),
                ..v
            },
            LoopAction::Stop,
        )
    } else if recent_param_error(v.messages) && v.counters.total_iterations + 2
        < v.cfg.max_iterations {
        (
            RunView {
                messages: v.messages.push(said).push(
                    message::plain("system"@, n.param_error_retry@),
                ),
                ..v
            },
            LoopAction::Again,
        )
    } else {
        let v1 = decided(v, "finalize"@, final_reason(clean), Seq::empty());
        (
            RunView {
                messages: v1.messages.push(said),
                content: Some(
                    match clean {
                        Some(t) => t,
                        None => fallback_reply(v.tools_used),
                    },
                ),
                ..v1
            },
            LoopAction::Stop,
        )
    }
}

/// The state and the action after an answer of the model.
pub open spec fn after_response(v: RunView, r: ModelResponse, n: LoopNudges) -> (
    RunView,
    LoopAction,
) {
    let v1 = counted(v, r);
    if over_budget(v1) {
        (RunView { content: Some(budget_reply(v1, r)), ..v1 }, LoopAction::Stop)
    } else if r.tool_calls@.len() > 0 {
        after_calls(v1, r, n)
    } else {
        after_reply(v1, r, n)
    }
}

fn opt_byte_len(t: &Option<String>) -> (r: usize)
    ensures
        r == opt_len(message::opt_text(*t)),
{
    match t {
        Some(s) => str_byte_len(s.as_str()),
        None => 0,
    }
}

fn opt_as_str(t: &Option<String>) -> (r: Option<&str>)
    ensures
        text::opt_str(r) == message::opt_text(*t),
{
    match t {
        Some(s) => Some(s.as_str()),
        None => None,
    }
}

fn names_of(calls: &Vec<ToolCallRequest>) -> (r: Vec<String>)
    ensures
        text::texts(r@) == call_names(calls@),
{
    let mut out: Vec<String> = Vec::new();
    let mut i: usize = 0;
    while i < calls.len()
        invariant
            0 <= i <= calls@.len(),
            out@.len() == i,
            forall|k: int| 0 <= k < i ==> (#[trigger] out@[k])@ == calls@[k].name@,
        decreases calls@.len() - i,
    {
        out.push(calls[i].name.clone());
        i += 1;
    }
    proof {
        assert(text::texts(out@) =~= call_names(calls@));
    }
    out
}

fn calls_said(calls: &Vec<ToolCallRequest>) -> (r: Vec<ToolCall>)
    ensures
        message::calls_view(r@) == call_views(calls@),
{
    let mut out: Vec<ToolCall> = Vec::new();
    let mut i: usize = 0;
    while i < calls.len()
        invariant
            0 <= i <= calls@.len(),
            out@.len() == i,
            forall|k: int| 0 <= k < i ==> (#[trigger] out@[k])@ == call_views(calls@)[k],
        decreases calls@.len() - i,
    {
        let object = Json::Object(clone_members(&calls[i].arguments));
        out.push(
            ToolCall {
                id: Some(calls[i].id.clone()),
                name: Some(calls[i].name.clone()),
                arguments: Some(object.render()),
                given: None,
            },
        );
        i += 1;
    }
    proof {
        assert(message::calls_view(out@) =~= call_views(calls@));
    }
    out
}

fn has_recent_param_error(messages: &Vec<Message>) -> (r: bool)
    ensures
        r == recent_param_error(message::views(messages@)),
{
    let ghost ms = message::views(messages@);
    let n: usize = messages.len();
    let mut i: usize = if n < 10 {
        0
    } else {
        n - 10
    };
    while i < n
        invariant
            i <= n == messages@.len(),
            i >= n - 10,
            ms == message::views(messages@),
            forall|k: int| 0 <= k < i && k >= n - 10 ==> !is_param_error(#[trigger] ms[k]),
        decreases n - i,
    {
        proof {
            assert(ms[i as int] == messages@[i as int]@);
        }
        if messages[i].has_role("tool") {
            if let Some(t) = messages[i].text() {
                if str_contains(t, "Invalid parameters") || str_contains(
                    t,
                    "Missing required parameter",
                ) {
                    return true;
                }
            }
        }
        i += 1;
    }
    false
}

impl AgentRun {
    /// Records what followed the dispatch that was observed, if one was.
    fn decide(&mut self, decision: &str, reason: String, next_tools: Vec<String>)
        ensures
            final(self)@ == decided(
                old(self)@,
                decision@,
                reason@,
                text::texts(next_tools@),
            ),
    {
        let ghost v = self@;
        let iteration = self.counters.total_iterations;
        let is_sub_agent = self.cfg.max_output_chars.is_some();
        let pending = self.pending.take();
        if let Some(o) = pending {
            let ghost before = self.decision_events@;
            let ghost want = decided(v, decision@, reason@, text::texts(next_tools@));
            record_dispatch_followup_decision(
                &mut self.decision_events,
                iteration,
                is_sub_agent,
                o,
                decision,
                reason,
                next_tools,
            );
            proof {
                let after = self.decision_events@;
                assert(after =~= before.push(after.last()));
                assert(after.last()@ == want.decisions.last());
                assert(decisions_view(after) =~= want.decisions);
                assert(self@ =~= want);
            }
        } else {
            proof {
                assert(self@ =~= v);
            }
        }
    }

    /// Adds the cost and the length of an answer.
    fn count(&mut self, r: &ModelResponse)
        requires
            sums_fit(old(self)@, *r),
        ensures
            final(self)@ == counted(old(self)@, *r),
    {
        let ghost v = self@;
        let n = opt_byte_len(&r.content) + opt_byte_len(&r.reasoning);
        self.usage = TokenUsage {
            prompt_tokens: self.usage.prompt_tokens + r.usage.prompt_tokens,
            completion_tokens: self.usage.completion_tokens + r.usage.completion_tokens,
            cached_tokens: self.usage.cached_tokens + r.usage.cached_tokens,
            cache_write_tokens: self.usage.cache_write_tokens + r.usage.cache_write_tokens,
        };
        self.counters.output_chars = self.counters.output_chars + n;
        proof {
            assert(self@ =~= counted(v, *r));
        }
    }

    fn reply_over_budget(&self, r: &ModelResponse) -> (t: String)
        ensures
            t@ == budget_reply(self@, *r),
    {
        let n = decimal_usize(self.counters.output_chars);
        if count_writes(&self.tools_used) > 0 {
            let tools = str_join(&self.tools_used, ", ");
            let mut t = "Task completed (output budget reached after ".to_owned();
            t.push_str(n.as_str());
            t.push_str(" chars). Files written successfully. Tools used: ");
            t.push_str(tools.as_str());
            t
        } else {
            match strip_think(opt_as_str(&r.content)) {
                Some(t) => t,
                None => {
                    let mut t = "Output budget exceeded (".to_owned();
                    t.push_str(n.as_str());
                    t.push_str(" chars). Partial result unavailable.");
                    t
                },
            }
        }
    }

    fn on_calls(&mut self, r: &ModelResponse, n: &LoopNudges) -> (a: LoopAction)
        requires
            old(self)@.is_sound(),
        ensures
            (final(self)@, a) == after_calls(old(self)@, *r, *n),
            a != LoopAction::Stop ==> final(self)@.is_sound(),
    {
        let ghost v = self@;
        let ghost want = after_calls(v, *r, *n);
        let names = names_of(&r.tool_calls);
        let (decision, reason) = classify_post_dispatch_tool_decision(&names);
        self.decide(decision, reason, names);
        let ghost f = dispatch::followup(call_names(r.tool_calls@));
        let ghost v1 = decided(v, f.0, f.1, call_names(r.tool_calls@));
        let said = strip_think(opt_as_str(&r.content));
        if let Some(t) = &said {
            if !fits_bytes(t.as_str(), 100) {
                self.counters.has_plan = true;
            }
        }
        let c = self.counters;
        if !c.has_plan && c.total_iterations <= PLAN_CHECK_ITERATIONS
            && self.cfg.max_output_chars.is_none() {
            let ghost before = self.messages@;
            let nudge = chat_message("system", n.plan_required.as_str());
            self.messages.push(nudge);
            proof {
                message::lemma_views_push(before, nudge);
                assert(self@ =~= want.0);
            }
            return LoopAction::Again;
        }
        ContextBuilder::add_assistant_message(
            &mut self.messages,
            opt_as_str(&r.content),
            Some(calls_said(&r.tool_calls)),
            opt_as_str(&r.reasoning),
        );
        let sig = tool_batch_signature(&r.tool_calls);
        let same = match &self.last_batch {
            Some(last) => str_eq(last.as_str(), sig.as_str()),
            None => false,
        };
        let repeated: usize = if same {
            c.repeated_batches + 1
        } else {
            0
        };
        self.counters.repeated_batches = repeated;
        self.last_batch = Some(sig);
        if repeated >= MAX_REPEAT_TOOL_BATCH {
            let reply = if count_writes(&self.tools_used) > 0 {
                let tools = str_join(&self.tools_used, ", ");
                let mut t = "Task completed. Files written successfully. Tools used: ".to_owned();
                t.push_str(tools.as_str());
                t
            } else {
                "I am repeatedly calling the same tools without progress. Please provide additional constraints or a narrower objective.".to_owned()
            };
            self.content = Some(reply);
            proof {
                assert(self@ =~= want.0);
            }
            return LoopAction::Stop;
        }
        proof {
            assert(self@ =~= want.0);
        }
        LoopAction::RunTools
    }

    fn on_reply(&mut self, r: &ModelResponse, n: &LoopNudges) -> (a: LoopAction)
        requires
            old(self)@.is_sound(),
        ensures
            (final(self)@, a) == after_reply(old(self)@, *r, *n),
            a != LoopAction::Stop ==> final(self)@.is_sound(),
    {
        let ghost v = self@;
        let ghost want = after_reply(v, *r, *n);
        let clean = strip_think(opt_as_str(&r.content));
        if str_eq(r.finish_reason.as_str(), "error") {
            self.content = Some(
                match clean {
                    Some(t) => t,
                    None => "Sorry, I encountered an error.".to_owned(),
                },
            );
            proof {
                assert(self@ =~= want.0);
            }
            return LoopAction::Stop;
        }
        let max = self.cfg.max_iterations;
        let early = max >= 2 && self.counters.total_iterations < max - 2;
        if has_recent_param_error(&self.messages) && early {
            ContextBuilder::add_assistant_message(
                &mut self.messages,
                opt_as_str(&clean),
                None,
                opt_as_str(&r.reasoning),
            );
            let ghost before = self.messages@;
            let nudge = chat_message("system", n.param_error_retry.as_str());
            self.messages.push(nudge);
            proof {
                message::lemma_views_push(before, nudge);
                assert(self@ =~= want.0);
            }
            return LoopAction::Again;
        }
        let mut reason = "assistant stopped with final response: ".to_owned();
        match &clean {
            Some(t) => {
                let preview = build_decision_preview(t.as_str());
                reason.push_str(preview.as_str());
            },
            None => {
                reason.push_str("finalized without textual content");
            },
        }
        let none: Vec<String> = Vec::new();
        proof {
            assert(text::texts(none@) =~= Seq::empty());
        }
        self.decide("finalize", reason, none);
        ContextBuilder::add_assistant_message(
            &mut self.messages,
            opt_as_str(&clean),
            None,
            opt_as_str(&r.reasoning),
        );
        self.content = Some(
            match clean {
                Some(t) => t,
                None => if self.tools_used.len() == 0 {
                    "处理完成，未生成回复内容。".to_owned()
                } else {
                    let tools = str_join(&self.tools_used, ", ");
                    let mut t = "Task completed. Tools used: ".to_owned();
                    t.push_str(tools.as_str());
                    t
                },
            },
        );
        proof {
            assert(self@ =~= want.0);
        }
        LoopAction::Stop
    }

    /// Takes an answer of the model and says what comes next.
    pub fn on_response(&mut self, r: &ModelResponse, n: &LoopNudges) -> (a: LoopAction)
        requires
            old(self)@.is_sound(),
            sums_fit(old(self)@, *r),
        ensures
            (final(self)@, a) == after_response(old(self)@, *r, *n),
            a != LoopAction::Stop ==> final(self)@.is_sound(),
    {
        self.count(r);
        let ghost v1 = self@;
        if let Some(max) = self.cfg.max_output_chars {
            if self.counters.output_chars > max {
                let reply = self.reply_over_budget(r);
                self.content = Some(reply);
                proof {
                    assert(self@ =~= RunView { content: Some(budget_reply(v1, *r)), ..v1 });
                }
                return LoopAction::Stop;
            }
        }
        if r.tool_calls.len() > 0 {
            self.on_calls(r, n)
        } else {
            self.on_reply(r, n)
        }
    }
}

// ---------------------------------------------------------------------------
// The results of the tools
// ---------------------------------------------------------------------------

/// What is remembered of a dispatch after one more tool result.
pub open spec fn observed(v: RunView, p: ProcessedToolResult) -> Option<ObservationView> {
    match p.dispatch_summary {
        Some(s) => if p.tool_name@ == "dispatch_subtasks"@ && dispatch::statuses_of(s@.nodes).len()
            > 0 {
            Some(
                ObservationView {
                    origin_iteration: v.counters.total_iterations,
                    statuses: dispatch::statuses_of(s@.nodes),
                    summary_preview: dispatch::dispatch_preview(s@, p.result@),
                },
            )
        } else {
            v.pending
        },
        None => v.pending,
    }
}

/// The state after one more tool result.
pub open spec fn absorbed_one(v: RunView, p: ProcessedToolResult) -> RunView {
    RunView {
        tools_used: v.tools_used.push(p.tool_name@),
        tool_events: v.tool_events.push(p.event),
        messages: v.messages + context::result_messages(p.tool_id@, p.tool_name@, p.result@),
        pending: observed(v, p),
        ..v
    }
}

/// The state after the tool results of a round.
pub open spec fn absorbed(v: RunView, ps: Seq<ProcessedToolResult>) -> RunView
    decreases ps.len(),
{
    if ps.len() == 0 {
        v
    } else {
        absorbed_one(absorbed(v, ps.drop_last()), ps.last())
    }
}

/// Whether one of the last `n` tools is of that kind.
pub open spec fn among_last(tools: Seq<Seq<char>>, n: nat, f: spec_fn(Seq<char>) -> bool) -> bool {
    exists|i: int| 0 <= i < tools.len() && i >= tools.len() - n && f(#[trigger] tools[i])
}

/// How many rounds in a row brought nothing.
pub open spec fn idle_rounds(v: RunView, progressed: bool) -> usize {
    if progressed {
        0
    } else {
        (v.counters.no_progress_rounds + 1) as usize
    }
}

/// How many rounds in a row ran commands and wrote nothing.
pub open spec fn dry_rounds(v: RunView, n: nat) -> usize {
    if among_last(v.tools_used, n, |t: Seq<char>| summary::writes(t)) {
        0
    } else if among_last(v.tools_used, n, |t: Seq<char>| t == "exec"@) {
        (v.counters.exec_without_write + 1) as usize
    } else {
        v.counters.exec_without_write
    }
}

/// The state after a round that brought something: the agent goes over to
/// producing once a tool produced something, and an agent on a subtask that
/// only runs commands is nudged.
pub open spec fn moved_on(v: RunView, n: nat, nudges: LoopNudges) -> RunView {
    let exploring = v.counters.in_exploration && !among_last(
        v.tools_used,
        n,
        |t: Seq<char>| loop_helpers::produces(t),
    );
    let c = Counters { in_exploration: exploring, ..v.counters };
    if v.cfg.is_sub_agent() && !exploring {
        let dry = dry_rounds(v, n);
        if dry >= 3 {
            RunView {
                counters: Counters { exec_without_write: 0, ..c },
                messages: v.messages.push(message::plain("system"@, nudges.idle_spin@)),
                ..v
            }
        } else {
            RunView { counters: Counters { exec_without_write: dry, ..c }, ..v }
        }
    } else {
        RunView { counters: c, ..v }
    }
}

/// The state and the action after a round of `n` tool calls.
pub open spec fn after_tools(v: RunView, n: nat, o: ToolRoundOutcome, nudges: LoopNudges) -> (
    RunView,
    LoopAction,
) {
    let v1 = absorbed(v, o.per_tool@);
    let idle = idle_rounds(v, o.progressed);
    let v2 = RunView { counters: Counters { no_progress_rounds: idle, ..v1.counters }, ..v1 };
    if idle >= MAX_NO_PROGRESS_ROUNDS {
        (
            RunView {
                content: Some(
                    "I cannot make progress with current tool responses. Please provide more details or relax constraints."@,
                ),
                ..v2
            },
            LoopAction::Stop,
        )
    } else {
        match o.ask_user_pending {
            Some(q) => (
                RunView { content: Some(q.1@), waiting_on: Some(q.0@), ..v2 },
                LoopAction::Stop,
            ),
            None => (moved_on(v2, n, nudges), LoopAction::Again),
        }
    }
}

/// Whether the last `n` tools produced something, wrote a file, ran a command.
fn kinds_of_last(tools: &Vec<String>, n: usize) -> (r: (bool, bool, bool))
    ensures
        r.0 == among_last(
            text::texts(tools@),
            n as nat,
            |t: Seq<char>| loop_helpers::produces(t),
        ),
        r.1 == among_last(text::texts(tools@), n as nat, |t: Seq<char>| summary::writes(t)),
        r.2 == among_last(text::texts(tools@), n as nat, |t: Seq<char>| t == "exec"@),
{
    let ghost tv = text::texts(tools@);
    let len: usize = tools.len();
    let from: usize = if len < n {
        0
    } else {
        len - n
    };
    let mut produced = false;
    let mut wrote = false;
    let mut ran = false;
    let mut i: usize = from;
    while i < len
        invariant
            from <= i <= len == tools@.len(),
            from == (if len < n {
                0int
            } else {
                len - n
            }),
            tv == text::texts(tools@),
            produced <==> exists|k: int|
                from <= k < i && loop_helpers::produces(#[trigger] tv[k]),
            wrote <==> exists|k: int| from <= k < i && summary::writes(#[trigger] tv[k]),
            ran <==> exists|k: int| from <= k < i && #[trigger] tv[k] == "exec"@,
        decreases len - i,
    {
        proof {
            assert(tv[i as int] == tools@[i as int]@);
        }
        let t = tools[i].as_str();
        if is_production_tool(t) {
            produced = true;
        }
        if str_eq(t, "write_file") || str_eq(t, "edit_file") {
            wrote = true;
        }
        if str_eq(t, "exec") {
            ran = true;
        }
        i += 1;
    }
    (produced, wrote, ran)
}

impl AgentRun {
    /// Takes one tool result.
    fn absorb_one(&mut self, p: ProcessedToolResult)
        ensures
            final(self)@ == absorbed_one(old(self)@, p),
    {
        let ghost v = self@;
        let ghost t0 = self.tools_used@;
        if str_eq(p.tool_name.as_str(), "dispatch_subtasks") {
            if let Some(s) = &p.dispatch_summary {
                match observe_dispatch_result(
                    self.counters.total_iterations,
                    s,
                    p.result.as_str(),
                ) {
                    Some(o) => {
                        self.pending = Some(o);
                    },
                    None => {},
                }
            }
        }
        ContextBuilder::add_tool_result(
            &mut self.messages,
            p.tool_id.as_str(),
            p.tool_name.as_str(),
            p.result.as_str(),
        );
        self.tool_events.push(p.event);
        self.tools_used.push(p.tool_name);
        proof {
            assert(text::texts(self.tools_used@) =~= text::texts(t0).push(p.tool_name@));
            assert(self@ =~= absorbed_one(v, p));
        }
    }

    /// Takes the tool results of a round.
    fn absorb(&mut self, per_tool: Vec<ProcessedToolResult>)
        ensures
            final(self)@ == absorbed(old(self)@, per_tool@),
    {
        let ghost v = self@;
        let ghost all = per_tool@;
        let n: usize = per_tool.len();
        let mut rest = per_tool;
        let mut i: usize = 0;
        while i < n
            invariant
                0 <= i <= n == all.len(),
                rest@ == all.skip(i as int),
                self@ == absorbed(v, all.take(i as int)),
            decreases n - i,
        {
            let p = rest.remove(0);
            proof {
                assert(p == all[i as int]);
                assert(rest@ =~= all.skip(i + 1));
                assert(all.take(i + 1).drop_last() =~= all.take(i as int));
                assert(all.take(i + 1).last() == p);
            }
            self.absorb_one(p);
            i += 1;
        }
        proof {
            assert(all.take(i as int) =~= all);
        }
    }

    /// Takes the results of a round of `calls` tool calls and says what comes
    /// next.
    pub fn on_tools(&mut self, calls: usize, outcome: ToolRoundOutcome, nudges: &LoopNudges) -> (a:
        LoopAction)
        requires
            old(self)@.is_sound(),
        ensures
            (final(self)@, a) == after_tools(old(self)@, calls as nat, outcome, *nudges),
            a != LoopAction::Stop ==> final(self)@.is_sound(),
    {
        let ghost v = self@;
        let ghost want = after_tools(v, calls as nat, outcome, *nudges);
        let progressed = outcome.progressed;
        let idle: usize = if progressed {
            0
        } else {
            self.counters.no_progress_rounds + 1
        };
        let ghost per = outcome.per_tool@;
        self.absorb(outcome.per_tool);
        proof {
            lemma_absorbed_frame(v, per);
        }
        self.counters.no_progress_rounds = idle;
        if idle >= MAX_NO_PROGRESS_ROUNDS {
            self.content = Some(
                "I cannot make progress with current tool responses. Please provide more details or relax constraints.".to_owned(),
            );
            proof {
                assert(self@ =~= want.0);
            }
            return LoopAction::Stop;
        }
        if let Some((id, question)) = outcome.ask_user_pending {
            self.content = Some(question);
            self.status = RuntimeStatus::NeedsInput { pending_tool_call_id: id };
            proof {
                assert(self@ =~= want.0);
            }
            return LoopAction::Stop;
        }
        let (produced, wrote, ran) = kinds_of_last(&self.tools_used, calls);
        if self.counters.in_exploration && explore_phase_after_tools(produced) {
            self.counters.in_exploration = false;
        }
        if self.cfg.max_output_chars.is_some() && !self.counters.in_exploration {
            if wrote {
                self.counters.exec_without_write = 0;
            } else if ran {
                self.counters.exec_without_write = self.counters.exec_without_write + 1;
            }
            if self.counters.exec_without_write >= 3 {
                let ghost before = self.messages@;
                let nudge = chat_message("system", nudges.idle_spin.as_str());
                self.messages.push(nudge);
                self.counters.exec_without_write = 0;
                proof {
                    message::lemma_views_push(before, nudge);
                }
            }
        }
        proof {
            assert(self@ =~= want.0);
        }
        LoopAction::Again
    }
}

/// Tool results leave the counters and the limits alone.
proof fn lemma_absorbed_frame(v: RunView, ps: Seq<ProcessedToolResult>)
    ensures
        absorbed(v, ps).cfg == v.cfg,
        absorbed(v, ps).counters == v.counters,
    decreases ps.len(),
{
    if ps.len() > 0 {
        lemma_absorbed_frame(v, ps.drop_last());
    }
}

// ---------------------------------------------------------------------------
// The end
// ---------------------------------------------------------------------------

/// A message with the mark of the turn, unless it is a system message or was
/// in the history before.
pub open spec fn stamped(m: MessageView, turn_id: Seq<char>) -> MessageView {
    if m.has_role("system"@) || m.has_timestamp() || m.has_turn_id() {
        m
    } else {
        MessageView { turn_id: Some(turn_id), ..m }
    }
}

/// The messages with the mark of the turn.
pub open spec fn stamped_all(ms: Seq<MessageView>, turn_id: Seq<char>) -> Seq<MessageView> {
    Seq::new(ms.len(), |i: int| stamped(ms[i], turn_id))
}

/// The report of a run that reached a limit.
pub open spec fn limit_report(v: RunView) -> Seq<char> {
    summary::max_summary(
        v.counters.exploration_iterations as nat,
        v.counters.production_iterations as nat,
        v.tools_used,
        v.messages,
    )
}

/// The messages of a run at its end: one that reached a limit reports it, with
/// the mark that lets the next run start its counters at zero.
pub open spec fn final_messages(v: RunView) -> Seq<MessageView> {
    match v.content {
        Some(_) => v.messages,
        None => v.messages.push(
            context::assistant_message(
                Some(limit_report(v) + "\n"@ + MAX_REACHED_RESET_MARKER@),
                None,
                None,
            ),
        ),
    }
}

/// The reply of a run.
pub open spec fn final_content(v: RunView) -> Seq<char> {
    match v.content {
        Some(t) => t,
        None => limit_report(v),
    }
}

fn stamp(messages: &mut Vec<Message>, turn_id: &str)
    ensures
        message::views(final(messages)@) == stamped_all(message::views(old(messages)@), turn_id@),
{
    let ghost ms = message::views(messages@);
    let n: usize = messages.len();
    let mut i: usize = 0;
    while i < n
        invariant
            0 <= i <= n == messages@.len() == ms.len(),
            forall|k: int| 0 <= k < i ==> (#[trigger] messages@[k])@ == stamped(ms[k], turn_id@),
            forall|k: int| i <= k < n ==> (#[trigger] messages@[k])@ == ms[k],
        decreases n - i,
    {
        proof {
            assert(messages@[i as int]@ == ms[i as int]);
        }
        let skip = messages[i].has_role("system") || messages[i].has_timestamp()
            || messages[i].has_turn_id();
        if !skip {
            let mut m = messages[i].clone();
            m.turn_id = Some(turn_id.to_owned());
            messages.set(i, m);
        }
        i += 1;
    }
    proof {
        assert(message::views(messages@) =~= stamped_all(ms, turn_id@));
    }
}

impl AgentRun {
    /// Ends the run.
    pub fn finish(self, turn_id: &str) -> (r: RuntimeResult)
        ensures
            message::opt_text(r.content) == Some(final_content(self@)),
            text::texts(r.tools_used@) == self@.tools_used,
            message::views(r.messages@) == stamped_all(final_messages(self@), turn_id@),
            r.status == self.status,
            r.tool_events@ == self.tool_events@,
            r.decision_events@ == self.decision_events@,
            diagnostics::summary_of(self.tool_events@, r.diagnostics_summary),
            r.cache_hit_tokens == self.usage.cached_tokens,
            r.cache_write_tokens == self.usage.cache_write_tokens,
            r.total_prompt_tokens == self.usage.prompt_tokens,
            r.total_completion_tokens == self.usage.completion_tokens,
            r.turn_id@ == turn_id@,
    {
        let ghost v = self@;
        let mut messages = self.messages;
        let content = match self.content {
            Some(t) => t,
            None => {
                let report = build_max_iterations_summary(
                    self.counters.exploration_iterations,
                    self.counters.production_iterations,
                    &self.tools_used,
                    &messages,
                );
                let mut marked = report.clone();
                marked.push_str("\n");
                marked.push_str(MAX_REACHED_RESET_MARKER);
                ContextBuilder::add_assistant_message(
                    &mut messages,
                    Some(marked.as_str()),
                    None,
                    None,
                );
                report
            },
        };
        stamp(&mut messages, turn_id);
        let diagnostics_summary = build_run_diagnostics_summary(&self.tool_events);
        RuntimeResult {
            content: Some(content),
            tools_used: self.tools_used,
            messages,
            status: self.status,
            tool_events: self.tool_events,
            decision_events: self.decision_events,
            diagnostics_summary,
            cache_hit_tokens: self.usage.cached_tokens,
            cache_write_tokens: self.usage.cache_write_tokens,
            total_prompt_tokens: self.usage.prompt_tokens,
            total_completion_tokens: self.usage.completion_tokens,
            turn_id: turn_id.to_owned(),
        }
    }
}

// ---------------------------------------------------------------------------
// Laws
// ---------------------------------------------------------------------------

/// Every iteration uses up one of twice the limit, and no phase takes more
/// than the limit: a run that begins iterations comes to an end.
pub proof fn law_iterations_are_bounded(v: RunView, injected: Seq<MessageView>)
    requires
        v.is_sound(),
        may_begin(v.cfg, v.counters),
    ensures
        ({
            let w = begun(v, injected);
            &&& w.counters.total_iterations == v.counters.total_iterations + 1
            &&& w.counters.total_iterations <= 2 * v.cfg.max_iterations
            &&& w.counters.exploration_iterations + w.counters.production_iterations
                == v.counters.exploration_iterations + v.counters.production_iterations + 1
            &&& w.counters.in_exploration ==> w.counters.exploration_iterations
                <= v.cfg.max_iterations
            &&& !w.counters.in_exploration ==> w.counters.production_iterations
                <= v.cfg.max_iterations
        }),
{
}

/// Neither an answer nor a round of tools changes the limits or the number of
/// iterations, and a run that produces never goes back to exploring.
pub proof fn law_phases_do_not_go_back(
    v: RunView,
    r: ModelResponse,
    n: nat,
    o: ToolRoundOutcome,
    nudges: LoopNudges,
)
    ensures
        ({
            let w = after_response(v, r, nudges).0;
            &&& w.cfg == v.cfg
            &&& w.counters.total_iterations == v.counters.total_iterations
            &&& w.counters.in_exploration == v.counters.in_exploration
        }),
        ({
            let w = after_tools(v, n, o, nudges).0;
            &&& w.cfg == v.cfg
            &&& w.counters.total_iterations == v.counters.total_iterations
            &&& w.counters.in_exploration ==> v.counters.in_exploration
        }),
{
    lemma_absorbed_frame(v, o.per_tool@);
}

/// A run stops with a reply: whenever an answer or a round of tools ends it,
/// there is a content; and whenever it does not, none was added.
pub proof fn law_stop_means_reply(
    v: RunView,
    r: ModelResponse,
    n: nat,
    o: ToolRoundOutcome,
    nudges: LoopNudges,
)
    requires
        v.content is None,
    ensures
        after_response(v, r, nudges).1 == LoopAction::Stop <==> after_response(
            v,
            r,
            nudges,
        ).0.content is Some,
        after_tools(v, n, o, nudges).1 == LoopAction::Stop <==> after_tools(
            v,
            n,
            o,
            nudges,
        ).0.content is Some,
{
    lemma_absorbed_content(v, o.per_tool@);
}

proof fn lemma_absorbed_content(v: RunView, ps: Seq<ProcessedToolResult>)
    ensures
        absorbed(v, ps).content == v.content,
    decreases ps.len(),
{
    if ps.len() > 0 {
        lemma_absorbed_content(v, ps.drop_last());
    }
}

/// At the end of a run every message that is not a system message carries a
/// time or the mark of a turn, and those that carried one keep it.
pub proof fn law_new_messages_are_stamped(ms: Seq<MessageView>, turn_id: Seq<char>, i: int)
    requires
        0 <= i < ms.len(),
    ensures
        ({
            let m = stamped_all(ms, turn_id)[i];
            &&& m.has_role("system"@) || m.has_timestamp() || m.has_turn_id()
            &&& ms[i].turn_id is Some ==> m == ms[i]
            &&& ms[i].timestamp is Some ==> m == ms[i]
            &&& m.role == ms[i].role
            &&& m.content == ms[i].content
            &&& m == (MessageView { turn_id: m.turn_id, ..ms[i] })
            &&& !ms[i].has_role("system"@) && !ms[i].has_timestamp() && !ms[i].has_turn_id()
                ==> m.turn_id == Some(turn_id)
        }),
        stamped_all(ms, turn_id).len() == ms.len(),
{
}

/// A run that reached a limit leaves a mark, by which the next run on its
/// messages starts exploring with all counters at zero.
pub proof fn law_limit_resets_next_run(v: RunView, turn_id: Seq<char>, cfg: AgentLoop)
    requires
        v.content is None,
    ensures
        ({
            let next = started(cfg, stamped_all(final_messages(v), turn_id));
            &&& next.counters.in_exploration
            &&& next.counters.exploration_iterations == 0
            &&& next.counters.production_iterations == 0
            &&& next.counters.total_iterations == 0
        }),
{
    let ms = stamped_all(final_messages(v), turn_id);
    let last = ms.len() - 1;
    let t = limit_report(v) + "\n"@ + MAX_REACHED_RESET_MARKER@;
    let k = limit_report(v).len() + "\n"@.len();
    let mark = MAX_REACHED_RESET_MARKER@;
    assert(t.subrange(k as int, (k + mark.len()) as int) =~= mark);
    assert(text::occurs_at(t, mark, k as int));
    assert(loop_helpers::asks_reset(ms[last]));
}

// ---------------------------------------------------------------------------
// What the model is told
// ---------------------------------------------------------------------------

/// Holds of the messages of tools.
pub open spec fn of_tools() -> spec_fn(MessageView) -> bool {
    |m: MessageView| m.role == Some("tool"@)
}

/// Whether a message hands a tool result back: it names the call and the tool
/// and holds the result as its text, but for the images in it.
pub open spec fn hands_back(m: MessageView, p: ProcessedToolResult) -> bool {
    &&& m.role == Some("tool"@)
    &&& m.tool_call_id == Some(p.tool_id@)
    &&& m.name == Some(p.tool_name@)
    &&& m.tool_calls is None
    &&& m.content is Text
    &&& !text::contains(p.result@, "[[IMAGE:data:image/"@) ==> m.content == ContentView::Text(
        p.result@,
    )
}

/// Whether the message at `i` is of a tool, or carries the images of the
/// result in front of it.
pub open spec fn is_of_result(ms: Seq<MessageView>, i: int) -> bool {
    ||| ms[i].role == Some("tool"@)
    ||| ms[i].role == Some("user"@) && ms[i].content is Blocks && i > 0 && ms[i - 1].role == Some(
        "tool"@,
    )
}

proof fn lemma_result_messages(p: ProcessedToolResult)
    ensures
        ({
            let ms = context::result_messages(p.tool_id@, p.tool_name@, p.result@);
            &&& 1 <= ms.len() <= 2
            &&& hands_back(ms[0], p)
            &&& ms.len() == 2 ==> ms[1].role == Some("user"@) && ms[1].content is Blocks
            &&& seqs::select(ms, of_tools()) == seq![ms[0]]
        }),
{
    let ms = context::result_messages(p.tool_id@, p.tool_name@, p.result@);
    reveal_strlit("tool");
    reveal_strlit("user");
    assert("tool"@[0] != "user"@[0]);
    reveal_with_fuel(seqs::select, 3);
    assert(seqs::select(ms, of_tools()) =~= seq![ms[0]]);
}

proof fn lemma_absorbed_messages(v: RunView, ps: Seq<ProcessedToolResult>)
    ensures
        ({
            let w = absorbed(v, ps);
            let old_len = v.messages.len() as int;
            let added = w.messages.skip(old_len);
            let answers = seqs::select(added, of_tools());
            &&& old_len <= w.messages.len()
            &&& w.messages.take(old_len) == v.messages
            &&& answers.len() == ps.len()
            &&& forall|k: int| 0 <= k < ps.len() ==> hands_back(#[trigger] answers[k], ps[k])
            &&& forall|i: int| 0 <= i < added.len() ==> #[trigger] is_of_result(added, i)
            &&& w.tools_used.len() == v.tools_used.len() + ps.len()
            &&& w.tools_used.take(v.tools_used.len() as int) == v.tools_used
            &&& forall|k: int|
                0 <= k < ps.len() ==> #[trigger] w.tools_used[v.tools_used.len() + k]
                    == ps[k].tool_name@
            &&& w.tool_events.len() == v.tool_events.len() + ps.len()
            &&& forall|k: int|
                0 <= k < ps.len() ==> #[trigger] w.tool_events[v.tool_events.len() + k]
                    == ps[k].event
        }),
    decreases ps.len(),
{
    let w = absorbed(v, ps);
    let old_len = v.messages.len() as int;
    let added = w.messages.skip(old_len);
    if ps.len() == 0 {
        assert(added =~= Seq::empty());
        assert(w.messages.take(old_len) =~= v.messages);
        assert(w.tools_used.take(v.tools_used.len() as int) =~= v.tools_used);
    } else {
        let init = ps.drop_last();
        let u = absorbed(v, init);
        lemma_absorbed_messages(v, init);
        lemma_result_messages(ps.last());
        let before = u.messages.skip(old_len);
        let ms = context::result_messages(
            ps.last().tool_id@,
            ps.last().tool_name@,
            ps.last().result@,
        );
        assert(added =~= before + ms);
        assert(w.messages.take(old_len) =~= u.messages.take(old_len));
        seqs::lemma_select_concat(before, ms, of_tools());
        let answers = seqs::select(added, of_tools());
        let some = seqs::select(before, of_tools());
        assert(answers =~= some.push(ms[0]));
        assert forall|k: int| 0 <= k < ps.len() implies hands_back(#[trigger] answers[k], ps[k]) by {
            if k < init.len() {
                assert(hands_back(some[k], init[k]));
            }
        }
        assert forall|i: int| 0 <= i < added.len() implies #[trigger] is_of_result(added, i) by {
            if i < before.len() {
                assert(is_of_result(before, i));
            } else if i == before.len() + 1 {
                assert(added[i - 1] == ms[0]);
            }
        }
        assert(w.tools_used.take(v.tools_used.len() as int) =~= u.tools_used.take(
            v.tools_used.len() as int,
        ));
        assert forall|k: int| 0 <= k < ps.len() implies #[trigger] w.tools_used[v.tools_used.len()
            + k] == ps[k].tool_name@ by {
            if k < init.len() {
                assert(u.tools_used[v.tools_used.len() + k] == init[k].tool_name@);
            }
        }
        assert forall|k: int| 0 <= k < ps.len() implies #[trigger] w.tool_events[v.tool_events.len()
            + k] == ps[k].event by {
            if k < init.len() {
                assert(u.tool_events[v.tool_events.len() + k] == init[k].event);
            }
        }
    }
}

/// A round of tools leaves the messages so far as they were. Behind them each
/// result of the round is handed back in order, in a message of the tool that
/// names its call and holds its text. Besides these there are only the
/// messages that carry the images of a result, and at the very end at most the
/// nudge of a run that goes on.
pub proof fn law_tool_results_are_handed_back(
    v: RunView,
    n: nat,
    o: ToolRoundOutcome,
    nudges: LoopNudges,
)
    ensures
        ({
            let w = after_tools(v, n, o, nudges).0;
            let per = o.per_tool@;
            let added = w.messages.skip(v.messages.len() as int);
            let answers = seqs::select(added, of_tools());
            &&& v.messages.len() <= w.messages.len()
            &&& w.messages.take(v.messages.len() as int) == v.messages
            &&& answers.len() == per.len()
            &&& forall|k: int| 0 <= k < per.len() ==> hands_back(#[trigger] answers[k], per[k])
            &&& forall|i: int|
                0 <= i < added.len() - 1 ==> #[trigger] is_of_result(added, i)
            &&& added.len() > 0 && !is_of_result(added, added.len() - 1) ==> after_tools(
                v,
                n,
                o,
                nudges,
            ).1 == LoopAction::Again && added.last() == message::plain(
                "system"@,
                nudges.idle_spin@,
            )
        }),
{
    let w = after_tools(v, n, o, nudges).0;
    let u = absorbed(v, o.per_tool@);
    let old_len = v.messages.len() as int;
    lemma_absorbed_messages(v, o.per_tool@);
    let before = u.messages.skip(old_len);
    let added = w.messages.skip(old_len);
    if w.messages.len() == u.messages.len() {
        assert(w.messages == u.messages);
    } else {
        let nudge = message::plain("system"@, nudges.idle_spin@);
        assert(w.messages == u.messages.push(nudge));
        assert(added =~= before + seq![nudge]);
        assert(w.messages.take(old_len) =~= u.messages.take(old_len));
        reveal_strlit("tool");
        reveal_strlit("system");
        assert("tool"@.len() != "system"@.len());
        seqs::lemma_select_concat(before, seq![nudge], of_tools());
        reveal_with_fuel(seqs::select, 3);
        assert(seqs::select(seq![nudge], of_tools()) =~= Seq::empty());
        assert(seqs::select(added, of_tools()) =~= seqs::select(before, of_tools()));
        assert forall|i: int| 0 <= i < added.len() - 1 implies #[trigger] is_of_result(added, i) by {
            assert(is_of_result(before, i));
        }
    }
}

/// Every call that was run is answered: behind the messages so far there is a
/// message of the tool with its id. In the request to the model it is still
/// there, under the same id.
pub proof fn law_every_call_is_answered(
    v: RunView,
    n: nat,
    o: ToolRoundOutcome,
    nudges: LoopNudges,
    k: int,
    prefix: nat,
)
    requires
        0 <= k < o.per_tool@.len(),
    ensures
        ({
            let w = after_tools(v, n, o, nudges).0;
            exists|j: int|
                v.messages.len() <= j < w.messages.len() && hands_back(
                    #[trigger] w.messages[j],
                    o.per_tool@[k],
                ) && request(w, prefix).len() == w.messages.len() && request(w, prefix)[j].role
                    == Some("tool"@) && request(w, prefix)[j].tool_call_id == Some(
                    o.per_tool@[k].tool_id@,
                )
        }),
{
    let w = after_tools(v, n, o, nudges).0;
    let added = w.messages.skip(v.messages.len() as int);
    let answers = seqs::select(added, of_tools());
    law_tool_results_are_handed_back(v, n, o, nudges);
    seqs::lemma_select_holds(added, of_tools());
    assert(hands_back(answers[k], o.per_tool@[k]));
    assert(added.contains(answers[k]));
    let i = choose|i: int| 0 <= i < added.len() && added[i] == answers[k];
    let j = v.messages.len() + i;
    assert(w.messages[j] == added[i]);
    law_request_keeps_the_conversation(w, prefix, j);
}

/// The request to the model holds every message of the run in its place, with
/// its role, and with the ids and names of calls and answers. As long as the
/// run keeps the results it is the messages as they are.
pub proof fn law_request_keeps_the_conversation(v: RunView, prefix: nat, i: int)
    requires
        0 <= i < v.messages.len(),
    ensures
        request(v, prefix).len() == v.messages.len(),
        ({
            let m = request(v, prefix)[i];
            &&& m.role == v.messages[i].role
            &&& m.tool_call_id == v.messages[i].tool_call_id
            &&& m.name == v.messages[i].name
            &&& m.tool_calls is Some <==> v.messages[i].tool_calls is Some
            &&& v.messages[i].tool_calls matches Some(c) ==> m.tool_calls->0.len() == c.len()
                && forall|k: int|
                0 <= k < c.len() ==> (#[trigger] m.tool_calls->0[k]).id == c[k].id
                    && m.tool_calls->0[k].name == c[k].name
            &&& v.messages[i].role == Some("user"@) || i < prefix ==> m == v.messages[i]
            &&& v.counters.in_exploration && 2 * v.counters.exploration_iterations
                <= v.cfg.explore_max ==> m == v.messages[i]
        }),
{
    if !keeps_results(v) {
        let keep = LIGHT_COMPRESS_RECENT_ROUNDS as nat;
        compression::law_compression_keeps_structure(v.messages, keep, prefix, i);
        reveal_strlit("tool");
        reveal_strlit("user");
        reveal_strlit("assistant");
        assert("tool"@[0] != "user"@[0]);
        assert("assistant"@.len() != "user"@.len());
        if v.messages[i].role == Some("user"@) || i < prefix {
            compression::law_compression_leaves_alone(v.messages, keep, prefix, i);
        }
    }
}

/// Holds of the messages that an iteration never shortens or leaves out: those
/// of the user and of tools, and the calls of the assistant.
pub open spec fn of_conversation() -> spec_fn(MessageView) -> bool {
    |m: MessageView|
        m.role == Some("user"@) || m.role == Some("tool"@) || m.role == Some("assistant"@)
            && m.tool_calls is Some
}

proof fn lemma_roles_differ()
    ensures
        "user"@ != "tool"@,
        "user"@ != "system"@,
        "user"@ != "assistant"@,
        "tool"@ != "system"@,
        "tool"@ != "assistant"@,
        "system"@ != "assistant"@,
{
    reveal_strlit("user");
    reveal_strlit("tool");
    reveal_strlit("system");
    reveal_strlit("assistant");
    assert("user"@[0] != "tool"@[0]);
    assert("user"@.len() == 4 && "tool"@.len() == 4 && "system"@.len() == 6 && "assistant"@.len()
        == 9);
}

proof fn lemma_deduped_select(ms: Seq<MessageView>, last: Option<Seq<char>>)
    ensures
        seqs::select(loop_helpers::system_deduped(ms, last), of_conversation()) == seqs::select(
            ms,
            of_conversation(),
        ),
    decreases ms.len(),
{
    lemma_roles_differ();
    if ms.len() > 0 {
        let t = ms.skip(1);
        let next = if ms[0].has_role("system"@) {
            Some(ms[0].text_or_empty())
        } else {
            None
        };
        if ms[0].has_role("system"@) && last == Some(ms[0].text_or_empty()) {
            lemma_deduped_select(t, last);
        } else {
            lemma_deduped_select(t, next);
            let d = loop_helpers::system_deduped(ms, last);
            assert(d.skip(1) =~= loop_helpers::system_deduped(t, next));
            assert(d[0] == ms[0]);
        }
    }
}

proof fn lemma_prepared_select(ms: Seq<MessageView>, total: usize)
    ensures
        seqs::select(prepared(ms, total), of_conversation()) == seqs::select(ms, of_conversation()),
{
    lemma_roles_differ();
    let f = |i: int| loop_helpers::is_system_text(ms[i]);
    seqs::lemma_first_from(f, 0, ms.len() as int);
    let a = loop_helpers::system_compacted(ms);
    seqs::lemma_select_same(a, ms, of_conversation());
    let b = if total <= EXTENDED_SYSTEM_ROUNDS {
        ms
    } else {
        a
    };
    let c = loop_helpers::assistant_compacted(b);
    assert forall|i: int| 0 <= i < c.len() implies of_conversation()(#[trigger] c[i])
        == of_conversation()(b[i]) && (of_conversation()(c[i]) ==> c[i] == b[i]) by {
        assert(c[i] == loop_helpers::assistant_compacted_at(b, i));
    }
    seqs::lemma_select_same(c, b, of_conversation());
    lemma_deduped_select(c, None);
}

/// However the messages are shortened when an iteration begins, what the user
/// said, meanwhile too, what tools gave and which tools were called stays as
/// it was and in order.
pub proof fn law_iteration_keeps_the_conversation(v: RunView, injected: Seq<MessageView>)
    ensures
        seqs::select(begun(v, injected).messages, of_conversation()) == seqs::select(
            v.messages + injected,
            of_conversation(),
        ),
{
    lemma_prepared_select(v.messages + injected, begun_counters(v.counters).total_iterations);
}

/// When tools are run, the calls were said before: the messages grow by one of
/// the assistant, with the text of the answer and its calls in order.
pub proof fn law_calls_are_said(v: RunView, r: ModelResponse, n: LoopNudges)
    requires
        after_response(v, r, n).1 == LoopAction::RunTools,
    ensures
        ({
            let w = after_response(v, r, n).0;
            let m = w.messages.last();
            &&& r.tool_calls@.len() > 0
            &&& w.messages.len() == v.messages.len() + 1
            &&& w.messages.drop_last() == v.messages
            &&& m.role == Some("assistant"@)
            &&& m.content == (match r.content {
                Some(t) => ContentView::Text(t@),
                None => ContentView::Nothing,
            })
            &&& m.reasoning == message::opt_text(r.reasoning)
            &&& m.tool_calls is Some
            &&& m.tool_calls->0.len() == r.tool_calls@.len()
            &&& forall|k: int|
                0 <= k < r.tool_calls@.len() ==> {
                    let c = #[trigger] m.tool_calls->0[k];
                    &&& c.id == Some(r.tool_calls@[k].id@)
                    &&& c.name == Some(r.tool_calls@[k].name@)
                    &&& c.arguments == Some(
                        json::json_text(
                            JsonView::Object(json::members_view(r.tool_calls@[k].arguments@)),
                        ),
                    )
                    &&& c.given is None
                }
        }),
{
    let w = after_response(v, r, n).0;
    assert(w.messages.drop_last() =~= v.messages);
}

/// The calls of an answer are run, unless the model put out too much, calls
/// the same again and again, or owes a plan.
pub proof fn law_calls_are_run(v: RunView, r: ModelResponse, n: LoopNudges)
    requires
        r.tool_calls@.len() > 0,
        v.cfg.max_output_chars is None,
        v.counters.total_iterations > 0,
        v.counters.repeated_batches + 1 < MAX_REPEAT_TOOL_BATCH,
    ensures
        after_response(v, r, n).1 == LoopAction::RunTools,
        after_response(v, r, n).0.content == v.content,
{
}

/// The same calls once more count as a repetition, and a run that goes on with
/// them has not repeated them too often.
pub proof fn law_repetitions_are_counted(
    v: RunView,
    u: RunView,
    r: ModelResponse,
    s: ModelResponse,
    n: LoopNudges,
)
    requires
        after_response(v, r, n).1 == LoopAction::RunTools,
        u.last_batch == after_response(v, r, n).0.last_batch,
        u.counters.repeated_batches == after_response(v, r, n).0.counters.repeated_batches,
        s.tool_calls@ == r.tool_calls@,
        after_response(u, s, n).1 == LoopAction::RunTools,
    ensures
        after_response(u, s, n).0.counters.repeated_batches
            == u.counters.repeated_batches + 1 < MAX_REPEAT_TOOL_BATCH,
{
}

/// An answer without calls is the reply, and ends the run: where its text is
/// not blank and holds no thinking it is the reply as it stands, but for white
/// space around it, and is added to the messages.
pub proof fn law_answer_is_the_reply(v: RunView, r: ModelResponse, n: LoopNudges, t: Seq<char>)
    requires
        r.tool_calls@.len() == 0,
        message::opt_text(r.content) == Some(t),
        text::trim(t).len() > 0,
        !text::contains(t, "<think>"@),
        v.cfg.max_output_chars is None,
        r.finish_reason@ != "error"@,
        forall|i: int| 0 <= i < v.messages.len() ==> !is_param_error(#[trigger] v.messages[i]),
    ensures
        ({
            let w = after_response(v, r, n).0;
            &&& after_response(v, r, n).1 == LoopAction::Stop
            &&& w.content == Some(text::trim(t))
            &&& w.messages.len() == v.messages.len() + 1
            &&& w.messages.drop_last() == v.messages
            &&& w.messages.last().role == Some("assistant"@)
            &&& w.messages.last().content == ContentView::Text(text::trim(t))
            &&& w.messages.last().tool_calls is None
        }),
{
    let w = after_response(v, r, n).0;
    text::lemma_find_from(t, "<think>"@, 0);
    assert(text::find_from(t, "<think>"@, 0) is None) by {
        if let Some(i) = text::find_from(t, "<think>"@, 0) {
            assert(text::occurs_at(t, "<think>"@, i));
        }
    }
    assert(!recent_param_error(v.messages));
    assert(w.messages.drop_last() =~= v.messages);
}

/// The costs of a run are the sums of the costs of its answers.
pub proof fn law_costs_add_up(v: RunView, r: ModelResponse, n: LoopNudges)
    requires
        sums_fit(v, r),
    ensures
        ({
            let u = after_response(v, r, n).0.usage;
            &&& u.prompt_tokens == v.usage.prompt_tokens + r.usage.prompt_tokens
            &&& u.completion_tokens == v.usage.completion_tokens + r.usage.completion_tokens
            &&& u.cached_tokens == v.usage.cached_tokens + r.usage.cached_tokens
            &&& u.cache_write_tokens == v.usage.cache_write_tokens + r.usage.cache_write_tokens
        }),
        after_response(v, r, n).0.tools_used == v.tools_used,
        after_response(v, r, n).0.tool_events == v.tool_events,
{
}

/// A limit on what the model may put out stops the run exactly when the texts
/// and the thinking of its answers exceed it.
pub proof fn law_output_budget_is_kept(v: RunView, r: ModelResponse, n: LoopNudges, max: usize)
    requires
        sums_fit(v, r),
        v.cfg.max_output_chars == Some(max),
    ensures
        v.counters.output_chars + opt_len(message::opt_text(r.content)) + opt_len(
            message::opt_text(r.reasoning),
        ) == after_response(v, r, n).0.counters.output_chars,
        after_response(v, r, n).0.counters.output_chars > max ==> after_response(v, r, n).1
            == LoopAction::Stop && after_response(v, r, n).0.messages == v.messages,
        after_response(v, r, n).1 == LoopAction::RunTools ==> after_response(
            v,
            r,
            n,
        ).0.counters.output_chars <= max,
{
}

/// The tools that ran are recorded in order, each with its event.
pub proof fn law_tools_are_recorded(v: RunView, n: nat, o: ToolRoundOutcome, nudges: LoopNudges)
    ensures
        ({
            let w = after_tools(v, n, o, nudges).0;
            let per = o.per_tool@;
            &&& w.tools_used.len() == v.tools_used.len() + per.len()
            &&& w.tools_used.take(v.tools_used.len() as int) == v.tools_used
            &&& forall|k: int|
                0 <= k < per.len() ==> #[trigger] w.tools_used[v.tools_used.len() + k]
                    == per[k].tool_name@
            &&& w.tool_events.len() == v.tool_events.len() + per.len()
            &&& forall|k: int|
                0 <= k < per.len() ==> #[trigger] w.tool_events[v.tool_events.len() + k]
                    == per[k].event
        }),
{
    lemma_absorbed_messages(v, o.per_tool@);
}

/// A question to the user stops the run: it waits on that call, and the
/// question is the reply.
pub proof fn law_question_waits_for_the_user(
    v: RunView,
    n: nat,
    o: ToolRoundOutcome,
    nudges: LoopNudges,
)
    requires
        o.progressed,
        o.ask_user_pending is Some,
    ensures
        after_tools(v, n, o, nudges).1 == LoopAction::Stop,
        o.ask_user_pending matches Some(q) ==> after_tools(v, n, o, nudges).0.waiting_on == Some(
            q.0@,
        ) && after_tools(v, n, o, nudges).0.content == Some(q.1@),
{
}

/// A run goes on after a round that brought something. Rounds in a row that
/// bring nothing are counted, and stop it once they are too many.
pub proof fn law_idle_rounds_stop_the_run(
    v: RunView,
    n: nat,
    o: ToolRoundOutcome,
    nudges: LoopNudges,
)
    requires
        o.ask_user_pending is None,
        v.is_sound(),
    ensures
        o.progressed ==> after_tools(v, n, o, nudges).1 == LoopAction::Again && after_tools(
            v,
            n,
            o,
            nudges,
        ).0.counters.no_progress_rounds == 0,
        !o.progressed ==> after_tools(v, n, o, nudges).0.counters.no_progress_rounds
            == v.counters.no_progress_rounds + 1,
        !o.progressed ==> (after_tools(v, n, o, nudges).1 == LoopAction::Stop <==> after_tools(
            v,
            n,
            o,
            nudges,
        ).0.counters.no_progress_rounds >= MAX_NO_PROGRESS_ROUNDS),
{
    lemma_absorbed_frame(v, o.per_tool@);
}

/// Exploring ends with the first round in which a tool writes a file, sends
/// one or hands out subtasks, and not before.
pub proof fn law_producing_ends_exploring(
    v: RunView,
    n: nat,
    o: ToolRoundOutcome,
    nudges: LoopNudges,
)
    requires
        n == o.per_tool@.len(),
        v.counters.in_exploration,
        after_tools(v, n, o, nudges).1 == LoopAction::Again,
    ensures
        !after_tools(v, n, o, nudges).0.counters.in_exploration <==> exists|k: int|
            0 <= k < n && ((#[trigger] o.per_tool@[k]).tool_name@ == "write_file"@
                || o.per_tool@[k].tool_name@ == "edit_file"@ || o.per_tool@[k].tool_name@
                == "send_file"@ || o.per_tool@[k].tool_name@ == "dispatch_subtasks"@),
{
    let per = o.per_tool@;
    let u = absorbed(v, per);
    let f = |t: Seq<char>| loop_helpers::produces(t);
    lemma_absorbed_frame(v, per);
    lemma_absorbed_messages(v, per);
    let base = v.tools_used.len();
    if among_last(u.tools_used, n, f) {
        let i = choose|i: int|
            0 <= i < u.tools_used.len() && i >= u.tools_used.len() - n && f(
                #[trigger] u.tools_used[i],
            );
        let k = i - base;
        assert(u.tools_used[base + k] == per[k].tool_name@);
    }
    if exists|k: int| 0 <= k < n && loop_helpers::produces((#[trigger] per[k]).tool_name@) {
        let k = choose|k: int| 0 <= k < n && loop_helpers::produces((#[trigger] per[k]).tool_name@);
        assert(u.tools_used[base + k] == per[k].tool_name@);
        assert(f(u.tools_used[base + k]));
    }
}

proof fn lemma_nothing_consumed(ms: Seq<MessageView>)
    requires
        forall|i: int| 0 <= i < ms.len() ==> !loop_helpers::asks_reset(#[trigger] ms[i]),
    ensures
        loop_helpers::consumed_all(ms) == ms,
    decreases ms.len(),
{
    if ms.len() > 0 {
        let t = ms.drop_last();
        assert forall|i: int| 0 <= i < t.len() implies !loop_helpers::asks_reset(#[trigger] t[i]) by {
            assert(t[i] == ms[i]);
        }
        lemma_nothing_consumed(t);
        assert(!loop_helpers::asks_reset(ms[ms.len() - 1]));
        assert(t.push(ms.last()) =~= ms);
    } else {
        assert(loop_helpers::consumed_all(ms) =~= ms);
    }
}

proof fn lemma_no_rounds(ms: Seq<MessageView>)
    requires
        forall|i: int| 0 <= i < ms.len() ==> !(#[trigger] ms[i]).is_tool_round(),
    ensures
        loop_helpers::rounds(ms) == 0,
    decreases ms.len(),
{
    if ms.len() > 0 {
        let t = ms.skip(1);
        assert(!ms[0].is_tool_round());
        assert forall|i: int| 0 <= i < t.len() implies !(#[trigger] t[i]).is_tool_round() by {
            assert(t[i] == ms[i + 1]);
        }
        lemma_no_rounds(t);
        let p = ms.drop_last();
        assert forall|i: int| 0 <= i < p.len() implies !(#[trigger] p[i]).is_tool_round() by {
            assert(p[i] == ms[i]);
        }
        lemma_no_rounds(p);
        assert(!ms[ms.len() - 1].is_tool_round());
    }
}

/// A run on messages that no run has worked on yet starts exploring, with
/// these messages, and may begin as long as the limit allows anything.
pub proof fn law_fresh_run_begins(cfg: AgentLoop, ms: Seq<MessageView>)
    requires
        cfg.max_iterations > 0,
        forall|i: int|
            0 <= i < ms.len() ==> !(#[trigger] ms[i]).is_tool_round()
                && !loop_helpers::asks_reset(ms[i]),
    ensures
        ({
            let v = started(cfg, ms);
            &&& v.messages == ms
            &&& v.cfg == cfg
            &&& v.counters.in_exploration
            &&& v.counters.total_iterations == 0
            &&& may_begin(v.cfg, v.counters)
            &&& v.content is None
            &&& v.waiting_on is None
        }),
{
    lemma_nothing_consumed(ms);
    lemma_no_rounds(ms);
    let f = |i: int| loop_helpers::is_production_round(ms[i]);
    seqs::lemma_first_from(f, 0, ms.len() as int);
    assert(loop_helpers::first_production(ms) is None) by {
        if let Some(i) = seqs::first_from(f, 0, ms.len() as int) {
            assert(f(i));
            assert(!ms[i].is_tool_round());
        }
    }
}

/// A run that has a reply ends with it, and with its messages. One without
/// reports the limit, and says so in one more message.
pub proof fn law_reply_is_final(v: RunView)
    ensures
        v.content matches Some(t) ==> final_content(v) == t && final_messages(v) == v.messages,
        v.content is None ==> {
            let m = final_messages(v).last();
            &&& final_messages(v).len() == v.messages.len() + 1
            &&& final_messages(v).drop_last() == v.messages
            &&& m.role == Some("assistant"@)
            &&& m.content is Text
            &&& text::starts_with(m.content->Text_0, final_content(v))
            &&& m.tool_calls is None
        },
{
    if v.content is None {
        let f = final_messages(v);
        let t = f.last().content->Text_0;
        let c = final_content(v);
        assert(f.drop_last() =~= v.messages);
        assert(t.subrange(0, c.len() as int) =~= c);
    }
}

/// An answer that the model marks as failed ends the run, and what it says is
/// the reply; nothing is added to the conversation.
pub proof fn law_failed_answer_is_the_reply(v: RunView, r: ModelResponse, n: LoopNudges, t: Seq<char>)
    requires
        r.tool_calls@.len() == 0,
        message::opt_text(r.content) == Some(t),
        text::trim(t).len() > 0,
        !text::contains(t, "<think>"@),
        v.cfg.max_output_chars is None,
        r.finish_reason@ == "error"@,
    ensures
        after_response(v, r, n).1 == LoopAction::Stop,
        after_response(v, r, n).0.content == Some(text::trim(t)),
        after_response(v, r, n).0.messages == v.messages,
{
    text::lemma_contains_find(t, "<think>"@);
}

/// Once a dispatch was observed, the next round that runs tools is recorded as
/// what followed it, with the tools that were called, behind what was recorded
/// before; without one nothing is recorded.
pub proof fn law_dispatch_is_followed_up(v: RunView, r: ModelResponse, n: LoopNudges, k: int)
    requires
        after_response(v, r, n).1 == LoopAction::RunTools,
        0 <= k < r.tool_calls@.len(),
    ensures
        ({
            let w = after_response(v, r, n).0;
            &&& w.pending is None
            &&& v.pending is None ==> w.decisions == v.decisions
            &&& v.pending matches Some(o) ==> {
                let d = w.decisions.last();
                &&& w.decisions.len() == v.decisions.len() + 1
                &&& w.decisions.drop_last() == v.decisions
                &&& d.origin == Some(o.origin_iteration)
                &&& d.statuses == o.statuses
                &&& d.iteration == v.counters.total_iterations
                &&& d.next_tools.len() == r.tool_calls@.len()
                &&& d.next_tools[k] == r.tool_calls@[k].name@
            }
        }),
{
    if let Some(o) = v.pending {
        let w = after_response(v, r, n).0;
        assert(w.decisions.drop_last() =~= v.decisions);
    }
}

/// A dispatch that reports subtasks is remembered until the next round, with
/// their statuses; other tools leave what is remembered as it is.
pub proof fn law_dispatch_is_remembered(v: RunView, p: ProcessedToolResult)
    ensures
        p.tool_name@ != "dispatch_subtasks"@ ==> absorbed_one(v, p).pending == v.pending,
        p.tool_name@ == "dispatch_subtasks"@ && p.dispatch_summary is Some && (exists|i: int|
            0 <= i < p.dispatch_summary->0@.nodes.len() && (
            #[trigger] p.dispatch_summary->0@.nodes[i]).declared_result_status == "success"@) ==> (
        absorbed_one(v, p).pending matches Some(o) && o.origin_iteration
            == v.counters.total_iterations && o.statuses.contains("success"@)),
{
    if p.tool_name@ == "dispatch_subtasks"@ && p.dispatch_summary is Some {
        let nodes = p.dispatch_summary->0@.nodes;
        if exists|i: int|
            0 <= i < nodes.len() && (#[trigger] nodes[i]).declared_result_status == "success"@ {
            let i = choose|i: int|
                0 <= i < nodes.len() && (#[trigger] nodes[i]).declared_result_status == "success"@;
            reveal_strlit("success");
            reveal_strlit("unknown");
            assert("success"@.len() == 7 && "success"@[0] == 's' && "unknown"@[0] == 'u');
            dispatch::law_every_status_is_listed(nodes, i);
        }
    }
}

} // verus!

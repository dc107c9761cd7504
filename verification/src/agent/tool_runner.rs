//! One round of tool calls: what is done with each call, and what becomes of
//! each result.

use crate::agent::dispatch;
use crate::agent::dispatch::{extract_dispatch_summary, DispatchStructuredSummary};
use crate::agent::loop_helpers;
use crate::agent::loop_helpers::{
    exec_command_fingerprint, extract_inline_script, is_error_envelope, EXEC_HISTORY_WINDOW,
    EXEC_INLINE_EXTRACT_THRESHOLD, MAX_TOOL_OUTPUT_CHARS, MAX_TOOL_OUTPUT_CHARS_EXPLORE,
    READ_FILE_TOOL_MAX_CHARS, REPEAT_EXEC_BLOCK_THRESHOLD, REPEAT_EXEC_MIN_CMD_LEN,
};
use crate::agent::runtime::ToolExecutionEvent;
use crate::json;
use crate::json::{clone_members, find_text, replace_text, Json, JsonView};
use crate::message;
use crate::message::{clone_opt, ToolCallRequest};
use crate::seqs;
use crate::text;
use crate::text::{
    decimal_usize, str_byte_len, str_contains, str_ellipsis, str_eq, str_floor_prefix, str_replace,
    str_starts_with,
};
use std::collections::VecDeque;
use vstd::prelude::*;

verus! {

// ---------------------------------------------------------------------------
// What is done with a call
// ---------------------------------------------------------------------------

/// What the execution of a tool gave.
#[derive(Debug)]
pub struct ToolExecutionResult {
    pub output: String,
    pub route: String,
    pub status: String,
    pub duration_ms: u64,
    pub gate_action: String,
    pub risk_level: String,
    pub sandbox_id: Option<String>,
}

/// What the execution of a tool gave, as mathematical data.
pub struct ExecutionView {
    pub output: Seq<char>,
    pub route: Seq<char>,
    pub status: Seq<char>,
    pub duration_ms: u64,
    pub gate_action: Seq<char>,
    pub risk_level: Seq<char>,
    pub sandbox_id: Option<Seq<char>>,
}

impl View for ToolExecutionResult {
    type V = ExecutionView;

    open spec fn view(&self) -> ExecutionView {
        ExecutionView {
            output: self.output@,
            route: self.route@,
            status: self.status@,
            duration_ms: self.duration_ms,
            gate_action: self.gate_action@,
            risk_level: self.risk_level@,
            sandbox_id: message::opt_text(self.sandbox_id),
        }
    }
}

/// The result that the agent itself gives in place of an execution.
pub open spec fn own_result(output: Seq<char>, status: Seq<char>) -> ExecutionView {
    ExecutionView {
        output,
        route: "agent"@,
        status,
        duration_ms: 0,
        gate_action: "bypass"@,
        risk_level: "policy"@,
        sandbox_id: None,
    }
}

fn answer_with(output: &str, status: &str) -> (r: ToolExecutionResult)
    ensures
        r@ == own_result(output@, status@),
{
    ToolExecutionResult {
        output: output.to_owned(),
        route: "agent".to_owned(),
        status: status.to_owned(),
        duration_ms: 0,
        gate_action: "bypass".to_owned(),
        risk_level: "policy".to_owned(),
        sandbox_id: None,
    }
}

/// The answer to a dispatch that a later one of the same round replaces.
pub const SUPERSEDED: &'static str =
    "(skipped: only one dispatch_subtasks per round is executed; this was superseded by a later call)";

/// The answer to a command that was run too often already.
pub const REPEATED_EXEC: &'static str =
    "[BLOCKED] Repeated exec detected. The same large command was already run multiple times. Reuse prior evidence or merge checks into one script instead of re-running near-identical exec.";

/// What is to be done with one call of a round.
pub enum ToolStep {
    /// The call is answered without an execution.
    Answer { tool_id: String, tool_name: String, execution: ToolExecutionResult },
    /// The tool is executed with these arguments.
    Run { tool_id: String, tool_name: String, arguments: Vec<(String, Json)> },
}

/// What is to be done with one call of a round, as mathematical data.
pub enum StepView {
    Answer { tool_id: Seq<char>, tool_name: Seq<char>, execution: ExecutionView },
    Run { tool_id: Seq<char>, tool_name: Seq<char>, arguments: Seq<(Seq<char>, JsonView)> },
}

impl View for ToolStep {
    type V = StepView;

    open spec fn view(&self) -> StepView {
        match self {
            ToolStep::Answer { tool_id, tool_name, execution } => StepView::Answer {
                tool_id: tool_id@,
                tool_name: tool_name@,
                execution: execution@,
            },
            ToolStep::Run { tool_id, tool_name, arguments } => StepView::Run {
                tool_id: tool_id@,
                tool_name: tool_name@,
                arguments: json::members_view(arguments@),
            },
        }
    }
}

/// What is to be done with the calls of a round, each as mathematical data.
pub open spec fn steps_view(s: Seq<ToolStep>) -> Seq<StepView> {
    Seq::new(s.len(), |i: int| s[i]@)
}

/// Whether the call hands subtasks out.
pub open spec fn is_dispatch(c: ToolCallRequest) -> bool {
    c.name@ == "dispatch_subtasks"@
}

/// The id of the last dispatch of a round.
pub open spec fn last_dispatch(calls: Seq<ToolCallRequest>) -> Option<Seq<char>>
    decreases calls.len(),
{
    if calls.len() == 0 {
        None
    } else if is_dispatch(calls.last()) {
        Some(calls.last().id@)
    } else {
        last_dispatch(calls.drop_last())
    }
}

/// Whether the call is a dispatch and a later one of the round takes its
/// place.
pub open spec fn is_superseded(calls: Seq<ToolCallRequest>, c: ToolCallRequest) -> bool {
    &&& is_dispatch(c)
    &&& seqs::count(calls, |x: ToolCallRequest| is_dispatch(x)) > 1
    &&& last_dispatch(calls) != Some(c.id@)
}

/// The command of a call where it is a text.
pub open spec fn command_of(c: ToolCallRequest) -> Option<Seq<char>> {
    json::member_text(json::members_view(c.arguments@), "command"@)
}

/// How often a command was run of late.
pub open spec fn repeats(recent: Seq<u64>, cmd: Seq<char>) -> nat {
    seqs::count(recent, |x: u64| x == loop_helpers::text_hash(loop_helpers::folded(cmd)))
}

/// How often a long command may have been run of late; once more while the
/// agent explores.
pub open spec fn repeat_limit(in_exploration: bool) -> int {
    if in_exploration {
        REPEAT_EXEC_BLOCK_THRESHOLD + 1
    } else {
        REPEAT_EXEC_BLOCK_THRESHOLD as int
    }
}

/// Whether the call runs a long command that was run too often already.
pub open spec fn is_repeated(c: ToolCallRequest, recent: Seq<u64>, in_exploration: bool) -> bool {
    &&& command_of(c) is Some
    &&& text::byte_len(command_of(c)->0) >= REPEAT_EXEC_MIN_CMD_LEN
    &&& repeats(recent, command_of(c)->0) >= repeat_limit(in_exploration)
}

/// The arguments with which the tool is executed: those of the call, but a
/// very long inline script is fed to the interpreter on standard input.
pub open spec fn run_arguments(c: ToolCallRequest) -> Seq<(Seq<char>, JsonView)> {
    let given = json::members_view(c.arguments@);
    match command_of(c) {
        Some(cmd) => if c.name@ == "exec"@ && text::byte_len(cmd) > EXEC_INLINE_EXTRACT_THRESHOLD {
            match loop_helpers::inline_python(text::trim(cmd)) {
                Some(p) => json::with_member(
                    given,
                    "command"@,
                    JsonView::Text(loop_helpers::heredoc(p.0, p.1)),
                ),
                None => given,
            }
        } else {
            given
        },
        None => given,
    }
}

/// What a round depends on besides its calls.
pub struct RoundContext {
    /// Whether the agent still explores.
    pub in_exploration: bool,
    /// Whether commands are refused because the agent explored for too long.
    pub exec_blocked: bool,
    /// What a command is answered then.
    pub block_notice: String,
}

/// What is done with a call.
pub open spec fn planned(
    calls: Seq<ToolCallRequest>,
    c: ToolCallRequest,
    ctx: RoundContext,
    recent: Seq<u64>,
) -> StepView {
    if is_superseded(calls, c) {
        StepView::Answer {
            tool_id: c.id@,
            tool_name: c.name@,
            execution: own_result(SUPERSEDED@, "skipped"@),
        }
    } else if c.name@ == "exec"@ && ctx.exec_blocked {
        StepView::Answer {
            tool_id: c.id@,
            tool_name: c.name@,
            execution: own_result(ctx.block_notice@, "blocked"@),
        }
    } else if c.name@ == "exec"@ && is_repeated(c, recent, ctx.in_exploration) {
        StepView::Answer {
            tool_id: c.id@,
            tool_name: c.name@,
            execution: own_result(REPEATED_EXEC@, "blocked"@),
        }
    } else {
        StepView::Run { tool_id: c.id@, tool_name: c.name@, arguments: run_arguments(c) }
    }
}

/// The position of the first call that asks the user something, else the
/// number of calls.
pub open spec fn until_question(calls: Seq<ToolCallRequest>) -> nat
    decreases calls.len(),
{
    if calls.len() == 0 || calls[0].name@ == "ask_user"@ {
        0
    } else {
        1 + until_question(calls.skip(1))
    }
}

/// The question of a call, or the empty text.
pub open spec fn question_of(c: ToolCallRequest) -> Seq<char> {
    match json::member_text(json::members_view(c.arguments@), "question"@) {
        Some(q) => q,
        None => Seq::empty(),
    }
}

/// What is to be done in a round: the steps for the calls in front of the
/// first question, and that question with the id of its call.
pub struct RoundPlan {
    pub steps: Vec<ToolStep>,
    pub ask_user_pending: Option<(String, String)>,
}

/// What is to be done with the calls in front of the first question.
pub open spec fn round_steps(
    calls: Seq<ToolCallRequest>,
    ctx: RoundContext,
    recent: Seq<u64>,
) -> Seq<StepView> {
    Seq::new(until_question(calls), |i: int| planned(calls, calls[i], ctx, recent))
}

/// The first question of a round.
pub open spec fn round_question(calls: Seq<ToolCallRequest>) -> Option<(Seq<char>, Seq<char>)> {
    let n = until_question(calls);
    if n < calls.len() {
        Some((calls[n as int].id@, question_of(calls[n as int])))
    } else {
        None
    }
}

/// A pair of texts as mathematical data.
pub open spec fn pair_view(p: Option<(String, String)>) -> Option<(Seq<char>, Seq<char>)> {
    match p {
        Some(q) => Some((q.0@, q.1@)),
        None => None,
    }
}

/// How many of the calls hand subtasks out, and the id of the last of them.
fn dispatches(calls: &Vec<ToolCallRequest>) -> (r: (usize, Option<String>))
    ensures
        r.0 == seqs::count(calls@, |x: ToolCallRequest| is_dispatch(x)),
        message::opt_text(r.1) == last_dispatch(calls@),
{
    let ghost f = |x: ToolCallRequest| is_dispatch(x);
    let mut n: usize = 0;
    let mut last: Option<String> = None;
    let mut i: usize = 0;
    while i < calls.len()
        invariant
            0 <= i <= calls@.len(),
            n <= i,
            f == (|x: ToolCallRequest| is_dispatch(x)),
            n == seqs::count(calls@.take(i as int), f),
            message::opt_text(last) == last_dispatch(calls@.take(i as int)),
        decreases calls@.len() - i,
    {
        proof {
            assert(calls@.take(i + 1).drop_last() =~= calls@.take(i as int));
            assert(calls@.take(i + 1).last() == calls@[i as int]);
        }
        if str_eq(calls[i].name.as_str(), "dispatch_subtasks") {
            n += 1;
            last = Some(calls[i].id.clone());
        }
        i += 1;
    }
    proof {
        assert(calls@.take(i as int) =~= calls@);
    }
    (n, last)
}

fn count_recent(recent: &VecDeque<u64>, fp: u64) -> (r: usize)
    ensures
        r == seqs::count(recent@, |x: u64| x == fp),
{
    let ghost f = |x: u64| x == fp;
    let mut n: usize = 0;
    let mut i: usize = 0;
    while i < recent.len()
        invariant
            0 <= i <= recent@.len(),
            n <= i,
            f == (|x: u64| x == fp),
            n == seqs::count(recent@.take(i as int), f),
        decreases recent@.len() - i,
    {
        proof {
            assert(recent@.take(i + 1).drop_last() =~= recent@.take(i as int));
            assert(recent@.take(i + 1).last() == recent@[i as int]);
        }
        if recent[i] == fp {
            n += 1;
        }
        i += 1;
    }
    proof {
        assert(recent@.take(i as int) =~= recent@);
    }
    n
}

fn repeats_too_often(c: &ToolCallRequest, recent: &VecDeque<u64>, in_exploration: bool) -> (r: bool)
    ensures
        r == is_repeated(*c, recent@, in_exploration),
{
    match find_text(&c.arguments, "command") {
        Some(cmd) => {
            if str_byte_len(cmd) < REPEAT_EXEC_MIN_CMD_LEN {
                return false;
            }
            let fp = exec_command_fingerprint(cmd);
            let n = count_recent(recent, fp);
            proof {
                let f = |x: u64| x == fp;
                let g = |x: u64| x == loop_helpers::text_hash(loop_helpers::folded(cmd@));
                assert(f =~= g);
            }
            if in_exploration {
                n >= REPEAT_EXEC_BLOCK_THRESHOLD + 1
            } else {
                n >= REPEAT_EXEC_BLOCK_THRESHOLD
            }
        },
        None => false,
    }
}

fn arguments_to_run(c: &ToolCallRequest) -> (r: Vec<(String, Json)>)
    ensures
        json::members_view(r@) == run_arguments(*c),
{
    match find_text(&c.arguments, "command") {
        Some(cmd) => {
            if str_eq(c.name.as_str(), "exec") && str_byte_len(cmd) > EXEC_INLINE_EXTRACT_THRESHOLD {
                match extract_inline_script(cmd) {
                    Some(new_cmd) => replace_text(&c.arguments, "command", new_cmd.as_str()),
                    None => clone_members(&c.arguments),
                }
            } else {
                clone_members(&c.arguments)
            }
        },
        None => clone_members(&c.arguments),
    }
}

/// Decides what is done with each call of a round: a dispatch that a later one
/// replaces, a command that is blocked and a long command that was run too
/// often of late are answered by the agent itself; the others are executed.
/// A call that asks the user something ends the round.
pub fn plan_tool_calls_round(
    calls: &Vec<ToolCallRequest>,
    ctx: &RoundContext,
    recent: &VecDeque<u64>,
) -> (r: RoundPlan)
    ensures
        steps_view(r.steps@) == round_steps(calls@, *ctx, recent@),
        pair_view(r.ask_user_pending) == round_question(calls@),
{
    let (dispatch_count, last_id) = dispatches(calls);
    let mut steps: Vec<ToolStep> = Vec::new();
    let mut i: usize = 0;
    proof {
        assert(calls@.skip(0) =~= calls@);
    }
    while i < calls.len()
        invariant
            0 <= i <= calls@.len(),
            dispatch_count == seqs::count(calls@, |x: ToolCallRequest| is_dispatch(x)),
            message::opt_text(last_id) == last_dispatch(calls@),
            i + until_question(calls@.skip(i as int)) == until_question(calls@),
            steps@.len() == i,
            forall|k: int|
                0 <= k < i ==> (#[trigger] steps@[k])@ == planned(calls@, calls@[k], *ctx, recent@),
        decreases calls@.len() - i,
    {
        let c = &calls[i];
        proof {
            assert(calls@.skip(i as int)[0] == *c);
            assert(calls@.skip(i as int).skip(1) =~= calls@.skip(i + 1));
        }
        if str_eq(c.name.as_str(), "ask_user") {
            proof {
                assert(steps_view(steps@) =~= round_steps(calls@, *ctx, recent@));
            }
            let question = match find_text(&c.arguments, "question") {
                Some(q) => q.to_owned(),
                None => String::new(),
            };
            return RoundPlan { steps, ask_user_pending: Some((c.id.clone(), question)) };
        }
        let is_last = match &last_id {
            Some(id) => str_eq(id.as_str(), c.id.as_str()),
            None => false,
        };
        let is_exec = str_eq(c.name.as_str(), "exec");
        let step = if str_eq(c.name.as_str(), "dispatch_subtasks") && dispatch_count > 1
            && !is_last {
            ToolStep::Answer {
                tool_id: c.id.clone(),
                tool_name: c.name.clone(),
                execution: answer_with(SUPERSEDED, "skipped"),
            }
        } else if is_exec && ctx.exec_blocked {
            ToolStep::Answer {
                tool_id: c.id.clone(),
                tool_name: c.name.clone(),
                execution: answer_with(ctx.block_notice.as_str(), "blocked"),
            }
        } else if is_exec && repeats_too_often(c, recent, ctx.in_exploration) {
            ToolStep::Answer {
                tool_id: c.id.clone(),
                tool_name: c.name.clone(),
                execution: answer_with(REPEATED_EXEC, "blocked"),
            }
        } else {
            ToolStep::Run {
                tool_id: c.id.clone(),
                tool_name: c.name.clone(),
                arguments: arguments_to_run(c),
            }
        };
        steps.push(step);
        i += 1;
    }
    proof {
        assert(steps_view(steps@) =~= round_steps(calls@, *ctx, recent@));
    }
    RoundPlan { steps, ask_user_pending: None }
}

// ---------------------------------------------------------------------------
// Laws of the plan
// ---------------------------------------------------------------------------

proof fn lemma_until_question(calls: Seq<ToolCallRequest>)
    ensures
        until_question(calls) <= calls.len(),
        forall|i: int|
            0 <= i < until_question(calls) ==> (#[trigger] calls[i]).name@ != "ask_user"@,
        until_question(calls) < calls.len() ==> calls[until_question(calls) as int].name@
            == "ask_user"@,
    decreases calls.len(),
{
    if calls.len() > 0 && calls[0].name@ != "ask_user"@ {
        let rest = calls.skip(1);
        lemma_until_question(rest);
        assert forall|i: int| 0 <= i < until_question(calls) implies (#[trigger] calls[i]).name@
            != "ask_user"@ by {
            if i > 0 {
                assert(rest[i - 1] == calls[i]);
            }
        }
        if until_question(calls) < calls.len() {
            assert(rest[until_question(rest) as int] == calls[until_question(calls) as int]);
        }
    }
}

/// Whether a step executes that tool.
pub open spec fn runs(s: StepView, name: Seq<char>) -> bool {
    s is Run && s->Run_tool_name == name
}

proof fn lemma_last_dispatch(calls: Seq<ToolCallRequest>, i: int)
    requires
        0 <= i < calls.len(),
        is_dispatch(calls[i]),
    ensures
        last_dispatch(calls) is Some,
        seqs::count(calls, |x: ToolCallRequest| is_dispatch(x)) >= 1,
        seqs::count(calls, |x: ToolCallRequest| is_dispatch(x)) == 1 ==> last_dispatch(calls)
            == Some(calls[i].id@),
    decreases calls.len(),
{
    let f = |x: ToolCallRequest| is_dispatch(x);
    if i < calls.len() - 1 {
        lemma_last_dispatch(calls.drop_last(), i);
    } else {
        assert(f(calls.last()));
    }
}

/// Every dispatch that a round executes has the id of the last one: no two
/// dispatches with different ids are executed in one round.
pub proof fn law_one_dispatch_per_round(
    calls: Seq<ToolCallRequest>,
    ctx: RoundContext,
    recent: Seq<u64>,
    i: int,
)
    requires
        0 <= i < round_steps(calls, ctx, recent).len(),
        runs(round_steps(calls, ctx, recent)[i], "dispatch_subtasks"@),
    ensures
        last_dispatch(calls) == Some(round_steps(calls, ctx, recent)[i]->Run_tool_id),
{
    lemma_until_question(calls);
    lemma_last_dispatch(calls, i);
}

/// Where commands are blocked, a round executes none.
pub proof fn law_blocked_round_runs_no_command(
    calls: Seq<ToolCallRequest>,
    ctx: RoundContext,
    recent: Seq<u64>,
    i: int,
)
    requires
        ctx.exec_blocked,
        0 <= i < round_steps(calls, ctx, recent).len(),
    ensures
        !runs(round_steps(calls, ctx, recent)[i], "exec"@),
{
}

/// The calls in front of the first question are dealt with in order, each
/// under its own id and name; a question is never executed, and without one no
/// call is left out.
pub proof fn law_round_answers_every_call(
    calls: Seq<ToolCallRequest>,
    ctx: RoundContext,
    recent: Seq<u64>,
)
    ensures
        round_steps(calls, ctx, recent).len() == until_question(calls) <= calls.len(),
        round_question(calls) is None <==> until_question(calls) == calls.len(),
        round_question(calls) is Some ==> calls[until_question(calls) as int].name@ == "ask_user"@,
        forall|i: int|
            0 <= i < until_question(calls) ==> {
                let s = #[trigger] round_steps(calls, ctx, recent)[i];
                &&& calls[i].name@ != "ask_user"@
                &&& s is Run ==> s->Run_tool_id == calls[i].id@ && s->Run_tool_name
                    == calls[i].name@
                &&& s is Answer ==> s->Answer_tool_id == calls[i].id@ && s->Answer_tool_name
                    == calls[i].name@
            },
{
    lemma_until_question(calls);
}

// ---------------------------------------------------------------------------
// What becomes of a result
// ---------------------------------------------------------------------------

/// What an executed call gave.
pub struct ExecutedTool {
    pub tool_id: String,
    pub tool_name: String,
    pub execution: ToolExecutionResult,
}

/// A tool result as it goes into the conversation.
pub struct ProcessedToolResult {
    pub tool_id: String,
    pub tool_name: String,
    pub result: String,
    pub original_len: usize,
    pub status: String,
    pub route: String,
    pub duration_ms: u64,
    pub event: ToolExecutionEvent,
    pub dispatch_summary: Option<DispatchStructuredSummary>,
}

/// What a round of tool calls gave.
pub struct ToolRoundOutcome {
    pub per_tool: Vec<ProcessedToolResult>,
    pub progressed: bool,
    /// The id of the call that asks the user something, and the question.
    pub ask_user_pending: Option<(String, String)>,
}

/// How many bytes of a result are kept.
pub open spec fn output_limit(tool: Seq<char>, in_exploration: bool) -> nat {
    if tool == "read_file"@ {
        READ_FILE_TOOL_MAX_CHARS as nat
    } else if in_exploration {
        MAX_TOOL_OUTPUT_CHARS_EXPLORE as nat
    } else {
        MAX_TOOL_OUTPUT_CHARS as nat
    }
}

/// Whether a result holds an image, which is passed on whole.
pub open spec fn holds_image(output: Seq<char>) -> bool {
    text::contains(output, "[[IMAGE:data:image/"@)
}

/// What stands behind a result that was cut.
pub open spec fn cut_note(limit: nat, len: nat, in_exploration: bool) -> Seq<char> {
    let head = "\n\n... [Output truncated: showing "@ + text::dec(limit) + "/"@ + text::dec(len);
    if in_exploration {
        head + " chars]\n[EXPLORATION PHASE — HARD RULE]: Output was too large.\n❌ DO NOT read 'remaining rows from line N' — this is forbidden paging.\n❌ DO NOT print sheets row by row with for-loops.\n❌ DO NOT call exec again just to see more data.\n✅ Use df.head(3), df.shape, df.dtypes, df.describe() ONLY.\n✅ Inspect ALL sheets in ONE exec call using a loop.\n✅ After "@
            + text::dec(limit)
            + " chars you have enough structure info — start writing the solution script NOW."@
    } else {
        head
            + " chars]\n[SYSTEM WARNING]: The output is too large. DO NOT try to print raw data page by page. STOP inspecting data visually. Write a script to aggregate/filter data instead."@
    }
}

/// Whether a result is cut.
pub open spec fn is_cut(tool: Seq<char>, output: Seq<char>, in_exploration: bool) -> bool {
    !holds_image(output) && text::byte_len(output) > output_limit(tool, in_exploration)
}

/// A result as it goes into the conversation.
pub open spec fn shown(tool: Seq<char>, output: Seq<char>, in_exploration: bool) -> Seq<char> {
    let limit = output_limit(tool, in_exploration);
    if is_cut(tool, output, in_exploration) {
        text::floor_prefix(output, limit) + cut_note(limit, text::byte_len(output), in_exploration)
    } else {
        output
    }
}

/// How many bytes of a result are kept.
pub fn output_limit_of(tool_name: &str, in_exploration: bool) -> (r: usize)
    ensures
        r == output_limit(tool_name@, in_exploration),
{
    if str_eq(tool_name, "read_file") {
        READ_FILE_TOOL_MAX_CHARS
    } else if in_exploration {
        MAX_TOOL_OUTPUT_CHARS_EXPLORE
    } else {
        MAX_TOOL_OUTPUT_CHARS
    }
}

/// A result as it goes into the conversation, and whether it was cut.
pub fn truncate_tool_output(tool_name: &str, output: &str, in_exploration: bool) -> (r: (
    String,
    bool,
))
    ensures
        r.0@ == shown(tool_name@, output@, in_exploration),
        r.1 == is_cut(tool_name@, output@, in_exploration),
{
    let limit = output_limit_of(tool_name, in_exploration);
    let len = str_byte_len(output);
    if str_contains(output, "[[IMAGE:data:image/") || len <= limit {
        return (output.to_owned(), false);
    }
    let limit_text = decimal_usize(limit);
    let len_text = decimal_usize(len);
    let mut r = str_floor_prefix(output, limit);
    let ghost kept = r@;
    let mut note = "\n\n... [Output truncated: showing ".to_owned();
    note.push_str(limit_text.as_str());
    note.push_str("/");
    note.push_str(len_text.as_str());
    if in_exploration {
        note.push_str(
            " chars]\n[EXPLORATION PHASE — HARD RULE]: Output was too large.\n❌ DO NOT read 'remaining rows from line N' — this is forbidden paging.\n❌ DO NOT print sheets row by row with for-loops.\n❌ DO NOT call exec again just to see more data.\n✅ Use df.head(3), df.shape, df.dtypes, df.describe() ONLY.\n✅ Inspect ALL sheets in ONE exec call using a loop.\n✅ After ",
        );
        note.push_str(limit_text.as_str());
        note.push_str(
            " chars you have enough structure info — start writing the solution script NOW.",
        );
    } else {
        note.push_str(
            " chars]\n[SYSTEM WARNING]: The output is too large. DO NOT try to print raw data page by page. STOP inspecting data visually. Write a script to aggregate/filter data instead.",
        );
    }
    r.push_str(note.as_str());
    (r, true)
}

/// A cut result starts with as much of the output as the limit takes, and with
/// no more.
pub proof fn law_cut_result_keeps_prefix(tool: Seq<char>, output: Seq<char>, in_exploration: bool)
    requires
        is_cut(tool, output, in_exploration),
    ensures
        ({
            let limit = output_limit(tool, in_exploration);
            let kept = text::floor_prefix(output, limit);
            &&& text::byte_len(kept) <= limit
            &&& kept.len() < output.len()
            &&& text::byte_len(output.take(kept.len() as int + 1)) > limit
            &&& text::starts_with(shown(tool, output, in_exploration), kept)
        }),
{
    let limit = output_limit(tool, in_exploration);
    let kept = text::floor_prefix(output, limit);
    text::lemma_floor_chars(output, limit);
    let s = shown(tool, output, in_exploration);
    assert(s.subrange(0, kept.len() as int) =~= kept);
}

/// A result with an image goes into the conversation whole.
pub proof fn law_image_is_never_cut(tool: Seq<char>, output: Seq<char>, in_exploration: bool)
    requires
        holds_image(output),
    ensures
        shown(tool, output, in_exploration) == output,
{
}

/// The beginning of a result on one line.
pub open spec fn result_preview(result: Seq<char>) -> Seq<char> {
    text::ellipsized(text::replace_all(result, "\n"@, "\\n"@), 160)
}

/// The beginning of a result on one line.
pub fn build_result_preview(result: &str) -> (r: String)
    ensures
        r@ == result_preview(result@),
{
    proof {
        reveal_strlit("\n");
    }
    let sanitized = str_replace(result, "\n", "\\n");
    str_ellipsis(sanitized.as_str(), 160)
}

/// The status of a result: a result that succeeded but reports an error is an
/// error.
pub open spec fn settled(status: Seq<char>, reports_error: bool) -> Seq<char> {
    if status == "ok"@ && reports_error {
        "error"@
    } else {
        status
    }
}

/// Whether a result takes the task forward.
pub open spec fn advances(status: Seq<char>, result: Seq<char>, reports_error: bool) -> bool {
    &&& status != "denied"@
    &&& status != "error"@
    &&& status != "blocked"@
    &&& !text::starts_with(result, "[DENIED]"@)
    &&& !reports_error
}

/// The status of a result, and whether it takes the task forward;
/// `reports_error` says whether the result is the JSON text of an error.
pub fn settle_status(status: &str, result: &str, reports_error: bool) -> (r: (String, bool))
    ensures
        r.0@ == settled(status@, reports_error),
        r.1 == advances(settled(status@, reports_error), result@, reports_error),
{
    let settled_status = if str_eq(status, "ok") && reports_error {
        "error".to_owned()
    } else {
        status.to_owned()
    };
    let s = settled_status.as_str();
    let progressed = !str_eq(s, "denied") && !str_eq(s, "error") && !str_eq(s, "blocked")
        && !str_starts_with(result, "[DENIED]") && !reports_error;
    (settled_status, progressed)
}

/// Whether a result is the JSON text of an error.
pub open spec fn reports_error(result: Seq<char>) -> bool {
    loop_helpers::is_error_json(json::parsed(result))
}

/// Whether `p` is what becomes of an executed call.
pub open spec fn is_processed(x: ExecutedTool, in_exploration: bool, p: ProcessedToolResult) -> bool {
    let clean = dispatch::visible(x.execution.output@);
    let result = shown(x.tool_name@, clean, in_exploration);
    let status = settled(x.execution.status@, reports_error(result));
    &&& p.tool_id@ == x.tool_id@
    &&& p.tool_name@ == x.tool_name@
    &&& p.result@ == result
    &&& p.original_len == text::byte_len(clean)
    &&& p.status@ == status
    &&& p.route@ == x.execution.route@
    &&& p.duration_ms == x.execution.duration_ms
    &&& is_event(x, in_exploration, p.event)
    &&& dispatch::opt_summary_view(p.dispatch_summary) == dispatch::summary_of_output(
        x.execution.output@,
    )
}

/// Whether `e` is the record of an executed call.
pub open spec fn is_event(x: ExecutedTool, in_exploration: bool, e: ToolExecutionEvent) -> bool {
    let clean = dispatch::visible(x.execution.output@);
    let result = shown(x.tool_name@, clean, in_exploration);
    &&& e.tool_id@ == x.tool_id@
    &&& e.tool_name@ == x.tool_name@
    &&& e.route@ == x.execution.route@
    &&& e.status@ == settled(x.execution.status@, reports_error(result))
    &&& e.duration_ms == x.execution.duration_ms
    &&& e.original_len == text::byte_len(clean)
    &&& e.result_len == text::byte_len(result)
    &&& e.truncated == is_cut(x.tool_name@, clean, in_exploration)
    &&& e.gate_action@ == x.execution.gate_action@
    &&& e.risk_level@ == x.execution.risk_level@
    &&& message::opt_text(e.sandbox_id) == message::opt_text(x.execution.sandbox_id)
    &&& e.result_preview@ == result_preview(result)
}

/// Whether an executed call takes the task forward.
pub open spec fn tool_advances(x: ExecutedTool, in_exploration: bool) -> bool {
    let result = shown(x.tool_name@, dispatch::visible(x.execution.output@), in_exploration);
    advances(settled(x.execution.status@, reports_error(result)), result, reports_error(result))
}

/// What becomes of an executed call, and whether it takes the task forward.
pub fn process_tool_result(x: ExecutedTool, in_exploration: bool) -> (r: (ProcessedToolResult, bool))
    ensures
        is_processed(x, in_exploration, r.0),
        r.1 == tool_advances(x, in_exploration),
{
    let (clean, dispatch_summary) = extract_dispatch_summary(x.execution.output.as_str());
    let original_len = str_byte_len(clean.as_str());
    let (result, truncated) = truncate_tool_output(
        x.tool_name.as_str(),
        clean.as_str(),
        in_exploration,
    );
    let is_error = is_error_envelope(result.as_str());
    let (status, progressed) = settle_status(
        x.execution.status.as_str(),
        result.as_str(),
        is_error,
    );
    let result_len = str_byte_len(result.as_str());
    let preview = build_result_preview(result.as_str());
    let event = ToolExecutionEvent {
        tool_id: x.tool_id.clone(),
        tool_name: x.tool_name.clone(),
        route: x.execution.route.clone(),
        status: status.clone(),
        duration_ms: x.execution.duration_ms,
        original_len,
        result_len,
        truncated,
        gate_action: x.execution.gate_action.clone(),
        risk_level: x.execution.risk_level.clone(),
        sandbox_id: clone_opt(&x.execution.sandbox_id),
        result_preview: preview,
    };
    let p = ProcessedToolResult {
        tool_id: x.tool_id.clone(),
        tool_name: x.tool_name.clone(),
        result,
        original_len,
        status,
        route: x.execution.route.clone(),
        duration_ms: x.execution.duration_ms,
        event,
        dispatch_summary,
    };
    (p, progressed)
}

// ---------------------------------------------------------------------------
// Recent commands
// ---------------------------------------------------------------------------

/// The last entries, as many as the history of commands holds.
pub open spec fn windowed(s: Seq<u64>) -> Seq<u64> {
    if s.len() > EXEC_HISTORY_WINDOW {
        s.skip(s.len() - EXEC_HISTORY_WINDOW as int)
    } else {
        s
    }
}

/// Adds a command to the history, which forgets the oldest where it is full.
pub fn remember_command(recent: &mut VecDeque<u64>, fp: u64)
    ensures
        final(recent)@ == windowed(old(recent)@.push(fp)),
{
    let ghost all = recent@.push(fp);
    recent.push_back(fp);
    let ghost mut gone: int = 0;
    while recent.len() > EXEC_HISTORY_WINDOW
        invariant
            0 <= gone <= all.len(),
            recent@ == all.skip(gone),
            gone == 0 || recent@.len() >= EXEC_HISTORY_WINDOW,
        decreases recent@.len(),
    {
        let _oldest = recent.pop_front();
        proof {
            gone = gone + 1;
            assert(recent@ =~= all.skip(gone));
        }
    }
    proof {
        if gone == 0 {
            assert(all.skip(0) =~= all);
        }
    }
}

/// The fingerprint of the command of the call with that id.
pub open spec fn fingerprint_in(calls: Seq<ToolCallRequest>, id: Seq<char>) -> Option<u64>
    decreases calls.len(),
{
    if calls.len() == 0 {
        None
    } else if calls.last().name@ == "exec"@ && calls.last().id@ == id && command_of(calls.last())
        is Some {
        Some(loop_helpers::text_hash(loop_helpers::folded(command_of(calls.last())->0)))
    } else {
        fingerprint_in(calls.drop_last(), id)
    }
}

fn fingerprint_of(calls: &Vec<ToolCallRequest>, id: &str) -> (r: Option<u64>)
    ensures
        r == fingerprint_in(calls@, id@),
{
    let mut i: usize = calls.len();
    proof {
        assert(calls@.take(i as int) =~= calls@);
    }
    while i > 0
        invariant
            0 <= i <= calls@.len(),
            fingerprint_in(calls@, id@) == fingerprint_in(calls@.take(i as int), id@),
        decreases i,
    {
        proof {
            assert(calls@.take(i as int).drop_last() =~= calls@.take(i - 1));
            assert(calls@.take(i as int).last() == calls@[i - 1]);
        }
        i -= 1;
        let c = &calls[i];
        if str_eq(c.name.as_str(), "exec") && str_eq(c.id.as_str(), id) {
            match find_text(&c.arguments, "command") {
                Some(cmd) => {
                    return Some(exec_command_fingerprint(cmd));
                },
                None => {},
            }
        }
    }
    None
}

/// The history of commands after one more executed call.
pub open spec fn recent_after_one(
    recent: Seq<u64>,
    calls: Seq<ToolCallRequest>,
    x: ExecutedTool,
) -> Seq<u64> {
    match fingerprint_in(calls, x.tool_id@) {
        Some(fp) => if x.tool_name@ == "exec"@ {
            windowed(recent.push(fp))
        } else {
            recent
        },
        None => recent,
    }
}

/// The history of commands after the executed calls of a round.
pub open spec fn recent_after(
    recent: Seq<u64>,
    calls: Seq<ToolCallRequest>,
    executed: Seq<ExecutedTool>,
) -> Seq<u64>
    decreases executed.len(),
{
    if executed.len() == 0 {
        recent
    } else {
        recent_after_one(
            recent_after(recent, calls, executed.drop_last()),
            calls,
            executed.last(),
        )
    }
}

/// What becomes of the executed calls of a round, in order; whether any of
/// them took the task forward; and the commands that were run, which go into
/// the history.
pub fn finish_tool_calls_round(
    calls: &Vec<ToolCallRequest>,
    executed: Vec<ExecutedTool>,
    ask_user_pending: Option<(String, String)>,
    in_exploration: bool,
    recent: &mut VecDeque<u64>,
) -> (r: ToolRoundOutcome)
    ensures
        r.per_tool@.len() == executed@.len(),
        forall|i: int|
            0 <= i < executed@.len() ==> is_processed(
                executed@[i],
                in_exploration,
                #[trigger] r.per_tool@[i],
            ),
        r.progressed <==> exists|i: int|
            0 <= i < executed@.len() && tool_advances(#[trigger] executed@[i], in_exploration),
        r.ask_user_pending == ask_user_pending,
        final(recent)@ == recent_after(old(recent)@, calls@, executed@),
{
    let ghost all = executed@;
    let ghost recent0 = recent@;
    let n: usize = executed.len();
    let mut rest = executed;
    let mut per_tool: Vec<ProcessedToolResult> = Vec::new();
    let mut progressed = false;
    let mut i: usize = 0;
    while i < n
        invariant
            0 <= i <= n == all.len(),
            rest@ == all.skip(i as int),
            per_tool@.len() == i,
            forall|k: int|
                0 <= k < i ==> is_processed(all[k], in_exploration, #[trigger] per_tool@[k]),
            progressed <==> exists|k: int|
                0 <= k < i && tool_advances(#[trigger] all[k], in_exploration),
            recent@ == recent_after(recent0, calls@, all.take(i as int)),
        decreases n - i,
    {
        let x = rest.remove(0);
        proof {
            assert(x == all[i as int]);
            assert(rest@ =~= all.skip(i + 1));
            assert(all.take(i + 1).drop_last() =~= all.take(i as int));
            assert(all.take(i + 1).last() == x);
        }
        if str_eq(x.tool_name.as_str(), "exec") {
            match fingerprint_of(calls, x.tool_id.as_str()) {
                Some(fp) => remember_command(recent, fp),
                None => {},
            }
        }
        let (p, advanced) = process_tool_result(x, in_exploration);
        if advanced {
            progressed = true;
        }
        per_tool.push(p);
        i += 1;
    }
    proof {
        assert(all.take(i as int) =~= all);
    }
    ToolRoundOutcome { per_tool, progressed, ask_user_pending }
}

/// The history of commands never grows beyond its window.
pub proof fn law_command_history_is_bounded(
    recent: Seq<u64>,
    calls: Seq<ToolCallRequest>,
    executed: Seq<ExecutedTool>,
)
    requires
        recent.len() <= EXEC_HISTORY_WINDOW,
    ensures
        recent_after(recent, calls, executed).len() <= EXEC_HISTORY_WINDOW,
    decreases executed.len(),
{
    if executed.len() > 0 {
        law_command_history_is_bounded(recent, calls, executed.drop_last());
    }
}

// ---------------------------------------------------------------------------
// Laws
// ---------------------------------------------------------------------------

/// The calls of a round in front of the first question are executed with the
/// arguments that were given, but for subtasks that are handed out twice, and
/// for commands that are blocked, repeated or very long.
pub proof fn law_calls_are_executed_as_given(
    calls: Seq<ToolCallRequest>,
    ctx: RoundContext,
    recent: Seq<u64>,
    i: int,
)
    requires
        0 <= i < calls.len(),
        forall|j: int| 0 <= j <= i ==> (#[trigger] calls[j]).name@ != "ask_user"@,
    ensures
        i < round_steps(calls, ctx, recent).len(),
        ({
            let s = round_steps(calls, ctx, recent)[i];
            let c = calls[i];
            let run = StepView::Run {
                tool_id: c.id@,
                tool_name: c.name@,
                arguments: json::members_view(c.arguments@),
            };
            let cmd = json::member_text(json::members_view(c.arguments@), "command"@);
            &&& c.name@ != "exec"@ && c.name@ != "dispatch_subtasks"@ ==> s == run
            &&& c.name@ == "dispatch_subtasks"@ && (forall|j: int|
                0 <= j < calls.len() && j != i ==> (#[trigger] calls[j]).name@
                    != "dispatch_subtasks"@) ==> s == run
            &&& c.name@ == "exec"@ && !ctx.exec_blocked && cmd is None ==> s == run
            &&& c.name@ == "exec"@ && !ctx.exec_blocked && cmd is Some && text::byte_len(cmd->0)
                < REPEAT_EXEC_MIN_CMD_LEN ==> s == run
            &&& c.name@ == "exec"@ && !ctx.exec_blocked && cmd is Some && !recent.contains(
                loop_helpers::text_hash(loop_helpers::folded(cmd->0)),
            ) ==> s is Run && s->Run_tool_id == c.id@ && (text::byte_len(cmd->0)
                <= EXEC_INLINE_EXTRACT_THRESHOLD ==> s == run)
        }),
{
    lemma_until_question(calls);
    lemma_before_question(calls, i);
    let c = calls[i];
    let f = |x: ToolCallRequest| is_dispatch(x);
    if c.name@ == "dispatch_subtasks"@ && (forall|j: int|
        0 <= j < calls.len() && j != i ==> (#[trigger] calls[j]).name@ != "dispatch_subtasks"@) {
        lemma_single_dispatch(calls, i);
    }
    reveal_strlit("exec");
    reveal_strlit("dispatch_subtasks");
    assert("exec"@.len() != "dispatch_subtasks"@.len());
    if let Some(cmd) = command_of(c) {
        let h = loop_helpers::text_hash(loop_helpers::folded(cmd));
        if !recent.contains(h) {
            lemma_none_counted(recent, h);
        }
    }
}

proof fn lemma_before_question(calls: Seq<ToolCallRequest>, i: int)
    requires
        0 <= i < calls.len(),
        forall|j: int| 0 <= j <= i ==> (#[trigger] calls[j]).name@ != "ask_user"@,
    ensures
        i < until_question(calls),
    decreases calls.len(),
{
    assert(calls[0].name@ != "ask_user"@);
    if i > 0 {
        let rest = calls.skip(1);
        assert forall|j: int| 0 <= j <= i - 1 implies (#[trigger] rest[j]).name@ != "ask_user"@ by {
            assert(rest[j] == calls[j + 1]);
        }
        lemma_before_question(rest, i - 1);
    }
}

proof fn lemma_single_dispatch(calls: Seq<ToolCallRequest>, i: int)
    requires
        0 <= i < calls.len(),
        forall|j: int|
            0 <= j < calls.len() && j != i ==> (#[trigger] calls[j]).name@ != "dispatch_subtasks"@,
    ensures
        seqs::count(calls, |x: ToolCallRequest| is_dispatch(x)) <= 1,
{
    let f = |x: ToolCallRequest| is_dispatch(x);
    let a = calls.take(i);
    let b = calls.skip(i + 1);
    assert(calls =~= a + seq![calls[i]] + b);
    seqs::lemma_count_concat(a + seq![calls[i]], b, f);
    seqs::lemma_count_concat(a, seq![calls[i]], f);
    seqs::lemma_count_bound(seq![calls[i]], f);
    assert forall|j: int| 0 <= j < a.len() implies !f(#[trigger] a[j]) by {
        assert(a[j] == calls[j]);
    }
    assert forall|j: int| 0 <= j < b.len() implies !f(#[trigger] b[j]) by {
        assert(b[j] == calls[i + 1 + j]);
    }
    lemma_no_dispatch(a);
    lemma_no_dispatch(b);
}

proof fn lemma_no_dispatch(calls: Seq<ToolCallRequest>)
    requires
        forall|j: int| 0 <= j < calls.len() ==> !is_dispatch(#[trigger] calls[j]),
    ensures
        seqs::count(calls, |x: ToolCallRequest| is_dispatch(x)) == 0,
    decreases calls.len(),
{
    if calls.len() > 0 {
        let p = calls.drop_last();
        assert(!is_dispatch(calls[calls.len() - 1]));
        assert forall|j: int| 0 <= j < p.len() implies !is_dispatch(#[trigger] p[j]) by {
            assert(p[j] == calls[j]);
        }
        lemma_no_dispatch(p);
    }
}

proof fn lemma_none_counted(recent: Seq<u64>, h: u64)
    requires
        !recent.contains(h),
    ensures
        seqs::count(recent, |x: u64| x == h) == 0,
    decreases recent.len(),
{
    if recent.len() > 0 {
        let p = recent.drop_last();
        assert(recent[recent.len() - 1] != h);
        assert forall|j: int| 0 <= j < p.len() implies p[j] != h by {
            assert(p[j] == recent[j]);
        }
        lemma_none_counted(p, h);
    }
}

/// A long command that was run often of late is not executed again.
pub proof fn law_repeated_commands_are_blocked(
    calls: Seq<ToolCallRequest>,
    ctx: RoundContext,
    recent: Seq<u64>,
    i: int,
    cmd: Seq<char>,
)
    requires
        0 <= i < round_steps(calls, ctx, recent).len(),
        calls[i].name@ == "exec"@,
        json::member_text(json::members_view(calls[i].arguments@), "command"@) == Some(cmd),
        text::byte_len(cmd) >= REPEAT_EXEC_MIN_CMD_LEN,
        seqs::count(
            recent,
            |x: u64| x == loop_helpers::text_hash(loop_helpers::folded(cmd)),
        ) > REPEAT_EXEC_BLOCK_THRESHOLD,
    ensures
        round_steps(calls, ctx, recent)[i] is Answer,
        round_steps(calls, ctx, recent)[i]->Answer_tool_id == calls[i].id@,
{
}

/// The first call to the user ends the round and hands its question over.
pub proof fn law_first_question_is_asked(
    calls: Seq<ToolCallRequest>,
    n: int,
    q: Seq<char>,
)
    requires
        0 <= n < calls.len(),
        calls[n].name@ == "ask_user"@,
        forall|j: int| 0 <= j < n ==> (#[trigger] calls[j]).name@ != "ask_user"@,
        json::member_text(json::members_view(calls[n].arguments@), "question"@) == Some(q),
    ensures
        round_question(calls) == Some((calls[n].id@, q)),
{
    if n > 0 {
        lemma_before_question(calls, n - 1);
    }
    lemma_question_at(calls, n);
}

proof fn lemma_question_at(calls: Seq<ToolCallRequest>, n: int)
    requires
        0 <= n < calls.len(),
        calls[n].name@ == "ask_user"@,
        forall|j: int| 0 <= j < n ==> (#[trigger] calls[j]).name@ != "ask_user"@,
    ensures
        until_question(calls) == n,
    decreases n,
{
    if n > 0 {
        assert(calls[0].name@ != "ask_user"@);
        let rest = calls.skip(1);
        assert forall|j: int| 0 <= j < n - 1 implies (#[trigger] rest[j]).name@ != "ask_user"@ by {
            assert(rest[j] == calls[j + 1]);
        }
        lemma_question_at(rest, n - 1);
    }
}

/// A result that is short enough goes into the conversation as the tool gave
/// it, under the id and the name of its call.
pub proof fn law_result_is_passed_on(
    x: ExecutedTool,
    in_exploration: bool,
    p: ProcessedToolResult,
)
    requires
        is_processed(x, in_exploration, p),
        !text::contains(x.execution.output@, dispatch::DISPATCH_SUMMARY_START@),
        text::byte_len(x.execution.output@) <= MAX_TOOL_OUTPUT_CHARS_EXPLORE,
    ensures
        p.result@ == x.execution.output@,
        p.tool_id@ == x.tool_id@,
        p.tool_name@ == x.tool_name@,
        p.event.tool_id@ == x.tool_id@,
        p.event.tool_name@ == x.tool_name@,
        p.event.duration_ms == x.execution.duration_ms,
        !p.event.truncated,
        x.execution.status@ != "ok"@ ==> p.status@ == x.execution.status@,
        x.execution.status@ == "ok"@ ==> p.status@ == "ok"@ || p.status@ == "error"@,
{
    dispatch::law_plain_output_is_shown_whole(x.execution.output@);
}

/// A round takes the task forward with a result that is neither an error nor
/// refused, and only with one.
pub proof fn law_only_results_take_forward(x: ExecutedTool, in_exploration: bool)
    ensures
        x.execution.status@ == "denied"@ || x.execution.status@ == "error"@ || x.execution.status@
            == "blocked"@ ==> !tool_advances(x, in_exploration),
        ({
            let result = shown(
                x.tool_name@,
                dispatch::visible(x.execution.output@),
                in_exploration,
            );
            x.execution.status@ == "ok"@ && !text::starts_with(result, "[DENIED]"@)
                && !reports_error(result) ==> tool_advances(x, in_exploration)
        }),
{
    reveal_strlit("ok");
    reveal_strlit("denied");
    reveal_strlit("error");
    reveal_strlit("blocked");
    assert("ok"@.len() == 2 && "denied"@.len() == 6 && "error"@.len() == 5 && "blocked"@.len()
        == 7);
}

/// A command that was run is remembered.
pub proof fn law_commands_are_remembered(
    recent: Seq<u64>,
    calls: Seq<ToolCallRequest>,
    executed: Seq<ExecutedTool>,
    cmd: Seq<char>,
)
    requires
        calls.len() > 0,
        executed.len() > 0,
        executed.last().tool_name@ == "exec"@,
        executed.last().tool_id@ == calls.last().id@,
        calls.last().name@ == "exec"@,
        json::member_text(json::members_view(calls.last().arguments@), "command"@) == Some(cmd),
    ensures
        recent_after(recent, calls, executed).len() > 0,
        recent_after(recent, calls, executed).last() == loop_helpers::text_hash(
            loop_helpers::folded(cmd),
        ),
{
}

/// A result that reports an error counts as one though the call went well;
/// any other result keeps its status.
pub proof fn law_reported_errors_count(status: Seq<char>, result: Seq<char>)
    ensures
        settled("ok"@, true) == "error"@,
        settled(status, false) == status,
        status != "ok"@ ==> settled(status, true) == status,
        !advances(settled("ok"@, true), result, true),
{
}

/// A very long inline script is fed to the interpreter whole, and the other
/// arguments of the call stay.
pub proof fn law_long_scripts_are_fed_whole(c: ToolCallRequest, script: Seq<char>, other: Seq<char>)
    requires
        c.name@ == "exec"@,
        command_of(c) == Some("python3 -c '"@ + script + seq!['\'']),
        text::byte_len("python3 -c '"@ + script + seq!['\'']) > EXEC_INLINE_EXTRACT_THRESHOLD,
        forall|k: int| 0 <= k < script.len() ==> #[trigger] script[k] != '\'' && script[k] != '\\',
        other != "command"@,
    ensures
        json::member_text(run_arguments(c), "command"@) matches Some(t) && text::contains(t, script),
        json::member(run_arguments(c), other) == json::member(
            json::members_view(c.arguments@),
            other,
        ),
{
    reveal_strlit("python3 -c '");
    let cmd = "python3 -c '"@ + script + seq!['\''];
    assert(cmd[0] == 'p' && cmd.last() == '\'');
    text::law_trimmed_text_stays(cmd);
    loop_helpers::law_inline_script_is_found(script);
    let none = Seq::<char>::empty();
    loop_helpers::law_script_is_fed_whole(none, script);
    let given = json::members_view(c.arguments@);
    let v = JsonView::Text(loop_helpers::heredoc(none, script));
    lemma_other_value(given, "command"@, v, "command"@);
    lemma_other_value(given, "command"@, v, other);
}

proof fn lemma_other_value(
    m: Seq<(Seq<char>, JsonView)>,
    key: Seq<char>,
    v: JsonView,
    k: Seq<char>,
)
    ensures
        json::member(json::with_member(m, key, v), k) == (if k == key && json::member(m, k) is Some {
            Some(v)
        } else {
            json::member(m, k)
        }),
    decreases m.len(),
{
    if m.len() > 0 {
        lemma_other_value(m.drop_last(), key, v, k);
        assert(json::with_member(m, key, v).drop_last() =~= json::with_member(
            m.drop_last(),
            key,
            v,
        ));
    }
}

} // verus!

//! What the user is shown while a run goes on.

use crate::agent::agent_loop::{AgentRun, RunView};
use crate::agent::tool_runner::{ProcessedToolResult, RoundContext};
use crate::json;
use crate::json::find_text;
use crate::message;
use crate::message::ToolCallRequest;
use crate::text;
use crate::text::{decimal, decimal_usize, fits_bytes, str_eq, str_floor_prefix};
use vstd::prelude::*;

verus! {

/// Whether commands are refused: the agent explored for three iterations more
/// than it should.
pub open spec fn exec_is_blocked(v: RunView) -> bool {
    v.counters.in_exploration && v.counters.exploration_iterations >= v.cfg.explore_max + 3
}

/// The name of the phase.
pub open spec fn phase_name(exploring: bool) -> Seq<char> {
    if exploring {
        "explore"@
    } else {
        "produce"@
    }
}

/// The lines at the beginning of an iteration; the thirtieth begins with a
/// sign of life.
pub open spec fn iteration_lines(v: RunView) -> Seq<Seq<char>> {
    let c = v.counters;
    let n = if c.in_exploration {
        c.exploration_iterations
    } else {
        c.production_iterations
    };
    let line = "[轮次 "@ + text::dec(c.total_iterations as nat) + "] 阶段="@ + phase_name(
        c.in_exploration,
    ) + " 第"@ + text::dec(n as nat) + "轮"@;
    if c.total_iterations == 30 {
        seq!["[heartbeat]🦀 仍在处理中，请耐心等待..."@, line]
    } else {
        seq![line]
    }
}

impl AgentRun {
    /// What the next round of tools depends on. `block_notice` answers a
    /// command that is refused.
    pub fn round_context(&self, block_notice: &str) -> (r: RoundContext)
        ensures
            r.in_exploration == self.counters.in_exploration,
            r.exec_blocked == exec_is_blocked(self@),
            r.block_notice@ == block_notice@,
    {
        let c = self.counters;
        RoundContext {
            in_exploration: c.in_exploration,
            exec_blocked: c.in_exploration && c.exploration_iterations >= 3
                && c.exploration_iterations - 3 >= self.cfg.explore_max,
            block_notice: block_notice.to_owned(),
        }
    }

    /// The lines at the beginning of an iteration.
    pub fn describe_iteration(&self) -> (r: Vec<String>)
        ensures
            text::texts(r@) == iteration_lines(self@),
    {
        let c = self.counters;
        let n = if c.in_exploration {
            c.exploration_iterations
        } else {
            c.production_iterations
        };
        let total = decimal_usize(c.total_iterations);
        let round = decimal_usize(n);
        let mut line = "[轮次 ".to_owned();
        line.push_str(total.as_str());
        line.push_str("] 阶段=");
        line.push_str(
            if c.in_exploration {
                "explore"
            } else {
                "produce"
            },
        );
        line.push_str(" 第");
        line.push_str(round.as_str());
        line.push_str("轮");
        let mut out: Vec<String> = Vec::new();
        if c.total_iterations == 30 {
            out.push("[heartbeat]🦀 仍在处理中，请耐心等待...".to_owned());
        }
        out.push(line);
        proof {
            assert(text::texts(out@) =~= iteration_lines(self@));
        }
        out
    }
}

/// The line on a call of the model.
pub fn describe_request(tokens: usize, estimator: &str, chars: usize, messages: usize) -> (r: String)
    ensures
        r@ == "  ↗ LLM请求: ~"@ + text::dec(tokens as nat) + " tokens ("@ + estimator@ + "), "@
            + text::dec(chars as nat) + " chars, messages="@ + text::dec(messages as nat),
{
    let t = decimal_usize(tokens);
    let c = decimal_usize(chars);
    let m = decimal_usize(messages);
    let mut r = "  ↗ LLM请求: ~".to_owned();
    r.push_str(t.as_str());
    r.push_str(" tokens (");
    r.push_str(estimator);
    r.push_str("), ");
    r.push_str(c.as_str());
    r.push_str(" chars, messages=");
    r.push_str(m.as_str());
    r
}

/// What is shown of the thinking of the model: at most 800 bytes of it.
pub open spec fn shown_thinking(t: Seq<char>, raw_length: nat) -> Seq<char> {
    if text::byte_len(t) > 800 {
        text::floor_prefix(t, 800) + "... ("@ + text::dec(raw_length) + " chars total)"@
    } else {
        t
    }
}

/// The message that shows the thinking of the model, where there is anything
/// to show. In front of tool calls, thinking that holds tool calls alone is
/// named as such.
pub open spec fn thinking_message(
    t: Seq<char>,
    raw_length: nat,
    misplaced_calls: bool,
    before_tools: bool,
) -> Option<Seq<char>> {
    let shown = if t.len() == 0 && misplaced_calls && before_tools {
        "[thinking contains tool calls only]"@
    } else {
        shown_thinking(t, raw_length)
    };
    if shown.len() == 0 {
        None
    } else {
        Some("[Thinking]\n"@ + shown)
    }
}

/// The message that shows the thinking of the model, where there is anything
/// to show.
pub fn describe_thinking(
    display_text: &str,
    raw_length: usize,
    misplaced_calls: bool,
    before_tools: bool,
) -> (r: Option<String>)
    ensures
        message::opt_text(r) == thinking_message(
            display_text@,
            raw_length as nat,
            misplaced_calls,
            before_tools,
        ),
{
    proof {
        reveal_strlit("[thinking contains tool calls only]");
        text::lemma_floor_chars(display_text@, 800);
        reveal_strlit("... (");
    }
    let mut r = "[Thinking]\n".to_owned();
    if display_text.is_empty() {
        if misplaced_calls && before_tools {
            r.push_str("[thinking contains tool calls only]");
            return Some(r);
        }
        return None;
    }
    if fits_bytes(display_text, 800) {
        r.push_str(display_text);
        return Some(r);
    }
    let mut shown = str_floor_prefix(display_text, 800);
    let n = decimal_usize(raw_length);
    shown.push_str("... (");
    shown.push_str(n.as_str());
    shown.push_str(" chars total)");
    r.push_str(shown.as_str());
    Some(r)
}

/// The command of the call with that id.
pub open spec fn command_in(calls: Seq<ToolCallRequest>, id: Seq<char>) -> Option<Seq<char>>
    decreases calls.len(),
{
    if calls.len() == 0 {
        None
    } else if calls[0].id@ == id {
        json::member_text(json::members_view(calls[0].arguments@), "command"@)
    } else {
        command_in(calls.skip(1), id)
    }
}

/// The line on a tool result; of a command the beginning is shown.
pub open spec fn tool_line(p: ProcessedToolResult, calls: Seq<ToolCallRequest>) -> Seq<char> {
    let rest = text::dec(p.original_len as nat) + " chars, "@ + p.status@ + ", "@ + p.route@ + ", "@
        + text::dec(p.duration_ms as nat) + "ms)"@;
    if p.tool_name@ == "exec"@ {
        let cmd = match command_in(calls, p.tool_id@) {
            Some(c) => c,
            None => "?"@,
        };
        "  → "@ + p.tool_name@ + ": `"@ + text::floor_prefix(cmd, 120) + "` ("@ + rest
    } else {
        "  → "@ + p.tool_name@ + " ("@ + rest
    }
}

fn find_command<'a>(calls: &'a Vec<ToolCallRequest>, id: &str) -> (r: Option<&'a str>)
    ensures
        text::opt_str(r) == command_in(calls@, id@),
{
    let mut i: usize = 0;
    proof {
        assert(calls@.skip(0) =~= calls@);
    }
    while i < calls.len()
        invariant
            0 <= i <= calls@.len(),
            command_in(calls@, id@) == command_in(calls@.skip(i as int), id@),
        decreases calls@.len() - i,
    {
        proof {
            assert(calls@.skip(i as int)[0] == calls@[i as int]);
            assert(calls@.skip(i as int).skip(1) =~= calls@.skip(i + 1));
        }
        if str_eq(calls[i].id.as_str(), id) {
            return find_text(&calls[i].arguments, "command");
        }
        i += 1;
    }
    None
}

/// The line on a tool result.
pub fn describe_tool(p: &ProcessedToolResult, calls: &Vec<ToolCallRequest>) -> (r: String)
    ensures
        r@ == tool_line(*p, calls@),
{
    let len = decimal_usize(p.original_len);
    let ms = decimal(p.duration_ms as u128);
    let mut rest = len;
    rest.push_str(" chars, ");
    rest.push_str(p.status.as_str());
    rest.push_str(", ");
    rest.push_str(p.route.as_str());
    rest.push_str(", ");
    rest.push_str(ms.as_str());
    rest.push_str("ms)");
    let mut r = "  → ".to_owned();
    r.push_str(p.tool_name.as_str());
    if str_eq(p.tool_name.as_str(), "exec") {
        let cmd = match find_command(calls, p.tool_id.as_str()) {
            Some(c) => c,
            None => "?",
        };
        let shown = str_floor_prefix(cmd, 120);
        r.push_str(": `");
        r.push_str(shown.as_str());
        r.push_str("` (");
    } else {
        r.push_str(" (");
    }
    r.push_str(rest.as_str());
    r
}

/// A message that shows thinking is recognised as one, and what it shows is
/// read back from it.
pub proof fn law_thinking_is_read_back(
    t: Seq<char>,
    raw_length: nat,
    misplaced_calls: bool,
    before_tools: bool,
)
    ensures
        thinking_message(t, raw_length, misplaced_calls, before_tools) matches Some(m)
            ==> text::starts_with(m, "[Thinking]\n"@) && m.skip("[Thinking]\n"@.len() as int)
            == (if t.len() == 0 {
            "[thinking contains tool calls only]"@
        } else {
            shown_thinking(t, raw_length)
        }),
{
    if let Some(m) = thinking_message(t, raw_length, misplaced_calls, before_tools) {
        let tag = "[Thinking]\n"@;
        let shown = if t.len() == 0 && misplaced_calls && before_tools {
            "[thinking contains tool calls only]"@
        } else {
            shown_thinking(t, raw_length)
        };
        assert(m.subrange(0, tag.len() as int) =~= tag);
        assert(m.skip(tag.len() as int) =~= shown);
    }
}

/// The command of a call is found by the id of the call.
pub proof fn law_command_is_found(calls: Seq<ToolCallRequest>, i: int)
    requires
        0 <= i < calls.len(),
        forall|j: int| 0 <= j < i ==> (#[trigger] calls[j]).id@ != calls[i].id@,
    ensures
        command_in(calls, calls[i].id@) == json::member_text(
            json::members_view(calls[i].arguments@),
            "command"@,
        ),
    decreases calls.len(),
{
    if i > 0 {
        let r = calls.skip(1);
        assert(calls[0].id@ != calls[i].id@);
        assert(r[i - 1] == calls[i]);
        assert forall|j: int| 0 <= j < i - 1 implies (#[trigger] r[j]).id@ != r[i - 1].id@ by {
            assert(r[j] == calls[j + 1]);
        }
        law_command_is_found(r, i - 1);
    }
}

/// The line on a tool result names the tool and tells how it went; of a
/// command it shows the beginning.
pub proof fn law_result_line_tells_the_call(p: ProcessedToolResult, calls: Seq<ToolCallRequest>)
    ensures
        text::contains(tool_line(p, calls), p.tool_name@),
        text::contains(tool_line(p, calls), p.status@),
        p.tool_name@ == "exec"@ ==> (command_in(calls, p.tool_id@) matches Some(c)
            ==> text::contains(tool_line(p, calls), text::floor_prefix(c, 120))),
{
    let t = tool_line(p, calls);
    let a = "  → "@;
    assert(text::contains(t, p.tool_name@)) by {
        let b = t.skip((a.len() + p.tool_name@.len()) as int);
        assert(t =~= a + p.tool_name@ + b);
        text::lemma_contains_part(a, p.tool_name@, b);
    }
    let tail = ", "@ + p.route@ + ", "@ + text::dec(p.duration_ms as nat) + "ms)"@;
    assert(text::contains(t, p.status@)) by {
        let f = t.take(t.len() - tail.len() - p.status@.len());
        assert(t =~= f + p.status@ + tail);
        text::lemma_contains_part(f, p.status@, tail);
    }
    if p.tool_name@ == "exec"@ {
        if let Some(c) = command_in(calls, p.tool_id@) {
            let shown = text::floor_prefix(c, 120);
            let f = a + p.tool_name@ + ": `"@;
            let b = t.skip((f.len() + shown.len()) as int);
            assert(t =~= f + shown + b);
            text::lemma_contains_part(f, shown, b);
        }
    }
}

/// Thinking that is short is shown whole, and of longer thinking the front is.
pub proof fn law_thinking_is_shown(t: Seq<char>, raw_length: nat, before_tools: bool)
    requires
        t.len() > 0,
    ensures
        text::byte_len(t) <= 800 ==> (thinking_message(t, raw_length, false, before_tools) matches Some(
            m,
        ) && text::ends_with(m, t)),
        text::byte_len(t) > 800 ==> (thinking_message(t, raw_length, false, before_tools) matches Some(
            m,
        ) && text::contains(m, text::floor_prefix(t, 800)) && text::contains(
            m,
            text::dec(raw_length),
        )),
{
    reveal_strlit("... (");
    let head = "[Thinking]\n"@;
    let shown = shown_thinking(t, raw_length);
    let m = head + shown;
    if text::byte_len(t) <= 800 {
        assert(m.subrange(m.len() - t.len(), m.len() as int) =~= t);
    } else {
        let f = text::floor_prefix(t, 800);
        let d = text::dec(raw_length);
        let b = "... ("@ + d + " chars total)"@;
        assert(m =~= head + f + b);
        text::lemma_contains_part(head, f, b);
        let a = head + f + "... ("@;
        assert(m =~= a + d + " chars total)"@);
        text::lemma_contains_part(a, d, " chars total)"@);
    }
}

/// Commands are blocked only while an agent explores well past its budget,
/// and every further round keeps them blocked.
pub proof fn law_exploring_too_long_blocks_commands(v: RunView, w: RunView)
    ensures
        exec_is_blocked(v) ==> v.counters.in_exploration && v.counters.exploration_iterations
            > v.cfg.explore_max,
        v.counters.in_exploration && v.counters.exploration_iterations > v.cfg.explore_max + 2
            ==> exec_is_blocked(v),
        exec_is_blocked(v) && w.cfg == v.cfg && w.counters.in_exploration
            && w.counters.exploration_iterations >= v.counters.exploration_iterations
            ==> exec_is_blocked(w),
{
}

/// The line at the beginning of an iteration tells which one it is, and how
/// many there were in its phase.
pub proof fn law_iteration_is_told(v: RunView)
    ensures
        iteration_lines(v).len() > 0,
        text::contains(iteration_lines(v).last(), text::dec(v.counters.total_iterations as nat)),
        text::contains(
            iteration_lines(v).last(),
            text::dec(
                if v.counters.in_exploration {
                    v.counters.exploration_iterations as nat
                } else {
                    v.counters.production_iterations as nat
                },
            ),
        ),
{
    let c = v.counters;
    let l = iteration_lines(v).last();
    let d = text::dec(c.total_iterations as nat);
    let n = if c.in_exploration {
        c.exploration_iterations
    } else {
        c.production_iterations
    };
    let e = text::dec(n as nat);
    assert(text::contains(l, d)) by {
        let a = "[轮次 "@;
        let b = l.skip((a.len() + d.len()) as int);
        assert(l =~= a + d + b);
        text::lemma_contains_part(a, d, b);
    }
    let f = l.take(l.len() - "轮"@.len() - e.len());
    assert(l =~= f + e + "轮"@);
    text::lemma_contains_part(f, e, "轮"@);
}

} // verus!

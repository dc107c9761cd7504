//! Small decisions around a request: how the context is shared out, which
//! cases are shown, what is handed off.

use crate::agent::dispatch;
use crate::agent::dispatch::split_dispatch_output;
use crate::json;
use crate::json::{parse, Json, JsonView};
use crate::message;
use crate::message::{Message, MessageView, ToolCallView};
use crate::orchestration::history;
use crate::orchestration::history::normalize_text_for_dedupe;
use crate::orchestration::types::{
    ContextBudgetPlan, FIRST_TURN_CASES_CHARS_BONUS, FIRST_TURN_SKILL_BONUS,
    HANDOFF_MAX_CONTENT_CHARS, HANDOFF_MAX_MESSAGES, HISTORY_BUDGET_RATIO,
    MAX_DYNAMIC_INJECTED_SKILLS, MAX_DYNAMIC_SIMILAR_CASES_CHARS, MAX_HISTORY_BUDGET_RATIO,
    MAX_HISTORY_TOKENS_HARD_LIMIT, MAX_INJECTED_SKILLS, MAX_SIMILAR_CASES_CHARS,
    MIN_HISTORY_BUDGET_TOKENS,
};
use crate::prompt::context;
use crate::prompt::context::strip_non_task_user_message;
use crate::seqs;
use crate::text;
use crate::text::{
    chars_of, decimal_usize, has_text, str_contains, str_ends_with, str_eq, str_join, str_lines,
    str_replace, str_split, str_take_chars, str_trim, str_words, string_of,
};
use vstd::prelude::*;

verus! {

// ---------------------------------------------------------------------------
// Similar cases
// ---------------------------------------------------------------------------

/// The lines without those that repeat an earlier one. `keys` says what a line
/// is known by; a line with an empty key becomes an empty line.
pub open spec fn kept_lines(lines: Seq<Seq<char>>, keys: Seq<Seq<char>>) -> Seq<Seq<char>>
    decreases lines.len(),
{
    if lines.len() == 0 {
        Seq::empty()
    } else {
        let before = kept_lines(lines.drop_last(), keys.drop_last());
        if keys.last().len() == 0 {
            before.push(Seq::empty())
        } else if keys.drop_last().contains(keys.last()) {
            before
        } else {
            before.push(lines.last())
        }
    }
}

/// What the lines are known by.
pub open spec fn line_keys(lines: Seq<Seq<char>>) -> Seq<Seq<char>> {
    Seq::new(lines.len(), |i: int| history::normalized(lines[i]))
}

/// A section of at most that many characters; a longer one is cut and says so.
pub open spec fn cut_cases(merged: Seq<char>, max: nat) -> Seq<char> {
    if merged.len() > max {
        text::take_chars(merged, max) + "\n... (similar cases truncated)"@
    } else {
        merged
    }
}

/// The section on similar cases, without repeated lines and not too long.
pub open spec fn similar_cases(cases: Seq<char>, max: nat) -> Seq<char> {
    if cases.len() == 0 {
        Seq::empty()
    } else {
        let ls = text::lines(cases);
        cut_cases(text::join(kept_lines(ls, line_keys(ls)), "\n"@), max)
    }
}

/// The lines without those that repeat an earlier one.
pub fn dedupe_lines(lines: &Vec<String>, keys: &Vec<String>) -> (r: Vec<String>)
    requires
        lines@.len() == keys@.len(),
    ensures
        text::texts(r@) == kept_lines(text::texts(lines@), text::texts(keys@)),
{
    let ghost lv = text::texts(lines@);
    let ghost kv = text::texts(keys@);
    let mut out: Vec<String> = Vec::new();
    let mut seen: Vec<String> = Vec::new();
    let mut i: usize = 0;
    proof {
        assert(text::texts(out@) =~= kept_lines(lv.take(0), kv.take(0)));
    }
    while i < lines.len()
        invariant
            0 <= i <= lines@.len() == keys@.len(),
            lv == text::texts(lines@),
            kv == text::texts(keys@),
            forall|s: Seq<char>|
                s.len() > 0 ==> (#[trigger] text::texts(seen@).contains(s) <==> kv.take(
                    i as int,
                ).contains(s)),
            text::texts(out@) == kept_lines(lv.take(i as int), kv.take(i as int)),
        decreases lines@.len() - i,
    {
        let ghost out0 = out@;
        let ghost seen0 = text::texts(seen@);
        let ghost k0 = kv.take(i as int);
        let key = keys[i].as_str();
        proof {
            assert(lv.take(i + 1).drop_last() =~= lv.take(i as int));
            assert(kv.take(i + 1).drop_last() =~= k0);
            assert(lv.take(i + 1).last() == lines@[i as int]@);
            assert(kv.take(i + 1).last() == key@);
            assert(kv.take(i + 1) =~= k0.push(key@));
        }
        if key.is_empty() {
            out.push(String::new());
            proof {
                assert(text::texts(out@) =~= text::texts(out0).push(Seq::empty()));
            }
        } else if !has_text(&seen, key) {
            let line = lines[i].clone();
            let owned = key.to_owned();
            let ghost s0 = seen@;
            out.push(line);
            seen.push(owned);
            proof {
                assert(text::texts(out@) =~= text::texts(out0).push(line@));
                assert(text::texts(seen@) =~= seen0.push(key@));
            }
        }
        proof {
            assert forall|s: Seq<char>| s.len() > 0 implies (#[trigger] text::texts(
                seen@,
            ).contains(s) <==> kv.take(i + 1).contains(s)) by {
                seqs::lemma_push_contains(k0, key@, s);
                seqs::lemma_push_contains(seen0, key@, s);
                assert(seen0.contains(s) <==> k0.contains(s));
                assert(seen0.contains(key@) <==> (key@.len() > 0 && k0.contains(key@)) || (
                key@.len() == 0 && seen0.contains(key@)));
            }
        }
        i += 1;
    }
    proof {
        assert(lv.take(i as int) =~= lv);
        assert(kv.take(i as int) =~= kv);
    }
    out
}

/// The section on similar cases, without repeated lines and not too long.
pub fn optimize_similar_cases(cases: &str, max_chars: usize) -> (r: String)
    ensures
        r@ == similar_cases(cases@, max_chars as nat),
{
    if cases.is_empty() {
        return String::new();
    }
    let lines = str_lines(cases);
    let ghost lv = text::texts(lines@);
    let mut keys: Vec<String> = Vec::new();
    let mut i: usize = 0;
    while i < lines.len()
        invariant
            0 <= i <= lines@.len(),
            lv == text::texts(lines@),
            keys@.len() == i,
            forall|k: int| 0 <= k < i ==> (#[trigger] keys@[k])@ == history::normalized(lv[k]),
        decreases lines@.len() - i,
    {
        keys.push(normalize_text_for_dedupe(lines[i].as_str()));
        i += 1;
    }
    proof {
        assert(text::texts(keys@) =~= line_keys(lv));
    }
    let kept = dedupe_lines(&lines, &keys);
    let merged = str_join(&kept, "\n");
    let cs = chars_of(merged.as_str());
    if cs.len() > max_chars {
        let mut r = truncate_by_chars(merged.as_str(), max_chars);
        r.push_str("\n... (similar cases truncated)");
        r
    } else {
        merged
    }
}

/// The first characters of a text.
pub fn truncate_by_chars(input: &str, max_chars: usize) -> (r: String)
    ensures
        r@ == text::take_chars(input@, max_chars as nat),
{
    str_take_chars(input, max_chars)
}

/// Every line with a key that is kept is the first with that key; so of lines
/// with one key at most one is kept.
pub proof fn law_no_case_line_twice(lines: Seq<Seq<char>>, keys: Seq<Seq<char>>)
    requires
        lines.len() == keys.len(),
    ensures
        kept_lines(lines, keys).len() <= lines.len(),
        forall|i: int|
            0 <= i < kept_lines(lines, keys).len() && (#[trigger] kept_lines(lines, keys)[i]).len()
                > 0 ==> exists|j: int|
                0 <= j < lines.len() && #[trigger] lines[j] == kept_lines(lines, keys)[i]
                    && !keys.take(j).contains(keys[j]),
    decreases lines.len(),
{
    if lines.len() > 0 {
        let l = lines.drop_last();
        let k = keys.drop_last();
        law_no_case_line_twice(l, k);
        let kept = kept_lines(lines, keys);
        assert forall|i: int| 0 <= i < kept.len() && (#[trigger] kept[i]).len() > 0 implies exists|
            j: int,
        |
            0 <= j < lines.len() && #[trigger] lines[j] == kept[i] && !keys.take(j).contains(
                keys[j],
            ) by {
            let before = kept_lines(l, k);
            if i < before.len() {
                assert(before[i] == kept[i]);
                let j = choose|j: int|
                    0 <= j < l.len() && #[trigger] l[j] == before[i] && !k.take(j).contains(k[j]);
                assert(lines[j] == kept[i]);
                assert(keys.take(j) =~= k.take(j));
            } else {
                let j = lines.len() - 1;
                assert(lines[j] == kept[i]);
                assert(keys.take(j) =~= k);
            }
        }
    }
}

// ---------------------------------------------------------------------------
// Handoff
// ---------------------------------------------------------------------------

/// The role of a message in a handoff.
pub open spec fn handoff_role(m: MessageView) -> Seq<char> {
    match m.role {
        Some(r) => r,
        None => "unknown"@,
    }
}

/// What a handoff says of a message: nothing of context that the user did not
/// write.
pub open spec fn handoff_entry(m: MessageView, number: nat) -> Seq<char> {
    let role = handoff_role(m);
    let task = if role == "user"@ {
        context::task_of(m.text_or_empty())
    } else {
        Some(m.text_or_empty())
    };
    match task {
        Some(t) => "## "@ + text::dec(number) + ". role="@ + role + "\n"@ + (match m.tool_call_id {
            Some(id) => "- tool_call_id: `"@ + id + "`\n"@,
            None => Seq::empty(),
        }) + (match m.tool_calls {
            Some(calls) => "- tool_calls: "@ + text::dec(calls.len()) + "\n"@,
            None => Seq::empty(),
        }) + "```\n"@ + text::take_chars(t, HANDOFF_MAX_CONTENT_CHARS as nat) + "\n```\n\n"@,
        None => Seq::empty(),
    }
}

/// What a handoff says of messages.
pub open spec fn handoff_entries(ms: Seq<MessageView>) -> Seq<char>
    decreases ms.len(),
{
    if ms.len() == 0 {
        Seq::empty()
    } else {
        handoff_entries(ms.drop_last()) + handoff_entry(ms.last(), ms.len())
    }
}

/// The last messages, as many as a handoff holds.
pub open spec fn handed_off(ms: Seq<MessageView>) -> Seq<MessageView> {
    if ms.len() > HANDOFF_MAX_MESSAGES {
        ms.skip(ms.len() - HANDOFF_MAX_MESSAGES as int)
    } else {
        ms
    }
}

/// The handoff of a session.
pub open spec fn handoff(key: Seq<char>, ms: Seq<MessageView>, now: Seq<char>) -> Seq<char> {
    "# TyClaw Handoff\n\n"@ + "- 时间: "@ + now + "\n"@ + "- 会话: `"@ + key + "`\n"@
        + "- 总消息数: "@ + text::dec(ms.len()) + "\n"@ + "- 导出消息数: "@ + text::dec(
        handed_off(ms).len(),
    ) + "\n\n"@ + handoff_entries(handed_off(ms))
}

fn describe_message(m: &Message, number: usize) -> (r: String)
    ensures
        r@ == handoff_entry(m@, number as nat),
{
    let role = match &m.role {
        Some(r) => r.as_str(),
        None => "unknown",
    };
    let mut content = m.text_or_empty().to_owned();
    if str_eq(role, "user") {
        match strip_non_task_user_message(content.as_str()) {
            Some(t) => {
                content = t;
            },
            None => {
                return String::new();
            },
        }
    }
    let shown = truncate_by_chars(content.as_str(), HANDOFF_MAX_CONTENT_CHARS);
    let n = decimal_usize(number);
    let mut out = "## ".to_owned();
    out.push_str(n.as_str());
    out.push_str(". role=");
    out.push_str(role);
    out.push_str("\n");
    let ghost head = out@;
    let mut ids = String::new();
    if let Some(id) = &m.tool_call_id {
        ids.push_str("- tool_call_id: `");
        ids.push_str(id.as_str());
        ids.push_str("`\n");
    }
    let mut calls_line = String::new();
    if let Some(calls) = &m.tool_calls {
        let c = decimal_usize(calls.len());
        calls_line.push_str("- tool_calls: ");
        calls_line.push_str(c.as_str());
        calls_line.push_str("\n");
    }
    out.push_str(ids.as_str());
    out.push_str(calls_line.as_str());
    out.push_str("```\n");
    out.push_str(shown.as_str());
    out.push_str("\n```\n\n");
    proof {
        assert(out@ =~= handoff_entry(m@, number as nat));
    }
    out
}

/// The handoff of a session, written at that time.
pub fn build_handoff_markdown(session_key: &str, messages: &Vec<Message>, now: &str) -> (r: String)
    ensures
        r@ == handoff(session_key@, message::views(messages@), now@),
{
    let ghost ms = message::views(messages@);
    let n: usize = messages.len();
    let start: usize = if n > HANDOFF_MAX_MESSAGES {
        n - HANDOFF_MAX_MESSAGES
    } else {
        0
    };
    let ghost sel = handed_off(ms);
    let total = decimal_usize(n);
    let chosen = decimal_usize(n - start);
    let mut out = "# TyClaw Handoff\n\n".to_owned();
    out.push_str("- 时间: ");
    out.push_str(now);
    out.push_str("\n");
    out.push_str("- 会话: `");
    out.push_str(session_key);
    out.push_str("`\n");
    out.push_str("- 总消息数: ");
    out.push_str(total.as_str());
    out.push_str("\n");
    out.push_str("- 导出消息数: ");
    out.push_str(chosen.as_str());
    out.push_str("\n\n");
    let ghost head = out@;
    let mut i: usize = start;
    proof {
        assert(sel =~= ms.skip(start as int));
        assert(out@ =~= head + handoff_entries(sel.take(0)));
    }
    while i < n
        invariant
            start <= i <= n == messages@.len(),
            ms == message::views(messages@),
            sel == ms.skip(start as int),
            out@ == head + handoff_entries(sel.take(i - start)),
        decreases n - i,
    {
        let entry = describe_message(&messages[i], i - start + 1);
        proof {
            let k = i - start;
            assert(sel.take(k + 1).drop_last() =~= sel.take(k));
            assert(sel.take(k + 1).last() == messages@[i as int]@);
        }
        out.push_str(entry.as_str());
        proof {
            assert(out@ =~= head + handoff_entries(sel.take(i - start + 1)));
        }
        i += 1;
    }
    proof {
        assert(sel.take(n - start) =~= sel);
    }
    out
}

// ---------------------------------------------------------------------------
// Sharing the context window out
// ---------------------------------------------------------------------------

/// Whether a request is about something that went wrong.
pub open spec fn about_trouble(q: Seq<char>) -> bool {
    ||| text::contains(q, "报错"@)
    ||| text::contains(q, "错误"@)
    ||| text::contains(q, "异常"@)
    ||| text::contains(q, "失败"@)
    ||| text::contains(q, "traceback"@)
    ||| text::contains(q, "error"@)
    ||| text::contains(q, "timeout"@)
    ||| text::contains(q, "排查"@)
    ||| text::contains(q, "日志"@)
}

/// Whether a request goes on with an earlier one.
pub open spec fn goes_on(q: Seq<char>) -> bool {
    ||| text::contains(q, "继续"@)
    ||| text::contains(q, "刚才"@)
    ||| text::contains(q, "上次"@)
    ||| text::contains(q, "前面"@)
    ||| text::contains(q, "这个问题"@)
    ||| text::contains(q, "同一个"@)
    ||| text::contains(q, "再补充"@)
    ||| text::contains(q, "延续"@)
}

/// Whether a request asks for code.
pub open spec fn asks_for_code(q: Seq<char>) -> bool {
    ||| text::contains(q, "实现"@)
    ||| text::contains(q, "改代码"@)
    ||| text::contains(q, "重构"@)
    ||| text::contains(q, "写一个"@)
    ||| text::contains(q, "patch"@)
    ||| text::contains(q, "fix"@)
    ||| text::contains(q, "refactor"@)
    ||| text::contains(q, "代码"@)
}

/// The value within the bounds.
pub open spec fn clamped(x: int, low: int, high: int) -> int {
    if x < low {
        low
    } else if x > high {
        high
    } else {
        x
    }
}

/// How the context window is shared out for a request in lower case: a request
/// for code gets more skills, one that goes on with an earlier one more
/// history, one about something that went wrong more cases.
pub open spec fn budget_of(q: Seq<char>) -> ContextBudgetPlan {
    let shares = if asks_for_code(q) {
        (45int, 10int, 1500int)
    } else if goes_on(q) {
        (60, 6, 1800)
    } else if about_trouble(q) {
        (40, 7, 3600)
    } else {
        (
            HISTORY_BUDGET_RATIO as int,
            MAX_INJECTED_SKILLS as int,
            MAX_SIMILAR_CASES_CHARS as int,
        )
    };
    ContextBudgetPlan {
        history_ratio: clamped(
            shares.0,
            HISTORY_BUDGET_RATIO as int,
            MAX_HISTORY_BUDGET_RATIO as int,
        ) as usize,
        max_skills: clamped(shares.1, 3, MAX_DYNAMIC_INJECTED_SKILLS as int) as usize,
        max_cases_chars: clamped(
            shares.2,
            800,
            MAX_DYNAMIC_SIMILAR_CASES_CHARS as int,
        ) as usize,
    }
}

fn clamp(x: usize, low: usize, high: usize) -> (r: usize)
    requires
        low <= high,
    ensures
        r == clamped(x as int, low as int, high as int),
        low <= r <= high,
{
    if x < low {
        low
    } else if x > high {
        high
    } else {
        x
    }
}

/// How the context window is shared out for a request in lower case.
pub fn budget_for_lowercase(q: &str) -> (r: ContextBudgetPlan)
    ensures
        r == budget_of(q@),
{
    let mut history_ratio: usize = HISTORY_BUDGET_RATIO;
    let mut max_skills: usize = MAX_INJECTED_SKILLS;
    let mut max_cases_chars: usize = MAX_SIMILAR_CASES_CHARS;
    if str_contains(q, "报错") || str_contains(q, "错误") || str_contains(q, "异常") || str_contains(q, "失败") || str_contains(q, "traceback") || str_contains(q, "error") || str_contains(q, "timeout") || str_contains(q, "排查") || str_contains(q, "日志") {
        history_ratio = 40;
        max_skills = 7;
        max_cases_chars = 3600;
    }
    if str_contains(q, "继续") || str_contains(q, "刚才") || str_contains(q, "上次") || str_contains(q, "前面") || str_contains(q, "这个问题") || str_contains(q, "同一个") || str_contains(q, "再补充") || str_contains(q, "延续") {
        history_ratio = 60;
        max_skills = 6;
        max_cases_chars = 1800;
    }
    if str_contains(q, "实现") || str_contains(q, "改代码") || str_contains(q, "重构") || str_contains(q, "写一个") || str_contains(q, "patch") || str_contains(q, "fix") || str_contains(q, "refactor") || str_contains(q, "代码") {
        history_ratio = 45;
        max_skills = 10;
        max_cases_chars = 1500;
    }
    ContextBudgetPlan {
        history_ratio: clamp(history_ratio, HISTORY_BUDGET_RATIO, MAX_HISTORY_BUDGET_RATIO),
        max_skills: clamp(max_skills, 3, MAX_DYNAMIC_INJECTED_SKILLS),
        max_cases_chars: clamp(max_cases_chars, 800, MAX_DYNAMIC_SIMILAR_CASES_CHARS),
    }
}

/// How the context window is shared out for a request.
pub fn compute_context_budget_plan(query: &str) -> (r: ContextBudgetPlan)
    ensures
        r == budget_of(text::lowercased(query@)),
{
    let q = query.to_lowercase();
    budget_for_lowercase(q.as_str())
}

/// The shares of the first request of a session.
pub open spec fn first_turn(p: ContextBudgetPlan) -> ContextBudgetPlan {
    ContextBudgetPlan {
        history_ratio: p.history_ratio,
        max_skills: clamped(
            p.max_skills + FIRST_TURN_SKILL_BONUS,
            3,
            MAX_DYNAMIC_INJECTED_SKILLS as int,
        ) as usize,
        max_cases_chars: clamped(
            p.max_cases_chars + FIRST_TURN_CASES_CHARS_BONUS,
            800,
            MAX_DYNAMIC_SIMILAR_CASES_CHARS as int,
        ) as usize,
    }
}

/// The shares of the first request of a session: more skills and more cases.
pub fn first_turn_budget(p: ContextBudgetPlan) -> (r: ContextBudgetPlan)
    requires
        p.max_skills <= MAX_DYNAMIC_INJECTED_SKILLS,
        p.max_cases_chars <= MAX_DYNAMIC_SIMILAR_CASES_CHARS,
    ensures
        r == first_turn(p),
{
    ContextBudgetPlan {
        history_ratio: p.history_ratio,
        max_skills: clamp(p.max_skills + FIRST_TURN_SKILL_BONUS, 3, MAX_DYNAMIC_INJECTED_SKILLS),
        max_cases_chars: clamp(
            p.max_cases_chars + FIRST_TURN_CASES_CHARS_BONUS,
            800,
            MAX_DYNAMIC_SIMILAR_CASES_CHARS,
        ),
    }
}

/// How many tokens the history may take.
pub open spec fn history_tokens(window: int, ratio: int) -> int {
    clamped(
        window * ratio / 100,
        MIN_HISTORY_BUDGET_TOKENS as int,
        MAX_HISTORY_TOKENS_HARD_LIMIT as int,
    )
}

/// How many tokens the history may take.
pub fn history_budget(context_window_tokens: usize, p: ContextBudgetPlan) -> (r: usize)
    requires
        context_window_tokens * p.history_ratio <= usize::MAX,
    ensures
        r == history_tokens(context_window_tokens as int, p.history_ratio as int),
{
    clamp(
        context_window_tokens * p.history_ratio / 100,
        MIN_HISTORY_BUDGET_TOKENS,
        MAX_HISTORY_TOKENS_HARD_LIMIT,
    )
}

/// Every share is within its bounds, whatever is asked for, on the first
/// request of a session and on later ones.
pub proof fn law_shares_are_bounded(q: Seq<char>, window: int)
    ensures
        ({
            let p = budget_of(q);
            let f = first_turn(p);
            &&& HISTORY_BUDGET_RATIO <= p.history_ratio <= MAX_HISTORY_BUDGET_RATIO
            &&& 3 <= p.max_skills <= MAX_DYNAMIC_INJECTED_SKILLS
            &&& 800 <= p.max_cases_chars <= MAX_DYNAMIC_SIMILAR_CASES_CHARS
            &&& p.max_skills <= f.max_skills <= MAX_DYNAMIC_INJECTED_SKILLS
            &&& p.max_cases_chars <= f.max_cases_chars <= MAX_DYNAMIC_SIMILAR_CASES_CHARS
            &&& MIN_HISTORY_BUDGET_TOKENS <= history_tokens(window, p.history_ratio as int)
                <= MAX_HISTORY_TOKENS_HARD_LIMIT
        }),
{
}

// ---------------------------------------------------------------------------
// The skills that were used
// ---------------------------------------------------------------------------

/// The name of the directory that holds the file.
pub open spec fn dir_of(path: Seq<char>) -> Option<Seq<char>> {
    let parts = text::split_on(path, '/');
    if parts.len() >= 2 && parts[parts.len() - 2].len() > 0 {
        Some(parts[parts.len() - 2])
    } else {
        None
    }
}

/// The name of the directory that holds the file.
pub fn parent_dir_name(path: &str) -> (r: Option<String>)
    ensures
        message::opt_text(r) == dir_of(path@),
{
    let parts = str_split(path, '/');
    proof {
        assert(text::texts(parts@).len() == parts@.len());
    }
    if parts.len() >= 2 {
        let name = parts[parts.len() - 2].clone();
        if !name.as_str().is_empty() {
            return Some(name);
        }
    }
    None
}

/// Whether the character is a quote.
pub open spec fn is_quote(c: char) -> bool {
    c == '"' || c == '\''
}

/// A word without the quotes around it.
pub open spec fn unquoted(w: Seq<char>) -> Seq<char>
    decreases w.len(),
{
    if w.len() > 0 && is_quote(w[0]) {
        unquoted(w.skip(1))
    } else if w.len() > 0 && is_quote(w.last()) {
        unquoted(w.drop_last())
    } else {
        w
    }
}

fn unquote(w: &str) -> (r: String)
    ensures
        r@ == unquoted(w@),
{
    let cs = chars_of(w);
    let mut from: usize = 0;
    let mut to: usize = cs.len();
    proof {
        assert(w@.subrange(0, to as int) =~= w@);
    }
    while from < to && (cs[from] == '"' || cs[from] == '\'')
        invariant
            from <= to == cs@.len(),
            cs@ == w@,
            unquoted(w@) == unquoted(w@.subrange(from as int, to as int)),
        decreases to - from,
    {
        proof {
            let t = w@.subrange(from as int, to as int);
            assert(t.skip(1) =~= w@.subrange(from + 1, to as int));
        }
        from += 1;
    }
    let ghost start = from;
    while from < to && (cs[to - 1] == '"' || cs[to - 1] == '\'')
        invariant
            from <= to <= cs@.len(),
            from == start,
            cs@ == w@,
            from < cs@.len() ==> !is_quote(w@[from as int]),
            unquoted(w@) == unquoted(w@.subrange(from as int, to as int)),
        decreases to - from,
    {
        proof {
            let t = w@.subrange(from as int, to as int);
            assert(t.drop_last() =~= w@.subrange(from as int, to - 1));
            assert(t[0] == w@[from as int]);
        }
        to -= 1;
    }
    let r = string_of(cs.as_slice(), from, to);
    proof {
        assert(r@ =~= w@.subrange(from as int, to as int));
    }
    r
}

/// The skill whose tool a word of a command runs.
pub open spec fn tool_skill(w: Seq<char>) -> Option<Seq<char>> {
    let path = unquoted(w);
    if text::ends_with(path, "/tool.py"@) || text::ends_with(path, "/tool.sh"@) {
        dir_of(path)
    } else {
        None
    }
}

/// The skill of the first of the words that runs the tool of one.
pub open spec fn first_tool_skill(words: Seq<Seq<char>>) -> Option<Seq<char>>
    decreases words.len(),
{
    if words.len() == 0 {
        None
    } else if tool_skill(words[0]) is Some {
        tool_skill(words[0])
    } else {
        first_tool_skill(words.skip(1))
    }
}

/// The skill whose tool a command runs.
pub fn skill_in_command(command: &str) -> (r: Option<String>)
    ensures
        message::opt_text(r) == first_tool_skill(text::words(command@)),
{
    let words = str_words(command);
    let ghost all = text::texts(words@);
    let mut i: usize = 0;
    proof {
        assert(all.skip(0) =~= all);
    }
    while i < words.len()
        invariant
            0 <= i <= words@.len(),
            all == text::texts(words@),
            all == text::words(command@),
            first_tool_skill(all) == first_tool_skill(all.skip(i as int)),
        decreases words@.len() - i,
    {
        proof {
            assert(all.skip(i as int)[0] == words@[i as int]@);
            assert(all.skip(i as int).skip(1) =~= all.skip(i + 1));
        }
        let path = unquote(words[i].as_str());
        if str_ends_with(path.as_str(), "/tool.py") || str_ends_with(path.as_str(), "/tool.sh") {
            if let Some(name) = parent_dir_name(path.as_str()) {
                return Some(name);
            }
        }
        i += 1;
    }
    None
}

/// The skill whose text is read.
pub open spec fn read_skill(path: Seq<char>) -> Option<Seq<char>> {
    if text::ends_with(path, "/SKILL.md"@) {
        dir_of(path)
    } else {
        None
    }
}

/// The skill whose text is read.
pub fn skill_in_path(path: &str) -> (r: Option<String>)
    ensures
        message::opt_text(r) == read_skill(path@),
{
    if str_ends_with(path, "/SKILL.md") {
        parent_dir_name(path)
    } else {
        None
    }
}

/// The skill that a tool call uses, and in which way. `args` is what the
/// arguments of the call parse to.
pub open spec fn skill_of(tool: Seq<char>, args: Option<JsonView>) -> Option<
    (Seq<char>, Seq<char>),
> {
    let used = if tool == "exec"@ {
        match args {
            Some(v) => match v.get_text("command"@) {
                Some(c) => first_tool_skill(text::words(c)),
                None => None,
            },
            None => None,
        }
    } else if tool == "read_file"@ {
        match args {
            Some(v) => match v.get_text("path"@) {
                Some(p) => read_skill(p),
                None => None,
            },
            None => None,
        }
    } else {
        None
    };
    match used {
        Some(name) => Some(
            (
                name,
                if tool == "exec"@ {
                    "tool"@
                } else {
                    "prompt"@
                },
            ),
        ),
        None => None,
    }
}

/// The skill that a tool call uses, and in which way.
pub fn skill_of_call(tool: &str, args: &Option<Json>) -> (r: Option<(String, &'static str)>)
    ensures
        skill_of(
            tool@,
            match *args {
                Some(j) => Some(j@),
                None => None,
            },
        ) == (match r {
            Some(p) => Some((p.0@, p.1@)),
            None => None,
        }),
{
    let value = match args {
        Some(v) => v,
        None => {
            return None;
        },
    };
    if str_eq(tool, "exec") {
        match value.get_text("command") {
            Some(c) => match skill_in_command(c) {
                Some(name) => Some((name, "tool")),
                None => None,
            },
            None => None,
        }
    } else if str_eq(tool, "read_file") {
        match value.get_text("path") {
            Some(p) => match skill_in_path(p) {
                Some(name) => Some((name, "prompt")),
                None => None,
            },
            None => None,
        }
    } else {
        None
    }
}

/// The record of a skill that the agent used itself.
pub open spec fn own_record(
    name: Seq<char>,
    kind: Seq<char>,
    workspace_key: Seq<char>,
    user_name: Seq<char>,
) -> JsonView {
    JsonView::Object(
        seq![
            ("skill"@, JsonView::Text(name)),
            ("type"@, JsonView::Text(kind)),
            ("user_name"@, JsonView::Text(user_name)),
            ("workspace_key"@, JsonView::Text(workspace_key)),
        ],
    )
}

/// What the arguments of a call parse to.
pub open spec fn call_args(c: ToolCallView) -> Option<JsonView> {
    match c.arguments {
        Some(a) => json::parsed(a),
        None => None,
    }
}

/// The skills that tool calls use, each with its record.
pub open spec fn used_by_calls(
    calls: Seq<ToolCallView>,
    key: Seq<char>,
    user: Seq<char>,
) -> Seq<(Seq<char>, JsonView)>
    decreases calls.len(),
{
    if calls.len() == 0 {
        Seq::empty()
    } else {
        let before = used_by_calls(calls.drop_last(), key, user);
        let c = calls.last();
        match skill_of(history::or_empty(c.name), call_args(c)) {
            Some(p) => before.push((p.0, own_record(p.0, p.1, key, user))),
            None => before,
        }
    }
}

/// The skills that a list of records names.
pub open spec fn named_records(l: Seq<JsonView>) -> Seq<(Seq<char>, JsonView)>
    decreases l.len(),
{
    if l.len() == 0 {
        Seq::empty()
    } else {
        let before = named_records(l.drop_last());
        match l.last().get_text("skill"@) {
            Some(name) => if name.len() > 0 {
                before.push((name, l.last()))
            } else {
                before
            },
            None => before,
        }
    }
}

/// The skills that subtasks report, given what the hidden part of the tool
/// result parses to.
pub open spec fn reported(v: Option<JsonView>) -> Seq<(Seq<char>, JsonView)> {
    match v {
        Some(v) => match v.get("skills_used"@) {
            Some(JsonView::List(l)) => named_records(l),
            _ => Seq::empty(),
        },
        None => Seq::empty(),
    }
}

/// The skills that a message shows as used.
pub open spec fn used_in(m: MessageView, key: Seq<char>, user: Seq<char>) -> Seq<
    (Seq<char>, JsonView),
> {
    if m.has_role("assistant"@) {
        match m.tool_calls {
            Some(calls) => used_by_calls(calls, key, user),
            None => Seq::empty(),
        }
    } else if m.has_role("tool"@) {
        match m.text() {
            Some(t) => match dispatch::hidden_json(t) {
                Some(h) => reported(json::parsed(h)),
                None => Seq::empty(),
            },
            None => Seq::empty(),
        }
    } else {
        Seq::empty()
    }
}

/// Those of the records whose name is not taken; each name once.
pub open spec fn fresh(
    found: Seq<(Seq<char>, JsonView)>,
    taken: Seq<Seq<char>>,
) -> Seq<(Seq<char>, JsonView)>
    decreases found.len(),
{
    if found.len() == 0 {
        Seq::empty()
    } else {
        let before = fresh(found.drop_last(), taken);
        let name = found.last().0;
        if (taken + names(before)).contains(name) {
            before
        } else {
            before.push(found.last())
        }
    }
}

/// The names of records.
pub open spec fn names(s: Seq<(Seq<char>, JsonView)>) -> Seq<Seq<char>> {
    Seq::new(s.len(), |i: int| s[i].0)
}

/// The records without their names.
pub open spec fn records(s: Seq<(Seq<char>, JsonView)>) -> Seq<JsonView> {
    Seq::new(s.len(), |i: int| s[i].1)
}

/// The skills that messages show as used, each once.
pub open spec fn skills_in(ms: Seq<MessageView>, key: Seq<char>, user: Seq<char>) -> Seq<
    (Seq<char>, JsonView),
>
    decreases ms.len(),
{
    if ms.len() == 0 {
        Seq::empty()
    } else {
        let before = skills_in(ms.drop_last(), key, user);
        before + fresh(used_in(ms.last(), key, user), names(before))
    }
}

/// A list of records that is being filled: the names and the records.
struct Found {
    names: Vec<String>,
    records: Vec<Json>,
}

impl Found {
    spec fn holds(self, s: Seq<(Seq<char>, JsonView)>) -> bool {
        &&& text::texts(self.names@) == names(s)
        &&& json::list_view(self.records@) == records(s)
    }

    /// Takes a record in, unless its name is taken.
    fn add(&mut self, name: String, record: Json, Ghost(before): Ghost<Seq<(Seq<char>, JsonView)>>)
        requires
            old(self).holds(before),
        ensures
            final(self).holds(
                if names(before).contains(name@) {
                    before
                } else {
                    before.push((name@, record@))
                },
            ),
    {
        if !has_text(&self.names, name.as_str()) {
            let ghost n0 = self.names@;
            let ghost r0 = self.records@;
            self.names.push(name);
            self.records.push(record);
            proof {
                let after = before.push((name@, record@));
                assert(text::texts(self.names@) =~= text::texts(n0).push(name@));
                assert(names(after) =~= names(before).push(name@));
                json::lemma_list_push(r0, record);
                assert(records(after) =~= records(before).push(record@));
            }
        }
    }
}

proof fn lemma_fresh_push(
    found: Seq<(Seq<char>, JsonView)>,
    x: (Seq<char>, JsonView),
    base: Seq<(Seq<char>, JsonView)>,
)
    ensures
        base + fresh(found.push(x), names(base)) == (if names(
            base + fresh(found, names(base)),
        ).contains(x.0) {
            base + fresh(found, names(base))
        } else {
            (base + fresh(found, names(base))).push(x)
        }),
{
    assert(found.push(x).drop_last() =~= found);
    let f = fresh(found, names(base));
    assert(names(base + f) =~= names(base) + names(f));
    assert(base + f.push(x) =~= (base + f).push(x));
}

fn text_of(o: &Option<String>) -> (r: &str)
    ensures
        r@ == history::or_empty(message::opt_text(*o)),
{
    match o {
        Some(s) => s.as_str(),
        None => {
            proof {
                text::lemma_empty_literal();
            }
            ""
        },
    }
}

fn make_record(name: &str, kind: &str, workspace_key: &str, user_name: &str) -> (r: Json)
    ensures
        r@ == own_record(name@, kind@, workspace_key@, user_name@),
{
    let mut m: Vec<(String, Json)> = Vec::new();
    m.push(("skill".to_owned(), Json::Text(name.to_owned())));
    m.push(("type".to_owned(), Json::Text(kind.to_owned())));
    m.push(("user_name".to_owned(), Json::Text(user_name.to_owned())));
    m.push(("workspace_key".to_owned(), Json::Text(workspace_key.to_owned())));
    proof {
        json::lemma_members_view(m@);
        let want = own_record(name@, kind@, workspace_key@, user_name@);
        assert(json::members_view(m@) =~= want->Object_0);
    }
    Json::Object(m)
}

/// The skills that messages show as used, each once, with a record: those
/// whose tool a command runs, those whose text is read, and those that
/// subtasks report.
pub fn extract_skills_used(messages: &Vec<Message>, workspace_key: &str, user_name: &str) -> (r: Vec<
    Json,
>)
    ensures
        json::list_view(r@) == records(
            skills_in(message::views(messages@), workspace_key@, user_name@),
        ),
{
    let ghost ms = message::views(messages@);
    let ghost key = workspace_key@;
    let ghost user = user_name@;
    let mut found = Found { names: Vec::new(), records: Vec::new() };
    let mut i: usize = 0;
    proof {
        assert(text::texts(found.names@) =~= names(skills_in(ms.take(0), key, user)));
        assert(json::list_view(found.records@) =~= records(skills_in(ms.take(0), key, user)));
    }
    while i < messages.len()
        invariant
            0 <= i <= messages@.len(),
            ms == message::views(messages@),
            key == workspace_key@,
            user == user_name@,
            found.holds(skills_in(ms.take(i as int), key, user)),
        decreases messages@.len() - i,
    {
        let m = &messages[i];
        let ghost base = skills_in(ms.take(i as int), key, user);
        proof {
            assert(ms.take(i + 1).drop_last() =~= ms.take(i as int));
            assert(ms.take(i + 1).last() == m@);
            assert(base + fresh(Seq::empty(), names(base)) =~= base);
        }
        if m.has_role("assistant") {
            if let Some(calls) = &m.tool_calls {
                let ghost cv = message::calls_view(calls@);
                let mut j: usize = 0;
                proof {
                    assert(used_by_calls(cv.take(0), key, user) =~= Seq::empty());
                }
                while j < calls.len()
                    invariant
                        0 <= j <= calls@.len(),
                        cv == message::calls_view(calls@),
                        key == workspace_key@,
                        user == user_name@,
                        found.holds(
                            base + fresh(
                                used_by_calls(cv.take(j as int), key, user),
                                names(base),
                            ),
                        ),
                    decreases calls@.len() - j,
                {
                    let c = &calls[j];
                    let ghost so_far = used_by_calls(cv.take(j as int), key, user);
                    let ghost now = base + fresh(so_far, names(base));
                    proof {
                        assert(cv.take(j + 1).drop_last() =~= cv.take(j as int));
                        assert(cv.take(j + 1).last() == c@);
                    }
                    let args = match &c.arguments {
                        Some(a) => parse(a.as_str()),
                        None => None,
                    };
                    if let Some((name, kind)) = skill_of_call(text_of(&c.name), &args) {
                        let record = make_record(name.as_str(), kind, workspace_key, user_name);
                        proof {
                            lemma_fresh_push(so_far, (name@, record@), base);
                        }
                        found.add(name, record, Ghost(now));
                    }
                    j += 1;
                }
                proof {
                    assert(cv.take(j as int) =~= cv);
                }
            }
        } else if m.has_role("tool") {
            if let Some(t) = m.text() {
                let (_shown, hidden) = split_dispatch_output(t);
                if let Some(h) = hidden {
                    if let Some(v) = parse(h.as_str()) {
                        if let Some(Json::List(l)) = v.get("skills_used") {
                            let ghost lv = json::list_view(l@);
                            let mut j: usize = 0;
                            proof {
                                json::lemma_list_view(l@);
                                assert(named_records(lv.take(0)) =~= Seq::empty());
                            }
                            while j < l.len()
                                invariant
                                    0 <= j <= l@.len(),
                                    lv == json::list_view(l@),
                                    lv.len() == l@.len(),
                                    forall|k: int| 0 <= k < l@.len() ==> #[trigger] lv[k] == l@[k]@,
                                    found.holds(
                                        base + fresh(
                                            named_records(lv.take(j as int)),
                                            names(base),
                                        ),
                                    ),
                                decreases l@.len() - j,
                            {
                                let ghost so_far = named_records(lv.take(j as int));
                                let ghost now = base + fresh(so_far, names(base));
                                proof {
                                    assert(lv.take(j + 1).drop_last() =~= lv.take(j as int));
                                    assert(lv.take(j + 1).last() == l@[j as int]@);
                                }
                                if let Some(name) = l[j].get_text("skill") {
                                    if !name.is_empty() {
                                        let record = l[j].clone();
                                        proof {
                                            lemma_fresh_push(so_far, (name@, record@), base);
                                        }
                                        found.add(name.to_owned(), record, Ghost(now));
                                    }
                                }
                                j += 1;
                            }
                            proof {
                                assert(lv.take(j as int) =~= lv);
                            }
                        }
                    }
                }
            }
        }
        i += 1;
    }
    proof {
        assert(ms.take(i as int) =~= ms);
    }
    found.records
}

/// No skill is recorded twice.
pub proof fn law_skills_are_recorded_once(ms: Seq<MessageView>, key: Seq<char>, user: Seq<char>)
    ensures
        names(skills_in(ms, key, user)).no_duplicates(),
    decreases ms.len(),
{
    if ms.len() > 0 {
        let before = skills_in(ms.drop_last(), key, user);
        law_skills_are_recorded_once(ms.drop_last(), key, user);
        lemma_fresh_distinct(used_in(ms.last(), key, user), before);
    }
}

proof fn lemma_fresh_distinct(
    found: Seq<(Seq<char>, JsonView)>,
    base: Seq<(Seq<char>, JsonView)>,
)
    requires
        names(base).no_duplicates(),
    ensures
        names(base + fresh(found, names(base))).no_duplicates(),
    decreases found.len(),
{
    if found.len() == 0 {
        assert(base + fresh(found, names(base)) =~= base);
    } else {
        let rest = found.drop_last();
        lemma_fresh_distinct(rest, base);
        lemma_fresh_push(rest, found.last(), base);
        assert(rest.push(found.last()) =~= found);
        let now = base + fresh(rest, names(base));
        if !names(now).contains(found.last().0) {
            let after = now.push(found.last());
            assert(names(after) =~= names(now).push(found.last().0));
        }
    }
}

// ---------------------------------------------------------------------------
// Marks that the user does not see
// ---------------------------------------------------------------------------

/// A text without the marks that the user does not see.
pub open spec fn without_marks(t: Seq<char>) -> Seq<char> {
    text::trim(
        text::replace_all(
            text::replace_all(
                text::replace_all(t, "[[TYCLAW_COMPACT_ASSISTANT]]"@, Seq::empty()),
                "[[TYCLAW_COMPACT_SYSTEM]]"@,
                Seq::empty(),
            ),
            "[[TYCLAW_MAX_REACHED_RESET_NEXT_RUN]]"@,
            Seq::empty(),
        ),
    )
}

/// A text without the marks that the user does not see.
pub fn strip_internal_markers(t: &str) -> (r: String)
    ensures
        r@ == without_marks(t@),
{
    proof {
        text::lemma_empty_literal();
        reveal_strlit("[[TYCLAW_COMPACT_ASSISTANT]]");
        reveal_strlit("[[TYCLAW_COMPACT_SYSTEM]]");
        reveal_strlit("[[TYCLAW_MAX_REACHED_RESET_NEXT_RUN]]");
    }
    let a = str_replace(t, "[[TYCLAW_COMPACT_ASSISTANT]]", "");
    let b = str_replace(a.as_str(), "[[TYCLAW_COMPACT_SYSTEM]]", "");
    let c = str_replace(b.as_str(), "[[TYCLAW_MAX_REACHED_RESET_NEXT_RUN]]", "");
    str_trim(c.as_str())
}

// ---------------------------------------------------------------------------
// Laws
// ---------------------------------------------------------------------------

/// Of the lines on similar cases each is kept that says something new.
pub proof fn law_new_case_lines_are_kept(lines: Seq<Seq<char>>, keys: Seq<Seq<char>>, i: int)
    requires
        lines.len() == keys.len(),
        0 <= i < lines.len(),
        keys[i].len() > 0,
        forall|j: int| 0 <= j < i ==> #[trigger] keys[j] != keys[i],
    ensures
        kept_lines(lines, keys).contains(lines[i]),
    decreases lines.len(),
{
    let r = kept_lines(lines, keys);
    let p = lines.drop_last();
    let q = keys.drop_last();
    if i == lines.len() - 1 {
        assert(!q.contains(keys.last())) by {
            assert forall|j: int| 0 <= j < q.len() implies q[j] != keys.last() by {
                assert(keys[j] != keys[i]);
            }
        }
        assert(r[r.len() - 1] == lines[i]);
    } else {
        assert forall|j: int| 0 <= j < i implies #[trigger] q[j] != q[i] by {
            assert(keys[j] != keys[i]);
        }
        law_new_case_lines_are_kept(p, q, i);
        let b = kept_lines(p, q);
        let k = choose|k: int| 0 <= k < b.len() && b[k] == lines[i];
        assert(r[k] == b[k]);
    }
}

/// The section on similar cases is no longer than allowed, but for the note on
/// the cut, and keeps its front.
pub proof fn law_cases_keep_their_front(merged: Seq<char>, max: nat)
    ensures
        merged.len() <= max ==> cut_cases(merged, max) == merged,
        merged.len() > max ==> text::starts_with(cut_cases(merged, max), merged.take(max as int)),
{
    if merged.len() > max {
        let p = merged.take(max as int);
        assert(cut_cases(merged, max).subrange(0, p.len() as int) =~= p);
    }
}

proof fn lemma_handoff_entries(ms: Seq<MessageView>, i: int)
    requires
        0 <= i < ms.len(),
    ensures
        text::contains(handoff_entries(ms), handoff_entry(ms[i], (i + 1) as nat)),
    decreases ms.len(),
{
    let p = handoff_entries(ms.drop_last());
    let last = handoff_entry(ms.last(), ms.len());
    let none = Seq::<char>::empty();
    if i == ms.len() - 1 {
        assert(p + last =~= p + last + none);
        text::lemma_contains_part(p, last, none);
    } else {
        lemma_handoff_entries(ms.drop_last(), i);
        assert(p + last =~= none + p + last);
        text::lemma_contains_part(none, p, last);
        text::lemma_contains_within(p + last, p, handoff_entry(ms[i], (i + 1) as nat));
    }
}

proof fn lemma_handoff_entry(m: MessageView, number: nat, t: Seq<char>)
    requires
        t == m.text_or_empty(),
        t.len() <= HANDOFF_MAX_CONTENT_CHARS,
        m.role == Some("user"@) ==> context::task_of(t) == Some(t),
    ensures
        text::contains(handoff_entry(m, number), t),
        text::contains(handoff_entry(m, number), handoff_role(m)),
{
    let role = handoff_role(m);
    let e = handoff_entry(m, number);
    reveal_strlit("unknown");
    reveal_strlit("user");
    assert("unknown"@.len() != "user"@.len());
    let id = match m.tool_call_id {
        Some(id) => "- tool_call_id: `"@ + id + "`\n"@,
        None => Seq::empty(),
    };
    let calls = match m.tool_calls {
        Some(calls) => "- tool_calls: "@ + text::dec(calls.len()) + "\n"@,
        None => Seq::empty(),
    };
    let head = "## "@ + text::dec(number) + ". role="@;
    assert(text::contains(e, role)) by {
        let tail = "\n"@ + id + calls + "```\n"@ + t + "\n```\n\n"@;
        assert(e =~= head + role + tail);
        text::lemma_contains_part(head, role, tail);
    }
    assert(text::contains(e, t)) by {
        let front = head + role + "\n"@ + id + calls + "```\n"@;
        assert(e =~= front + t + "\n```\n\n"@);
        text::lemma_contains_part(front, t, "\n```\n\n"@);
    }
}

/// A handoff holds the end of the conversation: of each of the last messages
/// who said it and what, where it is not too long and, of the user, a task.
pub proof fn law_handoff_holds_the_conversation(
    key: Seq<char>,
    ms: Seq<MessageView>,
    now: Seq<char>,
    i: int,
    t: Seq<char>,
)
    requires
        0 <= i < ms.len(),
        i >= ms.len() - HANDOFF_MAX_MESSAGES,
        t == ms[i].text_or_empty(),
        t.len() <= HANDOFF_MAX_CONTENT_CHARS,
        ms[i].role == Some("user"@) ==> context::task_of(t) == Some(t),
    ensures
        text::contains(handoff(key, ms, now), t),
        ms[i].role matches Some(r) ==> text::contains(handoff(key, ms, now), r),
{
    let last = handed_off(ms);
    let k = i - (ms.len() - last.len());
    assert(last[k] == ms[i]);
    let h = handoff(key, ms, now);
    let list = handoff_entries(last);
    let e = handoff_entry(last[k], (k + 1) as nat);
    assert(text::contains(h, e)) by {
        lemma_handoff_entries(last, k);
        let head = "# TyClaw Handoff\n\n"@ + "- 时间: "@ + now + "\n"@ + "- 会话: `"@ + key + "`\n"@
            + "- 总消息数: "@ + text::dec(ms.len()) + "\n"@ + "- 导出消息数: "@ + text::dec(last.len())
            + "\n\n"@;
        let none = Seq::<char>::empty();
        assert(h =~= head + list + none);
        text::lemma_contains_part(head, list, none);
        text::lemma_contains_within(h, list, e);
    }
    lemma_handoff_entry(last[k], (k + 1) as nat, t);
    text::lemma_contains_within(h, e, t);
    text::lemma_contains_within(h, e, handoff_role(ms[i]));
}

/// A request for code gets more skills than others, one that goes on with an
/// earlier one more history, and one about something that went wrong more
/// cases.
pub proof fn law_requests_get_what_they_need(q: Seq<char>)
    ensures
        asks_for_code(q) ==> budget_of(q).max_skills > MAX_INJECTED_SKILLS,
        !asks_for_code(q) && goes_on(q) ==> budget_of(q).history_ratio > HISTORY_BUDGET_RATIO,
        !asks_for_code(q) && !goes_on(q) && about_trouble(q) ==> budget_of(q).max_cases_chars
            > MAX_SIMILAR_CASES_CHARS,
        !asks_for_code(q) && !goes_on(q) && !about_trouble(q) ==> budget_of(q).max_skills
            == MAX_INJECTED_SKILLS && budget_of(q).history_ratio == HISTORY_BUDGET_RATIO
            && budget_of(q).max_cases_chars == MAX_SIMILAR_CASES_CHARS,
        first_turn(budget_of(q)).history_ratio == budget_of(q).history_ratio,
        budget_of(q).max_skills + FIRST_TURN_SKILL_BONUS <= MAX_DYNAMIC_INJECTED_SKILLS
            ==> first_turn(budget_of(q)).max_skills == budget_of(q).max_skills
            + FIRST_TURN_SKILL_BONUS,
{
}

/// The history may take its share of the window, within the bounds.
pub proof fn law_history_takes_its_share(window: int, ratio: int)
    ensures
        MIN_HISTORY_BUDGET_TOKENS <= window * ratio / 100 <= MAX_HISTORY_TOKENS_HARD_LIMIT
            ==> history_tokens(window, ratio) == window * ratio / 100,
        window * ratio / 100 > MAX_HISTORY_TOKENS_HARD_LIMIT ==> history_tokens(window, ratio)
            == MAX_HISTORY_TOKENS_HARD_LIMIT,
        window * ratio / 100 < MIN_HISTORY_BUDGET_TOKENS ==> history_tokens(window, ratio)
            == MIN_HISTORY_BUDGET_TOKENS,
{
}

/// The skill whose tool is run is known by its directory.
pub proof fn law_skill_is_known_by_its_directory(a: Seq<char>, name: Seq<char>, file: Seq<char>)
    requires
        name.len() > 0,
        !name.contains('/'),
        !file.contains('/'),
    ensures
        dir_of(a + seq!['/'] + name + seq!['/'] + file) == Some(name),
{
    let rest = name + seq!['/'] + file;
    let path = a + seq!['/'] + name + seq!['/'] + file;
    assert(path =~= a + seq!['/'] + rest);
    lemma_split_tail(a, rest);
    lemma_split_pair(name, file);
    let x = text::split_on(a, '/');
    let parts = text::split_on(path, '/');
    assert(parts == x + seq![name, file]);
    text::law_parts_are_free_of_the_separator(a, '/');
    assert(parts[parts.len() - 2] == name);
}

proof fn lemma_split_pair(name: Seq<char>, file: Seq<char>)
    requires
        !name.contains('/'),
        !file.contains('/'),
    ensures
        text::split_on(name + seq!['/'] + file, '/') == seq![name, file],
{
    let s = name + seq!['/'] + file;
    text::lemma_until(s, '/');
    let n = text::until(s, '/') as int;
    assert(s[name.len() as int] == '/');
    assert(n == name.len()) by {
        if n < name.len() {
            assert(s[n] == name[n]);
            assert(name.contains(name[n]));
        }
    }
    assert(s.take(n) =~= name);
    assert(s.skip(n + 1) =~= file);
    text::lemma_until(file, '/');
    let m = text::until(file, '/') as int;
    if m < file.len() {
        assert(file.contains(file[m]));
    }
    assert(text::split_on(file, '/') == seq![file]);
    assert(text::split_on(s, '/') =~= seq![name, file]);
}

proof fn lemma_split_tail(a: Seq<char>, rest: Seq<char>)
    ensures
        text::split_on(a + seq!['/'] + rest, '/') == text::split_on(a, '/') + text::split_on(
            rest,
            '/',
        ),
    decreases a.len(),
{
    let s = a + seq!['/'] + rest;
    text::lemma_until(s, '/');
    text::lemma_until(a, '/');
    let n = text::until(s, '/') as int;
    let k = text::until(a, '/') as int;
    assert(s[a.len() as int] == '/');
    if k < a.len() {
        assert(s[k] == a[k]);
        assert(n == k) by {
            if n < k {
                assert(a[n] == s[n]);
            }
        }
        let b = a.skip(k + 1);
        assert(s.skip(n + 1) =~= b + seq!['/'] + rest);
        assert(s.take(n) =~= a.take(k));
        lemma_split_tail(b, rest);
        assert(text::split_on(s, '/') =~= text::split_on(a, '/') + text::split_on(rest, '/'));
    } else {
        assert(n == a.len()) by {
            if n < a.len() {
                assert(a[n] == s[n]);
            }
        }
        assert(s.take(n) =~= a);
        assert(s.skip(n + 1) =~= rest);
        assert(text::split_on(s, '/') =~= text::split_on(a, '/') + text::split_on(rest, '/'));
    }
}

proof fn lemma_fresh_holds(found: Seq<(Seq<char>, JsonView)>, taken: Seq<Seq<char>>, i: int)
    requires
        0 <= i < found.len(),
    ensures
        taken.contains(found[i].0) || names(fresh(found, taken)).contains(found[i].0),
    decreases found.len(),
{
    let p = found.drop_last();
    let before = fresh(p, taken);
    let all = fresh(found, taken);
    let name = found[i].0;
    if i == found.len() - 1 {
        if (taken + names(before)).contains(name) {
            let k = choose|k: int|
                0 <= k < (taken + names(before)).len() && (taken + names(before))[k] == name;
            if k < taken.len() {
                assert(taken[k] == name);
            } else {
                assert(names(before)[k - taken.len()] == name);
            }
        } else {
            assert(names(all)[all.len() - 1] == name);
        }
    } else {
        lemma_fresh_holds(p, taken, i);
        if names(before).contains(name) {
            let k = choose|k: int| 0 <= k < names(before).len() && names(before)[k] == name;
            assert(names(all)[k] == name);
        }
    }
}

/// Every skill that a message shows as used is recorded.
pub proof fn law_used_skills_are_recorded(
    ms: Seq<MessageView>,
    key: Seq<char>,
    user: Seq<char>,
    i: int,
    k: int,
)
    requires
        0 <= i < ms.len(),
        0 <= k < used_in(ms[i], key, user).len(),
    ensures
        names(skills_in(ms, key, user)).contains(used_in(ms[i], key, user)[k].0),
    decreases ms.len(),
{
    let p = ms.drop_last();
    let before = skills_in(p, key, user);
    let all = skills_in(ms, key, user);
    let name = used_in(ms[i], key, user)[k].0;
    if i == ms.len() - 1 {
        let f = fresh(used_in(ms.last(), key, user), names(before));
        lemma_fresh_holds(used_in(ms.last(), key, user), names(before), k);
        if names(before).contains(name) {
            let j = choose|j: int| 0 <= j < names(before).len() && names(before)[j] == name;
            assert(names(all)[j] == name);
        } else {
            let j = choose|j: int| 0 <= j < names(f).len() && names(f)[j] == name;
            assert(names(all)[before.len() + j] == name);
        }
    } else {
        law_used_skills_are_recorded(p, key, user, i, k);
        let j = choose|j: int| 0 <= j < names(before).len() && names(before)[j] == name;
        assert(names(all)[j] == name);
    }
}

/// A call that runs the tool of a skill or reads its text shows the skill as
/// used, with who used it and where.
pub proof fn law_calls_show_their_skills(
    calls: Seq<ToolCallView>,
    key: Seq<char>,
    user: Seq<char>,
    i: int,
)
    requires
        0 <= i < calls.len(),
        calls[i].name is Some,
        skill_of(calls[i].name->0, call_args(calls[i])) is Some,
    ensures
        ({
            let p = skill_of(calls[i].name->0, call_args(calls[i]))->0;
            used_by_calls(calls, key, user).contains((p.0, own_record(p.0, p.1, key, user)))
        }),
    decreases calls.len(),
{
    let p = skill_of(calls[i].name->0, call_args(calls[i]))->0;
    let x = (p.0, own_record(p.0, p.1, key, user));
    let r = used_by_calls(calls, key, user);
    let t = calls.drop_last();
    if i == calls.len() - 1 {
        assert(r[r.len() - 1] == x);
    } else {
        law_calls_show_their_skills(t, key, user, i);
        let b = used_by_calls(t, key, user);
        let k = choose|k: int| 0 <= k < b.len() && b[k] == x;
        assert(r[k] == b[k]);
    }
}

/// Every skill that a subtask reports by its name is recorded.
pub proof fn law_reported_skills_are_recorded(
    v: JsonView,
    l: Seq<JsonView>,
    i: int,
    name: Seq<char>,
)
    requires
        v.get("skills_used"@) == Some(JsonView::List(l)),
        0 <= i < l.len(),
        l[i].get_text("skill"@) == Some(name),
        name.len() > 0,
    ensures
        reported(Some(v)).contains((name, l[i])),
{
    lemma_record_is_named(l, i, name);
}

proof fn lemma_record_is_named(l: Seq<JsonView>, i: int, name: Seq<char>)
    requires
        0 <= i < l.len(),
        l[i].get_text("skill"@) == Some(name),
        name.len() > 0,
    ensures
        named_records(l).contains((name, l[i])),
    decreases l.len(),
{
    let p = l.drop_last();
    let before = named_records(p);
    if i < p.len() {
        assert(p[i] == l[i]);
        lemma_record_is_named(p, i, name);
        let k = choose|k: int| 0 <= k < before.len() && before[k] == (name, l[i]);
        assert(named_records(l)[k] == (name, l[i]));
    } else {
        assert(named_records(l)[before.len() as int] == (name, l[i]));
    }
}

} // verus!

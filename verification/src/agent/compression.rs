//! Shortening what old tool calls and their results take in a prompt.

use crate::agent::loop_helpers;
use crate::agent::loop_helpers::{
    is_error_envelope, EXEC_INTENT_MEDIUM_MAX_CHARS, EXEC_INTENT_OLD_MAX_CHARS,
    EXPLORE_ABSOLUTE_CAP, TOOL_CALL_ARGS_FRESH_COUNT, TOOL_CALL_ARGS_MEDIUM_CHARS,
    TOOL_CALL_ARGS_OLD_COUNT, TOOL_RESULT_FRESH_COUNT, TOOL_RESULT_MEDIUM_CHARS,
    TOOL_RESULT_OLD_COUNT,
};
use crate::json;
use crate::json::{parse, Json, JsonView};
use crate::message;
use crate::message::{
    clone_messages, Content, ContentView, Message, MessageView, ToolCall, ToolCallView,
};
use crate::seqs;
use crate::text;
use crate::text::{
    chars_of, decimal_usize, find_at, fits_bytes, str_byte_len, str_contains, str_eq,
    str_floor_prefix, str_join, str_lines, str_replace, str_starts_with, str_trim, string_of,
};
use vstd::prelude::*;

verus! {

// ---------------------------------------------------------------------------
// Reading one field without parsing
// ---------------------------------------------------------------------------

/// How many backslashes stand directly in front of index `i`, none of them in
/// front of index `from`.
pub open spec fn backslashes(s: Seq<char>, from: int, i: int) -> nat
    decreases i,
{
    if i <= from || i <= 0 || s[i - 1] != '\\' {
        0
    } else {
        1 + backslashes(s, from, i - 1)
    }
}

/// Whether a quote stands at index `i` that no backslash escapes.
pub open spec fn closes(s: Seq<char>, from: int, i: int) -> bool {
    s[i] == '"' && backslashes(s, from, i) % 2 == 0
}

/// The part of `s` from index `from` up to the first quote that is not escaped.
pub open spec fn until_quote(s: Seq<char>, from: int) -> Option<Seq<char>> {
    match seqs::first_from(|i: int| closes(s, from, i), from, s.len() as int) {
        Some(i) => Some(s.subrange(from, i)),
        None => None,
    }
}

/// A text without the common JSON escapes.
pub open spec fn unescaped(raw: Seq<char>) -> Seq<char> {
    text::replace_all(
        text::replace_all(
            text::replace_all(text::replace_all(raw, "\\n"@, "\n"@), "\\t"@, "\t"@),
            "\\\""@,
            "\""@,
        ),
        "\\\\"@,
        "\\"@,
    )
}

/// The string that follows `"field":"` for the first time.
pub open spec fn json_field(s: Seq<char>, field: Seq<char>) -> Option<Seq<char>> {
    let pattern = "\""@ + field + "\":\""@;
    match text::find_from(s, pattern, 0) {
        Some(i) => match until_quote(s, i + pattern.len()) {
            Some(raw) => Some(unescaped(raw)),
            None => None,
        },
        None => None,
    }
}

/// The string that follows `"field":"` for the first time, up to the quote
/// that closes it.
pub fn extract_json_field(json_str: &str, field: &str) -> (r: Option<String>)
    ensures
        message::opt_text(r) == json_field(json_str@, field@),
{
    let ghost s = json_str@;
    let mut pattern = "\"".to_owned();
    pattern.push_str(field);
    pattern.push_str("\":\"");
    let sc = chars_of(json_str);
    let pc = chars_of(pattern.as_str());
    let n: usize = sc.len();
    let start = match find_at(sc.as_slice(), pc.as_slice(), 0) {
        Some(i) => i,
        None => {
            return None;
        },
    };
    proof {
        text::lemma_find_from(s, pattern@, 0);
    }
    let from: usize = start + pc.len();
    let ghost f = |i: int| closes(s, from as int, i);
    let mut i: usize = from;
    let mut run: usize = 0;
    while i < n
        invariant
            from <= i <= n,
            s == json_str@,
            n == s.len(),
            sc@ == s,
            run <= i - from,
            run == backslashes(s, from as int, i as int),
            f == (|i: int| closes(s, from as int, i)),
            forall|j: int| from <= j < i ==> !#[trigger] f(j),
            json_field(s, field@) == (match until_quote(s, from as int) {
                Some(raw) => Some(unescaped(raw)),
                None => None,
            }),
        decreases n - i,
    {
        proof {
            assert(f(i as int) == closes(s, from as int, i as int));
        }
        if sc[i] == '"' && run % 2 == 0 {
            proof {
                seqs::lemma_first_skip(f, from as int, i as int, n as int);
                reveal_strlit("\\n");
                reveal_strlit("\\t");
                reveal_strlit("\\\"");
                reveal_strlit("\\\\");
            }
            let raw = string_of(sc.as_slice(), from, i);
            let u = str_replace(raw.as_str(), "\\n", "\n");
            let u = str_replace(u.as_str(), "\\t", "\t");
            let u = str_replace(u.as_str(), "\\\"", "\"");
            let u = str_replace(u.as_str(), "\\\\", "\\");
            return Some(u);
        }
        if sc[i] == '\\' {
            run = run + 1;
        } else {
            run = 0;
        }
        i += 1;
    }
    proof {
        seqs::lemma_first_skip(f, from as int, i as int, n as int);
    }
    None
}

// ---------------------------------------------------------------------------
// What a script was for
// ---------------------------------------------------------------------------

/// Whether a line tells what a script is for.
pub open spec fn tells_intent(t: Seq<char>) -> bool {
    ||| text::starts_with(t, "#"@)
    ||| text::starts_with(t, "print("@)
    ||| text::starts_with(t, "print ("@)
    ||| text::starts_with(t, "import "@)
    ||| text::starts_with(t, "from "@)
}

/// Whether a line changes the directory in front of a command.
pub open spec fn is_cd_line(t: Seq<char>) -> bool {
    text::starts_with(t, "cd "@) && text::contains(t, "&&"@)
}

/// The lines that tell what a script is for, trimmed.
pub open spec fn intent_lines(ls: Seq<Seq<char>>) -> Seq<Seq<char>>
    decreases ls.len(),
{
    if ls.len() == 0 {
        Seq::empty()
    } else {
        let rest = intent_lines(ls.drop_last());
        let t = text::trim(ls.last());
        if !is_cd_line(t) && tells_intent(t) {
            rest.push(t)
        } else {
            rest
        }
    }
}

/// The last line that changes the directory, trimmed, or the empty string.
pub open spec fn cd_prefix(ls: Seq<Seq<char>>) -> Seq<char>
    decreases ls.len(),
{
    if ls.len() == 0 {
        Seq::empty()
    } else if is_cd_line(text::trim(ls.last())) {
        text::trim(ls.last())
    } else {
        cd_prefix(ls.drop_last())
    }
}

/// A text of at most `max` characters, with dots where something was cut off.
pub open spec fn clipped(s: Seq<char>, max: nat) -> Seq<char> {
    if s.len() > max {
        s.take(max as int) + "..."@
    } else {
        s
    }
}

/// The summary of a command.
pub open spec fn intent_summary(cmd: Seq<char>, max: nat) -> Seq<char> {
    let ls = text::lines(cmd);
    let prefix = cd_prefix(ls);
    let intent = clipped(text::join(intent_lines(ls), " | "@), max);
    let core = "python script ("@ + text::dec(text::byte_len(cmd)) + " chars) intent: "@ + intent
        + "]"@;
    if prefix.len() > 0 {
        "["@ + prefix + " | "@ + core
    } else {
        "["@ + core
    }
}

/// The JSON text of an object with one string member.
pub open spec fn object_with(key: Seq<char>, value: Seq<char>) -> Seq<char> {
    "{"@ + json::quoted(key) + ":"@ + json::quoted(value) + "}"@
}

/// The arguments of a command, reduced to what the script was for; nothing
/// where no line tells.
pub open spec fn exec_intent(args: Seq<char>, max: nat) -> Option<Seq<char>> {
    match json_field(args, "command"@) {
        Some(cmd) => if intent_lines(text::lines(cmd)).len() == 0 {
            None
        } else {
            Some(object_with("command"@, intent_summary(cmd, max)))
        },
        None => None,
    }
}

fn object_text(key: &str, value: &str) -> (r: String)
    ensures
        r@ == object_with(key@, value@),
{
    let k = json::quote(key);
    let v = json::quote(value);
    let mut r = String::new();
    r.push_str("{");
    r.push_str(k.as_str());
    r.push_str(":");
    r.push_str(v.as_str());
    r.push_str("}");
    r
}

fn line_tells_intent(t: &str) -> (r: bool)
    ensures
        r == tells_intent(t@),
{
    str_starts_with(t, "#") || str_starts_with(t, "print(") || str_starts_with(t, "print (")
        || str_starts_with(t, "import ") || str_starts_with(t, "from ")
}

/// The arguments of a command, reduced to what the script was for.
pub fn extract_exec_intent(args_str: &str, max_intent_chars: usize) -> (r: Option<String>)
    ensures
        message::opt_text(r) == exec_intent(args_str@, max_intent_chars as nat),
{
    let cmd = match extract_json_field(args_str, "command") {
        Some(c) => c,
        None => {
            return None;
        },
    };
    let ls = str_lines(cmd.as_str());
    let ghost lv = text::texts(ls@);
    let mut intent: Vec<String> = Vec::new();
    let mut prefix = String::new();
    let mut i: usize = 0;
    proof {
        assert(text::texts(intent@) =~= intent_lines(lv.take(0)));
        assert(prefix@ =~= cd_prefix(lv.take(0)));
    }
    while i < ls.len()
        invariant
            0 <= i <= ls@.len(),
            lv == text::texts(ls@),
            text::texts(intent@) == intent_lines(lv.take(i as int)),
            prefix@ == cd_prefix(lv.take(i as int)),
        decreases ls@.len() - i,
    {
        let ghost before = intent@;
        let t = str_trim(ls[i].as_str());
        proof {
            let u = lv.take(i + 1);
            assert(u.drop_last() =~= lv.take(i as int));
            assert(u.last() == ls@[i as int]@);
        }
        if str_starts_with(t.as_str(), "cd ") && str_contains(t.as_str(), "&&") {
            prefix = t;
        } else if line_tells_intent(t.as_str()) {
            intent.push(t);
            proof {
                assert(text::texts(intent@) =~= text::texts(before).push(t@));
            }
        }
        i += 1;
    }
    proof {
        assert(lv.take(i as int) =~= lv);
        assert(intent@.len() == text::texts(intent@).len());
    }
    if intent.len() == 0 {
        return None;
    }
    let joined = str_join(&intent, " | ");
    let jc = chars_of(joined.as_str());
    let mut clip = joined.clone();
    if jc.len() > max_intent_chars {
        clip = string_of(jc.as_slice(), 0, max_intent_chars);
        proof {
            assert(clip@ =~= joined@.take(max_intent_chars as int));
        }
        clip.push_str("...");
    }
    let len = decimal_usize(str_byte_len(cmd.as_str()));
    let mut core = "python script (".to_owned();
    core.push_str(len.as_str());
    core.push_str(" chars) intent: ");
    core.push_str(clip.as_str());
    core.push_str("]");
    let mut summary = "[".to_owned();
    if !prefix.as_str().is_empty() {
        summary.push_str(prefix.as_str());
        summary.push_str(" | ");
    }
    summary.push_str(core.as_str());
    proof {
        assert(summary@ =~= intent_summary(cmd@, max_intent_chars as nat));
    }
    Some(object_text("command", summary.as_str()))
}

// ---------------------------------------------------------------------------
// Shortening JSON strings
// ---------------------------------------------------------------------------

/// A string of at most `max` bytes, with a note where it was cut.
pub open spec fn cut_string(s: Seq<char>, max: nat) -> Seq<char> {
    if text::byte_len(s) > max {
        text::floor_prefix(s, max) + "... [truncated: "@ + text::dec(max) + "/"@ + text::dec(
            text::byte_len(s),
        ) + "]"@
    } else {
        s
    }
}

/// A JSON value with each of its strings cut to `max` bytes; names of members
/// stay.
pub open spec fn cut_json(v: JsonView, max: nat) -> JsonView
    decreases v,
{
    match v {
        JsonView::Text(t) => JsonView::Text(cut_string(t, max)),
        JsonView::List(l) => JsonView::List(cut_list(l, max)),
        JsonView::Object(m) => JsonView::Object(cut_members(m, max)),
        _ => v,
    }
}

/// The values of a list with their strings cut.
pub open spec fn cut_list(s: Seq<JsonView>, max: nat) -> Seq<JsonView>
    decreases s,
{
    if s.len() == 0 {
        Seq::empty()
    } else {
        cut_list(s.drop_last(), max).push(cut_json(s.last(), max))
    }
}

/// The members of an object with their strings cut.
pub open spec fn cut_members(s: Seq<(Seq<char>, JsonView)>, max: nat) -> Seq<(Seq<char>, JsonView)>
    decreases s,
{
    if s.len() == 0 {
        Seq::empty()
    } else {
        cut_members(s.drop_last(), max).push((s.last().0, cut_json(s.last().1, max)))
    }
}

fn cut_text(s: &str, max: usize) -> (r: String)
    ensures
        r@ == cut_string(s@, max as nat),
{
    if fits_bytes(s, max) {
        return s.to_owned();
    }
    let mut r = str_floor_prefix(s, max);
    let m = decimal_usize(max);
    let n = decimal_usize(str_byte_len(s));
    r.push_str("... [truncated: ");
    r.push_str(m.as_str());
    r.push_str("/");
    r.push_str(n.as_str());
    r.push_str("]");
    r
}

/// The JSON value with each of its strings cut to `max_chars` bytes.
pub fn truncate_json_values(value: &Json, max_chars: usize) -> (r: Json)
    ensures
        r@ == cut_json(value@, max_chars as nat),
    decreases value,
{
    match value {
        Json::Null => Json::Null,
        Json::Bool(b) => Json::Bool(*b),
        Json::Number(n) => Json::Number(n.clone()),
        Json::Text(t) => Json::Text(cut_text(t.as_str(), max_chars)),
        Json::List(v) => {
            let mut out: Vec<Json> = Vec::new();
            let mut i: usize = 0;
            proof {
                assert(v@.take(0) =~= Seq::empty());
                assert(json::list_view(out@) =~= cut_list(
                    json::list_view(v@.take(0)),
                    max_chars as nat,
                ));
            }
            while i < v.len()
                invariant
                    0 <= i <= v@.len(),
                    *value == Json::List(*v),
                    json::list_view(out@) == cut_list(
                        json::list_view(v@.take(i as int)),
                        max_chars as nat,
                    ),
                decreases v@.len() - i,
            {
                proof {
                    assert(decreases_to!(*value => value->List_0));
                    assert(decreases_to!(*v => v@));
                    assert(decreases_to!(v@ => v@[i as int]));
                    assert(v@.take(i + 1) =~= v@.take(i as int).push(v@[i as int]));
                    json::lemma_list_push(v@.take(i as int), v@[i as int]);
                }
                let part = truncate_json_values(&v[i], max_chars);
                proof {
                    json::lemma_list_push(out@, part);
                    let a = json::list_view(v@.take(i + 1));
                    assert(a.drop_last() =~= json::list_view(v@.take(i as int)));
                }
                out.push(part);
                i += 1;
            }
            proof {
                assert(v@.take(i as int) =~= v@);
            }
            Json::List(out)
        },
        Json::Object(v) => {
            let mut out: Vec<(String, Json)> = Vec::new();
            let mut i: usize = 0;
            proof {
                assert(v@.take(0) =~= Seq::empty());
                assert(json::members_view(out@) =~= cut_members(
                    json::members_view(v@.take(0)),
                    max_chars as nat,
                ));
            }
            while i < v.len()
                invariant
                    0 <= i <= v@.len(),
                    *value == Json::Object(*v),
                    json::members_view(out@) == cut_members(
                        json::members_view(v@.take(i as int)),
                        max_chars as nat,
                    ),
                decreases v@.len() - i,
            {
                proof {
                    assert(decreases_to!(*value => value->Object_0));
                    assert(decreases_to!(*v => v@));
                    assert(decreases_to!(v@ => v@[i as int]));
                    assert(decreases_to!(v@[i as int] => v@[i as int].1));
                    assert(v@.take(i + 1) =~= v@.take(i as int).push(v@[i as int]));
                    json::lemma_members_push(v@.take(i as int), v@[i as int].0, v@[i as int].1);
                }
                let part = truncate_json_values(&v[i].1, max_chars);
                let key = v[i].0.clone();
                proof {
                    json::lemma_members_push(out@, key, part);
                    let a = json::members_view(v@.take(i + 1));
                    assert(a.drop_last() =~= json::members_view(v@.take(i as int)));
                }
                out.push((key, part));
                i += 1;
            }
            proof {
                assert(v@.take(i as int) =~= v@);
            }
            Json::Object(out)
        },
    }
}

// ---------------------------------------------------------------------------
// Arguments
// ---------------------------------------------------------------------------

/// The note that stands for arguments that are no JSON.
pub open spec fn args_note(len: nat) -> Seq<char> {
    object_with("_summary"@, "[args: "@ + text::dec(len) + " chars]"@)
}

/// What arguments of middle age become, given what they parse to; nothing
/// where they stay.
pub open spec fn medium_args(tool: Seq<char>, args: Seq<char>, value: Option<JsonView>) -> Option<
    Seq<char>,
> {
    if text::byte_len(args) <= TOOL_CALL_ARGS_MEDIUM_CHARS {
        None
    } else if tool == "exec"@ && exec_intent(args, EXEC_INTENT_MEDIUM_MAX_CHARS as nat) is Some {
        exec_intent(args, EXEC_INTENT_MEDIUM_MAX_CHARS as nat)
    } else {
        match value {
            Some(v) => Some(json::json_text(cut_json(v, TOOL_CALL_ARGS_MEDIUM_CHARS as nat))),
            None => Some(args_note(text::byte_len(args))),
        }
    }
}

/// What arguments of middle age become, given what they parse to.
pub fn compress_parsed_args(tool_name: &str, args_str: &str, value: &Option<Json>) -> (r: Option<
    String,
>)
    ensures
        message::opt_text(r) == medium_args(
            tool_name@,
            args_str@,
            match *value {
                Some(j) => Some(j@),
                None => None,
            },
        ),
{
    if fits_bytes(args_str, TOOL_CALL_ARGS_MEDIUM_CHARS) {
        return None;
    }
    if str_eq(tool_name, "exec") {
        let summary = extract_exec_intent(args_str, EXEC_INTENT_MEDIUM_MAX_CHARS);
        if summary.is_some() {
            return summary;
        }
    }
    match value {
        Some(v) => {
            let cut = truncate_json_values(v, TOOL_CALL_ARGS_MEDIUM_CHARS);
            Some(cut.render())
        },
        None => {
            let n = decimal_usize(str_byte_len(args_str));
            let mut note = "[args: ".to_owned();
            note.push_str(n.as_str());
            note.push_str(" chars]");
            Some(object_text("_summary", note.as_str()))
        },
    }
}

/// What arguments of middle age become; nothing where they stay.
pub fn compress_args_medium(tool_name: &str, args_str: &str) -> (r: Option<String>)
    ensures
        message::opt_text(r) == medium_args(tool_name@, args_str@, json::parsed(args_str@)),
{
    let value = parse(args_str);
    compress_parsed_args(tool_name, args_str, &value)
}

/// What old arguments become; nothing where they stay.
pub open spec fn old_args(tool: Seq<char>, args: Seq<char>) -> Option<Seq<char>> {
    let len = text::dec(text::byte_len(args));
    if text::byte_len(args) <= 200 {
        None
    } else if tool == "exec"@ {
        match exec_intent(args, EXEC_INTENT_OLD_MAX_CHARS as nat) {
            Some(s) => Some(s),
            None => Some(object_with("command"@, "[exec: "@ + len + " chars]"@)),
        }
    } else if tool == "write_file"@ {
        let path = match json_field(args, "path"@) {
            Some(p) => p,
            None => "?"@,
        };
        Some(
            "{\"content\":"@ + json::quoted("[written: "@ + len + " chars]"@) + ",\"path\":"@
                + json::quoted(path) + "}"@,
        )
    } else {
        Some(object_with("_summary"@, "["@ + tool + ": "@ + len + " chars]"@))
    }
}

/// What old arguments become; nothing where they stay.
pub fn compress_args_summary(tool_name: &str, args_str: &str) -> (r: Option<String>)
    ensures
        message::opt_text(r) == old_args(tool_name@, args_str@),
{
    if fits_bytes(args_str, 200) {
        return None;
    }
    let len = decimal_usize(str_byte_len(args_str));
    if str_eq(tool_name, "exec") {
        let summary = extract_exec_intent(args_str, EXEC_INTENT_OLD_MAX_CHARS);
        if summary.is_some() {
            return summary;
        }
        let mut note = "[exec: ".to_owned();
        note.push_str(len.as_str());
        note.push_str(" chars]");
        return Some(object_text("command", note.as_str()));
    }
    if str_eq(tool_name, "write_file") {
        let path = match extract_json_field(args_str, "path") {
            Some(p) => p,
            None => "?".to_owned(),
        };
        let mut note = "[written: ".to_owned();
        note.push_str(len.as_str());
        note.push_str(" chars]");
        let qn = json::quote(note.as_str());
        let qp = json::quote(path.as_str());
        let mut r = "{\"content\":".to_owned();
        r.push_str(qn.as_str());
        r.push_str(",\"path\":");
        r.push_str(qp.as_str());
        r.push_str("}");
        return Some(r);
    }
    let mut note = "[".to_owned();
    note.push_str(tool_name);
    note.push_str(": ");
    note.push_str(len.as_str());
    note.push_str(" chars]");
    Some(object_text("_summary", note.as_str()))
}

// ---------------------------------------------------------------------------
// Whole histories
// ---------------------------------------------------------------------------

/// Whether a message is the result of a tool.
pub open spec fn is_tool(m: MessageView) -> bool {
    m.has_role("tool"@)
}

/// How many of the messages before index `i` have the property.
pub open spec fn before(ms: Seq<MessageView>, i: int, f: spec_fn(MessageView) -> bool) -> nat {
    seqs::count(ms.take(i), f)
}

/// How many of the messages behind index `i` have the property.
pub open spec fn after(ms: Seq<MessageView>, i: int, f: spec_fn(MessageView) -> bool) -> nat {
    seqs::count(ms.skip(i + 1), f)
}

/// The index at which the newest `keep` rounds begin; zero where there are no
/// older ones.
pub open spec fn recent_cutoff(ms: Seq<MessageView>, keep: nat) -> int {
    let r = seqs::indexes(|i: int| ms[i].is_tool_round(), ms.len() as int);
    if r.len() > keep {
        r[r.len() - keep]
    } else {
        0
    }
}

/// Whether a tool result stays whole because it is one of the first and holds
/// a file that was read.
pub open spec fn is_protected(ms: Seq<MessageView>, i: int) -> bool {
    &&& before(ms, i, |m: MessageView| is_tool(m)) < EXPLORE_ABSOLUTE_CAP
    &&& ms[i].name == Some("read_file"@)
}

/// How an old tool result ended.
pub open spec fn result_status(content: Seq<char>) -> Seq<char> {
    if text::starts_with(content, "[DENIED]"@) {
        "denied"@
    } else if loop_helpers::is_error_json(json::parsed(content)) {
        "error"@
    } else {
        "ok"@
    }
}

/// A tool result of the given age: how many newer ones there are.
pub open spec fn aged_result(m: MessageView, age: nat) -> MessageView {
    let content = m.text_or_empty();
    let len = text::dec(text::byte_len(content));
    if age < TOOL_RESULT_OLD_COUNT {
        if text::byte_len(content) > TOOL_RESULT_MEDIUM_CHARS {
            m.with_text(
                text::floor_prefix(content, TOOL_RESULT_MEDIUM_CHARS as nat)
                    + "\n\n... [Compressed: showing "@ + text::dec(TOOL_RESULT_MEDIUM_CHARS as nat)
                    + "/"@ + len + " chars]"@,
            )
        } else {
            m
        }
    } else {
        let name = match m.name {
            Some(n) => n,
            None => "unknown"@,
        };
        m.with_text(
            "[tool: "@ + name + ", "@ + len + " chars, "@ + result_status(content) + "]"@,
        )
    }
}

/// A tool call of the given age: how many newer rounds there are.
pub open spec fn aged_call(c: ToolCallView, age: nat) -> ToolCallView {
    let name = match c.name {
        Some(n) => n,
        None => "unknown"@,
    };
    match c.arguments {
        Some(a) => {
            let new = if age < TOOL_CALL_ARGS_OLD_COUNT {
                medium_args(name, a, json::parsed(a))
            } else {
                old_args(name, a)
            };
            match new {
                Some(n) => c.with_arguments(n),
                None => c,
            }
        },
        None => c,
    }
}

/// The tool calls of a round of the given age.
pub open spec fn aged_calls(calls: Seq<ToolCallView>, age: nat) -> Seq<ToolCallView> {
    Seq::new(calls.len(), |k: int| aged_call(calls[k], age))
}

/// What the message at index `i` becomes.
pub open spec fn compressed_at(ms: Seq<MessageView>, keep: nat, prefix: nat, i: int) -> MessageView {
    let tools_after = after(ms, i, |m: MessageView| is_tool(m));
    let rounds_after = after(ms, i, |m: MessageView| m.is_tool_round());
    if i < prefix || i >= recent_cutoff(ms, keep) {
        ms[i]
    } else if is_tool(ms[i]) {
        if tools_after < TOOL_RESULT_FRESH_COUNT || is_protected(ms, i) {
            ms[i]
        } else {
            aged_result(ms[i], tools_after)
        }
    } else if ms[i].is_tool_round() && rounds_after >= TOOL_CALL_ARGS_FRESH_COUNT {
        MessageView {
            tool_calls: Some(aged_calls(ms[i].tool_calls->0, rounds_after)),
            ..ms[i]
        }
    } else {
        ms[i]
    }
}

/// A history whose older tool results and arguments are shortened: the older,
/// the more. The first `prefix` messages and the newest `keep` rounds stay.
pub open spec fn compressed(ms: Seq<MessageView>, keep: nat, prefix: nat) -> Seq<MessageView> {
    Seq::new(ms.len(), |i: int| compressed_at(ms, keep, prefix, i))
}

fn age_result(m: &Message, age: usize) -> (r: Message)
    ensures
        r@ == aged_result(m@, age as nat),
{
    let content = m.text_or_empty();
    let mut copy = m.clone();
    let len = decimal_usize(str_byte_len(content));
    if age < TOOL_RESULT_OLD_COUNT {
        if !fits_bytes(content, TOOL_RESULT_MEDIUM_CHARS) {
            let mut t = str_floor_prefix(content, TOOL_RESULT_MEDIUM_CHARS);
            let max = decimal_usize(TOOL_RESULT_MEDIUM_CHARS);
            t.push_str("\n\n... [Compressed: showing ");
            t.push_str(max.as_str());
            t.push_str("/");
            t.push_str(len.as_str());
            t.push_str(" chars]");
            copy.content = Content::Text(t);
        }
    } else {
        let status = if str_starts_with(content, "[DENIED]") {
            "denied"
        } else if is_error_envelope(content) {
            "error"
        } else {
            "ok"
        };
        let mut t = "[tool: ".to_owned();
        match &m.name {
            Some(n) => t.push_str(n.as_str()),
            None => t.push_str("unknown"),
        }
        t.push_str(", ");
        t.push_str(len.as_str());
        t.push_str(" chars, ");
        t.push_str(status);
        t.push_str("]");
        copy.content = Content::Text(t);
    }
    copy
}

fn age_call(c: &ToolCall, age: usize) -> (r: ToolCall)
    ensures
        r@ == aged_call(c@, age as nat),
{
    let name = match &c.name {
        Some(n) => n.as_str(),
        None => "unknown",
    };
    if let Some(a) = &c.arguments {
        let new = if age < TOOL_CALL_ARGS_OLD_COUNT {
            compress_args_medium(name, a.as_str())
        } else {
            compress_args_summary(name, a.as_str())
        };
        if let Some(n) = new {
            return c.with_arguments(n);
        }
    }
    c.clone()
}

fn age_round(m: &Message, age: usize) -> (r: Message)
    requires
        m@.is_tool_round(),
    ensures
        r@ == (MessageView {
            tool_calls: Some(aged_calls(m@.tool_calls->0, age as nat)),
            ..m@
        }),
{
    let mut copy = m.clone();
    if let Some(calls) = &m.tool_calls {
        let ghost cv = message::calls_view(calls@);
        let mut out: Vec<ToolCall> = Vec::new();
        let mut k: usize = 0;
        while k < calls.len()
            invariant
                0 <= k <= calls@.len(),
                cv == message::calls_view(calls@),
                out@.len() == k,
                forall|j: int|
                    0 <= j < k ==> (#[trigger] out@[j])@ == aged_call(cv[j], age as nat),
            decreases calls@.len() - k,
        {
            out.push(age_call(&calls[k], age));
            k += 1;
        }
        proof {
            assert(message::calls_view(out@) =~= aged_calls(cv, age as nat));
        }
        copy.tool_calls = Some(out);
    }
    copy
}

proof fn lemma_count_around(ms: Seq<MessageView>, i: int, f: spec_fn(MessageView) -> bool)
    requires
        0 <= i < ms.len(),
    ensures
        before(ms, i, f) + (if f(ms[i]) {
            1nat
        } else {
            0
        }) + after(ms, i, f) == seqs::count(ms, f),
        before(ms, i + 1, f) == before(ms, i, f) + (if f(ms[i]) {
            1nat
        } else {
            0
        }),
{
    assert(ms.take(i + 1).drop_last() =~= ms.take(i));
    assert(ms.take(i + 1) + ms.skip(i + 1) =~= ms);
    seqs::lemma_count_concat(ms.take(i + 1), ms.skip(i + 1), f);
}

/// The indexes of the rounds, in order.
fn round_indexes(messages: &Vec<Message>) -> (r: Vec<usize>)
    ensures
        r@.len() == seqs::indexes(
            |i: int| message::views(messages@)[i].is_tool_round(),
            messages@.len() as int,
        ).len(),
        forall|k: int|
            0 <= k < r@.len() ==> #[trigger] r@[k] == seqs::indexes(
                |i: int| message::views(messages@)[i].is_tool_round(),
                messages@.len() as int,
            )[k],
        r@.len() == seqs::count(message::views(messages@), |m: MessageView| m.is_tool_round()),
{
    let ghost ms = message::views(messages@);
    let ghost f = |i: int| ms[i].is_tool_round();
    let ghost g = |m: MessageView| m.is_tool_round();
    let mut r: Vec<usize> = Vec::new();
    let mut i: usize = 0;
    while i < messages.len()
        invariant
            0 <= i <= messages@.len(),
            ms == message::views(messages@),
            f == (|i: int| ms[i].is_tool_round()),
            g == (|m: MessageView| m.is_tool_round()),
            r@.len() == seqs::indexes(f, i as int).len(),
            forall|k: int| 0 <= k < r@.len() ==> #[trigger] r@[k] == seqs::indexes(f, i as int)[k],
            r@.len() == seqs::count(ms.take(i as int), g),
        decreases messages@.len() - i,
    {
        proof {
            assert(f(i as int) == messages@[i as int]@.is_tool_round());
            assert(ms.take(i + 1).drop_last() =~= ms.take(i as int));
            assert(ms.take(i + 1).last() == messages@[i as int]@);
        }
        if messages[i].is_tool_round() {
            r.push(i);
        }
        i += 1;
    }
    proof {
        assert(ms.take(i as int) =~= ms);
    }
    r
}

fn count_tools(messages: &Vec<Message>) -> (r: usize)
    ensures
        r == seqs::count(message::views(messages@), |m: MessageView| is_tool(m)),
{
    let ghost ms = message::views(messages@);
    let ghost g = |m: MessageView| is_tool(m);
    let mut r: usize = 0;
    let mut i: usize = 0;
    while i < messages.len()
        invariant
            0 <= i <= messages@.len(),
            ms == message::views(messages@),
            g == (|m: MessageView| is_tool(m)),
            r <= i,
            r == seqs::count(ms.take(i as int), g),
        decreases messages@.len() - i,
    {
        proof {
            assert(ms.take(i + 1).drop_last() =~= ms.take(i as int));
            assert(ms.take(i + 1).last() == messages@[i as int]@);
        }
        if messages[i].has_role("tool") {
            r = r + 1;
        }
        i += 1;
    }
    proof {
        assert(ms.take(i as int) =~= ms);
    }
    r
}

/// The history with older tool results and arguments shortened. The first
/// `protected_prefix_len` messages and the newest rounds stay as they are, and
/// everything does where `skip_compression` says so.
pub fn compress_tool_results(
    messages: &Vec<Message>,
    skip_compression: bool,
    light_keep_recent_rounds: usize,
    protected_prefix_len: usize,
) -> (r: Vec<Message>)
    requires
        skip_compression || light_keep_recent_rounds > 0 || loop_helpers::rounds(
            message::views(messages@),
        ) == 0,
    ensures
        message::views(r@) == (if skip_compression {
            message::views(messages@)
        } else {
            compressed(
                message::views(messages@),
                light_keep_recent_rounds as nat,
                protected_prefix_len as nat,
            )
        }),
{
    if skip_compression {
        return clone_messages(messages);
    }
    let ghost ms = message::views(messages@);
    let ghost keep = light_keep_recent_rounds as nat;
    let ghost prefix = protected_prefix_len as nat;
    let ghost ft = |m: MessageView| is_tool(m);
    let ghost fr = |m: MessageView| m.is_tool_round();
    let rounds = round_indexes(messages);
    let total_rounds: usize = rounds.len();
    let total_tools = count_tools(messages);
    let cutoff: usize = if total_rounds > light_keep_recent_rounds {
        rounds[total_rounds - light_keep_recent_rounds]
    } else {
        0
    };
    proof {
        assert(cutoff == recent_cutoff(ms, keep));
        assert(ms.take(0) =~= Seq::empty());
    }
    let mut result: Vec<Message> = Vec::new();
    let mut tools_seen: usize = 0;
    let mut rounds_seen: usize = 0;
    let mut i: usize = 0;
    while i < messages.len()
        invariant
            0 <= i <= messages@.len(),
            ms == message::views(messages@),
            keep == light_keep_recent_rounds,
            prefix == protected_prefix_len,
            ft == (|m: MessageView| is_tool(m)),
            fr == (|m: MessageView| m.is_tool_round()),
            cutoff == recent_cutoff(ms, keep),
            total_tools == seqs::count(ms, ft),
            total_rounds == seqs::count(ms, fr),
            tools_seen == before(ms, i as int, ft),
            rounds_seen == before(ms, i as int, fr),
            tools_seen <= total_tools,
            rounds_seen <= total_rounds,
            result@.len() == i,
            forall|k: int|
                0 <= k < i ==> (#[trigger] result@[k])@ == compressed_at(ms, keep, prefix, k),
        decreases messages@.len() - i,
    {
        let m = &messages[i];
        proof {
            lemma_count_around(ms, i as int, ft);
            lemma_count_around(ms, i as int, fr);
            assert(ms[i as int] == m@);
            reveal_strlit("assistant");
            reveal_strlit("tool");
            assert("assistant"@.len() != "tool"@.len());
        }
        let is_tool_message = m.has_role("tool");
        let is_round = m.is_tool_round();
        let frozen = i < protected_prefix_len || i >= cutoff;
        if is_tool_message {
            let age: usize = total_tools - tools_seen - 1;
            let is_file = match &m.name {
                Some(n) => str_eq(n.as_str(), "read_file"),
                None => false,
            };
            if frozen || age < TOOL_RESULT_FRESH_COUNT || (tools_seen < EXPLORE_ABSOLUTE_CAP
                && is_file) {
                result.push(m.clone());
            } else {
                result.push(age_result(m, age));
            }
            tools_seen = tools_seen + 1;
        } else if is_round {
            let age: usize = total_rounds - rounds_seen - 1;
            if frozen || age < TOOL_CALL_ARGS_FRESH_COUNT {
                result.push(m.clone());
            } else {
                result.push(age_round(m, age));
            }
            rounds_seen = rounds_seen + 1;
        } else {
            result.push(m.clone());
        }
        i += 1;
    }
    proof {
        assert(message::views(result@) =~= compressed(ms, keep, prefix));
    }
    result
}

/// Compression keeps the shape of a history: as many messages, each with its
/// role, its name and its ids, so that results still answer their calls.
pub proof fn law_compression_keeps_structure(
    ms: Seq<MessageView>,
    keep: nat,
    prefix: nat,
    i: int,
)
    requires
        0 <= i < ms.len(),
    ensures
        compressed(ms, keep, prefix).len() == ms.len(),
        ({
            let c = compressed(ms, keep, prefix)[i];
            &&& c.role == ms[i].role
            &&& c.name == ms[i].name
            &&& c.tool_call_id == ms[i].tool_call_id
            &&& c.turn_id == ms[i].turn_id
            &&& c.tool_calls is Some <==> ms[i].tool_calls is Some
            &&& c.tool_calls is Some ==> {
                &&& c.tool_calls->0.len() == ms[i].tool_calls->0.len()
                &&& forall|k: int|
                    0 <= k < c.tool_calls->0.len() ==> (#[trigger] c.tool_calls->0[k]).id
                        == ms[i].tool_calls->0[k].id && c.tool_calls->0[k].name
                        == ms[i].tool_calls->0[k].name
            }
        }),
{
}

/// Compression touches neither the first messages nor the newest rounds, nor
/// anything that is neither a tool result nor a round.
pub proof fn law_compression_leaves_alone(ms: Seq<MessageView>, keep: nat, prefix: nat, i: int)
    requires
        0 <= i < ms.len(),
        i < prefix || i >= recent_cutoff(ms, keep) || (!is_tool(ms[i]) && !ms[i].is_tool_round()),
    ensures
        compressed(ms, keep, prefix)[i] == ms[i],
{
}

/// A history of no more than `keep` rounds is not compressed at all.
pub proof fn law_short_history_is_not_compressed(ms: Seq<MessageView>, keep: nat, prefix: nat)
    requires
        seqs::indexes(|i: int| ms[i].is_tool_round(), ms.len() as int).len() <= keep,
    ensures
        compressed(ms, keep, prefix) == ms,
{
    assert(compressed(ms, keep, prefix) =~= ms);
}

/// Holds of the results of tools.
pub open spec fn results() -> spec_fn(MessageView) -> bool {
    |m: MessageView| m.role == Some("tool"@)
}

/// Holds of the assistant messages with tool calls.
pub open spec fn rounds() -> spec_fn(MessageView) -> bool {
    |m: MessageView|
        m.role == Some("assistant"@) && m.tool_calls is Some && m.tool_calls->0.len() > 0
}

proof fn lemma_count_same(ms: Seq<MessageView>)
    ensures
        seqs::count(ms, |m: MessageView| is_tool(m)) == seqs::count(ms, results()),
        seqs::count(ms, |m: MessageView| m.is_tool_round()) == seqs::count(ms, rounds()),
    decreases ms.len(),
{
    if ms.len() > 0 {
        lemma_count_same(ms.drop_last());
    }
}

proof fn lemma_rounds_before(ms: Seq<MessageView>, i: int, n: int)
    requires
        0 <= i <= n <= ms.len(),
    ensures
        ({
            let f = |i: int| ms[i].is_tool_round();
            &&& seqs::indexes(f, n).len() == seqs::count(ms.take(n), rounds())
            &&& seqs::indexes(f, i).len() <= seqs::indexes(f, n).len()
            &&& forall|k: int|
                0 <= k < seqs::indexes(f, i).len() ==> #[trigger] seqs::indexes(f, n)[k]
                    == seqs::indexes(f, i)[k]
        }),
    decreases n,
{
    if n > 0 {
        assert(ms.take(n).drop_last() =~= ms.take(n - 1));
        assert(ms.take(n).last() == ms[n - 1]);
        if i < n {
            lemma_rounds_before(ms, i, n - 1);
        } else {
            lemma_rounds_before(ms, n - 1, n - 1);
        }
    } else {
        assert(ms.take(0) =~= Seq::empty());
    }
}

/// The newest rounds, with all that follows them, stay as they are: whatever
/// has fewer than `keep` rounds at or behind it.
pub proof fn law_newest_rounds_stay(ms: Seq<MessageView>, keep: nat, prefix: nat, i: int)
    requires
        0 <= i < ms.len(),
        seqs::count(ms.skip(i), rounds()) < keep,
    ensures
        compressed(ms, keep, prefix)[i] == ms[i],
{
    let f = |i: int| ms[i].is_tool_round();
    let n = ms.len() as int;
    let r = seqs::indexes(f, n);
    lemma_rounds_before(ms, i, n);
    lemma_rounds_before(ms, i, i);
    seqs::lemma_indexes(f, i);
    assert(ms.take(n) =~= ms);
    assert(ms =~= ms.take(i) + ms.skip(i));
    seqs::lemma_count_concat(ms.take(i), ms.skip(i), rounds());
    if r.len() > keep {
        let k = r.len() - keep;
        assert(k < seqs::indexes(f, i).len());
        assert(r[k] == seqs::indexes(f, i)[k]);
        assert(r[k] < i);
    }
}

/// What is left of a tool result: it stays whole while few newer ones follow,
/// where it is short, and where it is a file that was read early on. One of
/// middle age keeps its front, and an old one its name and its length.
pub proof fn law_results_fade(ms: Seq<MessageView>, keep: nat, prefix: nat, i: int, t: Seq<char>)
    requires
        0 <= i < ms.len(),
        ms[i].role == Some("tool"@),
        ms[i].content == ContentView::Text(t),
    ensures
        ({
            let c = compressed(ms, keep, prefix)[i];
            let newer = seqs::count(ms.skip(i + 1), results());
            &&& newer < TOOL_RESULT_FRESH_COUNT ==> c == ms[i]
            &&& ms[i].name == Some("read_file"@) && seqs::count(ms.take(i), results())
                < EXPLORE_ABSOLUTE_CAP ==> c == ms[i]
            &&& newer < TOOL_RESULT_OLD_COUNT && text::byte_len(t) <= TOOL_RESULT_MEDIUM_CHARS
                ==> c == ms[i]
            &&& c == (MessageView { content: c.content, ..ms[i] })
            &&& c.content is Text
            &&& newer < TOOL_RESULT_OLD_COUNT && c != ms[i] ==> exists|k: int|
                0 <= k < t.len() && text::starts_with(c.content->Text_0, #[trigger] t.take(k))
                    && text::byte_len(t.take(k)) <= TOOL_RESULT_MEDIUM_CHARS && text::byte_len(
                    t.take(k + 1),
                ) > TOOL_RESULT_MEDIUM_CHARS
            &&& newer >= TOOL_RESULT_OLD_COUNT && c != ms[i] ==> text::contains(
                c.content->Text_0,
                text::dec(text::byte_len(t)),
            ) && (ms[i].name matches Some(n) ==> text::contains(c.content->Text_0, n))
        }),
{
    lemma_count_same(ms.skip(i + 1));
    lemma_count_same(ms.take(i));
    let c = compressed(ms, keep, prefix)[i];
    let newer = seqs::count(ms.skip(i + 1), results());
    let len = text::dec(text::byte_len(t));
    if c != ms[i] {
        if newer < TOOL_RESULT_OLD_COUNT {
            let max = TOOL_RESULT_MEDIUM_CHARS as nat;
            text::lemma_floor_chars(t, max);
            let k = text::floor_chars(t, max) as int;
            let p = t.take(k);
            assert(text::floor_prefix(t, max) =~= p);
            assert(c.content->Text_0.subrange(0, p.len() as int) =~= p);
        } else {
            lemma_old_result(ms[i], newer, t);
        }
    }
}

proof fn lemma_old_result(m: MessageView, age: nat, t: Seq<char>)
    requires
        m.content == ContentView::Text(t),
        age >= TOOL_RESULT_OLD_COUNT,
    ensures
        text::contains(aged_result(m, age).text_or_empty(), text::dec(text::byte_len(t))),
        m.name matches Some(n) ==> text::contains(aged_result(m, age).text_or_empty(), n),
{
    let len = text::dec(text::byte_len(t));
    let name = match m.name {
        Some(n) => n,
        None => "unknown"@,
    };
    let status = result_status(t);
    let s = aged_result(m, age).text_or_empty();
    let a = "[tool: "@;
    let b = ", "@;
    let d = " chars, "@;
    let e = "]"@;
    assert(text::contains(s, name)) by {
        assert(s =~= a + name + (b + len + d + status + e));
        text::lemma_contains_part(a, name, b + len + d + status + e);
    }
    assert(text::contains(s, len)) by {
        assert(s =~= (a + name + b) + len + (d + status + e));
        text::lemma_contains_part(a + name + b, len, d + status + e);
    }
}

/// What is left of a round: its text, and the ids and names of its calls. The
/// arguments stay while few newer rounds follow and where they are short.
pub proof fn law_calls_fade(ms: Seq<MessageView>, keep: nat, prefix: nat, i: int, k: int)
    requires
        0 <= i < ms.len(),
        rounds()(ms[i]),
        0 <= k < ms[i].tool_calls->0.len(),
    ensures
        ({
            let m = compressed(ms, keep, prefix)[i];
            let c = m.tool_calls->0[k];
            let d = ms[i].tool_calls->0[k];
            let newer = seqs::count(ms.skip(i + 1), rounds());
            &&& m == (MessageView { tool_calls: m.tool_calls, ..ms[i] })
            &&& m.tool_calls is Some
            &&& c.id == d.id
            &&& c.name == d.name
            &&& c.arguments is Some <==> d.arguments is Some
            &&& newer < TOOL_CALL_ARGS_FRESH_COUNT ==> c == d
            &&& d.arguments is None ==> c == d
            &&& d.arguments matches Some(a) ==> text::byte_len(a) <= 200 ==> c == d
            &&& d.arguments matches Some(a) ==> newer < TOOL_CALL_ARGS_OLD_COUNT && text::byte_len(
                a,
            ) <= TOOL_CALL_ARGS_MEDIUM_CHARS ==> c == d
        }),
{
    lemma_count_same(ms.skip(i + 1));
    reveal_strlit("tool");
    reveal_strlit("assistant");
    assert("tool"@.len() != "assistant"@.len());
    let m = compressed(ms, keep, prefix)[i];
    if m != ms[i] {
        let newer = seqs::count(ms.skip(i + 1), rounds());
        assert(m.tool_calls->0[k] == aged_call(ms[i].tool_calls->0[k], newer));
    }
}

/// Cutting the strings of a value keeps its form: members keep their names and
/// their order, and every text that is short enough stays.
pub proof fn law_cut_values_keep_their_form(v: JsonView, max: nat)
    ensures
        v matches JsonView::Object(m) ==> {
            let c = cut_json(v, max);
            &&& c is Object
            &&& c->Object_0.len() == m.len()
            &&& forall|i: int|
                0 <= i < m.len() ==> (#[trigger] c->Object_0[i]).0 == m[i].0 && c->Object_0[i].1
                    == cut_json(m[i].1, max)
        },
        v matches JsonView::List(l) ==> {
            let c = cut_json(v, max);
            &&& c is List
            &&& c->List_0.len() == l.len()
            &&& forall|i: int| 0 <= i < l.len() ==> #[trigger] c->List_0[i] == cut_json(l[i], max)
        },
        v matches JsonView::Text(t) ==> {
            let c = cut_json(v, max);
            &&& text::byte_len(t) <= max ==> c == v
            &&& c is Text
            &&& text::byte_len(t) > max ==> exists|k: int|
                0 <= k < t.len() && text::starts_with(c->Text_0, #[trigger] t.take(k))
                    && text::byte_len(t.take(k)) <= max
        },
        v is Null || v is Bool || v is Number ==> cut_json(v, max) == v,
{
    match v {
        JsonView::Object(m) => lemma_cut_members(m, max),
        JsonView::List(l) => lemma_cut_list(l, max),
        JsonView::Text(t) => {
            if text::byte_len(t) > max {
                text::lemma_floor_chars(t, max);
                let k = text::floor_chars(t, max) as int;
                let p = t.take(k);
                let s = cut_string(t, max);
                assert(text::floor_prefix(t, max) =~= p);
                assert(s.subrange(0, p.len() as int) =~= p);
            }
        },
        _ => {},
    }
}

proof fn lemma_cut_members(m: Seq<(Seq<char>, JsonView)>, max: nat)
    ensures
        cut_members(m, max).len() == m.len(),
        forall|i: int|
            0 <= i < m.len() ==> (#[trigger] cut_members(m, max)[i]).0 == m[i].0 && cut_members(
                m,
                max,
            )[i].1 == cut_json(m[i].1, max),
    decreases m.len(),
{
    if m.len() > 0 {
        lemma_cut_members(m.drop_last(), max);
    }
}

proof fn lemma_cut_list(l: Seq<JsonView>, max: nat)
    ensures
        cut_list(l, max).len() == l.len(),
        forall|i: int| 0 <= i < l.len() ==> #[trigger] cut_list(l, max)[i] == cut_json(l[i], max),
    decreases l.len(),
{
    if l.len() > 0 {
        lemma_cut_list(l.drop_last(), max);
    }
}

} // verus!

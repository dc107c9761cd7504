//! How a session is kept: one line of JSON for its metadata, and one for each
//! message.

use crate::json;
use crate::json::{merge_members, same, Json, JsonView};
use crate::message;
use crate::message::{
    Content, ContentBlock, ContentBlockView, ContentView, Message, MessageView, ToolCall,
    ToolCallView,
};
use crate::orchestration::history;
use crate::orchestration::history::{call_to_json, push_member, usual_to_json};
use crate::order;
use crate::seqs;
use crate::text;
use crate::text::str_eq;
use vstd::prelude::*;

verus! {

// ---------------------------------------------------------------------------
// Messages as JSON
// ---------------------------------------------------------------------------

/// A block of a message as JSON.
pub open spec fn block_json(b: ContentBlockView) -> JsonView {
    match b {
        ContentBlockView::Text(t) => JsonView::Object(
            seq![("text"@, JsonView::Text(t)), ("type"@, JsonView::Text("text"@))],
        ),
        ContentBlockView::ImageUrl(u) => JsonView::Object(
            seq![
                ("image_url"@, JsonView::Object(seq![("url"@, JsonView::Text(u))])),
                ("type"@, JsonView::Text("image_url"@)),
            ],
        ),
    }
}

/// The content of a message as JSON, where it is given.
pub open spec fn content_json(c: ContentView) -> Option<JsonView> {
    match c {
        ContentView::Missing => None,
        ContentView::Nothing => Some(JsonView::Null),
        ContentView::Text(t) => Some(JsonView::Text(t)),
        ContentView::Blocks(b) => Some(
            JsonView::List(Seq::new(b.len(), |i: int| block_json(b[i]))),
        ),
        ContentView::Other(j) => Some(j),
    }
}

/// The member with the content of a message.
pub open spec fn content_member(c: ContentView) -> Seq<(Seq<char>, JsonView)> {
    match content_json(c) {
        Some(v) => seq![("content"@, v)],
        None => Seq::empty(),
    }
}

/// The member that marks a message which asks for a reset.
pub open spec fn reset_member(reset: bool) -> Seq<(Seq<char>, JsonView)> {
    if reset {
        seq![("_reset_iterations_next_run"@, JsonView::Bool(true))]
    } else {
        Seq::empty()
    }
}

/// The member with the tool calls of a message.
pub open spec fn calls_member(calls: Option<Seq<ToolCallView>>) -> Seq<(Seq<char>, JsonView)> {
    match calls {
        Some(c) => seq![("tool_calls"@, JsonView::List(history::calls_json(c)))],
        None => Seq::empty(),
    }
}

/// The members of a message that its fields stand for, in the order of their
/// keys.
pub open spec fn field_members(m: MessageView) -> Seq<(Seq<char>, JsonView)> {
    reset_member(m.reset_iterations) + history::text_member("_turn_id"@, m.turn_id)
        + content_member(m.content) + history::text_member("name"@, m.name)
        + history::text_member("reasoning"@, m.reasoning) + history::text_member("role"@, m.role)
        + history::text_member("timestamp"@, m.timestamp) + history::text_member(
        "tool_call_id"@,
        m.tool_call_id,
    ) + calls_member(m.tool_calls)
}

/// The members of a message as JSON, in the order of their keys.
pub open spec fn message_members(m: MessageView) -> Seq<(Seq<char>, JsonView)> {
    json::merged(field_members(m), m.rest)
}

/// A message as JSON.
pub open spec fn message_json(m: MessageView) -> JsonView {
    JsonView::Object(message_members(m))
}

/// The line of a message.
pub open spec fn message_line(m: MessageView) -> Seq<char> {
    json::json_text(message_json(m))
}

/// The block of a message that a value stands for, where it stands for one.
pub open spec fn as_block(v: JsonView) -> Option<ContentBlockView> {
    match v {
        JsonView::Object(m) => if m.len() == 2 && m[1].0 == "type"@ {
            match (m[0].1, m[1].1) {
                (JsonView::Text(t), JsonView::Text(k)) => if m[0].0 == "text"@ && k == "text"@ {
                    Some(ContentBlockView::Text(t))
                } else {
                    None
                },
                (JsonView::Object(i), JsonView::Text(k)) => if m[0].0 == "image_url"@ && k
                    == "image_url"@ && i.len() == 1 && i[0].0 == "url"@ {
                    match i[0].1 {
                        JsonView::Text(u) => Some(ContentBlockView::ImageUrl(u)),
                        _ => None,
                    }
                } else {
                    None
                },
                _ => None,
            }
        } else {
            None
        },
        _ => None,
    }
}

/// The content of a message, as it is read.
pub open spec fn read_content(v: Option<JsonView>) -> ContentView {
    match v {
        None => ContentView::Missing,
        Some(JsonView::Null) => ContentView::Nothing,
        Some(JsonView::Text(t)) => ContentView::Text(t),
        Some(JsonView::List(l)) => if forall|i: int|
            0 <= i < l.len() ==> as_block(#[trigger] l[i]) is Some {
            ContentView::Blocks(Seq::new(l.len(), |i: int| as_block(l[i])->0))
        } else {
            ContentView::Other(JsonView::List(l))
        },
        Some(j) => ContentView::Other(j),
    }
}

/// Whether a field of a message stands for a member.
pub open spec fn is_field(p: (Seq<char>, JsonView)) -> bool {
    if p.0 == "content"@ {
        true
    } else if p.0 == "tool_calls"@ {
        p.1 is List
    } else if p.0 == "_reset_iterations_next_run"@ {
        p.1 == JsonView::Bool(true)
    } else if p.0 == "_turn_id"@ || p.0 == "name"@ || p.0 == "reasoning"@ || p.0 == "role"@ || p.0
        == "timestamp"@ || p.0 == "tool_call_id"@ {
        p.1 is Text
    } else {
        false
    }
}

/// The members of a value that no field of a message stands for.
pub open spec fn read_rest(v: JsonView) -> Seq<(Seq<char>, JsonView)> {
    match v {
        JsonView::Object(m) => seqs::select(m, |p: (Seq<char>, JsonView)| !is_field(p)),
        _ => Seq::empty(),
    }
}

/// What is read of a tool call.
pub open spec fn call_fields(v: JsonView) -> ToolCallView {
    let f = match v.get("function"@) {
        Some(f) => f,
        None => JsonView::Null,
    };
    ToolCallView {
        id: v.get_text("id"@),
        name: f.get_text("name"@),
        arguments: f.get_text("arguments"@),
        given: None,
    }
}

/// A tool call, as it is read: one that is not of the usual form is kept as it
/// came.
pub open spec fn read_call(v: JsonView) -> ToolCallView {
    let c = call_fields(v);
    if history::usual_call(c) == v {
        c
    } else {
        ToolCallView { given: Some(v), ..c }
    }
}

/// Whether a tool call is what its JSON gives back.
pub open spec fn is_sound_call(c: ToolCallView) -> bool {
    c.given matches Some(j) ==> json::is_regular(j, 98) && read_call(j) == c
}

/// The tool calls of a message, as they are read.
pub open spec fn read_calls(v: Option<JsonView>) -> Option<Seq<ToolCallView>> {
    match v {
        Some(JsonView::List(l)) => Some(Seq::new(l.len(), |i: int| read_call(l[i]))),
        _ => None,
    }
}

/// A message, as it is read.
pub open spec fn read_message(v: JsonView) -> MessageView {
    MessageView {
        role: v.get_text("role"@),
        content: read_content(v.get("content"@)),
        tool_calls: read_calls(v.get("tool_calls"@)),
        tool_call_id: v.get_text("tool_call_id"@),
        name: v.get_text("name"@),
        reasoning: v.get_text("reasoning"@),
        timestamp: v.get_text("timestamp"@),
        turn_id: v.get_text("_turn_id"@),
        reset_iterations: v.get("_reset_iterations_next_run"@) == Some(JsonView::Bool(true)),
        rest: read_rest(v),
    }
}

/// Whether a message is what its JSON gives back: its other members are
/// regular, in the order of their keys, and not such that a field stands for
/// them or that the line would be one of metadata; and what came in another
/// form than the usual one is regular too.
pub open spec fn is_sound(m: MessageView) -> bool {
    &&& json::keys_rise(m.rest)
    &&& forall|i: int|
        0 <= i < m.rest.len() ==> !is_field(#[trigger] m.rest[i]) && json::is_regular(
            m.rest[i].1,
            99,
        ) && json::member(field_members(m), m.rest[i].0) is None
    &&& json::member_text(m.rest, "_type"@) != Some("metadata"@)
    &&& m.content matches ContentView::Other(j) ==> json::is_regular(j, 99) && read_content(Some(j))
        == m.content
    &&& m.tool_calls matches Some(c) ==> forall|i: int|
        0 <= i < c.len() ==> is_sound_call(#[trigger] c[i])
}

/// A message without other members, of known content and with calls of the
/// usual form, is sound.
pub proof fn law_plain_message_is_sound(m: MessageView)
    requires
        m.rest.len() == 0,
        !(m.content is Other),
        m.tool_calls matches Some(c) ==> forall|i: int|
            0 <= i < c.len() ==> (#[trigger] c[i]).given is None,
    ensures
        is_sound(m),
{
}

// ---------------------------------------------------------------------------
// Reading back
// ---------------------------------------------------------------------------

/// The keys of a message.
proof fn lemma_message_keys()
    ensures
        order::before("_reset_iterations_next_run"@, "_turn_id"@),
        order::before("_turn_id"@, "content"@),
        order::before("content"@, "name"@),
        order::before("name"@, "reasoning"@),
        order::before("reasoning"@, "role"@),
        order::before("role"@, "timestamp"@),
        order::before("timestamp"@, "tool_call_id"@),
        order::before("tool_call_id"@, "tool_calls"@),
{
    reveal_strlit("_reset_iterations_next_run");
    reveal_strlit("_turn_id");
    reveal_strlit("content");
    reveal_strlit("name");
    reveal_strlit("reasoning");
    reveal_strlit("role");
    reveal_strlit("timestamp");
    reveal_strlit("tool_call_id");
    reveal_strlit("tool_calls");
    reveal_with_fuel(order::before, 11);
}

/// Whether no key comes after `k`.
spec fn keys_up_to(m: Seq<(Seq<char>, JsonView)>, k: Seq<char>) -> bool {
    forall|i: int| 0 <= i < m.len() ==> (#[trigger] m[i]).0 == k || order::before(m[i].0, k)
}

/// Whether the members are one under `k` at most, and regular.
spec fn is_piece(p: Seq<(Seq<char>, JsonView)>, k: Seq<char>, depth: nat) -> bool {
    &&& p.len() <= 1
    &&& p.len() == 1 ==> p[0].0 == k && json::is_regular(p[0].1, depth)
}

/// Whether the members can stand in a regular object of that depth.
spec fn are_regular(m: Seq<(Seq<char>, JsonView)>, depth: nat) -> bool {
    &&& json::keys_rise(m)
    &&& forall|i: int| 0 <= i < m.len() ==> json::is_regular((#[trigger] m[i]).1, depth)
}

/// A further member whose key comes last keeps the keys rising.
proof fn lemma_next_key(
    m: Seq<(Seq<char>, JsonView)>,
    last: Seq<char>,
    p: Seq<(Seq<char>, JsonView)>,
    k: Seq<char>,
)
    requires
        json::keys_rise(m),
        keys_up_to(m, last),
        order::before(last, k),
        p.len() <= 1,
        p.len() == 1 ==> p[0].0 == k,
    ensures
        json::keys_rise(m + p),
        keys_up_to(m + p, k),
{
    let s = m + p;
    assert forall|i: int| 0 <= i < m.len() implies order::before((#[trigger] m[i]).0, k) by {
        if m[i].0 != last {
            order::law_order_transitive(m[i].0, last, k);
        }
    }
    assert forall|i: int, j: int| 0 <= i < j < s.len() implies order::before(
        (#[trigger] s[i]).0,
        (#[trigger] s[j]).0,
    ) by {
        if j < m.len() {
            assert(order::before(m[i].0, m[j].0));
        } else {
            assert(s[i] == m[i]);
            assert(s[j] == p[0]);
        }
    }
    assert forall|i: int| 0 <= i < s.len() implies (#[trigger] s[i]).0 == k || order::before(
        s[i].0,
        k,
    ) by {
        if i < m.len() {
            assert(s[i] == m[i]);
        } else {
            assert(s[i] == p[0]);
        }
    }
}

/// A further member whose key comes last keeps an object regular.
proof fn lemma_next_piece(
    m: Seq<(Seq<char>, JsonView)>,
    last: Seq<char>,
    p: Seq<(Seq<char>, JsonView)>,
    k: Seq<char>,
    depth: nat,
)
    requires
        are_regular(m, depth),
        keys_up_to(m, last),
        order::before(last, k),
        is_piece(p, k, depth),
    ensures
        are_regular(m + p, depth),
        keys_up_to(m + p, k),
{
    let s = m + p;
    lemma_next_key(m, last, p, k);
    assert forall|i: int| 0 <= i < s.len() implies json::is_regular((#[trigger] s[i]).1, depth) by {
        if i < m.len() {
            assert(s[i] == m[i]);
        } else {
            assert(s[i] == p[0]);
        }
    }
}

/// The keys of the fields of a message rise.
proof fn lemma_field_keys_rise(m: MessageView)
    ensures
        json::keys_rise(field_members(m)),
{
    lemma_message_keys();
    let p0 = reset_member(m.reset_iterations);
    let p1 = history::text_member("_turn_id"@, m.turn_id);
    let p2 = content_member(m.content);
    let p3 = history::text_member("name"@, m.name);
    let p4 = history::text_member("reasoning"@, m.reasoning);
    let p5 = history::text_member("role"@, m.role);
    let p6 = history::text_member("timestamp"@, m.timestamp);
    let p7 = history::text_member("tool_call_id"@, m.tool_call_id);
    let p8 = calls_member(m.tool_calls);
    assert(json::keys_rise(p0) && keys_up_to(p0, "_reset_iterations_next_run"@));
    lemma_next_key(p0, "_reset_iterations_next_run"@, p1, "_turn_id"@);
    lemma_next_key(p0 + p1, "_turn_id"@, p2, "content"@);
    lemma_next_key(p0 + p1 + p2, "content"@, p3, "name"@);
    lemma_next_key(p0 + p1 + p2 + p3, "name"@, p4, "reasoning"@);
    lemma_next_key(p0 + p1 + p2 + p3 + p4, "reasoning"@, p5, "role"@);
    lemma_next_key(p0 + p1 + p2 + p3 + p4 + p5, "role"@, p6, "timestamp"@);
    lemma_next_key(p0 + p1 + p2 + p3 + p4 + p5 + p6, "timestamp"@, p7, "tool_call_id"@);
    lemma_next_key(p0 + p1 + p2 + p3 + p4 + p5 + p6 + p7, "tool_call_id"@, p8, "tool_calls"@);
}

proof fn lemma_block_regular(b: ContentBlockView)
    ensures
        json::is_regular(block_json(b), 3),
{
    reveal_strlit("text");
    reveal_strlit("type");
    reveal_strlit("image_url");
    reveal_with_fuel(order::before, 3);
    reveal_with_fuel(json::is_regular, 4);
    if let ContentBlockView::ImageUrl(u) = b {
        let inner = seq![("url"@, JsonView::Text(u))];
        assert(json::keys_rise(inner));
        assert(json::is_regular(JsonView::Object(inner), 2));
    }
    assert(json::keys_rise(block_json(b)->Object_0));
}

proof fn lemma_call_regular(c: ToolCallView)
    ensures
        json::is_regular(history::usual_call(c), 3),
{
    reveal_strlit("arguments");
    reveal_strlit("name");
    reveal_strlit("function");
    reveal_strlit("id");
    reveal_strlit("type");
    reveal_with_fuel(order::before, 2);
    let a = history::text_member("arguments"@, c.arguments);
    let n = history::text_member("name"@, c.name);
    lemma_next_piece(a, "arguments"@, n, "name"@, 1);
    let f = JsonView::Object(a + n);
    assert(json::is_regular(f, 2));
    let first = seq![("function"@, f)];
    let id = history::text_member("id"@, c.id);
    let kind = seq![("type"@, JsonView::Text("function"@))];
    assert(are_regular(first, 2));
    assert(keys_up_to(first, "function"@));
    lemma_next_piece(first, "function"@, id, "id"@, 2);
    lemma_next_piece(first + id, "id"@, kind, "type"@, 2);
    assert(history::usual_call(c) == JsonView::Object(first + id + kind));
}

/// The members that the fields of a message stand for are regular.
proof fn lemma_fields_regular(m: MessageView)
    requires
        is_sound(m),
    ensures
        are_regular(field_members(m), 99),
{
    lemma_message_keys();
    let d: nat = 99;
    let p0 = reset_member(m.reset_iterations);
    let p1 = history::text_member("_turn_id"@, m.turn_id);
    let p2 = content_member(m.content);
    let p3 = history::text_member("name"@, m.name);
    let p4 = history::text_member("reasoning"@, m.reasoning);
    let p5 = history::text_member("role"@, m.role);
    let p6 = history::text_member("timestamp"@, m.timestamp);
    let p7 = history::text_member("tool_call_id"@, m.tool_call_id);
    let p8 = calls_member(m.tool_calls);
    assert(is_piece(p2, "content"@, d)) by {
        if let ContentView::Blocks(b) = m.content {
            let l = content_json(m.content)->0->List_0;
            assert forall|i: int| 0 <= i < l.len() implies json::is_regular(#[trigger] l[i], 98) by {
                lemma_block_regular(b[i]);
                lemma_deeper(l[i], 3, 98);
            }
        }
    }
    assert(is_piece(p8, "tool_calls"@, d)) by {
        if let Some(c) = m.tool_calls {
            let l = history::calls_json(c);
            assert forall|i: int| 0 <= i < l.len() implies json::is_regular(#[trigger] l[i], 98) by {
                assert(is_sound_call(c[i]));
                if c[i].given is None {
                    lemma_call_regular(c[i]);
                    lemma_deeper(l[i], 3, 98);
                }
            }
            assert(json::is_regular(JsonView::List(l), d));
        }
    }
    assert(are_regular(p0, d));
    assert(keys_up_to(p0, "_reset_iterations_next_run"@));
    lemma_next_piece(p0, "_reset_iterations_next_run"@, p1, "_turn_id"@, d);
    lemma_next_piece(p0 + p1, "_turn_id"@, p2, "content"@, d);
    lemma_next_piece(p0 + p1 + p2, "content"@, p3, "name"@, d);
    lemma_next_piece(p0 + p1 + p2 + p3, "name"@, p4, "reasoning"@, d);
    lemma_next_piece(p0 + p1 + p2 + p3 + p4, "reasoning"@, p5, "role"@, d);
    lemma_next_piece(p0 + p1 + p2 + p3 + p4 + p5, "role"@, p6, "timestamp"@, d);
    lemma_next_piece(p0 + p1 + p2 + p3 + p4 + p5 + p6, "timestamp"@, p7, "tool_call_id"@, d);
    lemma_next_piece(
        p0 + p1 + p2 + p3 + p4 + p5 + p6 + p7,
        "tool_call_id"@,
        p8,
        "tool_calls"@,
        d,
    );
    assert(field_members(m) =~= p0 + p1 + p2 + p3 + p4 + p5 + p6 + p7 + p8);
}

/// The two kinds of members of a sound message have no key in common.
proof fn lemma_keys_apart(m: MessageView)
    requires
        is_sound(m),
    ensures
        forall|i: int, j: int|
            0 <= i < field_members(m).len() && 0 <= j < m.rest.len() ==> (
            #[trigger] field_members(m)[i]).0 != (#[trigger] m.rest[j]).0,
{
    assert forall|i: int, j: int|
        0 <= i < field_members(m).len() && 0 <= j < m.rest.len() implies (
    #[trigger] field_members(m)[i]).0 != (#[trigger] m.rest[j]).0 by {
        json::lemma_member_contained(field_members(m), m.rest[j].0);
    }
}

/// The JSON of a sound message is regular.
pub proof fn lemma_message_regular(m: MessageView)
    requires
        is_sound(m),
    ensures
        json::is_regular(message_json(m), 100),
{
    let a = field_members(m);
    let all = message_members(m);
    lemma_fields_regular(m);
    lemma_keys_apart(m);
    json::lemma_merged(a, m.rest);
    assert forall|i: int| 0 <= i < all.len() implies json::is_regular((#[trigger] all[i]).1, 99) by {
        assert(all.contains(all[i]));
        if a.contains(all[i]) {
            let k = choose|k: int| 0 <= k < a.len() && a[k] == all[i];
            assert(json::is_regular(a[k].1, 99));
        } else {
            let k = choose|k: int| 0 <= k < m.rest.len() && m.rest[k] == all[i];
            assert(json::is_regular(m.rest[k].1, 99));
        }
    }
}

/// What is regular up to some depth is so up to a greater one.
proof fn lemma_deeper(v: JsonView, a: nat, b: nat)
    requires
        json::is_regular(v, a),
        a <= b,
    ensures
        json::is_regular(v, b),
    decreases a,
{
    match v {
        JsonView::List(l) => {
            assert forall|i: int| 0 <= i < l.len() implies json::is_regular(
                #[trigger] l[i],
                (b - 1) as nat,
            ) by {
                lemma_deeper(l[i], (a - 1) as nat, (b - 1) as nat);
            }
        },
        JsonView::Object(m) => {
            assert forall|i: int| 0 <= i < m.len() implies json::is_regular(
                (#[trigger] m[i]).1,
                (b - 1) as nat,
            ) by {
                lemma_deeper(m[i].1, (a - 1) as nat, (b - 1) as nat);
            }
        },
        _ => {},
    }
}

/// A member of two lists of members is one of the second, else of the first.
proof fn lemma_member_concat(
    a: Seq<(Seq<char>, JsonView)>,
    b: Seq<(Seq<char>, JsonView)>,
    key: Seq<char>,
)
    ensures
        json::member(a + b, key) == (match json::member(b, key) {
            Some(v) => Some(v),
            None => json::member(a, key),
        }),
    decreases b.len(),
{
    if b.len() == 0 {
        assert(a + b =~= a);
    } else {
        assert((a + b).drop_last() =~= a + b.drop_last());
        lemma_member_concat(a, b.drop_last(), key);
    }
}

/// What stands under a key in a list of at most one member.
proof fn lemma_member_one(p: Seq<(Seq<char>, JsonView)>, key: Seq<char>)
    requires
        p.len() <= 1,
    ensures
        json::member(p, key) == (if p.len() == 1 && p[0].0 == key {
            Some(p[0].1)
        } else {
            None::<JsonView>
        }),
{
    reveal_with_fuel(json::member, 3);
}

/// What stands under a key in a message.
proof fn lemma_message_member(m: MessageView, key: Seq<char>)
    ensures
        json::member(field_members(m), key) == ({
            let at = |p: Seq<(Seq<char>, JsonView)>| json::member(p, key);
            if at(calls_member(m.tool_calls)) is Some {
                at(calls_member(m.tool_calls))
            } else if at(history::text_member("tool_call_id"@, m.tool_call_id)) is Some {
                at(history::text_member("tool_call_id"@, m.tool_call_id))
            } else if at(history::text_member("timestamp"@, m.timestamp)) is Some {
                at(history::text_member("timestamp"@, m.timestamp))
            } else if at(history::text_member("role"@, m.role)) is Some {
                at(history::text_member("role"@, m.role))
            } else if at(history::text_member("reasoning"@, m.reasoning)) is Some {
                at(history::text_member("reasoning"@, m.reasoning))
            } else if at(history::text_member("name"@, m.name)) is Some {
                at(history::text_member("name"@, m.name))
            } else if at(content_member(m.content)) is Some {
                at(content_member(m.content))
            } else if at(history::text_member("_turn_id"@, m.turn_id)) is Some {
                at(history::text_member("_turn_id"@, m.turn_id))
            } else {
                at(reset_member(m.reset_iterations))
            }
        }),
{
    let p0 = reset_member(m.reset_iterations);
    let p1 = history::text_member("_turn_id"@, m.turn_id);
    let p2 = content_member(m.content);
    let p3 = history::text_member("name"@, m.name);
    let p4 = history::text_member("reasoning"@, m.reasoning);
    let p5 = history::text_member("role"@, m.role);
    let p6 = history::text_member("timestamp"@, m.timestamp);
    let p7 = history::text_member("tool_call_id"@, m.tool_call_id);
    let p8 = calls_member(m.tool_calls);
    lemma_member_concat(p0, p1, key);
    lemma_member_concat(p0 + p1, p2, key);
    lemma_member_concat(p0 + p1 + p2, p3, key);
    lemma_member_concat(p0 + p1 + p2 + p3, p4, key);
    lemma_member_concat(p0 + p1 + p2 + p3 + p4, p5, key);
    lemma_member_concat(p0 + p1 + p2 + p3 + p4 + p5, p6, key);
    lemma_member_concat(p0 + p1 + p2 + p3 + p4 + p5 + p6, p7, key);
    lemma_member_concat(p0 + p1 + p2 + p3 + p4 + p5 + p6 + p7, p8, key);
}

proof fn lemma_one_each(m: MessageView, key: Seq<char>)
    ensures
        ({
            let at = |p: Seq<(Seq<char>, JsonView)>| json::member(p, key);
            let one = |p: Seq<(Seq<char>, JsonView)>|
                if p.len() == 1 && p[0].0 == key {
                    Some(p[0].1)
                } else {
                    None::<JsonView>
                };
            &&& at(calls_member(m.tool_calls)) == one(calls_member(m.tool_calls))
            &&& at(history::text_member("tool_call_id"@, m.tool_call_id)) == one(
                history::text_member("tool_call_id"@, m.tool_call_id),
            )
            &&& at(history::text_member("timestamp"@, m.timestamp)) == one(
                history::text_member("timestamp"@, m.timestamp),
            )
            &&& at(history::text_member("role"@, m.role)) == one(
                history::text_member("role"@, m.role),
            )
            &&& at(history::text_member("reasoning"@, m.reasoning)) == one(
                history::text_member("reasoning"@, m.reasoning),
            )
            &&& at(history::text_member("name"@, m.name)) == one(
                history::text_member("name"@, m.name),
            )
            &&& at(content_member(m.content)) == one(
                content_member(m.content),
            )
            &&& at(history::text_member("_turn_id"@, m.turn_id)) == one(
                history::text_member("_turn_id"@, m.turn_id),
            )
            &&& at(reset_member(m.reset_iterations)) == one(reset_member(m.reset_iterations))
        }),
{
    lemma_member_one(calls_member(m.tool_calls), key);
    lemma_member_one(history::text_member("tool_call_id"@, m.tool_call_id), key);
    lemma_member_one(history::text_member("timestamp"@, m.timestamp), key);
    lemma_member_one(history::text_member("role"@, m.role), key);
    lemma_member_one(history::text_member("reasoning"@, m.reasoning), key);
    lemma_member_one(history::text_member("name"@, m.name), key);
    lemma_member_one(content_member(m.content), key);
    lemma_member_one(history::text_member("_turn_id"@, m.turn_id), key);
    lemma_member_one(reset_member(m.reset_iterations), key);
}

/// The keys of a message, behind that of metadata.
spec fn message_keys() -> Seq<Seq<char>> {
    seq![
        "_type"@,
        "_reset_iterations_next_run"@,
        "_turn_id"@,
        "content"@,
        "name"@,
        "reasoning"@,
        "role"@,
        "timestamp"@,
        "tool_call_id"@,
        "tool_calls"@,
    ]
}

/// The keys of a message are different from each other and from `_type`.
proof fn lemma_keys_differ()
    ensures
        forall|i: int, j: int|
            0 <= i < j < 10 ==> #[trigger] message_keys()[i] != #[trigger] message_keys()[j],
{
    reveal_strlit("_type");
    reveal_strlit("_reset_iterations_next_run");
    reveal_strlit("_turn_id");
    reveal_strlit("content");
    reveal_strlit("name");
    reveal_strlit("reasoning");
    reveal_strlit("role");
    reveal_strlit("timestamp");
    reveal_strlit("tool_call_id");
    reveal_strlit("tool_calls");
    assert("name"@[0] != "role"@[0]);
    assert("reasoning"@[0] != "timestamp"@[0]);
    let keys = message_keys();
    assert(keys[0].len() == 5 && keys[1].len() == 26 && keys[2].len() == 8 && keys[3].len() == 7
        && keys[4].len() == 4 && keys[5].len() == 9 && keys[6].len() == 4 && keys[7].len() == 9
        && keys[8].len() == 12 && keys[9].len() == 10);
    assert forall|i: int, j: int| 0 <= i < j < 10 implies #[trigger] keys[i] != #[trigger] keys[j] by {
        if i == 4 && j == 6 {
            assert(keys[4][0] != keys[6][0]);
        } else if i == 5 && j == 7 {
            assert(keys[5][0] != keys[7][0]);
        } else {
            assert(keys[i].len() != keys[j].len());
        }
    }
}

proof fn lemma_block_read_back(b: ContentBlockView)
    ensures
        as_block(block_json(b)) == Some(b),
{
}

proof fn lemma_usual_call_read(c: ToolCallView)
    requires
        c.given is None,
    ensures
        call_fields(history::usual_call(c)) == c,
{
    reveal_strlit("arguments");
    reveal_strlit("name");
    reveal_strlit("function");
    reveal_strlit("id");
    reveal_strlit("type");
    assert("function"@.len() == 8 && "type"@.len() == 4 && "id"@.len() == 2);
    assert("arguments"@.len() == 9 && "name"@.len() == 4);
    let a = history::text_member("arguments"@, c.arguments);
    let n = history::text_member("name"@, c.name);
    let f = JsonView::Object(a + n);
    lemma_member_concat(a, n, "arguments"@);
    lemma_member_concat(a, n, "name"@);
    lemma_member_one(a, "arguments"@);
    lemma_member_one(n, "arguments"@);
    lemma_member_one(a, "name"@);
    lemma_member_one(n, "name"@);
    let first = seq![("function"@, f)];
    let id = history::text_member("id"@, c.id);
    let kind = seq![("type"@, JsonView::Text("function"@))];
    lemma_member_concat(first + id, kind, "function"@);
    lemma_member_concat(first, id, "function"@);
    lemma_member_concat(first + id, kind, "id"@);
    lemma_member_concat(first, id, "id"@);
    lemma_member_one(first, "function"@);
    lemma_member_one(id, "function"@);
    lemma_member_one(kind, "function"@);
    lemma_member_one(first, "id"@);
    lemma_member_one(id, "id"@);
    lemma_member_one(kind, "id"@);
    assert(history::usual_call(c) == JsonView::Object(first + id + kind));
    assert(kind[0].0 != "function"@);
    assert(json::member(kind, "function"@) is None);
    assert(json::member(id, "function"@) is None);
    assert(json::member(first, "function"@) == Some(f));
    assert(kind[0].0 != "id"@);
    assert(first[0].0 != "id"@);
    assert(history::usual_call(c).get("function"@) == Some(f));
    assert(f.get_text("name"@) == c.name);
    assert(f.get_text("arguments"@) == c.arguments);
}

proof fn lemma_call_read_back(c: ToolCallView)
    requires
        is_sound_call(c),
    ensures
        read_call(history::call_json(c)) == c,
{
    if c.given is None {
        lemma_usual_call_read(c);
    }
}

/// The content that is written is read back as it was.
proof fn lemma_content_read_back(c: ContentView)
    requires
        c matches ContentView::Other(j) ==> read_content(Some(j)) == c,
    ensures
        read_content(content_json(c)) == c,
{
    if let ContentView::Blocks(b) = c {
        let l = Seq::new(b.len(), |i: int| block_json(b[i]));
        let back = Seq::new(l.len(), |i: int| as_block(l[i])->0);
        assert forall|i: int| 0 <= i < b.len() implies as_block(#[trigger] l[i]) == Some(b[i]) by {
            lemma_block_read_back(b[i]);
        }
        assert(back =~= b);
    }
}

/// The calls that are written are read back as they were.
proof fn lemma_calls_read_back(c: Seq<ToolCallView>)
    requires
        forall|i: int| 0 <= i < c.len() ==> is_sound_call(#[trigger] c[i]),
    ensures
        read_calls(Some(JsonView::List(history::calls_json(c)))) == Some(c),
{
    let l = history::calls_json(c);
    let back = Seq::new(l.len(), |i: int| read_call(l[i]));
    assert forall|i: int| 0 <= i < c.len() implies back[i] == c[i] by {
        assert(is_sound_call(c[i]));
        lemma_call_read_back(c[i]);
    }
    assert(back =~= c);
}

/// What the fields of a message give under one of its keys.
proof fn lemma_field_member(m: MessageView, i: int)
    requires
        0 <= i < 10,
    ensures
        json::member(field_members(m), message_keys()[i]) == member_under(m, i),
{
    let keys = message_keys();
    lemma_keys_differ();
    assert(keys[1] == "_reset_iterations_next_run"@ && keys[2] == "_turn_id"@ && keys[3]
        == "content"@ && keys[4] == "name"@ && keys[5] == "reasoning"@ && keys[6] == "role"@
        && keys[7] == "timestamp"@ && keys[8] == "tool_call_id"@ && keys[9] == "tool_calls"@);
    lemma_message_member(m, keys[i]);
    lemma_one_each(m, keys[i]);
}

/// What stands under one of the keys in a sound message.
proof fn lemma_sound_member(m: MessageView, i: int)
    requires
        is_sound(m),
        0 <= i < 10,
    ensures
        ({
            let k = message_keys()[i];
            let v = json::member(m.rest, k);
            &&& json::member(message_members(m), k) == (match member_under(m, i) {
                Some(w) => Some(w),
                None => v,
            })
            &&& v is Some ==> !is_field((k, v->0))
        }),
{
    let k = message_keys()[i];
    lemma_fields_regular(m);
    lemma_keys_apart(m);
    lemma_field_member(m, i);
    json::lemma_merged_member(field_members(m), m.rest, k);
    json::lemma_member_contained(m.rest, k);
    if let Some(v) = json::member(m.rest, k) {
        let j = choose|j: int| 0 <= j < m.rest.len() && m.rest[j] == (k, v);
        assert(!is_field(m.rest[j]));
    }
}

/// A sound message that is written as JSON is read back as it was, and not
/// taken for metadata.
pub proof fn law_message_is_read_back(m: MessageView)
    requires
        is_sound(m),
    ensures
        read_message(message_json(m)) == m,
        message_json(m).get_text("_type"@) != Some("metadata"@),
{
    let keys = message_keys();
    lemma_keys_differ();
    assert(keys[0] == "_type"@ && keys[1] == "_reset_iterations_next_run"@ && keys[2] == "_turn_id"@
        && keys[3] == "content"@ && keys[4] == "name"@ && keys[5] == "reasoning"@ && keys[6]
        == "role"@ && keys[7] == "timestamp"@ && keys[8] == "tool_call_id"@ && keys[9]
        == "tool_calls"@);
    let v = message_json(m);
    assert(read_rest(v) == m.rest) by {
        let f = |p: (Seq<char>, JsonView)| !is_field(p);
        lemma_fields_regular(m);
        lemma_keys_apart(m);
        lemma_fields_are_fields(m);
        json::lemma_merged_select(field_members(m), m.rest, f);
    }
    lemma_sound_member(m, 0);
    lemma_sound_member(m, 1);
    lemma_sound_member(m, 2);
    lemma_sound_member(m, 3);
    lemma_sound_member(m, 4);
    lemma_sound_member(m, 5);
    lemma_sound_member(m, 6);
    lemma_sound_member(m, 7);
    lemma_sound_member(m, 8);
    lemma_sound_member(m, 9);
    lemma_content_read_back(m.content);
    if let Some(c) = m.tool_calls {
        lemma_calls_read_back(c);
    }
    assert(read_message(v) =~= m);
}

/// The fields of a message stand for the members that they give.
proof fn lemma_fields_are_fields(m: MessageView)
    ensures
        forall|i: int|
            0 <= i < field_members(m).len() ==> is_field(#[trigger] field_members(m)[i]),
{
    lemma_keys_differ();
    let keys = message_keys();
    assert(keys[1] == "_reset_iterations_next_run"@ && keys[2] == "_turn_id"@ && keys[3]
        == "content"@ && keys[4] == "name"@ && keys[5] == "reasoning"@ && keys[6] == "role"@
        && keys[7] == "timestamp"@ && keys[8] == "tool_call_id"@ && keys[9] == "tool_calls"@);
}

/// The content that is read is written as it was.
proof fn lemma_content_written_back(v: Option<JsonView>)
    ensures
        content_json(read_content(v)) == v,
{
    if let Some(JsonView::List(l)) = v {
        if forall|i: int| 0 <= i < l.len() ==> as_block(#[trigger] l[i]) is Some {
            let b = Seq::new(l.len(), |i: int| as_block(l[i])->0);
            let back = Seq::new(b.len(), |i: int| block_json(b[i]));
            assert forall|i: int| 0 <= i < l.len() implies back[i] == l[i] by {
                assert(as_block(l[i]) is Some);
                lemma_block_written_back(l[i]);
            }
            assert(back =~= l);
        }
    }
}

proof fn lemma_block_written_back(v: JsonView)
    requires
        as_block(v) is Some,
    ensures
        block_json(as_block(v)->0) == v,
{
    let m = v->Object_0;
    let b = block_json(as_block(v)->0)->Object_0;
    if let ContentBlockView::ImageUrl(u) = as_block(v)->0 {
        let i = m[0].1->Object_0;
        assert(i =~= seq![("url"@, JsonView::Text(u))]);
    }
    assert(b =~= m);
}

/// What of an object is read into the fields of a message is written as it
/// was, and all of it that fields stand for is.
proof fn lemma_fields_written_back(m: Seq<(Seq<char>, JsonView)>)
    requires
        json::keys_rise(m),
    ensures
        ({
            let a = field_members(read_message(JsonView::Object(m)));
            forall|x: (Seq<char>, JsonView)| #[trigger]
                a.contains(x) <==> m.contains(x) && is_field(x)
        }),
{
    let v = JsonView::Object(m);
    let r = read_message(v);
    let a = field_members(r);
    lemma_keys_differ();
    lemma_field_keys_rise(r);
    lemma_fields_are_fields(r);
    let keys = message_keys();
    assert(keys[1] == "_reset_iterations_next_run"@ && keys[2] == "_turn_id"@ && keys[3]
        == "content"@ && keys[4] == "name"@ && keys[5] == "reasoning"@ && keys[6] == "role"@
        && keys[7] == "timestamp"@ && keys[8] == "tool_call_id"@ && keys[9] == "tool_calls"@);
    lemma_content_written_back(v.get("content"@));
    assert(r.tool_calls matches Some(c) ==> history::calls_json(c) == v.get(
        "tool_calls"@,
    )->0->List_0) by {
        if let Some(JsonView::List(l)) = v.get("tool_calls"@) {
            assert(history::calls_json(r.tool_calls->0) =~= l);
        }
    }
    // What stands under each key in the fields.
    assert forall|i: int| 1 <= i < 10 implies json::member(a, #[trigger] keys[i]) == (match json::member(
        m,
        keys[i],
    ) {
        Some(w) => if is_field((keys[i], w)) {
            Some(w)
        } else {
            None
        },
        None => None,
    }) by {
        lemma_field_member(r, i);
    }
    assert forall|x: (Seq<char>, JsonView)| #[trigger] a.contains(x) <==> m.contains(x) && is_field(
        x,
    ) by {
        if a.contains(x) {
            let k = choose|k: int| 0 <= k < a.len() && a[k] == x;
            assert(is_field(a[k]));
            json::lemma_rising_member(a, k);
            let i = key_number(x.0);
            assert(x.0 == keys[i]);
            json::lemma_member_contained(m, x.0);
        }
        if m.contains(x) && is_field(x) {
            let k = choose|k: int| 0 <= k < m.len() && m[k] == x;
            json::lemma_rising_member(m, k);
            let i = key_number(x.0);
            assert(x.0 == keys[i]);
            json::lemma_member_contained(a, x.0);
        }
    }
}

/// The number of a key of a message.
spec fn key_number(k: Seq<char>) -> int {
    if k == "_reset_iterations_next_run"@ {
        1
    } else if k == "_turn_id"@ {
        2
    } else if k == "content"@ {
        3
    } else if k == "name"@ {
        4
    } else if k == "reasoning"@ {
        5
    } else if k == "role"@ {
        6
    } else if k == "timestamp"@ {
        7
    } else if k == "tool_call_id"@ {
        8
    } else {
        9
    }
}

/// Nothing of a message is lost when it is read: it is written as it was.
pub proof fn law_message_is_written_back(m: Seq<(Seq<char>, JsonView)>)
    requires
        json::keys_rise(m),
    ensures
        message_json(read_message(JsonView::Object(m))) == JsonView::Object(m),
{
    let r = read_message(JsonView::Object(m));
    let a = field_members(r);
    let f = |p: (Seq<char>, JsonView)| !is_field(p);
    let rest = seqs::select(m, f);
    assert(r.rest == rest);
    lemma_field_keys_rise(r);
    lemma_fields_written_back(m);
    json::lemma_select_rises(m, f);
    seqs::lemma_select_holds(m, f);
    assert forall|i: int, j: int| 0 <= i < a.len() && 0 <= j < rest.len() implies (
    #[trigger] a[i]).0 != (#[trigger] rest[j]).0 by {
        assert(a.contains(a[i]));
        assert(f(rest[j]) && m.contains(rest[j]));
        if a[i].0 == rest[j].0 {
            json::lemma_rising_unique(m, a[i], rest[j]);
        }
    }
    json::lemma_merged(a, rest);
    let all = json::merged(a, rest);
    assert forall|x: (Seq<char>, JsonView)| #[trigger] all.contains(x) <==> m.contains(x) by {
        if rest.contains(x) {
            let j = choose|j: int| 0 <= j < rest.len() && rest[j] == x;
            assert(m.contains(rest[j]));
        }
        if m.contains(x) && !is_field(x) {
            assert(f(x));
            seqs::lemma_select_contains(m, f, x);
        }
        assert(a.contains(x) <==> m.contains(x) && is_field(x));
    }
    json::lemma_rising_equal(all, m);
}

/// A message that is read from regular JSON other than metadata is sound.
pub proof fn law_read_message_is_sound(m: Seq<(Seq<char>, JsonView)>)
    requires
        json::is_regular(JsonView::Object(m), 100),
        json::member_text(m, "_type"@) != Some("metadata"@),
    ensures
        is_sound(read_message(JsonView::Object(m))),
{
    let v = JsonView::Object(m);
    let r = read_message(v);
    let a = field_members(r);
    let f = |p: (Seq<char>, JsonView)| !is_field(p);
    let rest = seqs::select(m, f);
    assert(r.rest == rest);
    json::lemma_select_rises(m, f);
    seqs::lemma_select_holds(m, f);
    lemma_fields_written_back(m);
    assert forall|i: int| 0 <= i < rest.len() implies !is_field(#[trigger] rest[i])
        && json::is_regular(rest[i].1, 99) && json::member(a, rest[i].0) is None by {
        assert(f(rest[i]) && m.contains(rest[i]));
        let j = choose|j: int| 0 <= j < m.len() && m[j] == rest[i];
        assert(json::is_regular(m[j].1, 99));
        json::lemma_member_contained(a, rest[i].0);
        if let Some(w) = json::member(a, rest[i].0) {
            json::lemma_rising_unique(m, (rest[i].0, w), rest[i]);
        }
    }
    json::lemma_member_contained(rest, "_type"@);
    if let Some(w) = json::member(rest, "_type"@) {
        let i = choose|i: int| 0 <= i < rest.len() && rest[i] == ("_type"@, w);
        assert(m.contains(rest[i]));
        let j = choose|j: int| 0 <= j < m.len() && m[j] == rest[i];
        json::lemma_rising_member(m, j);
    }
    json::lemma_member_contained(m, "content"@);
    if let Some(w) = json::member(m, "content"@) {
        let j = choose|j: int| 0 <= j < m.len() && m[j] == ("content"@, w);
        assert(json::is_regular(m[j].1, 99));
    }
    json::lemma_member_contained(m, "tool_calls"@);
    if let Some(JsonView::List(l)) = json::member(m, "tool_calls"@) {
        let j = choose|j: int| 0 <= j < m.len() && m[j] == ("tool_calls"@, JsonView::List(l));
        assert(json::is_regular(m[j].1, 99));
        let c = r.tool_calls->0;
        assert forall|i: int| 0 <= i < c.len() implies is_sound_call(#[trigger] c[i]) by {
            assert(c[i] == read_call(l[i]));
            assert(json::is_regular(l[i], 98));
        }
    }
}

/// An optional text as JSON.
spec fn opt_text_json(t: Option<Seq<char>>) -> Option<JsonView> {
    match t {
        Some(s) => Some(JsonView::Text(s)),
        None => None,
    }
}

/// What stands under the key with that number.
spec fn member_under(m: MessageView, i: int) -> Option<JsonView> {
    if i == 1 {
        if m.reset_iterations {
            Some(JsonView::Bool(true))
        } else {
            None
        }
    } else if i == 2 {
        opt_text_json(m.turn_id)
    } else if i == 3 {
        content_json(m.content)
    } else if i == 4 {
        opt_text_json(m.name)
    } else if i == 5 {
        opt_text_json(m.reasoning)
    } else if i == 6 {
        opt_text_json(m.role)
    } else if i == 7 {
        opt_text_json(m.timestamp)
    } else if i == 8 {
        opt_text_json(m.tool_call_id)
    } else if i == 9 {
        match m.tool_calls {
            Some(c) => Some(JsonView::List(history::calls_json(c))),
            None => None,
        }
    } else {
        None
    }
}

// ---------------------------------------------------------------------------
// Writing and reading messages
// ---------------------------------------------------------------------------

fn pair(key: &str, t: &str) -> (r: (String, Json))
    ensures
        r.0@ == key@,
        r.1@ == JsonView::Text(t@),
{
    (key.to_owned(), Json::Text(t.to_owned()))
}

fn block_to_json(b: &ContentBlock) -> (r: Json)
    ensures
        r@ == block_json(b@),
{
    let mut m: Vec<(String, Json)> = Vec::new();
    match b {
        ContentBlock::Text(t) => {
            m.push(pair("text", t.as_str()));
            m.push(pair("type", "text"));
        },
        ContentBlock::ImageUrl(u) => {
            let mut inner: Vec<(String, Json)> = Vec::new();
            inner.push(pair("url", u.as_str()));
            proof {
                json::lemma_members_view(inner@);
                assert(json::members_view(inner@) =~= seq![("url"@, JsonView::Text(u@))]);
            }
            m.push(("image_url".to_owned(), Json::Object(inner)));
            m.push(pair("type", "image_url"));
        },
    }
    proof {
        json::lemma_members_view(m@);
        assert(json::members_view(m@) =~= block_json(b@)->Object_0);
    }
    Json::Object(m)
}

fn content_to_json(c: &Content) -> (r: Option<Json>)
    ensures
        content_json(c@) == (match r {
            Some(j) => Some(j@),
            None => None::<JsonView>,
        }),
{
    match c {
        Content::Missing => None,
        Content::Nothing => Some(Json::Null),
        Content::Text(t) => Some(Json::Text(t.clone())),
        Content::Other(j) => Some(j.clone()),
        Content::Blocks(b) => {
            let mut l: Vec<Json> = Vec::new();
            let mut i: usize = 0;
            while i < b.len()
                invariant
                    0 <= i <= b@.len(),
                    l@.len() == i,
                    forall|k: int| 0 <= k < i ==> (#[trigger] l@[k])@ == block_json(b@[k]@),
                decreases b@.len() - i,
            {
                l.push(block_to_json(&b[i]));
                i += 1;
            }
            proof {
                json::lemma_list_view(l@);
                assert(json::list_view(l@) =~= content_json(c@)->0->List_0);
            }
            Some(Json::List(l))
        },
    }
}

/// A message as JSON.
pub fn message_to_json(m: &Message) -> (r: Json)
    ensures
        r@ == message_json(m@),
{
    let mut out: Vec<(String, Json)> = Vec::new();
    proof {
        assert(json::members_view(out@) =~= Seq::empty());
    }
    if m.reset_iterations {
        let ghost before = out@;
        let k = "_reset_iterations_next_run".to_owned();
        let v = Json::Bool(true);
        out.push((k, v));
        proof {
            json::lemma_members_push(before, k, v);
            assert(v@ == JsonView::Bool(true));
        }
    }
    proof {
        assert(json::members_view(out@) =~= reset_member(m@.reset_iterations));
    }
    push_member(&mut out, "_turn_id", &m.turn_id);
    let ghost before = out@;
    if let Some(v) = content_to_json(&m.content) {
        let k = "content".to_owned();
        out.push((k, v));
        proof {
            json::lemma_members_push(before, k, v);
        }
    }
    proof {
        assert(json::members_view(out@) =~= json::members_view(before) + content_member(
            m@.content,
        ));
    }
    push_member(&mut out, "name", &m.name);
    push_member(&mut out, "reasoning", &m.reasoning);
    push_member(&mut out, "role", &m.role);
    push_member(&mut out, "timestamp", &m.timestamp);
    push_member(&mut out, "tool_call_id", &m.tool_call_id);
    if let Some(calls) = &m.tool_calls {
        let mut l: Vec<Json> = Vec::new();
        let mut i: usize = 0;
        while i < calls.len()
            invariant
                0 <= i <= calls@.len(),
                l@.len() == i,
                forall|k: int| 0 <= k < i ==> (#[trigger] l@[k])@ == history::call_json(calls@[k]@),
            decreases calls@.len() - i,
        {
            l.push(call_to_json(&calls[i]));
            i += 1;
        }
        let ghost before = out@;
        let k = "tool_calls".to_owned();
        let v = Json::List(l);
        proof {
            json::lemma_list_view(l@);
            assert(json::list_view(l@) =~= history::calls_json(message::calls_view(calls@)));
            json::lemma_members_push(before, k, v);
        }
        out.push((k, v));
        proof {
            assert(json::members_view(out@) =~= json::members_view(before) + calls_member(
                m@.tool_calls,
            ));
        }
    }
    proof {
        assert(json::members_view(out@) =~= field_members(m@));
    }
    Json::Object(merge_members(&out, &m.rest))
}

/// The line of a message.
pub fn message_to_line(m: &Message) -> (r: String)
    ensures
        r@ == message_line(m@),
{
    let v = message_to_json(m);
    v.render()
}

fn own(t: Option<&str>) -> (r: Option<String>)
    ensures
        message::opt_text(r) == text::opt_str(t),
{
    match t {
        Some(s) => Some(s.to_owned()),
        None => None,
    }
}

fn block_from_json(v: &Json) -> (r: Option<ContentBlock>)
    ensures
        as_block(v@) == (match r {
            Some(b) => Some(b@),
            None => None::<ContentBlockView>,
        }),
{
    match v {
        Json::Object(m) => {
            proof {
                json::lemma_members_view(m@);
            }
            if m.len() != 2 || !str_eq(m[1].0.as_str(), "type") {
                return None;
            }
            match (&m[0].1, &m[1].1) {
                (Json::Text(t), Json::Text(k)) => if str_eq(m[0].0.as_str(), "text") && str_eq(
                    k.as_str(),
                    "text",
                ) {
                    Some(ContentBlock::Text(t.clone()))
                } else {
                    None
                },
                (Json::Object(i), Json::Text(k)) => {
                    proof {
                        json::lemma_members_view(i@);
                    }
                    if str_eq(m[0].0.as_str(), "image_url") && str_eq(k.as_str(), "image_url")
                        && i.len() == 1 && str_eq(i[0].0.as_str(), "url") {
                        match &i[0].1 {
                            Json::Text(u) => Some(ContentBlock::ImageUrl(u.clone())),
                            _ => None,
                        }
                    } else {
                        None
                    }
                },
                _ => None,
            }
        },
        _ => None,
    }
}

fn content_from_json(v: Option<&Json>) -> (r: Content)
    ensures
        r@ == read_content(
            match v {
                Some(j) => Some(j@),
                None => None,
            },
        ),
{
    let j = match v {
        Some(j) => j,
        None => {
            return Content::Missing;
        },
    };
    match j {
        Json::Null => Content::Nothing,
        Json::Text(t) => Content::Text(t.clone()),
        Json::List(l) => {
            let mut out: Vec<ContentBlock> = Vec::new();
            let mut i: usize = 0;
            let ghost lv = json::list_view(l@);
            proof {
                json::lemma_list_view(l@);
            }
            while i < l.len()
                invariant
                    0 <= i <= l@.len() == lv.len(),
                    lv == json::list_view(l@),
                    v == Some(j),
                    j@ == JsonView::List(lv),
                    out@.len() == i,
                    forall|k: int| 0 <= k < l@.len() ==> #[trigger] lv[k] == l@[k]@,
                    forall|k: int| 0 <= k < i ==> as_block(#[trigger] lv[k]) == Some(out@[k]@),
                decreases l@.len() - i,
            {
                match block_from_json(&l[i]) {
                    Some(b) => {
                        out.push(b);
                    },
                    None => {
                        proof {
                            assert(as_block(lv[i as int]) is None);
                        }
                        return Content::Other(j.clone());
                    },
                }
                i += 1;
            }
            let r = Content::Blocks(out);
            proof {
                assert(r@->Blocks_0 =~= Seq::new(lv.len(), |i: int| as_block(lv[i])->0));
            }
            r
        },
        _ => Content::Other(j.clone()),
    }
}

fn call_from_json(v: &Json) -> (r: ToolCall)
    ensures
        r@ == read_call(v@),
{
    let (name, arguments) = match v.get("function") {
        Some(f) => (own(f.get_text("name")), own(f.get_text("arguments"))),
        None => (None, None),
    };
    let usual = ToolCall { id: own(v.get_text("id")), name, arguments, given: None };
    if same(&usual_to_json(&usual), v) {
        usual
    } else {
        ToolCall { given: Some(v.clone()), ..usual }
    }
}

fn calls_from_json(v: Option<&Json>) -> (r: Option<Vec<ToolCall>>)
    ensures
        message::opt_calls_view(r) == read_calls(
            match v {
                Some(j) => Some(j@),
                None => None,
            },
        ),
{
    match v {
        Some(Json::List(l)) => {
            let mut out: Vec<ToolCall> = Vec::new();
            let mut i: usize = 0;
            while i < l.len()
                invariant
                    0 <= i <= l@.len(),
                    out@.len() == i,
                    forall|k: int| 0 <= k < i ==> (#[trigger] out@[k])@ == read_call(l@[k]@),
                decreases l@.len() - i,
            {
                out.push(call_from_json(&l[i]));
                i += 1;
            }
            proof {
                json::lemma_list_view(l@);
                let lv = json::list_view(l@);
                assert(message::calls_view(out@) =~= Seq::new(lv.len(), |i: int| read_call(lv[i])));
            }
            Some(out)
        },
        _ => None,
    }
}

fn names_field(key: &str, v: &Json) -> (r: bool)
    ensures
        r == is_field((key@, v@)),
{
    if str_eq(key, "content") {
        return true;
    }
    if str_eq(key, "tool_calls") {
        return match v {
            Json::List(_) => true,
            _ => false,
        };
    }
    if str_eq(key, "_reset_iterations_next_run") {
        return match v {
            Json::Bool(b) => *b,
            _ => false,
        };
    }
    if str_eq(key, "_turn_id") || str_eq(key, "name") || str_eq(key, "reasoning") || str_eq(
        key,
        "role",
    ) || str_eq(key, "timestamp") || str_eq(key, "tool_call_id") {
        return match v {
            Json::Text(_) => true,
            _ => false,
        };
    }
    false
}

fn rest_from_json(v: &Json) -> (r: Vec<(String, Json)>)
    ensures
        json::members_view(r@) == read_rest(v@),
{
    let mut out: Vec<(String, Json)> = Vec::new();
    if let Json::Object(m) = v {
        let ghost all = json::members_view(m@);
        let ghost f = |p: (Seq<char>, JsonView)| !is_field(p);
        let mut i: usize = 0;
        proof {
            json::lemma_members_view(m@);
            assert(all.skip(0) =~= all);
            assert(json::members_view(out@) + seqs::select(all, f) =~= seqs::select(all, f));
        }
        while i < m.len()
            invariant
                0 <= i <= m@.len() == all.len(),
                all == json::members_view(m@),
                f == (|p: (Seq<char>, JsonView)| !is_field(p)),
                forall|k: int| 0 <= k < m@.len() ==> #[trigger] all[k] == (m@[k].0@, m@[k].1@),
                json::members_view(out@) + seqs::select(all.skip(i as int), f) == seqs::select(
                    all,
                    f,
                ),
            decreases m@.len() - i,
        {
            let ghost rest = all.skip(i as int);
            let ghost before = out@;
            proof {
                assert(rest[0] == all[i as int]);
                assert(rest.skip(1) =~= all.skip(i + 1));
            }
            if !names_field(m[i].0.as_str(), &m[i].1) {
                let k = m[i].0.clone();
                let w = m[i].1.clone();
                out.push((k, w));
                proof {
                    json::lemma_members_push(before, k, w);
                    assert(json::members_view(out@) + seqs::select(rest.skip(1), f)
                        =~= json::members_view(before) + (seq![rest[0]] + seqs::select(
                        rest.skip(1),
                        f,
                    )));
                }
            }
            i += 1;
        }
        proof {
            assert(seqs::select(all.skip(i as int), f) =~= Seq::empty());
        }
    }
    out
}

/// A message, as it is read.
pub fn message_from_json(v: &Json) -> (r: Message)
    ensures
        r@ == read_message(v@),
{
    let reset = match v.get("_reset_iterations_next_run") {
        Some(Json::Bool(b)) => *b,
        _ => false,
    };
    Message {
        role: own(v.get_text("role")),
        content: content_from_json(v.get("content")),
        tool_calls: calls_from_json(v.get("tool_calls")),
        tool_call_id: own(v.get_text("tool_call_id")),
        name: own(v.get_text("name")),
        reasoning: own(v.get_text("reasoning")),
        timestamp: own(v.get_text("timestamp")),
        turn_id: own(v.get_text("_turn_id")),
        reset_iterations: reset,
        rest: rest_from_json(v),
    }
}

// ---------------------------------------------------------------------------
// Lines
// ---------------------------------------------------------------------------

/// Whether a text has no line end in it.
pub open spec fn is_one_line(t: Seq<char>) -> bool {
    forall|i: int| 0 <= i < t.len() ==> #[trigger] t[i] != '\n' && t[i] != '\r'
}

proof fn lemma_one_line_concat(a: Seq<char>, b: Seq<char>)
    requires
        is_one_line(a),
        is_one_line(b),
    ensures
        is_one_line(a + b),
{
    assert forall|i: int| 0 <= i < (a + b).len() implies #[trigger] (a + b)[i] != '\n' && (a + b)[i]
        != '\r' by {
        if i < a.len() {
            assert((a + b)[i] == a[i]);
        } else {
            assert((a + b)[i] == b[i - a.len()]);
        }
    }
}

proof fn lemma_escaped_one_line(c: char)
    ensures
        is_one_line(json::escaped(c)),
{
    let h = c as nat / 16;
    let l = c as nat % 16;
    if (c as u32) < 0x20 {
        assert(h < 16 && l < 16);
    }
}

proof fn lemma_quoted_one_line(t: Seq<char>)
    ensures
        is_one_line(json::escaped_all(t)),
        is_one_line(json::quoted(t)),
    decreases t.len(),
{
    if t.len() > 0 {
        lemma_quoted_one_line(t.drop_last());
        lemma_escaped_one_line(t.last());
        lemma_one_line_concat(json::escaped_all(t.drop_last()), json::escaped(t.last()));
    }
    lemma_one_line_concat(seq!['"'], json::escaped_all(t));
    lemma_one_line_concat(seq!['"'] + json::escaped_all(t), seq!['"']);
}

proof fn lemma_dec_one_line(n: nat)
    ensures
        is_one_line(text::dec(n)),
{
    text::lemma_dec_is_read(n);
    let t = text::dec(n);
    assert forall|i: int| 0 <= i < t.len() implies #[trigger] t[i] != '\n' && t[i] != '\r' by {
        assert(text::is_digit(t[i]));
    }
}

proof fn lemma_list_one_line(l: Seq<JsonView>, depth: nat)
    requires
        forall|i: int| 0 <= i < l.len() ==> json::is_regular(#[trigger] l[i], depth),
    ensures
        is_one_line(json::list_text(l)),
    decreases depth, l.len(), 1nat,
{
    reveal_strlit(",");
    if l.len() > 0 {
        assert(json::is_regular(l[l.len() - 1], depth));
        lemma_json_one_line(l.last(), depth);
        if l.len() > 1 {
            let p = l.drop_last();
            assert forall|i: int| 0 <= i < p.len() implies json::is_regular(#[trigger] p[i], depth) by {
                assert(p[i] == l[i]);
            }
            lemma_list_one_line(p, depth);
            lemma_one_line_concat(json::list_text(p), ","@);
            lemma_one_line_concat(json::list_text(p) + ","@, json::json_text(l.last()));
        }
    }
}

proof fn lemma_members_one_line(m: Seq<(Seq<char>, JsonView)>, depth: nat)
    requires
        forall|i: int| 0 <= i < m.len() ==> json::is_regular((#[trigger] m[i]).1, depth),
    ensures
        is_one_line(json::members_text(m)),
    decreases depth, m.len(), 1nat,
{
    reveal_strlit(",");
    reveal_strlit(":");
    if m.len() > 0 {
        assert(json::is_regular(m[m.len() - 1].1, depth));
        lemma_json_one_line(m.last().1, depth);
        lemma_quoted_one_line(m.last().0);
        if m.len() > 1 {
            let p = m.drop_last();
            assert forall|i: int| 0 <= i < p.len() implies json::is_regular(
                (#[trigger] p[i]).1,
                depth,
            ) by {
                assert(p[i] == m[i]);
            }
            lemma_members_one_line(p, depth);
            let a = json::members_text(p);
            lemma_one_line_concat(a, ","@);
            lemma_one_line_concat(a + ","@, json::quoted(m.last().0));
            lemma_one_line_concat(a + ","@ + json::quoted(m.last().0), ":"@);
            lemma_one_line_concat(
                a + ","@ + json::quoted(m.last().0) + ":"@,
                json::json_text(m.last().1),
            );
        } else {
            lemma_one_line_concat(json::quoted(m.last().0), ":"@);
            lemma_one_line_concat(json::quoted(m.last().0) + ":"@, json::json_text(m.last().1));
        }
    }
}

pub proof fn lemma_json_one_line(v: JsonView, depth: nat)
    requires
        json::is_regular(v, depth),
    ensures
        is_one_line(json::json_text(v)),
    decreases depth, 0nat, 0nat,
{
    reveal_strlit("null");
    reveal_strlit("true");
    reveal_strlit("false");
    reveal_strlit("[");
    reveal_strlit("]");
    reveal_strlit("{");
    reveal_strlit("}");
    match v {
        JsonView::Number(n) => {
            let k = choose|k: u64| n == #[trigger] text::dec(k as nat);
            lemma_dec_one_line(k as nat);
        },
        JsonView::Text(t) => {
            lemma_quoted_one_line(t);
        },
        JsonView::List(l) => {
            lemma_list_one_line(l, (depth - 1) as nat);
            lemma_one_line_concat("["@, json::list_text(l));
            lemma_one_line_concat("["@ + json::list_text(l), "]"@);
        },
        JsonView::Object(m) => {
            lemma_members_one_line(m, (depth - 1) as nat);
            lemma_one_line_concat("{"@, json::members_text(m));
            lemma_one_line_concat("{"@ + json::members_text(m), "}"@);
        },
        _ => {},
    }
}

/// The line of a sound message is one line.
pub proof fn law_message_is_one_line(m: MessageView)
    requires
        is_sound(m),
    ensures
        is_one_line(message_line(m)),
{
    lemma_message_regular(m);
    lemma_json_one_line(message_json(m), 100);
}

} // verus!

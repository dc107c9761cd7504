//! Chat history: leaving out repeats, cutting to a budget, and keeping tool
//! results with the calls they answer.

use crate::json;
use crate::json::{find_member, Json, JsonView};
use crate::message;
use crate::message::{Message, MessageView, ToolCall, ToolCallView};
use crate::seqs;
use crate::text;
use crate::text::{str_eq, str_join, str_words};
use vstd::prelude::*;

verus! {

// ---------------------------------------------------------------------------
// Signatures
// ---------------------------------------------------------------------------

/// The text that two contents share when they differ only in case or in white
/// space: the words with single spaces between them, in lower case.
pub open spec fn normalized(s: Seq<char>) -> Seq<char> {
    text::lowercased(text::join(text::words(s), " "@))
}

/// Folds runs of white space into single spaces, and upper case into lower.
pub fn normalize_text_for_dedupe(s: &str) -> (r: String)
    ensures
        r@ == normalized(s@),
{
    let w = str_words(s);
    let joined = str_join(&w, " ");
    joined.as_str().to_lowercase()
}

/// One optional string member of an object.
pub open spec fn text_member(key: Seq<char>, value: Option<Seq<char>>) -> Seq<(
    Seq<char>,
    JsonView,
)> {
    match value {
        Some(t) => seq![(key, JsonView::Text(t))],
        None => Seq::empty(),
    }
}

/// A tool call as it is sent to a model: as it came, or in the usual form.
pub open spec fn call_json(c: ToolCallView) -> JsonView {
    match c.given {
        Some(j) => j,
        None => usual_call(c),
    }
}

/// A tool call in the usual form.
pub open spec fn usual_call(c: ToolCallView) -> JsonView {
    JsonView::Object(
        seq![
            (
                "function"@,
                JsonView::Object(
                    text_member("arguments"@, c.arguments) + text_member("name"@, c.name),
                ),
            ),
        ] + text_member("id"@, c.id) + seq![("type"@, JsonView::Text("function"@))],
    )
}

/// A list of tool calls as JSON.
pub open spec fn calls_json(calls: Seq<ToolCallView>) -> Seq<JsonView> {
    Seq::new(calls.len(), |i: int| call_json(calls[i]))
}

/// What is compared of two messages.
pub open spec fn signature(m: MessageView) -> Seq<char> {
    m.role_or_empty() + "|"@ + or_empty(m.name) + "|"@ + or_empty(m.tool_call_id) + "|"@ + (
    match m.text() {
        Some(t) => normalized(t),
        None => Seq::empty(),
    }) + "|"@ + calls_text(m)
}

/// The JSON text of the tool calls of a message, in whatever form they are
/// given.
pub open spec fn calls_text(m: MessageView) -> Seq<char> {
    match m.tool_calls {
        Some(calls) => json::json_text(JsonView::List(calls_json(calls))),
        None => match json::member(m.rest, "tool_calls"@) {
            Some(v) => json::json_text(v),
            None => Seq::empty(),
        },
    }
}

/// The text, or the empty string.
pub open spec fn or_empty(o: Option<Seq<char>>) -> Seq<char> {
    match o {
        Some(t) => t,
        None => Seq::empty(),
    }
}

/// Adds an optional string member to an object.
pub fn push_member(m: &mut Vec<(String, Json)>, key: &str, value: &Option<String>)
    ensures
        json::members_view(final(m)@) == json::members_view(old(m)@) + text_member(
            key@,
            message::opt_text(*value),
        ),
{
    match value {
        Some(t) => {
            let k = key.to_owned();
            let v = Json::Text(t.clone());
            proof {
                json::lemma_members_push(m@, k, v);
                assert(v@ == JsonView::Text(t@));
            }
            m.push((k, v));
        },
        None => {},
    }
}

/// A tool call as the JSON object that is sent to a model.
pub fn call_to_json(c: &ToolCall) -> (r: Json)
    ensures
        r@ == call_json(c@),
{
    match &c.given {
        Some(j) => j.clone(),
        None => usual_to_json(c),
    }
}

/// A tool call in the usual form.
pub fn usual_to_json(c: &ToolCall) -> (r: Json)
    ensures
        r@ == usual_call(c@),
{
    let mut function: Vec<(String, Json)> = Vec::new();
    push_member(&mut function, "arguments", &c.arguments);
    push_member(&mut function, "name", &c.name);
    let mut m: Vec<(String, Json)> = Vec::new();
    let k = "function".to_owned();
    let f = Json::Object(function);
    let ghost fv = f@;
    proof {
        assert(json::members_view(function@) =~= text_member("arguments"@, c@.arguments) + text_member(
            "name"@,
            c@.name,
        ));
        json::lemma_members_push(m@, k, f);
    }
    m.push((k, f));
    push_member(&mut m, "id", &c.id);
    let k = "type".to_owned();
    let v = Json::Text("function".to_owned());
    proof {
        json::lemma_members_push(m@, k, v);
        assert(v@ == JsonView::Text("function"@));
    }
    m.push((k, v));
    proof {
        assert(json::members_view(m@) =~= seq![("function"@, fv)] + text_member("id"@, c@.id) + seq![
            ("type"@, JsonView::Text("function"@)),
        ]);
    }
    Json::Object(m)
}

/// The JSON text of a list of tool calls.
pub fn tool_calls_text(calls: &Vec<ToolCall>) -> (r: String)
    ensures
        r@ == json::json_text(JsonView::List(calls_json(message::calls_view(calls@)))),
{
    let mut l: Vec<Json> = Vec::new();
    let mut i: usize = 0;
    let ghost want = calls_json(message::calls_view(calls@));
    while i < calls.len()
        invariant
            0 <= i <= calls@.len(),
            want == calls_json(message::calls_view(calls@)),
            json::list_view(l@) == want.take(i as int),
        decreases calls@.len() - i,
    {
        let ghost before = l@;
        l.push(call_to_json(&calls[i]));
        proof {
            assert(l@.drop_last() =~= before);
            assert(want.take(i as int).push(want[i as int]) =~= want.take(i + 1));
        }
        i += 1;
    }
    proof {
        assert(want.take(i as int) =~= want);
    }
    Json::List(l).render()
}

/// What is compared of two messages: role, name, tool call id, normalized
/// text and tool calls.
pub fn message_signature(m: &Message) -> (r: String)
    ensures
        r@ == signature(m@),
{
    let mut r = String::new();
    if let Some(role) = &m.role {
        r.push_str(role.as_str());
    }
    r.push_str("|");
    if let Some(name) = &m.name {
        r.push_str(name.as_str());
    }
    r.push_str("|");
    if let Some(id) = &m.tool_call_id {
        r.push_str(id.as_str());
    }
    r.push_str("|");
    if let Some(t) = m.text() {
        let n = normalize_text_for_dedupe(t);
        r.push_str(n.as_str());
    }
    r.push_str("|");
    if let Some(calls) = &m.tool_calls {
        let c = tool_calls_text(calls);
        r.push_str(c.as_str());
    } else if let Some(v) = find_member(&m.rest, "tool_calls") {
        let c = v.render();
        r.push_str(c.as_str());
    }
    r
}

// ---------------------------------------------------------------------------
// Leaving out repeats
// ---------------------------------------------------------------------------

/// `h` without the messages whose signature is that of the message before
/// them; `last` is the signature before the first one.
pub open spec fn deduped(h: Seq<MessageView>, last: Seq<char>) -> Seq<MessageView>
    decreases h.len(),
{
    if h.len() == 0 {
        Seq::empty()
    } else if signature(h[0]) == last {
        deduped(h.skip(1), last)
    } else {
        seq![h[0]] + deduped(h.skip(1), signature(h[0]))
    }
}

/// The history without messages that repeat the one before them.
pub fn dedupe_history(history: &Vec<Message>) -> (r: Vec<Message>)
    ensures
        message::views(r@) == deduped(message::views(history@), Seq::empty()),
{
    let ghost h = message::views(history@);
    let mut result: Vec<Message> = Vec::new();
    let mut last_sig = String::new();
    let mut i: usize = 0;
    proof {
        assert(h.skip(0) =~= h);
        assert(message::views(result@) + deduped(h, last_sig@) =~= deduped(h, Seq::empty()));
    }
    while i < history.len()
        invariant
            0 <= i <= history@.len(),
            h == message::views(history@),
            message::views(result@) + deduped(h.skip(i as int), last_sig@) == deduped(h, Seq::empty()),
        decreases history@.len() - i,
    {
        let sig = message_signature(&history[i]);
        let ghost rest = h.skip(i as int);
        proof {
            assert(rest.skip(1) =~= h.skip(i + 1));
            assert(rest[0] == history@[i as int]@);
        }
        if !str_eq(sig.as_str(), last_sig.as_str()) {
            let ghost before = result@;
            let m = history[i].clone();
            result.push(m);
            proof {
                assert(message::views(result@) =~= message::views(before).push(m@));
                assert(message::views(before) + (seq![m@] + deduped(h.skip(i + 1), sig@)) =~= message::views(
                    result@,
                ) + deduped(h.skip(i + 1), sig@));
            }
            last_sig = sig;
        }
        i += 1;
    }
    proof {
        assert(message::views(result@) + deduped(h.skip(i as int), last_sig@) =~= message::views(result@));
    }
    result
}

/// A signature is never empty, so the first message is never taken for a
/// repeat.
pub proof fn law_signature_not_empty(m: MessageView)
    ensures
        signature(m).len() > 0,
{
    reveal_strlit("|");
}

/// No two neighbours in a deduplicated history have the same signature, and
/// the first does not have the signature it was started with.
pub proof fn law_dedupe_no_neighbours(h: Seq<MessageView>, last: Seq<char>)
    ensures
        deduped(h, last).len() > 0 ==> signature(deduped(h, last)[0]) != last,
        forall|i: int|
            0 <= i < deduped(h, last).len() - 1 ==> signature(#[trigger] deduped(h, last)[i])
                != signature(deduped(h, last)[i + 1]),
    decreases h.len(),
{
    if h.len() > 0 {
        if signature(h[0]) == last {
            law_dedupe_no_neighbours(h.skip(1), last);
        } else {
            let d = deduped(h.skip(1), signature(h[0]));
            law_dedupe_no_neighbours(h.skip(1), signature(h[0]));
            let r = deduped(h, last);
            assert forall|i: int| 0 <= i < r.len() - 1 implies signature(#[trigger] r[i])
                != signature(r[i + 1]) by {
                assert(r[i + 1] == d[i]);
                if i > 0 {
                    assert(r[i] == d[i - 1]);
                    assert(signature(d[i - 1]) != signature(d[i - 1 + 1]));
                }
            }
        }
    }
}

/// Deduplicating twice is deduplicating once.
pub proof fn law_dedupe_idempotent(h: Seq<MessageView>, last: Seq<char>)
    ensures
        deduped(deduped(h, last), last) == deduped(h, last),
    decreases h.len(),
{
    if h.len() > 0 {
        if signature(h[0]) == last {
            law_dedupe_idempotent(h.skip(1), last);
        } else {
            law_dedupe_idempotent(h.skip(1), signature(h[0]));
            assert(deduped(h, last).skip(1) =~= deduped(h.skip(1), signature(h[0])));
        }
    }
}

/// Deduplicating only leaves messages out: the order of the others stays.
pub proof fn law_dedupe_subsequence(h: Seq<MessageView>, last: Seq<char>)
    ensures
        seqs::is_subsequence(deduped(h, last), h),
    decreases h.len(),
{
    if h.len() > 0 {
        if signature(h[0]) == last {
            law_dedupe_subsequence(h.skip(1), last);
        } else {
            law_dedupe_subsequence(h.skip(1), signature(h[0]));
            assert(deduped(h, last).skip(1) =~= deduped(h.skip(1), signature(h[0])));
        }
    }
}

// ---------------------------------------------------------------------------
// Cutting to a budget
// ---------------------------------------------------------------------------

/// The sum of the last `k` costs.
pub open spec fn sum_last(costs: Seq<usize>, k: int) -> int
    decreases k,
{
    if k <= 0 || k > costs.len() {
        0
    } else {
        sum_last(costs, k - 1) + costs[costs.len() - k]
    }
}

/// The most recent messages that fit into `budget_tokens`, where `costs[i]`
/// is the estimated size of `history[i]`. At least one message is kept unless
/// the budget is zero.
pub fn trim_history_by_token_budget(
    history: &Vec<Message>,
    costs: &Vec<usize>,
    budget_tokens: usize,
) -> (r: Vec<Message>)
    requires
        costs@.len() == history@.len(),
    ensures
        r@.len() <= history@.len(),
        message::views(r@) == message::views(history@).skip(history@.len() - r@.len()),
        r@.len() == 0 <==> history@.len() == 0 || budget_tokens == 0,
        r@.len() > 1 ==> sum_last(costs@, r@.len() as int) <= budget_tokens,
        0 < r@.len() < history@.len() ==> sum_last(costs@, r@.len() as int + 1) > budget_tokens,
{
    let n: usize = history.len();
    if n == 0 || budget_tokens == 0 {
        let r: Vec<Message> = Vec::new();
        proof {
            assert(message::views(r@) =~= message::views(history@).skip(n as int));
        }
        return r;
    }
    let mut kept: usize = 1;
    let mut total: usize = costs[n - 1];
    proof {
        assert(sum_last(costs@, 0) == 0);
    }
    while kept < n && total <= budget_tokens && costs[n - 1 - kept] <= budget_tokens - total
        invariant
            1 <= kept <= n,
            n == history@.len() == costs@.len(),
            total == sum_last(costs@, kept as int),
            kept > 1 ==> total <= budget_tokens,
        decreases n - kept,
    {
        total += costs[n - 1 - kept];
        kept += 1;
    }
    proof {
        if kept < n {
            assert(sum_last(costs@, kept + 1) == total + costs@[n - 1 - kept]);
        }
    }
    let mut r: Vec<Message> = Vec::new();
    let mut i: usize = n - kept;
    while i < n
        invariant
            n - kept <= i <= n,
            n == history@.len(),
            1 <= kept <= n,
            r@.len() == i - (n - kept),
            forall|j: int| 0 <= j < r@.len() ==> (#[trigger] r@[j])@ == history@[n - kept + j]@,
        decreases n - i,
    {
        r.push(history[i].clone());
        i += 1;
    }
    proof {
        assert(message::views(r@) =~= message::views(history@).skip(n - kept));
    }
    r
}

// ---------------------------------------------------------------------------
// Tool results and their calls
// ---------------------------------------------------------------------------

/// Whether one of the tool calls of `m` has this id.
pub open spec fn calls_id(m: MessageView, id: Seq<char>) -> bool {
    &&& m.tool_calls is Some
    &&& exists|i: int|
        0 <= i < m.tool_calls->0.len() && (#[trigger] m.tool_calls->0[i]).id == Some(id)
}

/// The ids that a tool result may answer after an assistant message.
pub open spec fn ids_of(m: MessageView) -> Set<Seq<char>> {
    Set::new(|id: Seq<char>| calls_id(m, id))
}

/// `h` without the tool results that answer none of the ids that are open;
/// `open` holds the ids that are open before the first message.
pub open spec fn paired(h: Seq<MessageView>, open: Set<Seq<char>>) -> Seq<MessageView>
    decreases h.len(),
{
    if h.len() == 0 {
        Seq::empty()
    } else if h[0].has_role("assistant"@) {
        seq![h[0]] + paired(h.skip(1), ids_of(h[0]))
    } else if h[0].has_role("tool"@) {
        if answers(h[0], open) {
            seq![h[0]] + paired(h.skip(1), open)
        } else {
            paired(h.skip(1), open)
        }
    } else if h[0].has_role("user"@) {
        seq![h[0]] + paired(h.skip(1), open)
    } else {
        seq![h[0]] + paired(h.skip(1), Set::empty())
    }
}

/// Whether a tool message carries one of the ids in `open`.
pub open spec fn answers(m: MessageView, open: Set<Seq<char>>) -> bool {
    m.tool_call_id is Some && open.contains(m.tool_call_id->0)
}

/// The ids in a list of strings.
pub open spec fn id_set(ids: Seq<String>) -> Set<Seq<char>> {
    Set::new(|id: Seq<char>| exists|i: int| 0 <= i < ids.len() && (#[trigger] ids[i])@ == id)
}

fn collect_ids(m: &Message) -> (r: Vec<String>)
    ensures
        id_set(r@) == ids_of(m@),
{
    let mut r: Vec<String> = Vec::new();
    match &m.tool_calls {
        Some(calls) => {
            let mut i: usize = 0;
            while i < calls.len()
                invariant
                    0 <= i <= calls@.len(),
                    forall|k: int|
                        0 <= k < r@.len() ==> exists|j: int|
                            0 <= j < i && (#[trigger] calls@[j])@.id == Some((#[trigger] r@[k])@),
                    forall|j: int|
                        0 <= j < i && (#[trigger] calls@[j])@.id is Some ==> exists|k: int|
                            0 <= k < r@.len() && Some((#[trigger] r@[k])@) == calls@[j]@.id,
                decreases calls@.len() - i,
            {
                if let Some(id) = &calls[i].id {
                    let ghost before = r@;
                    r.push(id.clone());
                    proof {
                        assert(r@[before.len() as int]@ == id@);
                        assert(calls@[i as int]@.id == Some(id@));
                        assert forall|k: int| 0 <= k < r@.len() implies exists|j: int|
                            0 <= j < i + 1 && (#[trigger] calls@[j])@.id == Some(
                                (#[trigger] r@[k])@,
                            ) by {
                            if k < before.len() {
                                assert(r@[k] == before[k]);
                            } else {
                                assert(calls@[i as int]@.id == Some(r@[k]@));
                            }
                        }
                        assert forall|j: int|
                            0 <= j < i + 1 && (#[trigger] calls@[j])@.id is Some implies exists|
                            k: int,
                        |
                            0 <= k < r@.len() && Some((#[trigger] r@[k])@) == calls@[j]@.id by {
                            if j < i {
                                let k = choose|k: int|
                                    0 <= k < before.len() && Some((#[trigger] before[k])@)
                                        == calls@[j]@.id;
                                assert(r@[k] == before[k]);
                            } else {
                                assert(Some(r@[before.len() as int]@) == calls@[j]@.id);
                            }
                        }
                    }
                }
                i += 1;
            }
            proof {
                let v = m@.tool_calls->0;
                assert forall|id: Seq<char>| id_set(r@).contains(id) == ids_of(m@).contains(id) by {
                    if id_set(r@).contains(id) {
                        let k = choose|k: int| 0 <= k < r@.len() && (#[trigger] r@[k])@ == id;
                        let j = choose|j: int|
                            0 <= j < calls@.len() && (#[trigger] calls@[j])@.id == Some(r@[k]@);
                        assert(v[j].id == Some(id));
                    }
                    if ids_of(m@).contains(id) {
                        let j = choose|j: int| 0 <= j < v.len() && (#[trigger] v[j]).id == Some(id);
                        assert(calls@[j]@.id is Some);
                    }
                }
                assert(id_set(r@) =~= ids_of(m@));
            }
        },
        None => {
            proof {
                assert(id_set(r@) =~= ids_of(m@));
            }
        },
    }
    r
}

/// Whether an id is among those in a list.
pub fn has_id(ids: &Vec<String>, id: &str) -> (r: bool)
    ensures
        r == id_set(ids@).contains(id@),
{
    let mut i: usize = 0;
    while i < ids.len()
        invariant
            0 <= i <= ids@.len(),
            forall|j: int| 0 <= j < i ==> (#[trigger] ids@[j])@ != id@,
        decreases ids@.len() - i,
    {
        if str_eq(ids[i].as_str(), id) {
            return true;
        }
        i += 1;
    }
    false
}

/// The history without the tool results that no call before them asked for.
/// A user message between results closes nothing, because images of a tool
/// result travel in one; any other message does.
pub fn enforce_tool_call_pairing(history: &Vec<Message>) -> (r: Vec<Message>)
    ensures
        message::views(r@) == paired(message::views(history@), Set::empty()),
{
    let ghost h = message::views(history@);
    let mut cleaned: Vec<Message> = Vec::new();
    let mut expected: Vec<String> = Vec::new();
    let mut i: usize = 0;
    proof {
        assert(h.skip(0) =~= h);
        assert(id_set(expected@) =~= Set::empty());
        assert(message::views(cleaned@) + paired(h, Set::empty()) =~= paired(h, Set::empty()));
    }
    while i < history.len()
        invariant
            0 <= i <= history@.len(),
            h == message::views(history@),
            message::views(cleaned@) + paired(h.skip(i as int), id_set(expected@)) == paired(
                h,
                Set::empty(),
            ),
        decreases history@.len() - i,
    {
        let m = &history[i];
        let ghost rest = h.skip(i as int);
        let ghost before = cleaned@;
        proof {
            assert(rest.skip(1) =~= h.skip(i + 1));
            assert(rest[0] == m@);
        }
        let is_assistant = m.has_role("assistant");
        let is_tool = m.has_role("tool");
        let is_user = m.has_role("user");
        proof {
            reveal_strlit("assistant");
            reveal_strlit("tool");
            reveal_strlit("user");
        }
        let mut keep = true;
        if is_assistant {
            expected = collect_ids(m);
        } else if is_tool {
            keep = match &m.tool_call_id {
                Some(id) => has_id(&expected, id.as_str()),
                None => false,
            };
        } else if !is_user {
            expected = Vec::new();
            proof {
                assert(id_set(expected@) =~= Set::empty());
            }
        }
        if keep {
            let c = m.clone();
            cleaned.push(c);
            proof {
                assert(message::views(cleaned@) =~= message::views(before).push(c@));
                assert(message::views(before) + (seq![c@] + paired(h.skip(i + 1), id_set(expected@)))
                    =~= message::views(cleaned@) + paired(h.skip(i + 1), id_set(expected@)));
            }
        }
        i += 1;
    }
    proof {
        assert(message::views(cleaned@) + paired(h.skip(i as int), id_set(expected@)) =~= message::views(cleaned@));
    }
    cleaned
}

/// Pairing twice is pairing once.
pub proof fn law_pairing_idempotent(h: Seq<MessageView>, open: Set<Seq<char>>)
    ensures
        paired(paired(h, open), open) == paired(h, open),
    decreases h.len(),
{
    if h.len() > 0 {
        let t = h.skip(1);
        let next = next_open(h[0], open);
        law_pairing_idempotent(t, next);
        let dropped = h[0].has_role("tool"@) && !h[0].has_role("assistant"@) && !answers(
            h[0],
            open,
        );
        if !dropped {
            assert(paired(h, open) == seq![h[0]] + paired(t, next));
            assert(paired(h, open).skip(1) =~= paired(t, next));
        }
    }
}

/// The ids that are open after `m`.
pub open spec fn next_open(m: MessageView, open: Set<Seq<char>>) -> Set<Seq<char>> {
    if m.has_role("assistant"@) {
        ids_of(m)
    } else if m.has_role("tool"@) || m.has_role("user"@) {
        open
    } else {
        Set::empty()
    }
}

/// Pairing leaves out tool results only.
pub proof fn law_pairing_keeps_other_messages(h: Seq<MessageView>, open: Set<Seq<char>>)
    ensures
        seqs::select(paired(h, open), |m: MessageView| !m.has_role("tool"@)) == seqs::select(
            h,
            |m: MessageView| !m.has_role("tool"@),
        ),
        seqs::is_subsequence(paired(h, open), h),
    decreases h.len(),
{
    let f = |m: MessageView| !m.has_role("tool"@);
    if h.len() > 0 {
        let t = h.skip(1);
        let next = next_open(h[0], open);
        law_pairing_keeps_other_messages(t, next);
        let dropped = h[0].has_role("tool"@) && !h[0].has_role("assistant"@) && !answers(
            h[0],
            open,
        );
        if !dropped {
            assert(paired(h, open) == seq![h[0]] + paired(t, next));
            assert(paired(h, open).skip(1) =~= paired(t, next));
        }
        assert(seqs::select(paired(h, open), f) =~= seqs::select(h, f));
    }
}

/// Whether the tool message at index `i` answers an assistant message before
/// it, with nothing but tool and user messages between the two.
pub open spec fn answered_before(h: Seq<MessageView>, i: int) -> bool {
    exists|j: int| #[trigger] answer_of(h, i, j)
}

/// Whether the tool message at index `i` answers the assistant message at
/// index `j`.
pub open spec fn answer_of(h: Seq<MessageView>, i: int, j: int) -> bool {
    &&& 0 <= j < i < h.len()
    &&& h[j].has_role("assistant"@)
    &&& h[i].tool_call_id is Some
    &&& calls_id(h[j], h[i].tool_call_id->0)
    &&& forall|k: int| j < k < i ==> (#[trigger] h[k]).has_role("tool"@) || h[k].has_role("user"@)
}

/// Whether the tool message at index `i` answers an id of `open` with nothing
/// but tool and user messages before it.
pub open spec fn answered_by_start(h: Seq<MessageView>, i: int, open: Set<Seq<char>>) -> bool {
    &&& answers(h[i], open)
    &&& forall|k: int| 0 <= k < i ==> (#[trigger] h[k]).has_role("tool"@) || h[k].has_role("user"@)
}

proof fn lemma_pairing_answered(h: Seq<MessageView>, open: Set<Seq<char>>)
    ensures
        forall|i: int|
            0 <= i < paired(h, open).len() && (#[trigger] paired(h, open)[i]).has_role("tool"@)
                ==> answered_before(paired(h, open), i) || answered_by_start(
                paired(h, open),
                i,
                open,
            ),
    decreases h.len(),
{
    reveal_strlit("assistant");
    reveal_strlit("tool");
    reveal_strlit("user");
    if h.len() > 0 {
        let t = h.skip(1);
        let next = next_open(h[0], open);
        lemma_pairing_answered(t, next);
        let p = paired(t, next);
        let r = paired(h, open);
        let dropped = h[0].has_role("tool"@) && !answers(h[0], open);
        assert("assistant"@.len() != "tool"@.len());
        if !dropped {
            assert(r == seq![h[0]] + p);
            assert forall|i: int| 0 <= i < r.len() && (#[trigger] r[i]).has_role(
                "tool"@,
            ) implies answered_before(r, i) || answered_by_start(r, i, open) by {
                if i > 0 {
                    assert(r[i] == p[i - 1]);
                    if answered_before(p, i - 1) {
                        let j = choose|j: int| #[trigger] answer_of(p, i - 1, j);
                        assert(r[j + 1] == p[j]);
                        assert forall|k: int| j + 1 < k < i implies (#[trigger] r[k]).has_role(
                            "tool"@,
                        ) || r[k].has_role("user"@) by {
                            assert(r[k] == p[k - 1]);
                        }
                        assert(answer_of(r, i, j + 1));
                    } else {
                        assert(answered_by_start(p, i - 1, next));
                        assert forall|k: int| 0 < k < i implies (#[trigger] r[k]).has_role("tool"@)
                            || r[k].has_role("user"@) by {
                            assert(r[k] == p[k - 1]);
                        }
                        if h[0].has_role("assistant"@) {
                            assert(calls_id(r[0], r[i].tool_call_id->0));
                            assert(answer_of(r, i, 0));
                        } else {
                            assert(answered_by_start(r, i, open));
                        }
                    }
                } else {
                    assert(answers(r[0], open));
                }
            }
        }
    }
}

/// After pairing, every tool message answers a call of an assistant message
/// before it, with only tool and user messages between the two.
pub proof fn law_no_orphan_tool_result(h: Seq<MessageView>)
    ensures
        forall|i: int|
            0 <= i < paired(h, Set::empty()).len() && (#[trigger] paired(
                h,
                Set::empty(),
            )[i]).has_role("tool"@) ==> answered_before(paired(h, Set::empty()), i),
{
    lemma_pairing_answered(h, Set::empty());
}

/// A history in which every tool result answers a call is left as it is.
pub proof fn law_paired_history_is_kept(h: Seq<MessageView>)
    requires
        forall|i: int|
            0 <= i < h.len() && (#[trigger] h[i]).has_role("tool"@) ==> answered_before(h, i),
    ensures
        paired(h, Set::empty()) == h,
{
    lemma_paired_history(h, Set::empty());
}

proof fn lemma_paired_history(h: Seq<MessageView>, open: Set<Seq<char>>)
    requires
        forall|i: int|
            0 <= i < h.len() && (#[trigger] h[i]).has_role("tool"@) ==> answered_before(h, i)
                || answered_by_start(h, i, open),
    ensures
        paired(h, open) == h,
    decreases h.len(),
{
    if h.len() > 0 {
        let t = h.skip(1);
        let next = next_open(h[0], open);
        reveal_strlit("assistant");
        reveal_strlit("tool");
        reveal_strlit("user");
        assert("assistant"@.len() == 9 && "tool"@.len() == 4 && "user"@.len() == 4);
        assert("tool"@[0] != "user"@[0]);
        assert forall|i: int| 0 <= i < t.len() && (#[trigger] t[i]).has_role(
            "tool"@,
        ) implies answered_before(t, i) || answered_by_start(t, i, next) by {
            assert(h[i + 1] == t[i]);
            if answered_before(h, i + 1) {
                let j = choose|j: int| #[trigger] answer_of(h, i + 1, j);
                if j > 0 {
                    assert forall|k: int| j - 1 < k < i implies (#[trigger] t[k]).has_role("tool"@)
                        || t[k].has_role("user"@) by {
                        assert(h[k + 1] == t[k]);
                    }
                    assert(answer_of(t, i, j - 1));
                } else {
                    assert(calls_id(h[0], t[i].tool_call_id->0));
                    assert(next.contains(t[i].tool_call_id->0));
                    assert forall|k: int| 0 <= k < i implies (#[trigger] t[k]).has_role("tool"@)
                        || t[k].has_role("user"@) by {
                        assert(h[k + 1] == t[k]);
                    }
                }
            } else {
                assert(answered_by_start(h, i + 1, open));
                assert(h[0].has_role("tool"@) || h[0].has_role("user"@));
                assert forall|k: int| 0 <= k < i implies (#[trigger] t[k]).has_role("tool"@)
                    || t[k].has_role("user"@) by {
                    assert(h[k + 1] == t[k]);
                }
            }
        }
        lemma_paired_history(t, next);
        if h[0].has_role("tool"@) {
            assert(answered_by_start(h, 0, open)) by {
                if answered_before(h, 0) {
                    let j = choose|j: int| #[trigger] answer_of(h, 0, j);
                }
            }
        }
        assert(seq![h[0]] + t =~= h);
    } else {
        assert(paired(h, open) =~= h);
    }
}

/// A history in which no message repeats the one before it is left as it is.
pub proof fn law_varied_history_is_kept(h: Seq<MessageView>, last: Seq<char>)
    requires
        h.len() > 0 ==> signature(h[0]) != last,
        forall|i: int|
            0 < i < h.len() ==> signature(#[trigger] h[i]) != signature(h[i - 1]),
    ensures
        deduped(h, last) == h,
    decreases h.len(),
{
    if h.len() > 0 {
        let t = h.skip(1);
        assert(t.len() > 0 ==> t[0] == h[1]);
        assert forall|i: int| 0 < i < t.len() implies signature(#[trigger] t[i]) != signature(
            t[i - 1],
        ) by {
            assert(t[i] == h[i + 1]);
            assert(t[i - 1] == h[i]);
        }
        law_varied_history_is_kept(t, signature(h[0]));
        assert(seq![h[0]] + t =~= h);
    } else {
        assert(deduped(h, last) =~= h);
    }
}

/// Messages that differ in their text alone, in the call that they answer
/// alone, or in their calls alone do not repeat each other.
pub proof fn law_different_messages_do_not_repeat(a: MessageView, b: MessageView)
    requires
        a.role_or_empty() == b.role_or_empty(),
        or_empty(a.name) == or_empty(b.name),
        signature(a) == signature(b),
    ensures
        or_empty(a.tool_call_id) == or_empty(b.tool_call_id) && calls_text(a) == calls_text(b)
            && a.text() is Some && b.text() is Some ==> normalized(a.text()->0) == normalized(
            b.text()->0,
        ),
        a.text() == b.text() && calls_text(a) == calls_text(b) ==> or_empty(a.tool_call_id)
            == or_empty(b.tool_call_id),
        a.text() == b.text() && or_empty(a.tool_call_id) == or_empty(b.tool_call_id)
            ==> calls_text(a) == calls_text(b),
{
    let bar = "|"@;
    let head = a.role_or_empty() + bar + or_empty(a.name) + bar;
    let ta = match a.text() {
        Some(t) => normalized(t),
        None => Seq::empty(),
    };
    let tb = match b.text() {
        Some(t) => normalized(t),
        None => Seq::empty(),
    };
    let (ia, ib) = (or_empty(a.tool_call_id), or_empty(b.tool_call_id));
    let (ca, cb) = (calls_text(a), calls_text(b));
    if ia == ib && ca == cb {
        assert(signature(a) =~= (head + ia + bar) + ta + (bar + ca));
        assert(signature(b) =~= (head + ia + bar) + tb + (bar + ca));
        lemma_same_between(head + ia + bar, ta, tb, bar + ca);
    }
    if ta == tb && ca == cb {
        assert(signature(a) =~= head + ia + (bar + ta + bar + ca));
        assert(signature(b) =~= head + ib + (bar + ta + bar + ca));
        lemma_same_between(head, ia, ib, bar + ta + bar + ca);
    }
    if ta == tb && ia == ib {
        let front = head + ia + bar + ta + bar;
        let none = Seq::<char>::empty();
        assert(signature(a) =~= front + ca + none);
        assert(signature(b) =~= front + cb + none);
        lemma_same_between(front, ca, cb, none);
    }
}

proof fn lemma_same_between(p: Seq<char>, x: Seq<char>, y: Seq<char>, q: Seq<char>)
    requires
        p + x + q == p + y + q,
    ensures
        x == y,
{
    let s = p + x + q;
    assert(s.len() == p.len() + x.len() + q.len());
    assert((p + y + q).len() == p.len() + y.len() + q.len());
    assert(s.subrange(p.len() as int, (p.len() + x.len()) as int) =~= x);
    assert(s.subrange(p.len() as int, (p.len() + y.len()) as int) =~= y);
}

/// A call is sent with its name, its arguments and its id.
pub proof fn law_call_is_sent_whole(c: ToolCallView, id: Seq<char>, name: Seq<char>, args: Seq<char>)
    requires
        c.given is None,
        c.id == Some(id),
        c.name == Some(name),
        c.arguments == Some(args),
    ensures
        call_json(c).get_text("id"@) == Some(id),
        call_json(c).get("function"@) is Some,
        call_json(c).get("function"@)->0.get_text("name"@) == Some(name),
        call_json(c).get("function"@)->0.get_text("arguments"@) == Some(args),
{
    reveal_strlit("function");
    reveal_strlit("id");
    reveal_strlit("type");
    reveal_strlit("arguments");
    reveal_strlit("name");
    assert("function"@.len() == 8 && "id"@.len() == 2 && "type"@.len() == 4 && "arguments"@.len()
        == 9 && "name"@.len() == 4);
    let m = usual_call(c)->Object_0;
    assert(m.len() == 3);
    assert(m[1] == ("id"@, JsonView::Text(id)));
    json::lemma_member_at(m, 0);
    json::lemma_member_at(m, 1);
    let f = m[0].1->Object_0;
    assert(f[0] == ("arguments"@, JsonView::Text(args)));
    assert(f[1] == ("name"@, JsonView::Text(name)));
    json::lemma_member_at(f, 0);
    json::lemma_member_at(f, 1);
}

/// What the newest messages take is the sum of their costs: one more message
/// adds its cost.
pub proof fn law_newest_costs_add_up(costs: Seq<usize>, c: usize, k: int)
    requires
        0 <= k <= costs.len(),
    ensures
        sum_last(costs.push(c), k + 1) == sum_last(costs, k) + c,
        sum_last(costs, 0) == 0,
    decreases k,
{
    let p = costs.push(c);
    if k > 0 {
        law_newest_costs_add_up(costs, c, k - 1);
        assert(p[p.len() - (k + 1)] == costs[costs.len() - k]);
    } else {
        assert(sum_last(p, 0) == 0);
        assert(p[p.len() - 1] == c);
    }
}

} // verus!

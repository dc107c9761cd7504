//! What of a turn goes into the history of a session.

use crate::json;
use crate::json::{hex_of_byte, without_member};
use crate::message;
use crate::message::{Content, ContentView, Message, MessageView, ToolCall, ToolCallView};
use crate::orchestration::history;
use crate::orchestration::history::has_id;
use crate::orchestration::types::TOOL_RESULT_MAX_CHARS;
use crate::prompt::context;
use crate::prompt::context::strip_non_task_user_message;
use crate::seqs;
use crate::text;
use crate::text::{chars_of, str_eq, string_of};
use vstd::prelude::*;

verus! {

// ---------------------------------------------------------------------------
// Ids
// ---------------------------------------------------------------------------

/// The ids that occur in a message: of its calls, and of the call it answers.
pub open spec fn ids_in(m: MessageView) -> Set<Seq<char>> {
    Set::new(|id: Seq<char>| history::calls_id(m, id) || m.tool_call_id == Some(id))
}

/// The ids that occur in a history.
pub open spec fn history_ids(h: Seq<MessageView>) -> Set<Seq<char>>
    decreases h.len(),
{
    if h.len() == 0 {
        Set::empty()
    } else {
        history_ids(h.drop_last()).union(ids_in(h.last()))
    }
}

/// The mark of a turn that was saved at that time: four hexadecimal digits.
pub open spec fn turn_mark(millis: u64) -> Seq<char> {
    let n = millis % 0xffff;
    json::hex_byte((n / 256) as u8) + json::hex_byte((n % 256) as u8)
}

/// The id under which one is kept. One that occurs in the history gets the
/// mark of the turn; whatever carries the id in the turn gets the same.
pub open spec fn marked_id(taken: Set<Seq<char>>, id: Seq<char>, mark: Seq<char>) -> Seq<char> {
    if taken.contains(id) {
        id + "_"@ + mark
    } else {
        id
    }
}

/// The id under which one is kept, where there is one.
pub open spec fn kept_id(
    taken: Set<Seq<char>>,
    id: Option<Seq<char>>,
    mark: Seq<char>,
) -> Option<Seq<char>> {
    match id {
        Some(i) => Some(marked_id(taken, i, mark)),
        None => None,
    }
}

/// A call with the id under which it is kept.
pub open spec fn kept_call(taken: Set<Seq<char>>, c: ToolCallView, mark: Seq<char>) -> ToolCallView {
    match c.id {
        Some(id) => if taken.contains(id) {
            c.with_id(marked_id(taken, id, mark))
        } else {
            c
        },
        None => c,
    }
}

/// Calls with the ids under which they are kept.
pub open spec fn kept_calls(
    taken: Set<Seq<char>>,
    calls: Seq<ToolCallView>,
    mark: Seq<char>,
) -> Seq<ToolCallView> {
    Seq::new(calls.len(), |i: int| kept_call(taken, calls[i], mark))
}

/// A message with the ids under which it is kept, and without the id of its
/// turn.
pub open spec fn kept_message(taken: Set<Seq<char>>, m: MessageView, mark: Seq<char>) -> MessageView {
    MessageView {
        tool_calls: match m.tool_calls {
            Some(c) => Some(kept_calls(taken, c, mark)),
            None => None,
        },
        tool_call_id: kept_id(taken, m.tool_call_id, mark),
        turn_id: None,
        rest: json::without(m.rest, "_turn_id"@),
        ..m
    }
}

// ---------------------------------------------------------------------------
// Entries
// ---------------------------------------------------------------------------

/// A tool result that is not too long.
pub open spec fn short_result(t: Seq<char>) -> Seq<char> {
    if t.len() > TOOL_RESULT_MAX_CHARS {
        t.take(TOOL_RESULT_MAX_CHARS as int) + "\n... (truncated)"@
    } else {
        t
    }
}

/// What of a message is kept: nothing of an assistant message without text
/// and calls, nor of a user message without a task.
pub open spec fn trimmed_message(m: MessageView) -> Option<MessageView> {
    if m.has_role("assistant"@) && m.text() is None && !m.has_calls() {
        None
    } else {
        match m.text() {
            Some(t) => if m.has_role("tool"@) {
                Some(m.with_text(short_result(t)))
            } else if m.has_role("user"@) {
                match context::task_of(t) {
                    Some(task) => Some(m.with_text(task)),
                    None => None,
                }
            } else {
                Some(m)
            },
            None => Some(m),
        }
    }
}

/// A message with a time.
pub open spec fn stamped(m: MessageView, now: Seq<char>) -> MessageView {
    if m.has_timestamp() {
        m
    } else {
        MessageView { timestamp: Some(now), ..m }
    }
}

/// The entry of a message, where it has one.
pub open spec fn entry_of(
    taken: Set<Seq<char>>,
    m: MessageView,
    mark: Seq<char>,
    now: Seq<char>,
) -> Option<MessageView> {
    match trimmed_message(kept_message(taken, m, mark)) {
        Some(e) => Some(stamped(e, now)),
        None => None,
    }
}

/// Whether a message belongs to a turn.
pub open spec fn in_turn(m: MessageView, turn: Seq<char>) -> bool {
    history::or_empty(m.turn_id) == turn
}

/// The entries of the messages of a turn. `taken` are the ids that occur in
/// the history.
pub open spec fn turn_entries(
    taken: Set<Seq<char>>,
    messages: Seq<MessageView>,
    turn: Seq<char>,
    mark: Seq<char>,
    now: Seq<char>,
) -> Seq<MessageView>
    decreases messages.len(),
{
    if messages.len() == 0 {
        Seq::empty()
    } else {
        let before = turn_entries(taken, messages.drop_last(), turn, mark, now);
        if in_turn(messages.last(), turn) {
            match entry_of(taken, messages.last(), mark, now) {
                Some(e) => before.push(e),
                None => before,
            }
        } else {
            before
        }
    }
}

// ---------------------------------------------------------------------------
// Saving
// ---------------------------------------------------------------------------

proof fn lemma_id_push(ids: Seq<String>, id: String)
    ensures
        history::id_set(ids.push(id)) == history::id_set(ids).insert(id@),
{
    let s = ids.push(id);
    let a = history::id_set(s);
    let b = history::id_set(ids).insert(id@);
    assert forall|x: Seq<char>| a.contains(x) == b.contains(x) by {
        if a.contains(x) {
            let i = choose|i: int| 0 <= i < s.len() && (#[trigger] s[i])@ == x;
            if i < ids.len() {
                assert(ids[i]@ == x);
            }
        }
        if history::id_set(ids).contains(x) {
            let i = choose|i: int| 0 <= i < ids.len() && (#[trigger] ids[i])@ == x;
            assert(s[i]@ == x);
        }
        if x == id@ {
            assert(s[ids.len() as int]@ == x);
        }
    }
    assert(a =~= b);
}

fn note_id(seen: &mut Vec<String>, id: &Option<String>)
    ensures
        history::id_set(final(seen)@) == (match *id {
            Some(i) => history::id_set(old(seen)@).insert(i@),
            None => history::id_set(old(seen)@),
        }),
{
    if let Some(i) = id {
        let ghost before = seen@;
        let copy = i.clone();
        seen.push(copy);
        proof {
            lemma_id_push(before, copy);
        }
    }
}

/// The ids that occur in a history.
pub fn collect_history_ids(messages: &Vec<Message>) -> (r: Vec<String>)
    ensures
        history::id_set(r@) == history_ids(message::views(messages@)),
{
    let mut seen: Vec<String> = Vec::new();
    let ghost all = message::views(messages@);
    let mut i: usize = 0;
    proof {
        assert(history::id_set(seen@) =~= history_ids(all.take(0)));
    }
    while i < messages.len()
        invariant
            0 <= i <= messages@.len(),
            all == message::views(messages@),
            history::id_set(seen@) == history_ids(all.take(i as int)),
        decreases messages@.len() - i,
    {
        let m = &messages[i];
        let ghost before = history::id_set(seen@);
        let ghost mut called = Set::<Seq<char>>::empty();
        if let Some(calls) = &m.tool_calls {
            let n: usize = calls.len();
            let mut j: usize = 0;
            proof {
                assert(before.union(called) =~= before);
            }
            while j < n
                invariant
                    0 <= j <= n,
                    n == calls@.len(),
                    history::id_set(seen@) == before.union(called),
                    forall|id: Seq<char>| #[trigger]
                        called.contains(id) <==> exists|k: int|
                            0 <= k < j && (#[trigger] calls@[k])@.id == Some(id),
                decreases n - j,
            {
                let ghost called_before = called;
                note_id(&mut seen, &calls[j].id);
                proof {
                    if let Some(id) = calls@[j as int].id {
                        called = called.insert(id@);
                        assert(before.union(called_before).insert(id@) =~= before.union(called));
                    }
                    assert forall|id: Seq<char>| #[trigger]
                        called.contains(id) <==> exists|k: int|
                            0 <= k < j + 1 && (#[trigger] calls@[k])@.id == Some(id) by {
                        if called.contains(id) {
                            if called_before.contains(id) {
                                let k = choose|k: int|
                                    0 <= k < j && (#[trigger] calls@[k])@.id == Some(id);
                                assert(calls@[k]@.id == Some(id));
                            } else {
                                assert(calls@[j as int]@.id == Some(id));
                            }
                        }
                    }
                }
                j += 1;
            }
            proof {
                assert forall|id: Seq<char>| called.contains(id) == history::calls_id(m@, id) by {
                    let cv = m@.tool_calls->0;
                    if called.contains(id) {
                        let k = choose|k: int| 0 <= k < n && (#[trigger] calls@[k])@.id == Some(id);
                        assert(cv[k].id == Some(id));
                    }
                    if history::calls_id(m@, id) {
                        let k = choose|k: int| 0 <= k < cv.len() && (#[trigger] cv[k]).id == Some(id);
                        assert(calls@[k]@.id == Some(id));
                    }
                }
            }
        } else {
            proof {
                assert(before.union(called) =~= before);
            }
        }
        note_id(&mut seen, &m.tool_call_id);
        proof {
            assert(all.take(i + 1).drop_last() =~= all.take(i as int));
            assert(all.take(i + 1).last() == m@);
            assert(history::id_set(seen@) =~= before.union(ids_in(m@)));
        }
        i += 1;
    }
    proof {
        assert(all.take(i as int) =~= all);
    }
    seen
}

/// The mark of a turn that is saved at that time.
pub fn mark_of(millis: u64) -> (r: String)
    ensures
        r@ == turn_mark(millis),
{
    let n: u64 = millis % 0xffff;
    let mut r = hex_of_byte((n / 256) as u8);
    let low = hex_of_byte((n % 256) as u8);
    r.push_str(low.as_str());
    r
}

/// The id under which one is kept, where there is one.
fn keep_id(taken: &Vec<String>, id: &Option<String>, mark: &str) -> (r: Option<String>)
    ensures
        message::opt_text(r) == kept_id(history::id_set(taken@), message::opt_text(*id), mark@),
{
    match id {
        Some(i) => {
            let mut kept = i.clone();
            if has_id(taken, i.as_str()) {
                kept.push_str("_");
                kept.push_str(mark);
            }
            Some(kept)
        },
        None => None,
    }
}

/// A call with the id under which it is kept.
fn keep_call(taken: &Vec<String>, c: &ToolCall, mark: &str) -> (r: ToolCall)
    ensures
        r@ == kept_call(history::id_set(taken@), c@, mark@),
{
    if let Some(id) = &c.id {
        if has_id(taken, id.as_str()) {
            let mut kept = id.clone();
            kept.push_str("_");
            kept.push_str(mark);
            return c.with_id(kept);
        }
    }
    c.clone()
}

/// Calls with the ids under which they are kept.
fn keep_calls(taken: &Vec<String>, calls: &Vec<ToolCall>, mark: &str) -> (r: Vec<ToolCall>)
    ensures
        message::calls_view(r@) == kept_calls(
            history::id_set(taken@),
            message::calls_view(calls@),
            mark@,
        ),
{
    let ghost all = message::calls_view(calls@);
    let ghost ids = history::id_set(taken@);
    let mut out: Vec<ToolCall> = Vec::new();
    let mut i: usize = 0;
    while i < calls.len()
        invariant
            0 <= i <= calls@.len(),
            out@.len() == i,
            all == message::calls_view(calls@),
            ids == history::id_set(taken@),
            forall|k: int|
                0 <= k < i ==> (#[trigger] out@[k])@ == kept_calls(ids, all, mark@)[k],
        decreases calls@.len() - i,
    {
        let call = keep_call(taken, &calls[i], mark);
        proof {
            assert(all[i as int] == calls@[i as int]@);
            assert(call@ == kept_calls(ids, all, mark@)[i as int]);
        }
        out.push(call);
        i += 1;
    }
    proof {
        assert(message::calls_view(out@) =~= kept_calls(ids, all, mark@));
    }
    out
}

/// A message with the ids under which it is kept.
fn keep_message(taken: &Vec<String>, m: &Message, mark: &str) -> (r: Message)
    ensures
        r@ == kept_message(history::id_set(taken@), m@, mark@),
{
    let calls = match &m.tool_calls {
        Some(c) => Some(keep_calls(taken, c, mark)),
        None => None,
    };
    Message {
        role: message::clone_opt(&m.role),
        content: m.content.clone(),
        tool_calls: calls,
        tool_call_id: keep_id(taken, &m.tool_call_id, mark),
        name: message::clone_opt(&m.name),
        reasoning: message::clone_opt(&m.reasoning),
        timestamp: message::clone_opt(&m.timestamp),
        turn_id: None,
        reset_iterations: m.reset_iterations,
        rest: without_member(&m.rest, "_turn_id"),
    }
}

/// A tool result that is not too long.
fn shorten_result(t: &str) -> (r: String)
    ensures
        r@ == short_result(t@),
{
    let cs = chars_of(t);
    if cs.len() <= TOOL_RESULT_MAX_CHARS {
        return t.to_owned();
    }
    let mut r = string_of(cs.as_slice(), 0, TOOL_RESULT_MAX_CHARS);
    r.push_str("\n... (truncated)");
    r
}

/// What of a message is kept.
pub fn trim_message(m: Message) -> (r: Option<Message>)
    ensures
        r is Some <==> trimmed_message(m@) is Some,
        r matches Some(e) ==> Some(e@) == trimmed_message(m@),
{
    let content = match m.text() {
        Some(t) => Some(t.to_owned()),
        None => None,
    };
    let no_calls = !m.has_calls();
    match content {
        Some(t) => {
            if m.has_role("tool") {
                let short = shorten_result(t.as_str());
                proof {
                    reveal_strlit("tool");
                    reveal_strlit("assistant");
                    assert("tool"@.len() != "assistant"@.len());
                }
                return Some(Message { content: Content::Text(short), ..m });
            }
            if m.has_role("user") {
                return match strip_non_task_user_message(t.as_str()) {
                    Some(task) => Some(Message { content: Content::Text(task), ..m }),
                    None => None,
                };
            }
            Some(m)
        },
        None => if no_calls && m.has_role("assistant") {
            None
        } else {
            Some(m)
        },
    }
}

/// The entries that a turn adds to the history of a session: its messages,
/// without what only the run needed. `history` is what the session holds,
/// `millis` and `now` say when it is saved.
pub fn save_turn(
    history: &Vec<Message>,
    messages: &Vec<Message>,
    turn_id: &str,
    millis: u64,
    now: &str,
) -> (r: Vec<Message>)
    ensures
        message::views(r@) == turn_entries(
            history_ids(message::views(history@)),
            message::views(messages@),
            turn_id@,
            turn_mark(millis),
            now@,
        ),
{
    let mark = mark_of(millis);
    let taken = collect_history_ids(history);
    let ghost start = history_ids(message::views(history@));
    let ghost all = message::views(messages@);
    let mut out: Vec<Message> = Vec::new();
    let mut i: usize = 0;
    proof {
        assert(message::views(out@) =~= turn_entries(start, all.take(0), turn_id@, mark@, now@));
    }
    while i < messages.len()
        invariant
            0 <= i <= messages@.len(),
            all == message::views(messages@),
            message::views(out@) == turn_entries(
                start,
                all.take(i as int),
                turn_id@,
                mark@,
                now@,
            ),
            history::id_set(taken@) == start,
        decreases messages@.len() - i,
    {
        let m = &messages[i];
        let ghost before = out@;
        proof {
            assert(all.take(i + 1).drop_last() =~= all.take(i as int));
            assert(all.take(i + 1).last() == m@);
        }
        let belongs = match &m.turn_id {
            Some(t) => str_eq(t.as_str(), turn_id),
            None => turn_id.is_empty(),
        };
        proof {
            assert(belongs == in_turn(m@, turn_id@)) by {
                if m.turn_id is None {
                    assert(turn_id@.len() == 0 <==> turn_id@ =~= Seq::<char>::empty());
                }
            }
        }
        if belongs {
            let kept = keep_message(&taken, m, mark.as_str());
            if let Some(e) = trim_message(kept) {
                let entry = if e.has_timestamp() {
                    e
                } else {
                    Message { timestamp: Some(now.to_owned()), ..e }
                };
                out.push(entry);
                proof {
                    assert(entry@ == stamped(e@, now@));
                    message::lemma_views_push(before, entry);
                }
            }
        }
        i += 1;
    }
    proof {
        assert(all.take(i as int) =~= all);
    }
    out
}

// ---------------------------------------------------------------------------
// Laws
// ---------------------------------------------------------------------------

/// Every entry has a time and no turn, and no tool result in it is long.
pub proof fn law_entries_are_trimmed(
    taken: Set<Seq<char>>,
    messages: Seq<MessageView>,
    turn: Seq<char>,
    mark: Seq<char>,
    now: Seq<char>,
)
    ensures
        turn_entries(taken, messages, turn, mark, now).len() <= messages.len(),
        forall|i: int|
            0 <= i < turn_entries(taken, messages, turn, mark, now).len() ==> {
                let e = #[trigger] turn_entries(taken, messages, turn, mark, now)[i];
                &&& e.has_timestamp()
                &&& !e.has_turn_id()
                &&& e.has_role("tool"@) ==> e.text_or_empty().len() <= TOOL_RESULT_MAX_CHARS
                    + "\n... (truncated)"@.len()
            },
    decreases messages.len(),
{
    if messages.len() > 0 {
        law_entries_are_trimmed(taken, messages.drop_last(), turn, mark, now);
        json::lemma_without(messages.last().rest, "_turn_id"@);
    }
}

/// Calls whose ids do not occur in the history are kept as they are.
pub proof fn law_new_calls_keep_their_ids(
    taken: Set<Seq<char>>,
    calls: Seq<ToolCallView>,
    mark: Seq<char>,
)
    requires
        forall|i: int|
            0 <= i < calls.len() && (#[trigger] calls[i]).id is Some ==> !taken.contains(
                calls[i].id->0,
            ),
    ensures
        kept_calls(taken, calls, mark) == calls,
{
    assert forall|i: int| 0 <= i < calls.len() implies kept_calls(taken, calls, mark)[i]
        == calls[i] by {
        assert(calls[i].id is Some ==> !taken.contains(calls[i].id->0));
    }
    assert(kept_calls(taken, calls, mark) =~= calls);
}

/// A message that calls an id is kept as one that calls the kept form of it.
proof fn lemma_kept_call(taken: Set<Seq<char>>, m: MessageView, id: Seq<char>, mark: Seq<char>)
    requires
        history::calls_id(m, id),
    ensures
        history::calls_id(kept_message(taken, m, mark), marked_id(taken, id, mark)),
{
    let calls = m.tool_calls->0;
    let k = choose|k: int| 0 <= k < calls.len() && (#[trigger] calls[k]).id == Some(id);
    let kept = kept_calls(taken, calls, mark);
    assert(kept[k].id == Some(marked_id(taken, id, mark)));
}

/// Whether the message at `i` answers a call that an assistant message of the
/// turn made before it.
pub open spec fn answers_call(messages: Seq<MessageView>, turn: Seq<char>, i: int) -> bool {
    exists|j: int|
        0 <= j < i && in_turn(messages[j], turn) && #[trigger] messages[j].has_role("assistant"@)
            && messages[i].tool_call_id is Some && history::calls_id(
            messages[j],
            messages[i].tool_call_id->0,
        )
}

/// An assistant message of a turn that makes calls has its entry.
proof fn lemma_calls_are_kept(
    taken: Set<Seq<char>>,
    messages: Seq<MessageView>,
    turn: Seq<char>,
    mark: Seq<char>,
    now: Seq<char>,
    j: int,
    id: Seq<char>,
)
    requires
        0 <= j < messages.len(),
        in_turn(messages[j], turn),
        messages[j].has_role("assistant"@),
        history::calls_id(messages[j], id),
    ensures
        exists|k: int|
            0 <= k < turn_entries(taken, messages, turn, mark, now).len() && history::calls_id(
                #[trigger] turn_entries(taken, messages, turn, mark, now)[k],
                marked_id(taken, id, mark),
            ),
    decreases messages.len(),
{
    let all = turn_entries(taken, messages, turn, mark, now);
    let p = messages.drop_last();
    let before = turn_entries(taken, p, turn, mark, now);
    if j == messages.len() - 1 {
        let m = messages[j];
        lemma_kept_call(taken, m, id, mark);
        reveal_strlit("assistant");
        reveal_strlit("tool");
        reveal_strlit("user");
        assert("assistant"@.len() != "tool"@.len());
        assert("assistant"@.len() != "user"@.len());
        assert(messages.last() == m);
        assert(history::calls_id(all[before.len() as int], marked_id(taken, id, mark)));
    } else {
        assert(p[j] == messages[j]);
        lemma_calls_are_kept(taken, p, turn, mark, now, j, id);
        let k = choose|k: int|
            0 <= k < before.len() && history::calls_id(
                #[trigger] before[k],
                marked_id(taken, id, mark),
            );
        assert(all[k] == before[k]);
    }
}

/// Whether the id that the entry at `k` answers is called by one before it.
pub open spec fn has_call_before(entries: Seq<MessageView>, k: int) -> bool {
    exists|h: int|
        0 <= h < k && history::calls_id(#[trigger] entries[h], entries[k].tool_call_id->0)
}

/// A result is kept under the id of the call that it answers: where every
/// result of a turn answers a call that was made before it, every kept result
/// has its call among the entries in front of it.
pub proof fn law_results_keep_their_calls(
    taken: Set<Seq<char>>,
    messages: Seq<MessageView>,
    turn: Seq<char>,
    mark: Seq<char>,
    now: Seq<char>,
)
    requires
        forall|i: int|
            0 <= i < messages.len() && in_turn(#[trigger] messages[i], turn)
                && messages[i].tool_call_id is Some ==> answers_call(messages, turn, i),
    ensures
        forall|k: int|
            0 <= k < turn_entries(taken, messages, turn, mark, now).len() && (
            #[trigger] turn_entries(taken, messages, turn, mark, now)[k]).tool_call_id is Some
                ==> has_call_before(turn_entries(taken, messages, turn, mark, now), k),
    decreases messages.len(),
{
    if messages.len() > 0 {
        let all = turn_entries(taken, messages, turn, mark, now);
        let p = messages.drop_last();
        let before = turn_entries(taken, p, turn, mark, now);
        assert forall|i: int|
            0 <= i < p.len() && in_turn(#[trigger] p[i], turn)
                && p[i].tool_call_id is Some implies answers_call(p, turn, i) by {
            assert(p[i] == messages[i]);
            let j = choose|j: int|
                0 <= j < i && in_turn(messages[j], turn) && #[trigger] messages[j].has_role(
                    "assistant"@,
                ) && history::calls_id(messages[j], messages[i].tool_call_id->0);
            assert(p[j] == messages[j]);
            assert(p[j].has_role("assistant"@));
        }
        law_results_keep_their_calls(taken, p, turn, mark, now);
        assert forall|k: int| 0 <= k < all.len() && (#[trigger] all[k]).tool_call_id is Some implies
            has_call_before(all, k) by {
            if k < before.len() {
                assert(all[k] == before[k]);
                assert(has_call_before(before, k));
                let h = choose|h: int|
                    0 <= h < k && history::calls_id(
                        #[trigger] before[h],
                        before[k].tool_call_id->0,
                    );
                assert(all[h] == before[h]);
            } else {
                let n = messages.len() - 1;
                let m = messages[n];
                assert(messages.last() == m);
                assert(m.tool_call_id is Some);
                assert(answers_call(messages, turn, n));
                let id = m.tool_call_id->0;
                let j = choose|j: int|
                    0 <= j < n && in_turn(messages[j], turn) && #[trigger] messages[j].has_role(
                        "assistant"@,
                    ) && history::calls_id(messages[j], id);
                assert(p[j] == messages[j]);
                lemma_calls_are_kept(taken, p, turn, mark, now, j, id);
                let h = choose|h: int|
                    0 <= h < before.len() && history::calls_id(
                        #[trigger] before[h],
                        marked_id(taken, id, mark),
                    );
                assert(all[h] == before[h]);
                assert(all[k].tool_call_id == Some(marked_id(taken, id, mark)));
            }
        }
    }
}

/// The messages of a turn.
pub open spec fn turn_messages(messages: Seq<MessageView>, turn: Seq<char>) -> Seq<MessageView> {
    seqs::select(messages, |m: MessageView| in_turn(m, turn))
}

/// The entries of messages are that of the first, where it has one, and those
/// of the rest.
proof fn lemma_entries_first(
    taken: Set<Seq<char>>,
    messages: Seq<MessageView>,
    turn: Seq<char>,
    mark: Seq<char>,
    now: Seq<char>,
)
    requires
        messages.len() > 0,
    ensures
        turn_entries(taken, messages, turn, mark, now) == turn_entries(
            taken,
            messages.take(1),
            turn,
            mark,
            now,
        ) + turn_entries(taken, messages.skip(1), turn, mark, now),
    decreases messages.len(),
{
    let all = turn_entries(taken, messages, turn, mark, now);
    let first = turn_entries(taken, messages.take(1), turn, mark, now);
    if messages.len() == 1 {
        assert(messages.take(1) =~= messages);
        assert(messages.skip(1) =~= Seq::empty());
        assert(all =~= first + turn_entries(taken, messages.skip(1), turn, mark, now));
    } else {
        let p = messages.drop_last();
        lemma_entries_first(taken, p, turn, mark, now);
        assert(p.take(1) =~= messages.take(1));
        assert(p.skip(1) =~= messages.skip(1).drop_last());
        assert(messages.skip(1).last() == messages.last());
        assert(all =~= first + turn_entries(taken, messages.skip(1), turn, mark, now));
    }
}

proof fn lemma_paired_len(h: Seq<MessageView>, open: Set<Seq<char>>)
    ensures
        history::paired(h, open).len() <= h.len(),
    decreases h.len(),
{
    if h.len() > 0 {
        lemma_paired_len(h.skip(1), open);
        lemma_paired_len(h.skip(1), history::ids_of(h[0]));
        lemma_paired_len(h.skip(1), Set::empty());
    }
}

/// Pairing leaves the entries of messages alone that it leaves alone. `open`
/// and `kept` are the ids that are open in front of the two.
proof fn lemma_entries_stay_paired(
    taken: Set<Seq<char>>,
    messages: Seq<MessageView>,
    turn: Seq<char>,
    mark: Seq<char>,
    now: Seq<char>,
    open: Set<Seq<char>>,
    kept: Set<Seq<char>>,
)
    requires
        history::paired(turn_messages(messages, turn), open) == turn_messages(messages, turn),
        forall|id: Seq<char>| #[trigger]
            open.contains(id) ==> kept.contains(marked_id(taken, id, mark)),
    ensures
        history::paired(turn_entries(taken, messages, turn, mark, now), kept) == turn_entries(
            taken,
            messages,
            turn,
            mark,
            now,
        ),
    decreases messages.len(),
{
    let f = |m: MessageView| in_turn(m, turn);
    let all = turn_entries(taken, messages, turn, mark, now);
    if messages.len() > 0 {
        let m = messages[0];
        let rest = messages.skip(1);
        let rest_entries = turn_entries(taken, rest, turn, mark, now);
        lemma_entries_first(taken, messages, turn, mark, now);
        assert(messages.take(1).last() == m);
        assert(messages.take(1).drop_last() =~= Seq::empty());
        reveal_with_fuel(turn_entries, 2);
        let sel = turn_messages(messages, turn);
        let sel_rest = turn_messages(rest, turn);
        if !f(m) {
            assert(sel =~= sel_rest);
            assert(all =~= rest_entries);
            lemma_entries_stay_paired(taken, rest, turn, mark, now, open, kept);
        } else {
            assert(sel =~= seq![m] + sel_rest);
            assert(sel.skip(1) =~= sel_rest);
            assert(sel[0] == m);
            reveal_strlit("assistant");
            reveal_strlit("tool");
            reveal_strlit("user");
            assert("assistant"@.len() == 9 && "tool"@.len() == 4 && "user"@.len() == 4);
            assert("tool"@[0] == 't' && "user"@[0] == 'u');
            if m.has_role("tool"@) {
                assert(history::answers(m, open)) by {
                    if !history::answers(m, open) {
                        lemma_paired_len(sel_rest, open);
                    }
                }
            }
            let next = history::next_open(m, open);
            assert(history::paired(sel, open) == seq![m] + history::paired(sel_rest, next));
            assert(history::paired(sel_rest, next) =~= sel.skip(1));
            match entry_of(taken, m, mark, now) {
                Some(e) => {
                    assert(turn_entries(taken, messages.take(1), turn, mark, now) =~= seq![e]);
                    assert(all =~= seq![e] + rest_entries);
                    assert(all.skip(1) =~= rest_entries);
                    let next_kept = history::next_open(e, kept);
                    assert(e.role == m.role);
                    assert forall|id: Seq<char>| #[trigger] next.contains(id) implies next_kept.contains(
                        marked_id(taken, id, mark),
                    ) by {
                        if m.has_role("assistant"@) {
                            lemma_kept_call(taken, m, id, mark);
                            assert(history::calls_id(e, marked_id(taken, id, mark)));
                        }
                    }
                    lemma_entries_stay_paired(taken, rest, turn, mark, now, next, next_kept);
                    assert(history::paired(all, kept) =~= seq![e] + rest_entries);
                },
                None => {
                    assert(turn_entries(taken, messages.take(1), turn, mark, now) =~= Seq::empty());
                    assert(all =~= rest_entries);
                    lemma_entries_stay_paired(taken, rest, turn, mark, now, next, kept);
                },
            }
        }
    }
}

/// Where pairing leaves no message of a turn out, it leaves no entry of the
/// turn out either: what is saved of a turn is read back whole.
pub proof fn law_saved_turn_stays_paired(
    taken: Set<Seq<char>>,
    messages: Seq<MessageView>,
    turn: Seq<char>,
    mark: Seq<char>,
    now: Seq<char>,
)
    requires
        history::paired(turn_messages(messages, turn), Set::empty()) == turn_messages(
            messages,
            turn,
        ),
    ensures
        history::paired(turn_entries(taken, messages, turn, mark, now), Set::empty())
            == turn_entries(taken, messages, turn, mark, now),
{
    lemma_entries_stay_paired(taken, messages, turn, mark, now, Set::empty(), Set::empty());
}

// ---------------------------------------------------------------------------
// What is saved of a turn
// ---------------------------------------------------------------------------

/// Holds of the messages that are recorded: those of the turn, but for
/// assistant messages that neither say nor call anything and user messages
/// that hold no task.
pub open spec fn recorded(turn: Seq<char>) -> spec_fn(MessageView) -> bool {
    |m: MessageView|
        m.turn_id == Some(turn) && !(m.role == Some("assistant"@) && m.content !is Text
            && !m.has_calls()) && !(m.role == Some("user"@) && m.content is Text
            && context::task_of(m.content->Text_0) is None)
}

/// Whether an id is kept, but for the mark where the history holds it too.
pub open spec fn same_id(
    taken: Set<Seq<char>>,
    mark: Seq<char>,
    before: Option<Seq<char>>,
    after: Option<Seq<char>>,
) -> bool {
    match before {
        Some(id) => after == Some(
            if taken.contains(id) {
                id + "_"@ + mark
            } else {
                id
            },
        ),
        None => after is None,
    }
}

/// Whether an entry says what a message says: who said it, the calls with
/// their names and arguments, which call it answers, and its text. Of a tool
/// result that is too long only the front is kept, of a user message the task.
pub open spec fn records(
    taken: Set<Seq<char>>,
    mark: Seq<char>,
    now: Seq<char>,
    m: MessageView,
    e: MessageView,
) -> bool {
    &&& e.role == m.role
    &&& e.name == m.name
    &&& e.reasoning == m.reasoning
    &&& e.reset_iterations == m.reset_iterations
    &&& same_id(taken, mark, m.tool_call_id, e.tool_call_id)
    &&& m.tool_calls is Some <==> e.tool_calls is Some
    &&& m.tool_calls matches Some(c) ==> e.tool_calls->0.len() == c.len() && forall|k: int|
        0 <= k < c.len() ==> (#[trigger] e.tool_calls->0[k]).name == c[k].name
            && e.tool_calls->0[k].arguments == c[k].arguments && same_id(
            taken,
            mark,
            c[k].id,
            e.tool_calls->0[k].id,
        )
    &&& m.content !is Text ==> e.content == m.content
    &&& m.content matches ContentView::Text(t) ==> {
        &&& e.content is Text
        &&& m.role == Some("user"@) ==> Some(e.content->Text_0) == context::task_of(t)
        &&& m.role == Some("tool"@) && t.len() <= TOOL_RESULT_MAX_CHARS ==> e.content == m.content
        &&& m.role == Some("tool"@) && t.len() > TOOL_RESULT_MAX_CHARS ==> text::starts_with(
            e.content->Text_0,
            t.take(TOOL_RESULT_MAX_CHARS as int),
        ) && e.content->Text_0.len() > TOOL_RESULT_MAX_CHARS
        &&& m.role != Some("user"@) && m.role != Some("tool"@) ==> e.content == m.content
    }
    &&& m.timestamp is Some ==> e.timestamp == m.timestamp
    &&& !m.has_timestamp() ==> e.timestamp == Some(now)
    &&& e.turn_id is None
}

proof fn lemma_entry_records(
    taken: Set<Seq<char>>,
    m: MessageView,
    turn: Seq<char>,
    mark: Seq<char>,
    now: Seq<char>,
)
    requires
        m.turn_id == Some(turn),
    ensures
        entry_of(taken, m, mark, now) is Some <==> recorded(turn)(m),
        entry_of(taken, m, mark, now) matches Some(e) ==> records(taken, mark, now, m, e),
{
    reveal_strlit("_turn_id");
    reveal_strlit("tool_calls");
    reveal_strlit("timestamp");
    assert("_turn_id"@.len() == 8 && "tool_calls"@.len() == 10 && "timestamp"@.len() == 9);
    json::lemma_without_other(m.rest, "_turn_id"@, "tool_calls"@);
    json::lemma_without_other(m.rest, "_turn_id"@, "timestamp"@);
    reveal_strlit("user");
    reveal_strlit("tool");
    reveal_strlit("assistant");
    assert("user"@[0] != "tool"@[0]);
    assert("user"@.len() == 4 && "tool"@.len() == 4 && "assistant"@.len() == 9);
    let k = kept_message(taken, m, mark);
    assert(k.has_calls() == m.has_calls());
    assert(k.has_timestamp() == m.has_timestamp());
    if let ContentView::Text(t) = m.content {
        if t.len() > TOOL_RESULT_MAX_CHARS {
            let s = short_result(t);
            let p = t.take(TOOL_RESULT_MAX_CHARS as int);
            reveal_strlit("\n... (truncated)");
            assert(s.subrange(0, p.len() as int) =~= p);
        }
    }
}

/// A turn is saved whole: each of its messages that says something has one
/// entry that records it, the entries stand in the order of the messages, and
/// there are no others.
pub proof fn law_turn_is_saved_whole(
    taken: Set<Seq<char>>,
    messages: Seq<MessageView>,
    turn: Seq<char>,
    mark: Seq<char>,
    now: Seq<char>,
)
    requires
        turn.len() > 0,
    ensures
        ({
            let es = turn_entries(taken, messages, turn, mark, now);
            &&& es.len() == seqs::count(messages, recorded(turn))
            &&& forall|j: int|
                0 <= j < messages.len() && recorded(turn)(#[trigger] messages[j]) ==> seqs::count(
                    messages.take(j),
                    recorded(turn),
                ) < es.len() && records(
                    taken,
                    mark,
                    now,
                    messages[j],
                    es[seqs::count(messages.take(j), recorded(turn)) as int],
                )
        }),
    decreases messages.len(),
{
    let es = turn_entries(taken, messages, turn, mark, now);
    if messages.len() > 0 {
        let p = messages.drop_last();
        let last = messages.last();
        law_turn_is_saved_whole(taken, p, turn, mark, now);
        if last.turn_id == Some(turn) {
            lemma_entry_records(taken, last, turn, mark, now);
        }
        let before = turn_entries(taken, p, turn, mark, now);
        assert forall|j: int|
            0 <= j < messages.len() && recorded(turn)(#[trigger] messages[j]) implies seqs::count(
            messages.take(j),
            recorded(turn),
        ) < es.len() && records(
            taken,
            mark,
            now,
            messages[j],
            es[seqs::count(messages.take(j), recorded(turn)) as int],
        ) by {
            if j < p.len() {
                assert(p[j] == messages[j]);
                assert(p.take(j) =~= messages.take(j));
                let n = seqs::count(p.take(j), recorded(turn)) as int;
                assert(es[n] == before[n]);
            } else {
                assert(messages.take(j) =~= p);
            }
        }
    }
}

} // verus!

//! What becomes of the events on their way out: what is printed, what goes to
//! a chat and what a card in it shows.

use crate::channel::dingtalk::ai_card;
use crate::channel::dingtalk::ai_card::{
    register_card, unregister_card, AiCardRegistry, CardReplier,
};
use crate::message;
use crate::orchestration::bus::OutboundEvent;
use crate::text;
use crate::text::{chars_of, str_join, str_starts_with, string_of, until_at};
use vstd::prelude::*;

verus! {

/// A text that goes to a chat.
#[derive(Debug)]
pub struct ChatText {
    /// To whom it goes, in private.
    pub user_id: String,
    /// To which group it goes.
    pub conversation_id: String,
    pub text: String,
}

/// What is done with an event.
#[derive(Debug)]
pub struct Effects {
    /// What the card of the chat shows from now on, and which card that is.
    pub card: Option<(String, String)>,
    /// What goes to the chat.
    pub send: Option<ChatText>,
    /// What is printed, one after the other.
    pub lines: Vec<String>,
}

// ---------------------------------------------------------------------------
// Where an event goes
// ---------------------------------------------------------------------------

/// The channel of an event.
pub open spec fn channel_of(e: OutboundEvent) -> Seq<char> {
    match e {
        OutboundEvent::Progress { channel, .. } => channel@,
        OutboundEvent::Thinking { channel, .. } => channel@,
        OutboundEvent::Tool { channel, .. } => channel@,
        OutboundEvent::Reply { channel, .. } => channel@,
        OutboundEvent::Error { channel, .. } => channel@,
    }
}

/// The chat of an event.
pub open spec fn chat_of(e: OutboundEvent) -> Seq<char> {
    match e {
        OutboundEvent::Progress { chat_id, .. } => chat_id@,
        OutboundEvent::Thinking { chat_id, .. } => chat_id@,
        OutboundEvent::Tool { chat_id, .. } => chat_id@,
        OutboundEvent::Reply { chat_id, .. } => chat_id@,
        OutboundEvent::Error { chat_id, .. } => chat_id@,
    }
}

/// The channel and the chat of an event.
fn address(e: &OutboundEvent) -> (r: (&str, &str))
    ensures
        r.0@ == channel_of(*e),
        r.1@ == chat_of(*e),
{
    match e {
        OutboundEvent::Progress { channel, chat_id, .. } => (channel.as_str(), chat_id.as_str()),
        OutboundEvent::Thinking { channel, chat_id, .. } => (channel.as_str(), chat_id.as_str()),
        OutboundEvent::Tool { channel, chat_id, .. } => (channel.as_str(), chat_id.as_str()),
        OutboundEvent::Reply { channel, chat_id, .. } => (channel.as_str(), chat_id.as_str()),
        OutboundEvent::Error { channel, chat_id, .. } => (channel.as_str(), chat_id.as_str()),
    }
}

/// The conversation and the person that a chat is of: a group and a person in
/// it, apart by a colon, or a person alone.
pub open spec fn parties(chat: Seq<char>) -> (Seq<char>, Seq<char>) {
    let n = text::until(chat, ':') as int;
    if n < chat.len() {
        (chat.take(n), chat.skip(n + 1))
    } else {
        (Seq::empty(), chat)
    }
}

/// The conversation and the person that a chat is of.
pub fn chat_parties(chat: &str) -> (r: (String, String))
    ensures
        (r.0@, r.1@) == parties(chat@),
{
    let cs = chars_of(chat);
    let n: usize = cs.len();
    let at = until_at(cs.as_slice(), ':', 0);
    proof {
        assert(chat@.skip(0) =~= chat@);
        text::lemma_until(chat@, ':');
    }
    if at < n {
        let conversation = string_of(cs.as_slice(), 0, at);
        let user = string_of(cs.as_slice(), at + 1, n);
        proof {
            assert(conversation@ =~= chat@.take(at as int));
            assert(user@ =~= chat@.skip(at + 1));
        }
        (conversation, user)
    } else {
        (String::new(), chat.to_owned())
    }
}

/// The parts of which a chat of a group was made are read back, as long as no
/// conversation id holds a colon; so is a person whose id holds none.
pub proof fn law_parties_are_read_back(conversation: Seq<char>, user: Seq<char>)
    requires
        forall|i: int| 0 <= i < conversation.len() ==> #[trigger] conversation[i] != ':',
    ensures
        parties(conversation + ":"@ + user) == (conversation, user),
        (forall|i: int| 0 <= i < user.len() ==> #[trigger] user[i] != ':') ==> parties(user) == (
            Seq::<char>::empty(),
            user,
        ),
{
    reveal_strlit(":");
    let chat = conversation + ":"@ + user;
    text::lemma_until(chat, ':');
    let n = text::until(chat, ':') as int;
    let k = conversation.len() as int;
    assert(chat[k] == ':');
    if n < k {
        assert(chat[n] == conversation[n]);
    }
    assert(n == k);
    assert(chat.take(n) =~= conversation);
    assert(chat.skip(n + 1) =~= user);
    text::lemma_until(user, ':');
}

// ---------------------------------------------------------------------------
// What is printed
// ---------------------------------------------------------------------------

/// A text in a faint colour.
pub open spec fn faint(s: Seq<char>) -> Seq<char> {
    "\x1b[2m"@ + s + "\x1b[0m"@
}

/// A text in a bright colour.
pub open spec fn bright(s: Seq<char>) -> Seq<char> {
    "\x1b[1;37m"@ + s + "\x1b[0m"@
}

/// A text that tells of a failure.
pub open spec fn alarming(s: Seq<char>) -> Seq<char> {
    "\x1b[2;31m"@ + s + "\x1b[0m"@
}

/// How a line that belongs to a chat begins.
pub open spec fn chat_mark(chat: Seq<char>) -> Seq<char> {
    "[DT:"@ + chat + "]"@
}

/// What is said of a call of a tool.
pub open spec fn tool_line(name: Seq<char>, brief: Seq<char>) -> Seq<char> {
    if brief.len() == 0 {
        name
    } else {
        name + ": "@ + brief
    }
}

/// What is printed of an event of a chat.
pub open spec fn chat_line(e: OutboundEvent) -> Seq<char> {
    let mark = chat_mark(chat_of(e));
    match e {
        OutboundEvent::Thinking { content, .. } => faint(mark + " [Thinking] "@ + content@),
        OutboundEvent::Tool { name, brief, .. } => faint(
            mark + " ▸ "@ + tool_line(name@, brief@),
        ),
        OutboundEvent::Reply { response, .. } => faint(mark) + " "@ + bright(response.text@),
        OutboundEvent::Error { message, .. } => alarming(mark + " Error: "@ + message@),
        OutboundEvent::Progress { message, .. } => faint(mark + " "@ + message@),
    }
}

/// What is printed of a note of progress.
pub open spec fn progress_line(m: Seq<char>) -> Seq<char> {
    if text::starts_with(m, "[Thinking]"@) {
        faint(
            "◆ "@ + (if text::starts_with(m, "[Thinking]\n"@) {
                m.skip("[Thinking]\n"@.len() as int)
            } else {
                m
            }),
        )
    } else if text::starts_with(m, "[dispatch]"@) {
        faint("─── "@ + m + " ───"@)
    } else if text::starts_with(m, "["@) {
        faint(m)
    } else {
        faint("▌ "@ + m)
    }
}

/// What is said of the tools that a run has used; `seconds` is how long it
/// took.
pub open spec fn tools_line(tools: Seq<Seq<char>>, seconds: Seq<char>) -> Seq<char> {
    faint("(tools: "@ + text::join(tools, ", "@) + " | "@ + seconds + "s)"@)
}

/// One line for each file that goes to the user.
pub open spec fn file_lines(files: Seq<Seq<char>>) -> Seq<Seq<char>> {
    Seq::new(files.len(), |i: int| faint("  → "@ + files[i]))
}

/// What is printed of an event that belongs to no chat.
pub open spec fn terminal_lines(e: OutboundEvent, seconds: Seq<char>) -> Seq<Seq<char>> {
    match e {
        OutboundEvent::Progress { message, .. } => seq![progress_line(message@)],
        OutboundEvent::Thinking { content, .. } => seq![faint("◆ "@ + content@)],
        OutboundEvent::Tool { name, brief, .. } => seq![
            faint("  ▸ "@ + tool_line(name@, brief@)),
        ],
        OutboundEvent::Reply { response, .. } => {
            let tools = text::texts(response.tools_used@);
            let files = text::texts(response.output_files@);
            seq![bright("TyClaw.rs>"@) + " "@ + bright(response.text@)] + (if tools.len() > 0 {
                seq![tools_line(tools, seconds)]
            } else {
                Seq::empty()
            }) + (if files.len() > 0 {
                seq![faint("[输出文件]"@)] + file_lines(files)
            } else {
                Seq::empty()
            })
        },
        OutboundEvent::Error { message, .. } => seq![alarming("Error: "@ + message@)],
    }
}

/// Three texts, one after the other.
fn three(a: &str, b: &str, c: &str) -> (r: String)
    ensures
        r@ == a@ + b@ + c@,
{
    let mut r = a.to_owned();
    r.push_str(b);
    r.push_str(c);
    r
}

fn in_faint(s: &str) -> (r: String)
    ensures
        r@ == faint(s@),
{
    three("\x1b[2m", s, "\x1b[0m")
}

fn in_bright(s: &str) -> (r: String)
    ensures
        r@ == bright(s@),
{
    three("\x1b[1;37m", s, "\x1b[0m")
}

fn in_alarm(s: &str) -> (r: String)
    ensures
        r@ == alarming(s@),
{
    three("\x1b[2;31m", s, "\x1b[0m")
}

/// What is said of a call of a tool.
fn describe_tool(name: &str, brief: &str) -> (r: String)
    ensures
        r@ == tool_line(name@, brief@),
{
    if brief.is_empty() {
        name.to_owned()
    } else {
        three(name, ": ", brief)
    }
}

/// What is printed of an event of a chat.
fn print_in_chat(e: &OutboundEvent) -> (r: String)
    ensures
        r@ == chat_line(*e),
{
    let chat = address(e).1;
    let mark = three("[DT:", chat, "]");
    match e {
        OutboundEvent::Thinking { content, .. } => in_faint(
            three(mark.as_str(), " [Thinking] ", content.as_str()).as_str(),
        ),
        OutboundEvent::Tool { name, brief, .. } => {
            let line = describe_tool(name.as_str(), brief.as_str());
            in_faint(three(mark.as_str(), " ▸ ", line.as_str()).as_str())
        },
        OutboundEvent::Reply { response, .. } => {
            let head = in_faint(mark.as_str());
            let body = in_bright(response.text.as_str());
            three(head.as_str(), " ", body.as_str())
        },
        OutboundEvent::Error { message, .. } => in_alarm(
            three(mark.as_str(), " Error: ", message.as_str()).as_str(),
        ),
        OutboundEvent::Progress { message, .. } => in_faint(
            three(mark.as_str(), " ", message.as_str()).as_str(),
        ),
    }
}

/// Two texts, one after the other.
fn two(a: &str, b: &str) -> (r: String)
    ensures
        r@ == a@ + b@,
{
    let mut r = a.to_owned();
    r.push_str(b);
    r
}

/// A text without what it begins with.
fn without_start(s: &str, p: &str) -> (r: Option<String>)
    ensures
        message::opt_text(r) == (if text::starts_with(s@, p@) {
            Some(s@.skip(p@.len() as int))
        } else {
            None
        }),
{
    if !str_starts_with(s, p) {
        return None;
    }
    let cs = chars_of(s);
    let n: usize = cs.len();
    let k: usize = chars_of(p).len();
    let rest = string_of(cs.as_slice(), k, n);
    proof {
        assert(rest@ =~= s@.skip(p@.len() as int));
    }
    Some(rest)
}

/// What is printed of a note of progress.
fn print_progress(m: &str) -> (r: String)
    ensures
        r@ == progress_line(m@),
{
    if str_starts_with(m, "[Thinking]") {
        let content = match without_start(m, "[Thinking]\n") {
            Some(rest) => rest,
            None => m.to_owned(),
        };
        return in_faint(two("◆ ", content.as_str()).as_str());
    }
    if str_starts_with(m, "[dispatch]") {
        return in_faint(three("─── ", m, " ───").as_str());
    }
    if str_starts_with(m, "[") {
        return in_faint(m);
    }
    in_faint(two("▌ ", m).as_str())
}

/// One line for each file that goes to the user.
fn print_files(files: &Vec<String>) -> (r: Vec<String>)
    ensures
        text::texts(r@) == file_lines(text::texts(files@)),
{
    let mut out: Vec<String> = Vec::new();
    let mut i: usize = 0;
    while i < files.len()
        invariant
            0 <= i <= files@.len(),
            out@.len() == i,
            forall|k: int| 0 <= k < i ==> (#[trigger] out@[k])@ == faint("  → "@ + files@[k]@),
        decreases files@.len() - i,
    {
        out.push(in_faint(two("  → ", files[i].as_str()).as_str()));
        i += 1;
    }
    proof {
        assert(text::texts(out@) =~= file_lines(text::texts(files@)));
    }
    out
}

/// What is printed of the tools that a run has used.
pub fn print_tools(tools: &Vec<String>, seconds: &str) -> (r: String)
    ensures
        r@ == tools_line(text::texts(tools@), seconds@),
{
    let names = str_join(tools, ", ");
    let mut line = three("(tools: ", names.as_str(), " | ");
    line.push_str(seconds);
    line.push_str("s)");
    in_faint(line.as_str())
}

/// What is printed of an event that belongs to no chat. `seconds` is how long
/// the run took, to a tenth of a second.
pub fn print_event(e: &OutboundEvent, seconds: &str) -> (r: Vec<String>)
    ensures
        text::texts(r@) == terminal_lines(*e, seconds@),
{
    let mut out: Vec<String> = Vec::new();
    match e {
        OutboundEvent::Progress { message, .. } => out.push(print_progress(message.as_str())),
        OutboundEvent::Thinking { content, .. } => out.push(
            in_faint(two("◆ ", content.as_str()).as_str()),
        ),
        OutboundEvent::Tool { name, brief, .. } => {
            let line = describe_tool(name.as_str(), brief.as_str());
            out.push(in_faint(two("  ▸ ", line.as_str()).as_str()));
        },
        OutboundEvent::Reply { response, .. } => {
            let head = in_bright("TyClaw.rs>");
            let body = in_bright(response.text.as_str());
            out.push(three(head.as_str(), " ", body.as_str()));
            if response.tools_used.len() > 0 {
                out.push(print_tools(&response.tools_used, seconds));
            }
            if response.output_files.len() > 0 {
                out.push(in_faint("[输出文件]"));
                let ghost before = out@;
                let mut files = print_files(&response.output_files);
                let ghost added = files@;
                out.append(&mut files);
                proof {
                    assert(text::texts(out@) =~= text::texts(before) + text::texts(added));
                }
            }
        },
        OutboundEvent::Error { message, .. } => out.push(
            in_alarm(two("Error: ", message.as_str()).as_str()),
        ),
    }
    proof {
        assert(text::texts(out@) =~= terminal_lines(*e, seconds@));
    }
    out
}

// ---------------------------------------------------------------------------
// What goes to a chat
// ---------------------------------------------------------------------------

/// What goes to a chat of an event: replies, and signs of life that are meant
/// for it.
pub open spec fn sent(e: OutboundEvent) -> Option<Seq<char>> {
    match e {
        OutboundEvent::Reply { response, .. } => Some(response.text@),
        OutboundEvent::Progress { message, .. } => if text::starts_with(
            message@,
            "[heartbeat]"@,
        ) {
            Some(message@.skip("[heartbeat]"@.len() as int))
        } else {
            None
        },
        _ => None,
    }
}

/// Whether an event changes the card, and how.
pub open spec fn fed(e: OutboundEvent, before: CardReplier, after: CardReplier) -> bool {
    match e {
        OutboundEvent::Thinking { content, .. } => {
            let line = ai_card::last_line(text::lines(content@));
            if before.state.finalized || line.len() == 0 {
                after == before
            } else {
                &&& after.state.latest_thinking@ == line
                &&& after.state.latest_tool == before.state.latest_tool
                &&& after.same_card(before)
            }
        },
        OutboundEvent::Tool { name, brief, .. } => {
            let line = tool_line(name@, brief@);
            if before.state.finalized || line.len() == 0 {
                after == before
            } else {
                &&& after.state.latest_tool@ == line
                &&& after.state.latest_thinking == before.state.latest_thinking
                &&& after.same_card(before)
            }
        },
        _ => after == before,
    }
}

/// Whether an event gives the card something new to show.
pub open spec fn shows(e: OutboundEvent, card: CardReplier) -> bool {
    !card.state.finalized && (match e {
        OutboundEvent::Thinking { content, .. } => ai_card::last_line(
            text::lines(content@),
        ).len() > 0,
        OutboundEvent::Tool { name, brief, .. } => tool_line(name@, brief@).len() > 0,
        _ => false,
    })
}

/// Tells the card of the chat of an event, and hands back which card shows
/// what from then on.
fn feed_card(e: &OutboundEvent, cards: &mut AiCardRegistry) -> (r: Option<(String, String)>)
    ensures
        ({
            let chat = chat_of(*e);
            let before = old(cards).cards@;
            let after = final(cards).cards@;
            &&& after.dom() == before.dom()
            &&& forall|k: Seq<char>|
                before.contains_key(k) && k != chat ==> #[trigger] after[k] == before[k]
            &&& before.contains_key(chat) ==> fed(*e, before[chat], after[chat])
            &&& match r {
                Some(p) => before.contains_key(chat) && shows(*e, before[chat]) && p.0@
                    == after[chat].out_track_id@ && p.1@ == after[chat].body(),
                None => before.contains_key(chat) ==> !shows(*e, before[chat]),
            }
        }),
{
    let chat = address(e).1;
    let taken = unregister_card(cards, chat);
    match taken {
        None => {
            proof {
                assert(cards.cards@.dom() =~= old(cards).cards@.dom());
            }
            None
        },
        Some(card) => {
            let mut card = card;
            let body = match e {
                OutboundEvent::Thinking { content, .. } => card.feed_thinking(content.as_str()),
                OutboundEvent::Tool { name, brief, .. } => {
                    let line = describe_tool(name.as_str(), brief.as_str());
                    card.feed_tool(line.as_str())
                },
                _ => None,
            };
            let r = match body {
                Some(b) => Some((card.out_track_id.clone(), b)),
                None => None,
            };
            register_card(cards, chat, card);
            proof {
                assert(cards.cards@.dom() =~= old(cards).cards@.dom());
            }
            r
        },
    }
}

/// What is done with an event: one of a DingTalk channel goes to its chat
/// while `dingtalk` says that there is a way there, any other is printed.
pub fn dispatch(
    e: &OutboundEvent,
    dingtalk: bool,
    cards: &mut AiCardRegistry,
    seconds: &str,
) -> (r: Effects)
    ensures
        ({
            let to_chat = dingtalk && text::starts_with(channel_of(*e), "dingtalk"@);
            let chat = chat_of(*e);
            let before = old(cards).cards@;
            let after = final(cards).cards@;
            &&& text::texts(r.lines@) == (if to_chat {
                seq![chat_line(*e)]
            } else {
                terminal_lines(*e, seconds@)
            })
            &&& match r.send {
                Some(s) => to_chat && sent(*e) == Some(s.text@) && (s.conversation_id@, s.user_id@)
                    == parties(chat),
                None => to_chat ==> sent(*e) is None,
            }
            &&& !to_chat ==> r.card is None && *final(cards) == *old(cards)
            &&& to_chat ==> {
                &&& after.dom() == before.dom()
                &&& forall|k: Seq<char>|
                    before.contains_key(k) && k != chat ==> #[trigger] after[k] == before[k]
                &&& before.contains_key(chat) ==> fed(*e, before[chat], after[chat])
                &&& match r.card {
                    Some(p) => before.contains_key(chat) && shows(*e, before[chat]) && p.0@
                        == after[chat].out_track_id@ && p.1@ == after[chat].body(),
                    None => before.contains_key(chat) ==> !shows(*e, before[chat]),
                }
            }
        }),
{
    let (channel, chat) = address(e);
    if !(dingtalk && str_starts_with(channel, "dingtalk")) {
        return Effects { card: None, send: None, lines: print_event(e, seconds) };
    }
    let card = feed_card(e, cards);
    let text = match e {
        OutboundEvent::Reply { response, .. } => Some(response.text.clone()),
        OutboundEvent::Progress { message, .. } => without_start(message.as_str(), "[heartbeat]"),
        _ => None,
    };
    let send = match text {
        Some(text) => {
            let (conversation_id, user_id) = chat_parties(chat);
            Some(ChatText { user_id, conversation_id, text })
        },
        None => None,
    };
    let mut lines: Vec<String> = Vec::new();
    lines.push(print_in_chat(e));
    proof {
        assert(text::texts(lines@) =~= seq![chat_line(*e)]);
    }
    Effects { card, send, lines }
}

/// A finished card shows the same whatever comes.
pub proof fn law_finished_card_is_left_alone(
    e: OutboundEvent,
    before: CardReplier,
    after: CardReplier,
)
    requires
        before.state.finalized,
        fed(e, before, after),
    ensures
        after == before,
        !shows(e, before),
{
}

proof fn lemma_faint_holds(t: Seq<char>, p: Seq<char>)
    requires
        text::contains(t, p),
    ensures
        text::contains(faint(t), p),
        text::contains(bright(t), p),
        text::contains(alarming(t), p),
{
    assert(text::contains(faint(t), p)) by {
        text::lemma_contains_part("\x1b[2m"@, t, "\x1b[0m"@);
        text::lemma_contains_within(faint(t), t, p);
    }
    assert(text::contains(bright(t), p)) by {
        text::lemma_contains_part("\x1b[1;37m"@, t, "\x1b[0m"@);
        text::lemma_contains_within(bright(t), t, p);
    }
    assert(text::contains(alarming(t), p)) by {
        text::lemma_contains_part("\x1b[2;31m"@, t, "\x1b[0m"@);
        text::lemma_contains_within(alarming(t), t, p);
    }
}

proof fn lemma_end_is_held(a: Seq<char>, p: Seq<char>)
    ensures
        text::contains(a + p, p),
{
    let none = Seq::<char>::empty();
    assert(a + p =~= a + p + none);
    text::lemma_contains_part(a, p, none);
}

proof fn lemma_front_is_held(p: Seq<char>, b: Seq<char>)
    ensures
        text::contains(p + b, p),
{
    let none = Seq::<char>::empty();
    assert(p + b =~= none + p + b);
    text::lemma_contains_part(none, p, b);
}

/// What is printed of an event of a chat holds what the event says.
pub proof fn law_chat_line_tells_the_event(e: OutboundEvent)
    ensures
        match e {
            OutboundEvent::Thinking { content, .. } => text::contains(chat_line(e), content@),
            OutboundEvent::Tool { name, brief, .. } => text::contains(chat_line(e), name@)
                && text::contains(chat_line(e), brief@),
            OutboundEvent::Reply { response, .. } => text::contains(chat_line(e), response.text@),
            OutboundEvent::Error { message, .. } => text::contains(chat_line(e), message@),
            OutboundEvent::Progress { message, .. } => text::contains(chat_line(e), message@),
        },
{
    let mark = chat_mark(chat_of(e));
    match e {
        OutboundEvent::Thinking { content, .. } => {
            lemma_end_is_held(mark + " [Thinking] "@, content@);
            lemma_faint_holds(mark + " [Thinking] "@ + content@, content@);
        },
        OutboundEvent::Tool { name, brief, .. } => {
            let line = tool_line(name@, brief@);
            let whole = mark + " ▸ "@ + line;
            lemma_tool_line(name@, brief@);
            lemma_end_is_held(mark + " ▸ "@, line);
            text::lemma_contains_within(whole, line, name@);
            text::lemma_contains_within(whole, line, brief@);
            lemma_faint_holds(whole, name@);
            lemma_faint_holds(whole, brief@);
        },
        OutboundEvent::Reply { response, .. } => {
            let t = response.text@;
            let head = faint(mark) + " "@;
            text::lemma_contains_part("\x1b[1;37m"@, t, "\x1b[0m"@);
            lemma_end_is_held(head, bright(t));
            text::lemma_contains_within(head + bright(t), bright(t), t);
        },
        OutboundEvent::Error { message, .. } => {
            lemma_end_is_held(mark + " Error: "@, message@);
            lemma_faint_holds(mark + " Error: "@ + message@, message@);
        },
        OutboundEvent::Progress { message, .. } => {
            lemma_end_is_held(mark + " "@, message@);
            lemma_faint_holds(mark + " "@ + message@, message@);
        },
    }
}

proof fn lemma_tool_line(name: Seq<char>, brief: Seq<char>)
    ensures
        text::contains(tool_line(name, brief), name),
        text::contains(tool_line(name, brief), brief),
{
    let t = tool_line(name, brief);
    let none = Seq::<char>::empty();
    if brief.len() == 0 {
        assert(brief =~= none);
        assert(t =~= none + name);
        lemma_end_is_held(none, name);
        assert(t =~= name + none);
        lemma_end_is_held(name, none);
    } else {
        lemma_end_is_held(name + ": "@, brief);
        assert(t =~= name + (": "@ + brief));
        lemma_front_is_held(name, ": "@ + brief);
    }
}

/// A reply is printed with its text, the tools that were used and the files
/// that go to the user.
pub proof fn law_reply_is_printed(e: OutboundEvent, seconds: Seq<char>, i: int, k: int)
    requires
        e is Reply,
        0 <= i < e->response.tools_used@.len(),
        0 <= k < e->response.output_files@.len(),
    ensures
        ({
            let lines = terminal_lines(e, seconds);
            let r = e->response;
            &&& lines.len() == 3 + r.output_files@.len()
            &&& text::contains(lines[0], r.text@)
            &&& text::contains(lines[1], r.tools_used@[i]@)
            &&& text::contains(lines[3 + k], r.output_files@[k]@)
        }),
{
    let r = e->response;
    let lines = terminal_lines(e, seconds);
    let tools = text::texts(r.tools_used@);
    let files = text::texts(r.output_files@);
    assert(lines[0] == bright("TyClaw.rs>"@) + " "@ + bright(r.text@));
    assert(lines[1] == tools_line(tools, seconds));
    assert(lines[3 + k] == faint("  → "@ + files[k]));
    assert(text::contains(lines[0], r.text@)) by {
        text::lemma_contains_part("\x1b[1;37m"@, r.text@, "\x1b[0m"@);
        lemma_end_is_held(bright("TyClaw.rs>"@) + " "@, bright(r.text@));
        text::lemma_contains_within(lines[0], bright(r.text@), r.text@);
    }
    assert(text::contains(lines[1], tools[i])) by {
        let j = text::join(tools, ", "@);
        let b = " | "@ + seconds + "s)"@;
        let whole = "(tools: "@ + j + " | "@ + seconds + "s)"@;
        assert(whole =~= "(tools: "@ + j + b);
        text::lemma_contains_part("(tools: "@, j, b);
        text::law_joined_text_holds_every_part(tools, ", "@, i);
        text::lemma_contains_within(whole, j, tools[i]);
        lemma_faint_holds(whole, tools[i]);
    }
    assert(text::contains(lines[3 + k], files[k])) by {
        lemma_end_is_held("  → "@, files[k]);
        lemma_faint_holds("  → "@ + files[k], files[k]);
    }
}

/// What is not a reply is printed in one line that holds what it says.
pub proof fn law_other_events_are_printed(e: OutboundEvent, seconds: Seq<char>)
    ensures
        match e {
            OutboundEvent::Thinking { content, .. } => terminal_lines(e, seconds).len() == 1
                && text::contains(terminal_lines(e, seconds)[0], content@),
            OutboundEvent::Tool { name, brief, .. } => terminal_lines(e, seconds).len() == 1
                && text::contains(terminal_lines(e, seconds)[0], name@) && text::contains(
                terminal_lines(e, seconds)[0],
                brief@,
            ),
            OutboundEvent::Error { message, .. } => terminal_lines(e, seconds).len() == 1
                && text::contains(terminal_lines(e, seconds)[0], message@),
            OutboundEvent::Progress { message, .. } => terminal_lines(e, seconds).len() == 1 && (
            !text::starts_with(message@, "[Thinking]\n"@) ==> text::contains(
                terminal_lines(e, seconds)[0],
                message@,
            )),
            OutboundEvent::Reply { .. } => true,
        },
{
    match e {
        OutboundEvent::Thinking { content, .. } => {
            lemma_end_is_held("◆ "@, content@);
            lemma_faint_holds("◆ "@ + content@, content@);
        },
        OutboundEvent::Tool { name, brief, .. } => {
            let line = tool_line(name@, brief@);
            let whole = "  ▸ "@ + line;
            lemma_tool_line(name@, brief@);
            lemma_end_is_held("  ▸ "@, line);
            text::lemma_contains_within(whole, line, name@);
            text::lemma_contains_within(whole, line, brief@);
            lemma_faint_holds(whole, name@);
            lemma_faint_holds(whole, brief@);
        },
        OutboundEvent::Error { message, .. } => {
            lemma_end_is_held("Error: "@, message@);
            lemma_faint_holds("Error: "@ + message@, message@);
        },
        OutboundEvent::Progress { message, .. } => {
            let m = message@;
            assert(text::contains(faint("◆ "@ + m), m)) by {
                lemma_end_is_held("◆ "@, m);
                lemma_faint_holds("◆ "@ + m, m);
            }
            assert(text::contains(faint("─── "@ + m + " ───"@), m)) by {
                text::lemma_contains_part("─── "@, m, " ───"@);
                lemma_faint_holds("─── "@ + m + " ───"@, m);
            }
            assert(text::contains(faint(m), m)) by {
                text::lemma_contains_part("\x1b[2m"@, m, "\x1b[0m"@);
            }
            assert(text::contains(faint("▌ "@ + m), m)) by {
                lemma_end_is_held("▌ "@, m);
                lemma_faint_holds("▌ "@ + m, m);
            }
        },
        OutboundEvent::Reply { .. } => {},
    }
}

/// What an event says of a call of a tool, and the last line of what the agent
/// thinks, are what the card of its chat holds from then on.
pub proof fn law_card_follows_the_events(e: OutboundEvent, before: CardReplier, after: CardReplier)
    requires
        fed(e, before, after),
        !before.state.finalized,
    ensures
        after.out_track_id == before.out_track_id,
        after.header == before.header,
        match e {
            OutboundEvent::Tool { name, brief, .. } => name@.len() > 0 ==> text::contains(
                after.state.latest_tool@,
                name@,
            ) && text::contains(after.state.latest_tool@, brief@) && after.state.latest_thinking
                == before.state.latest_thinking,
            OutboundEvent::Thinking { .. } => after.state.latest_tool == before.state.latest_tool,
            _ => after == before,
        },
{
    if let OutboundEvent::Tool { name, brief, .. } = e {
        lemma_tool_line(name@, brief@);
    }
}

/// A reply is sent as it is, a sign of life without its mark, and nothing
/// else is.
pub proof fn law_replies_are_sent_whole(e: OutboundEvent, t: Seq<char>)
    ensures
        e matches OutboundEvent::Reply { response, .. } ==> sent(e) == Some(response.text@),
        e matches OutboundEvent::Progress { message, .. } ==> (message@ == "[heartbeat]"@ + t
            ==> sent(e) == Some(t)),
        e is Thinking || e is Tool || e is Error ==> sent(e) is None,
{
    if let OutboundEvent::Progress { message, .. } = e {
        let h = "[heartbeat]"@;
        if message@ == h + t {
            assert((h + t).subrange(0, h.len() as int) =~= h);
            assert((h + t).skip(h.len() as int) =~= t);
        }
    }
}

} // verus!

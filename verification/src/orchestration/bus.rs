//! Messages between the channels and the orchestrator.

use crate::message;
use crate::orchestration::types::{AgentResponse, RequestContext};
use crate::text;
use crate::text::{chars_of, str_starts_with, string_of};
use vstd::prelude::*;

verus! {

/// A message from a channel or a timer.
#[derive(Debug)]
pub struct InboundMessage {
    pub content: String,
    pub user_id: String,
    pub user_name: String,
    pub workspace_id: String,
    pub channel: String,
    pub chat_id: String,
    pub conversation_id: Option<String>,
    pub images: Vec<String>,
    /// Where each file is, and its name.
    pub files: Vec<(String, String)>,
    /// Whether the sender waits for the reply.
    pub awaits_reply: bool,
    /// Whether a timer has sent it.
    pub is_timer: bool,
    /// The message and the conversation in which signs of life are shown.
    pub emotion_context: Option<(String, String)>,
}

/// Something that goes to a channel.
#[derive(Debug)]
pub enum OutboundEvent {
    Progress {
        channel: String,
        chat_id: String,
        message: String,
        emotion_context: Option<(String, String)>,
    },
    Thinking { channel: String, chat_id: String, content: String },
    Tool { channel: String, chat_id: String, name: String, brief: String },
    Reply { channel: String, chat_id: String, response: AgentResponse },
    Error { channel: String, chat_id: String, message: String },
}

/// The request that a message is, and its text.
pub fn to_request(msg: InboundMessage) -> (r: (String, RequestContext))
    ensures
        r.0 == msg.content,
        r.1 == (RequestContext {
            user_id: msg.user_id,
            user_name: msg.user_name,
            workspace_id: msg.workspace_id,
            channel: msg.channel,
            chat_id: msg.chat_id,
            conversation_id: msg.conversation_id,
            image_data_uris: msg.images,
            file_attachments: msg.files,
        }),
{
    (
        msg.content,
        RequestContext {
            user_id: msg.user_id,
            user_name: msg.user_name,
            workspace_id: msg.workspace_id,
            channel: msg.channel,
            chat_id: msg.chat_id,
            conversation_id: msg.conversation_id,
            image_data_uris: msg.images,
            file_attachments: msg.files,
        },
    )
}

/// What the agent thinks, if a note of its progress is that.
pub open spec fn thought_in(t: Seq<char>) -> Option<Seq<char>> {
    if text::starts_with(t, "[Thinking]\n"@) {
        Some(t.skip("[Thinking]\n"@.len() as int))
    } else if text::starts_with(t, "[Thinking]"@) {
        Some(t.skip("[Thinking]"@.len() as int))
    } else {
        None
    }
}

/// What the agent thinks, if a note of its progress is that.
fn thought(t: &str) -> (r: Option<String>)
    ensures
        message::opt_text(r) == thought_in(t@),
{
    let cs = chars_of(t);
    let n: usize = cs.len();
    if str_starts_with(t, "[Thinking]\n") {
        let p = chars_of("[Thinking]\n");
        let rest = string_of(cs.as_slice(), p.len(), n);
        proof {
            assert(rest@ =~= t@.skip("[Thinking]\n"@.len() as int));
        }
        return Some(rest);
    }
    if str_starts_with(t, "[Thinking]") {
        let p = chars_of("[Thinking]");
        let rest = string_of(cs.as_slice(), p.len(), n);
        proof {
            assert(rest@ =~= t@.skip("[Thinking]"@.len() as int));
        }
        return Some(rest);
    }
    None
}

/// What goes to the channel for a note of progress.
pub fn progress_event(
    note: &str,
    channel: &str,
    chat_id: &str,
    emotion_context: Option<(String, String)>,
) -> (r: OutboundEvent)
    ensures
        match thought_in(note@) {
            Some(t) => r matches OutboundEvent::Thinking { channel: c, chat_id: i, content }
                && c@ == channel@ && i@ == chat_id@ && content@ == t,
            None => r matches OutboundEvent::Progress {
                channel: c,
                chat_id: i,
                message,
                emotion_context: e,
            } && c@ == channel@ && i@ == chat_id@ && message@ == note@ && e == emotion_context,
        },
{
    match thought(note) {
        Some(content) => OutboundEvent::Thinking {
            channel: channel.to_owned(),
            chat_id: chat_id.to_owned(),
            content,
        },
        None => OutboundEvent::Progress {
            channel: channel.to_owned(),
            chat_id: chat_id.to_owned(),
            message: note.to_owned(),
            emotion_context,
        },
    }
}

/// What goes to the channel for the outcome of a request.
pub fn outcome_event(
    outcome: Result<AgentResponse, String>,
    channel: &str,
    chat_id: &str,
) -> (r: OutboundEvent)
    ensures
        match outcome {
            Ok(response) => r matches OutboundEvent::Reply { channel: c, chat_id: i, response: p }
                && c@ == channel@ && i@ == chat_id@ && p == response,
            Err(e) => r matches OutboundEvent::Error { channel: c, chat_id: i, message }
                && c@ == channel@ && i@ == chat_id@ && message == e,
        },
{
    match outcome {
        Ok(response) => OutboundEvent::Reply {
            channel: channel.to_owned(),
            chat_id: chat_id.to_owned(),
            response,
        },
        Err(message) => OutboundEvent::Error {
            channel: channel.to_owned(),
            chat_id: chat_id.to_owned(),
            message,
        },
    }
}

/// A note that is marked as a thought is one, and the thought is what stands
/// behind the mark; any other note is none.
pub proof fn law_thoughts_are_recognised(t: Seq<char>)
    ensures
        thought_in("[Thinking]\n"@ + t) == Some(t),
        (t.len() == 0 || t[0] != '[') ==> thought_in(t) is None,
{
    reveal_strlit("[Thinking]\n");
    reveal_strlit("[Thinking]");
    let m = "[Thinking]\n"@;
    let s = m + t;
    assert(s.subrange(0, m.len() as int) =~= m);
    assert(s.skip(m.len() as int) =~= t);
    if t.len() > 0 {
        if text::starts_with(t, m) {
            assert(t.subrange(0, m.len() as int)[0] == t[0]);
        }
        if text::starts_with(t, "[Thinking]"@) {
            assert(t.subrange(0, "[Thinking]"@.len() as int)[0] == t[0]);
        }
    }
}

} // verus!

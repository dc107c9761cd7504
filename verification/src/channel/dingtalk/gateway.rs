//! Taking messages from the gateway.

use crate::channel::dingtalk::message::CallbackMessage;
use crate::json;
use crate::json::{parse, Json};
use crate::text::str_eq;
use vstd::prelude::*;

verus! {

/// What is sent to the gateway at the start.
pub const REGISTER: &'static str = "{\"type\":\"register\",\"label\":\"rust\"}";

/// What is sent to the gateway as a sign of life.
pub const HEARTBEAT: &'static str = "{\"type\":\"heartbeat\"}";

/// A message as the gateway sends it.
#[derive(Debug)]
pub struct GatewayEnvelope {
    pub msg_type: String,
    pub message_id: String,
    pub conversation_id: String,
    pub sender_id: String,
    /// The message as it came to the gateway.
    pub data: String,
}

/// The callback in a message of the gateway, given what its data denotes.
pub fn callback_with(envelope: &GatewayEnvelope, value: Option<Json>) -> (r: Option<CallbackMessage>)
    ensures
        r is Some <==> envelope.msg_type@ == "message"@ && value is Some,
        r matches Some(c) ==> c.headers@.len() == 0 && c.data == value->0,
{
    if !str_eq(envelope.msg_type.as_str(), "message") {
        return None;
    }
    match value {
        Some(data) => Some(CallbackMessage { headers: Vec::new(), data }),
        None => None,
    }
}

/// The callback in a message of the gateway, where it holds one.
pub fn handle_text(envelope: &GatewayEnvelope) -> (r: Option<CallbackMessage>)
    ensures
        r is Some <==> envelope.msg_type@ == "message"@ && json::parsed(envelope.data@) is Some,
        r matches Some(c) ==> c.headers@.len() == 0 && Some(c.data@) == json::parsed(
            envelope.data@,
        ),
{
    let v = parse(envelope.data.as_str());
    callback_with(envelope, v)
}

/// How many seconds pass before the first attempt to connect again.
pub const FIRST_RETRY_DELAY: u64 = 3;

/// How many seconds pass before the next attempt: twice as many, but no more
/// than ten.
pub fn next_retry_delay(delay: u64) -> (r: u64)
    ensures
        r == (if delay * 2 < 10 {
            delay * 2
        } else {
            10
        }),
{
    if delay < 5 {
        delay * 2
    } else {
        10
    }
}

} // verus!

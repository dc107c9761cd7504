//! What comes in: frames, what is answered to them, and the messages in them.

use crate::json;
use crate::json::{parse, Json, JsonView};
use crate::message;
use crate::text;
use vstd::prelude::*;

verus! {

/// A frame that has come in.
#[derive(Debug)]
pub struct StreamFrame {
    pub spec_version: Option<String>,
    pub frame_type: Option<String>,
    pub headers: Option<Json>,
    pub data: Option<String>,
}

/// A message that has come in.
#[derive(Debug)]
pub struct IncomingMessage {
    /// The message as it came.
    pub data: String,
    pub message_id: String,
    pub conversation_id: String,
    /// The sender, by whom an instance is chosen.
    pub sender_id: String,
    /// The number of the connection on which it came.
    pub conn_id: usize,
    /// What kind of message it is.
    pub topic: String,
}

/// A text in the headers of a frame; empty where there is none.
pub open spec fn header_of(headers: Option<Json>, key: Seq<char>) -> Seq<char> {
    match headers {
        Some(h) => match h@.get_text(key) {
            Some(t) => t,
            None => Seq::empty(),
        },
        None => Seq::empty(),
    }
}

/// A text in the headers of a frame; empty where there is none.
fn header(headers: &Option<Json>, key: &str) -> (r: String)
    ensures
        r@ == header_of(*headers, key@),
{
    proof {
        text::lemma_empty_literal();
    }
    match headers {
        Some(h) => match h.get_text(key) {
            Some(t) => t.to_owned(),
            None => String::new(),
        },
        None => String::new(),
    }
}

impl StreamFrame {
    /// The id of the message in a frame.
    pub fn message_id(&self) -> (r: String)
        ensures
            r@ == header_of(self.headers, "messageId"@),
    {
        header(&self.headers, "messageId")
    }
}

/// The answer to a frame with that message.
pub open spec fn ack_json(message_id: Seq<char>) -> JsonView {
    JsonView::Object(
        seq![
            ("code"@, JsonView::Number("200"@)),
            (
                "headers"@,
                JsonView::Object(
                    seq![
                        ("contentType"@, JsonView::Text("application/json"@)),
                        ("messageId"@, JsonView::Text(message_id)),
                    ],
                ),
            ),
            ("message"@, JsonView::Text("OK"@)),
            ("data"@, JsonView::Text("{}"@)),
        ],
    )
}

/// The answer to a frame with that message.
pub fn ack_text(message_id: &str) -> (r: String)
    ensures
        r@ == json::json_text(ack_json(message_id@)),
{
    let mut h: Vec<(String, Json)> = Vec::new();
    h.push(("contentType".to_owned(), Json::Text("application/json".to_owned())));
    h.push(("messageId".to_owned(), Json::Text(message_id.to_owned())));
    let mut m: Vec<(String, Json)> = Vec::new();
    proof {
        json::lemma_members_view(h@);
        assert(json::members_view(h@) =~= seq![
            ("contentType"@, JsonView::Text("application/json"@)),
            ("messageId"@, JsonView::Text(message_id@)),
        ]);
    }
    m.push(("code".to_owned(), Json::Number("200".to_owned())));
    m.push(("headers".to_owned(), Json::Object(h)));
    m.push(("message".to_owned(), Json::Text("OK".to_owned())));
    m.push(("data".to_owned(), Json::Text("{}".to_owned())));
    proof {
        json::lemma_members_view(m@);
        assert(json::members_view(m@) =~= ack_json(message_id@)->Object_0);
    }
    let v = Json::Object(m);
    v.render()
}

/// A text in a message; empty where there is none.
pub open spec fn field_of(v: Option<JsonView>, key: Seq<char>) -> Seq<char> {
    match v {
        Some(j) => match j.get_text(key) {
            Some(t) => t,
            None => Seq::empty(),
        },
        None => Seq::empty(),
    }
}

/// The sender of a message: the first of three fields that is there counts,
/// and is empty where it is no text.
pub open spec fn sender_of(v: Option<JsonView>) -> Seq<char> {
    match v {
        Some(j) => if j.get("senderStaffId"@) is Some {
            field_of(v, "senderStaffId"@)
        } else if j.get("senderId"@) is Some {
            field_of(v, "senderId"@)
        } else {
            field_of(v, "userId"@)
        },
        None => Seq::empty(),
    }
}

fn field(v: &Option<Json>, key: &str) -> (r: String)
    ensures
        r@ == field_of(
            match *v {
                Some(j) => Some(j@),
                None => None,
            },
            key@,
        ),
{
    proof {
        text::lemma_empty_literal();
    }
    match v {
        Some(j) => match j.get_text(key) {
            Some(t) => t.to_owned(),
            None => String::new(),
        },
        None => String::new(),
    }
}

fn has_field(v: &Option<Json>, key: &str) -> (r: bool)
    ensures
        r == (*v is Some && v->0@.get(key@) is Some),
{
    match v {
        Some(j) => match j.get(key) {
            Some(_) => true,
            None => false,
        },
        None => false,
    }
}

/// The message in a frame, given what its data denotes.
pub fn incoming_with(
    data: String,
    value: Option<Json>,
    message_id: String,
    topic: String,
    conn_id: usize,
) -> (r: IncomingMessage)
    ensures
        r.data == data,
        r.message_id == message_id,
        r.topic == topic,
        r.conn_id == conn_id,
        ({
            let v = match value {
                Some(j) => Some(j@),
                None => None,
            };
            &&& r.conversation_id@ == field_of(v, "conversationId"@)
            &&& r.sender_id@ == sender_of(v)
        }),
{
    proof {
        text::lemma_empty_literal();
    }
    let sender_id = if has_field(&value, "senderStaffId") {
        field(&value, "senderStaffId")
    } else if has_field(&value, "senderId") {
        field(&value, "senderId")
    } else {
        field(&value, "userId")
    };
    IncomingMessage {
        data,
        message_id,
        conversation_id: field(&value, "conversationId"),
        sender_id,
        conn_id,
        topic,
    }
}

/// The message in a frame, where it holds data.
pub fn incoming(frame: StreamFrame, conn_id: usize) -> (r: Option<IncomingMessage>)
    ensures
        r is Some <==> frame.data is Some && frame.data->0@.len() > 0,
        r matches Some(m) ==> {
            &&& m.data@ == frame.data->0@
            &&& m.message_id@ == header_of(frame.headers, "messageId"@)
            &&& m.topic@ == header_of(frame.headers, "topic"@)
            &&& m.conn_id == conn_id
            &&& m.conversation_id@ == field_of(json::parsed(m.data@), "conversationId"@)
            &&& m.sender_id@ == sender_of(json::parsed(m.data@))
        },
{
    let message_id = frame.message_id();
    let topic = header(&frame.headers, "topic");
    match frame.data {
        Some(d) => {
            if d.as_str().is_empty() {
                return None;
            }
            let v = parse(d.as_str());
            Some(incoming_with(d, v, message_id, topic, conn_id))
        },
        None => None,
    }
}

/// What a connection is asked for.
pub open spec fn open_request(client_id: Seq<char>, client_secret: Seq<char>) -> JsonView {
    JsonView::Object(
        seq![
            ("clientId"@, JsonView::Text(client_id)),
            ("clientSecret"@, JsonView::Text(client_secret)),
            (
                "subscriptions"@,
                JsonView::List(
                    seq![
                        subscription("/v1.0/im/bot/messages/get"@),
                        subscription("/v1.0/card/instances/callback"@),
                    ],
                ),
            ),
            ("ua"@, JsonView::Text("dingtalk-gateway/0.1"@)),
        ],
    )
}

/// A topic for which calls are wanted.
pub open spec fn subscription(topic: Seq<char>) -> JsonView {
    JsonView::Object(
        seq![("topic"@, JsonView::Text(topic)), ("type"@, JsonView::Text("CALLBACK"@))],
    )
}

fn subscription_json(topic: &str) -> (r: Json)
    ensures
        r@ == subscription(topic@),
{
    let mut m: Vec<(String, Json)> = Vec::new();
    m.push(("topic".to_owned(), Json::Text(topic.to_owned())));
    m.push(("type".to_owned(), Json::Text("CALLBACK".to_owned())));
    proof {
        json::lemma_members_view(m@);
        assert(json::members_view(m@) =~= subscription(topic@)->Object_0);
    }
    Json::Object(m)
}

/// What a connection is asked for.
pub fn open_request_body(client_id: &str, client_secret: &str) -> (r: Json)
    ensures
        r@ == open_request(client_id@, client_secret@),
{
    let mut l: Vec<Json> = Vec::new();
    l.push(subscription_json("/v1.0/im/bot/messages/get"));
    l.push(subscription_json("/v1.0/card/instances/callback"));
    proof {
        json::lemma_list_view(l@);
        assert(json::list_view(l@) =~= seq![
            subscription("/v1.0/im/bot/messages/get"@),
            subscription("/v1.0/card/instances/callback"@),
        ]);
    }
    let mut m: Vec<(String, Json)> = Vec::new();
    m.push(("clientId".to_owned(), Json::Text(client_id.to_owned())));
    m.push(("clientSecret".to_owned(), Json::Text(client_secret.to_owned())));
    m.push(("subscriptions".to_owned(), Json::List(l)));
    m.push(("ua".to_owned(), Json::Text("dingtalk-gateway/0.1".to_owned())));
    proof {
        json::lemma_members_view(m@);
        assert(json::members_view(m@) =~= open_request(client_id@, client_secret@)->Object_0);
    }
    Json::Object(m)
}

/// The address of a connection.
pub fn connection_url(endpoint: &str, ticket: &str) -> (r: String)
    ensures
        r@ == endpoint@ + "?ticket="@ + ticket@,
{
    let mut r = endpoint.to_owned();
    r.push_str("?ticket=");
    r.push_str(ticket);
    r
}

/// How many milliseconds a connection waits before it is first made.
pub fn start_delay_ms(conn_id: usize) -> (r: u64)
    requires
        conn_id * 500 <= u64::MAX,
    ensures
        r == conn_id * 500,
{
    conn_id as u64 * 500
}

/// How many seconds a connection waits before it is made again.
pub fn reconnect_delay_secs(conn_id: usize) -> (r: u64)
    ensures
        r == 2 + conn_id as int % 4,
{
    2 + (conn_id % 4) as u64
}

/// The sender of a message is read from the first of its fields that is
/// there, whatever the others say.
pub proof fn law_sender_is_read(j: JsonView, t: Seq<char>)
    ensures
        j.get("senderStaffId"@) == Some(JsonView::Text(t)) ==> sender_of(Some(j)) == t,
        j.get("senderStaffId"@) is None && j.get("senderId"@) == Some(JsonView::Text(t))
            ==> sender_of(Some(j)) == t,
        j.get("senderStaffId"@) is None && j.get("senderId"@) is None && j.get("userId"@) == Some(
            JsonView::Text(t),
        ) ==> sender_of(Some(j)) == t,
        j.get("conversationId"@) == Some(JsonView::Text(t)) ==> field_of(
            Some(j),
            "conversationId"@,
        ) == t,
{
}

/// A frame is answered with the id of its message.
pub proof fn law_answer_names_the_message(id: Seq<char>)
    ensures
        ack_json(id).get("headers"@) is Some,
        ack_json(id).get("headers"@)->0.get_text("messageId"@) == Some(id),
{
    reveal_strlit("code");
    reveal_strlit("headers");
    reveal_strlit("message");
    reveal_strlit("data");
    reveal_strlit("messageId");
    assert("headers"@.len() == 7 && "message"@.len() == 7 && "data"@.len() == 4);
    assert("headers"@[0] != "message"@[0]);
    let m = ack_json(id)->Object_0;
    json::lemma_member_at(m, 1);
    json::lemma_member_at(m[1].1->Object_0, 1);
}

/// A connection is asked for with the id and the secret of the client.
pub proof fn law_connection_is_asked_for(id: Seq<char>, secret: Seq<char>)
    ensures
        open_request(id, secret).get_text("clientId"@) == Some(id),
        open_request(id, secret).get_text("clientSecret"@) == Some(secret),
{
    reveal_strlit("clientId");
    reveal_strlit("clientSecret");
    reveal_strlit("subscriptions");
    reveal_strlit("ua");
    assert("clientId"@.len() == 8 && "clientSecret"@.len() == 12 && "subscriptions"@.len() == 13
        && "ua"@.len() == 2);
    let m = open_request(id, secret)->Object_0;
    json::lemma_member_at(m, 0);
    json::lemma_member_at(m, 1);
}

} // verus!

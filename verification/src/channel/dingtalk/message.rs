//! The messages of DingTalk.

use crate::json;
use crate::json::{clone_members, find_text, parse, Json, JsonView};
use crate::seqs;
use crate::text;
use crate::text::{decimal, str_eq, str_trim};
use vstd::prelude::*;

verus! {

// ---------------------------------------------------------------------------
// Frames
// ---------------------------------------------------------------------------

/// A frame that has come in.
#[derive(Debug)]
pub struct StreamFrame {
    /// `CALLBACK`, `EVENT` or `SYSTEM`.
    pub msg_type: String,
    pub headers: Vec<(String, Json)>,
    /// What the frame holds; most often JSON in a text.
    pub data: Json,
}

/// A text in the headers of a frame; empty where there is none.
pub open spec fn header_text(headers: Seq<(Seq<char>, JsonView)>, key: Seq<char>) -> Seq<char> {
    match json::member_text(headers, key) {
        Some(t) => t,
        None => Seq::empty(),
    }
}

impl StreamFrame {
    /// The id of the message.
    pub fn message_id(&self) -> (r: String)
        ensures
            r@ == header_text(json::members_view(self.headers@), "messageId"@),
    {
        proof {
            text::lemma_empty_literal();
        }
        match find_text(&self.headers, "messageId") {
            Some(t) => t.to_owned(),
            None => String::new(),
        }
    }

    /// What the message is about.
    pub fn topic(&self) -> (r: String)
        ensures
            r@ == header_text(json::members_view(self.headers@), "topic"@),
    {
        proof {
            text::lemma_empty_literal();
        }
        match find_text(&self.headers, "topic") {
            Some(t) => t.to_owned(),
            None => String::new(),
        }
    }
}

/// A callback.
#[derive(Debug)]
pub struct CallbackMessage {
    pub headers: Vec<(String, Json)>,
    pub data: Json,
}

/// The data of a callback, given what its text denotes: that, or the text
/// itself where it denotes nothing.
pub open spec fn unwrapped(data: JsonView, denoted: Option<JsonView>) -> JsonView {
    match data {
        JsonView::Text(t) => match denoted {
            Some(v) => v,
            None => data,
        },
        _ => data,
    }
}

/// The data of a callback, given what its text denotes.
pub fn unwrap_data(data: &Json, denoted: Option<Json>) -> (r: Json)
    ensures
        r@ == unwrapped(
            data@,
            match denoted {
                Some(v) => Some(v@),
                None => None,
            },
        ),
{
    match data {
        Json::Text(t) => match denoted {
            Some(v) => v,
            None => Json::Text(t.clone()),
        },
        other => other.clone(),
    }
}

impl CallbackMessage {
    /// The callback in a frame.
    pub fn from_frame(frame: &StreamFrame) -> (r: Self)
        ensures
            json::members_view(r.headers@) == json::members_view(frame.headers@),
            r.data@ == unwrapped(
                frame.data@,
                match frame.data@ {
                    JsonView::Text(t) => json::parsed(t),
                    _ => None,
                },
            ),
    {
        let denoted = match &frame.data {
            Json::Text(t) => parse(t.as_str()),
            _ => None,
        };
        CallbackMessage {
            headers: clone_members(&frame.headers),
            data: unwrap_data(&frame.data, denoted),
        }
    }
}

// ---------------------------------------------------------------------------
// Messages to the bot
// ---------------------------------------------------------------------------

/// The topic of messages to the bot.
pub const CHATBOT_TOPIC: &'static str = "/v1.0/im/bot/messages/get";

/// A text.
#[derive(Debug)]
pub struct TextContent {
    pub content: String,
}

/// A message to the bot.
#[derive(Debug)]
pub struct ChatbotMessage {
    pub msg_id: String,
    /// `1` in private, `2` in a group.
    pub conversation_type: String,
    pub conversation_id: String,
    pub sender_id: String,
    pub sender_staff_id: String,
    pub sender_nick: String,
    /// `text`, `picture`, `richText` or `file`.
    pub msgtype: String,
    pub text: Option<TextContent>,
    /// Images, rich text and the like.
    pub content: Option<Json>,
    pub extensions: Vec<(String, Json)>,
    /// Where the message can be answered for a while.
    pub session_webhook: String,
    pub at_users: Vec<Json>,
    pub create_at: i64,
    pub robot_code: String,
}

impl Default for ChatbotMessage {
    fn default() -> (r: Self)
        ensures
            r.msg_id@.len() == 0,
            r.conversation_type@.len() == 0,
            r.conversation_id@.len() == 0,
            r.sender_id@.len() == 0,
            r.sender_staff_id@.len() == 0,
            r.sender_nick@.len() == 0,
            r.msgtype@.len() == 0,
            r.text is None,
            r.content is None,
            r.extensions@.len() == 0,
            r.session_webhook@.len() == 0,
            r.at_users@.len() == 0,
            r.create_at == 0,
            r.robot_code@.len() == 0,
    {
        proof {
            text::lemma_empty_literal();
        }
        ChatbotMessage {
            msg_id: String::new(),
            conversation_type: String::new(),
            conversation_id: String::new(),
            sender_id: String::new(),
            sender_staff_id: String::new(),
            sender_nick: String::new(),
            msgtype: String::new(),
            text: None,
            content: None,
            extensions: Vec::new(),
            session_webhook: String::new(),
            at_users: Vec::new(),
            create_at: 0,
            robot_code: String::new(),
        }
    }
}

/// The text, trimmed, unless nothing is left of it.
pub open spec fn trimmed_text(t: Seq<char>) -> Seq<Seq<char>> {
    if text::trim(t).len() > 0 {
        seq![text::trim(t)]
    } else {
        Seq::empty()
    }
}

/// The pieces of rich text in a message.
pub open spec fn rich_items(m: ChatbotMessage) -> Seq<JsonView> {
    if m.msgtype@ == "richText"@ {
        match m.content {
            Some(c) => match c@.get("richText"@) {
                Some(JsonView::List(l)) => l,
                _ => Seq::empty(),
            },
            None => Seq::empty(),
        }
    } else {
        Seq::empty()
    }
}

/// The texts in pieces of rich text.
pub open spec fn item_texts(items: Seq<JsonView>) -> Seq<Seq<char>>
    decreases items.len(),
{
    if items.len() == 0 {
        Seq::empty()
    } else {
        item_texts(items.drop_last()) + (match items.last().get_text("text"@) {
            Some(t) => trimmed_text(t),
            None => Seq::empty(),
        })
    }
}

/// The codes of the images in pieces of rich text.
pub open spec fn item_codes(items: Seq<JsonView>) -> Seq<Seq<char>>
    decreases items.len(),
{
    if items.len() == 0 {
        Seq::empty()
    } else {
        item_codes(items.drop_last()) + (if items.last().get_text("type"@) == Some("picture"@) {
            code_in(items.last())
        } else {
            Seq::empty()
        })
    }
}

/// The code by which something is fetched, unless it is empty.
pub open spec fn code_in(v: JsonView) -> Seq<Seq<char>> {
    match v.get_text("downloadCode"@) {
        Some(c) => if c.len() > 0 {
            seq![c]
        } else {
            Seq::empty()
        },
        None => Seq::empty(),
    }
}

/// The texts in a message.
pub open spec fn texts_in(m: ChatbotMessage) -> Seq<Seq<char>> {
    (match m.text {
        Some(t) => trimmed_text(t.content@),
        None => Seq::empty(),
    }) + item_texts(rich_items(m))
}

/// The codes of the images in a message.
pub open spec fn codes_in(m: ChatbotMessage) -> Seq<Seq<char>> {
    (if m.msgtype@ == "picture"@ {
        match m.content {
            Some(c) => code_in(c@),
            None => Seq::empty(),
        }
    } else {
        Seq::empty()
    }) + item_codes(rich_items(m))
}

/// The files in a message: the code and the name of each.
pub open spec fn files_in(m: ChatbotMessage) -> Seq<(Seq<char>, Seq<char>)> {
    if m.msgtype@ == "file"@ && m.content is Some && code_in(m.content->0@).len() > 0 {
        seq![
            (
                code_in(m.content->0@)[0],
                match m.content->0@.get_text("fileName"@) {
                    Some(n) => n,
                    None => "unknown_file"@,
                },
            ),
        ]
    } else {
        Seq::empty()
    }
}

fn push_trimmed(out: &mut Vec<String>, t: &str)
    ensures
        text::texts(final(out)@) == text::texts(old(out)@) + trimmed_text(t@),
{
    let ghost before = out@;
    let s = str_trim(t);
    if !s.as_str().is_empty() {
        out.push(s);
    }
    proof {
        assert(text::texts(out@) =~= text::texts(before) + trimmed_text(t@));
    }
}

fn push_code(out: &mut Vec<String>, v: &Json)
    ensures
        text::texts(final(out)@) == text::texts(old(out)@) + code_in(v@),
{
    let ghost before = out@;
    if let Some(c) = v.get_text("downloadCode") {
        if !c.is_empty() {
            out.push(c.to_owned());
        }
    }
    proof {
        assert(text::texts(out@) =~= text::texts(before) + code_in(v@));
    }
}

impl ChatbotMessage {
    /// A message of which nothing but its id and conversation is known.
    pub fn with_ids(msg_id: &str, conversation_id: &str) -> (r: Self)
        ensures
            r.msg_id@ == msg_id@,
            r.conversation_id@ == conversation_id@,
            r.conversation_type@.len() == 0,
            r.sender_staff_id@.len() == 0,
            r.session_webhook@.len() == 0,
            r.text is None,
            r.content is None,
    {
        let mut r = ChatbotMessage::default();
        r.msg_id = msg_id.to_owned();
        r.conversation_id = conversation_id.to_owned();
        r
    }

    /// Whether the message was sent in private.
    pub fn is_private(&self) -> (r: bool)
        ensures
            r == (self.conversation_type@ == "1"@),
    {
        str_eq(self.conversation_type.as_str(), "1")
    }

    /// The pieces of rich text in the message.
    fn rich_text(&self) -> (r: Option<&Vec<Json>>)
        ensures
            (match r {
                Some(l) => json::list_view(l@),
                None => Seq::empty(),
            }) == rich_items(*self),
    {
        if str_eq(self.msgtype.as_str(), "richText") {
            if let Some(c) = &self.content {
                if let Some(Json::List(l)) = c.get("richText") {
                    return Some(l);
                }
            }
        }
        None
    }

    /// The texts in the message.
    pub fn get_text_list(&self) -> (r: Vec<String>)
        ensures
            text::texts(r@) == texts_in(*self),
    {
        let mut out: Vec<String> = Vec::new();
        proof {
            assert(text::texts(out@) =~= Seq::empty());
        }
        if let Some(t) = &self.text {
            push_trimmed(&mut out, t.content.as_str());
        }
        let ghost head = text::texts(out@);
        if let Some(l) = self.rich_text() {
            let ghost items = json::list_view(l@);
            let mut i: usize = 0;
            proof {
                json::lemma_list_view(l@);
                assert(items.take(0) =~= Seq::empty());
                assert(head + item_texts(items.take(0)) =~= head);
            }
            while i < l.len()
                invariant
                    0 <= i <= l@.len(),
                    items == json::list_view(l@),
                    items.len() == l@.len(),
                    forall|k: int| 0 <= k < l@.len() ==> #[trigger] items[k] == l@[k]@,
                    text::texts(out@) == head + item_texts(items.take(i as int)),
                decreases l@.len() - i,
            {
                proof {
                    assert(items.take(i + 1).drop_last() =~= items.take(i as int));
                    assert(items.take(i + 1).last() == l@[i as int]@);
                }
                let ghost before = text::texts(out@);
                if let Some(t) = l[i].get_text("text") {
                    push_trimmed(&mut out, t);
                }
                proof {
                    assert(text::texts(out@) =~= head + item_texts(items.take(i + 1)));
                }
                i += 1;
            }
            proof {
                assert(items.take(i as int) =~= items);
            }
        } else {
            proof {
                assert(rich_items(*self).len() == 0);
                assert(head + item_texts(rich_items(*self)) =~= head);
            }
        }
        out
    }

    /// The files in the message: the code and the name of each.
    pub fn get_file_list(&self) -> (r: Vec<(String, String)>)
        ensures
            crate::order::keyed(r@) == files_in(*self),
    {
        let mut out: Vec<(String, String)> = Vec::new();
        if str_eq(self.msgtype.as_str(), "file") {
            if let Some(c) = &self.content {
                if let Some(code) = c.get_text("downloadCode") {
                    if !code.is_empty() {
                        let name = match c.get_text("fileName") {
                            Some(n) => n.to_owned(),
                            None => "unknown_file".to_owned(),
                        };
                        out.push((code.to_owned(), name));
                    }
                }
            }
        }
        proof {
            assert(crate::order::keyed(out@) =~= files_in(*self));
        }
        out
    }

    /// The codes of the images in the message.
    pub fn get_image_list(&self) -> (r: Vec<String>)
        ensures
            text::texts(r@) == codes_in(*self),
    {
        let mut out: Vec<String> = Vec::new();
        proof {
            assert(text::texts(out@) =~= Seq::empty());
        }
        if str_eq(self.msgtype.as_str(), "picture") {
            if let Some(c) = &self.content {
                push_code(&mut out, c);
            }
        }
        let ghost head = text::texts(out@);
        if let Some(l) = self.rich_text() {
            let ghost items = json::list_view(l@);
            let mut i: usize = 0;
            proof {
                json::lemma_list_view(l@);
                assert(items.take(0) =~= Seq::empty());
                assert(head + item_codes(items.take(0)) =~= head);
            }
            while i < l.len()
                invariant
                    0 <= i <= l@.len(),
                    items == json::list_view(l@),
                    items.len() == l@.len(),
                    forall|k: int| 0 <= k < l@.len() ==> #[trigger] items[k] == l@[k]@,
                    text::texts(out@) == head + item_codes(items.take(i as int)),
                decreases l@.len() - i,
            {
                proof {
                    assert(items.take(i + 1).drop_last() =~= items.take(i as int));
                    assert(items.take(i + 1).last() == l@[i as int]@);
                }
                let is_picture = match l[i].get_text("type") {
                    Some(t) => str_eq(t, "picture"),
                    None => false,
                };
                if is_picture {
                    push_code(&mut out, &l[i]);
                }
                proof {
                    assert(text::texts(out@) =~= head + item_codes(items.take(i + 1)));
                }
                i += 1;
            }
            proof {
                assert(items.take(i as int) =~= items);
            }
        } else {
            proof {
                assert(rich_items(*self).len() == 0);
                assert(head + item_codes(rich_items(*self)) =~= head);
            }
        }
        out
    }
}

/// Every text that is taken from a message says something and has no white
/// space around it.
pub proof fn law_texts_are_trimmed(m: ChatbotMessage)
    ensures
        forall|i: int|
            0 <= i < texts_in(m).len() ==> (#[trigger] texts_in(m)[i]).len() > 0 && exists|t:
                Seq<char>| texts_in(m)[i] == #[trigger] text::trim(t),
{
    let a = match m.text {
        Some(t) => trimmed_text(t.content@),
        None => Seq::empty(),
    };
    let b = item_texts(rich_items(m));
    lemma_item_texts(rich_items(m));
    assert forall|i: int| 0 <= i < texts_in(m).len() implies (#[trigger] texts_in(m)[i]).len() > 0
        && exists|t: Seq<char>| texts_in(m)[i] == #[trigger] text::trim(t) by {
        if i < a.len() {
            assert(texts_in(m)[i] == a[i]);
            assert(a[i] == text::trim(m.text->0.content@));
        } else {
            assert(texts_in(m)[i] == b[i - a.len()]);
        }
    }
}

proof fn lemma_item_texts(items: Seq<JsonView>)
    ensures
        forall|i: int|
            0 <= i < item_texts(items).len() ==> (#[trigger] item_texts(items)[i]).len() > 0
                && exists|t: Seq<char>| item_texts(items)[i] == #[trigger] text::trim(t),
    decreases items.len(),
{
    if items.len() > 0 {
        lemma_item_texts(items.drop_last());
        let p = item_texts(items.drop_last());
        let all = item_texts(items);
        assert forall|i: int| 0 <= i < all.len() implies (#[trigger] all[i]).len() > 0 && exists|t:
            Seq<char>| all[i] == #[trigger] text::trim(t) by {
            if i < p.len() {
                assert(all[i] == p[i]);
            } else {
                let t = items.last().get_text("text"@)->0;
                assert(all[i] == text::trim(t));
            }
        }
    }
}

// ---------------------------------------------------------------------------
// Answers
// ---------------------------------------------------------------------------

/// The answer to a frame.
#[derive(Debug)]
pub struct AckMessage {
    pub code: u16,
    pub headers: Vec<(String, Json)>,
    pub message: String,
    pub data: String,
}

/// All is well.
pub const STATUS_OK: u16 = 200;

/// What was sent makes no sense.
pub const STATUS_BAD_REQUEST: u16 = 400;

/// Nobody takes this.
pub const STATUS_NOT_FOUND: u16 = 404;

/// Something has gone wrong here.
pub const STATUS_ERROR: u16 = 500;

impl AckMessage {
    /// All is well.
    pub fn ok(headers: Vec<(String, Json)>) -> (r: Self)
        ensures
            r.code == STATUS_OK,
            r.headers == headers,
            r.message@ == "OK"@,
            r.data@.len() == 0,
    {
        proof {
            text::lemma_empty_literal();
        }
        AckMessage { code: STATUS_OK, headers, message: "OK".to_owned(), data: String::new() }
    }

    /// Something has gone wrong.
    pub fn error(headers: Vec<(String, Json)>, message: String) -> (r: Self)
        ensures
            r.code == STATUS_ERROR,
            r.headers == headers,
            r.message == message,
            r.data@.len() == 0,
    {
        proof {
            text::lemma_empty_literal();
        }
        AckMessage { code: STATUS_ERROR, headers, message, data: String::new() }
    }

    /// The answer as JSON.
    pub fn to_json(&self) -> (r: Json)
        ensures
            r@ == JsonView::Object(
                seq![
                    ("code"@, JsonView::Number(text::dec(self.code as nat))),
                    ("headers"@, JsonView::Object(json::members_view(self.headers@))),
                    ("message"@, JsonView::Text(self.message@)),
                    ("data"@, JsonView::Text(self.data@)),
                ],
            ),
    {
        json::object4(
            "code",
            Json::Number(decimal(self.code as u128)),
            "headers",
            Json::Object(clone_members(&self.headers)),
            "message",
            Json::Text(self.message.clone()),
            "data",
            Json::Text(self.data.clone()),
        )
    }
}

// ---------------------------------------------------------------------------
// What is taken from a message
// ---------------------------------------------------------------------------

/// Holds of the pieces of rich text whose text is not blank.
pub open spec fn speaks() -> spec_fn(JsonView) -> bool {
    |v: JsonView| v.get_text("text"@) is Some && text::trim(v.get_text("text"@)->0).len() > 0
}

/// Holds of the pieces of rich text that are images with a code.
pub open spec fn shows() -> spec_fn(JsonView) -> bool {
    |v: JsonView|
        v.get_text("type"@) == Some("picture"@) && v.get_text("downloadCode"@) is Some
            && v.get_text("downloadCode"@)->0.len() > 0
}

proof fn lemma_item_text_at(items: Seq<JsonView>)
    ensures
        item_texts(items).len() == seqs::count(items, speaks()),
        forall|k: int|
            0 <= k < items.len() && speaks()(#[trigger] items[k]) ==> seqs::count(
                items.take(k),
                speaks(),
            ) < item_texts(items).len() && item_texts(items)[seqs::count(items.take(k), speaks())
                as int] == text::trim(items[k].get_text("text"@)->0),
    decreases items.len(),
{
    if items.len() > 0 {
        let p = items.drop_last();
        lemma_item_text_at(p);
        assert forall|k: int| 0 <= k < items.len() && speaks()(
            #[trigger] items[k],
        ) implies seqs::count(items.take(k), speaks()) < item_texts(items).len() && item_texts(
            items,
        )[seqs::count(items.take(k), speaks()) as int] == text::trim(
            items[k].get_text("text"@)->0,
        ) by {
            if k < p.len() {
                assert(p[k] == items[k]);
                assert(p.take(k) =~= items.take(k));
            } else {
                assert(items.take(k) =~= p);
            }
        }
    }
}

proof fn lemma_item_code_at(items: Seq<JsonView>)
    ensures
        item_codes(items).len() == seqs::count(items, shows()),
        forall|k: int|
            0 <= k < items.len() && shows()(#[trigger] items[k]) ==> seqs::count(
                items.take(k),
                shows(),
            ) < item_codes(items).len() && item_codes(items)[seqs::count(items.take(k), shows())
                as int] == items[k].get_text("downloadCode"@)->0,
    decreases items.len(),
{
    if items.len() > 0 {
        let p = items.drop_last();
        lemma_item_code_at(p);
        assert forall|k: int| 0 <= k < items.len() && shows()(
            #[trigger] items[k],
        ) implies seqs::count(items.take(k), shows()) < item_codes(items).len() && item_codes(
            items,
        )[seqs::count(items.take(k), shows()) as int] == items[k].get_text("downloadCode"@)->0 by {
            if k < p.len() {
                assert(p[k] == items[k]);
                assert(p.take(k) =~= items.take(k));
            } else {
                assert(items.take(k) =~= p);
            }
        }
    }
}

/// The plain text of a message comes first, where it is not blank. Of rich
/// text the texts that are not blank follow, trimmed and in the order of the
/// pieces, and there is nothing else.
pub proof fn law_every_text_is_taken(m: ChatbotMessage, items: Seq<JsonView>, plain: nat)
    requires
        m.msgtype@ == "richText"@,
        m.content is Some,
        m.content->0@.get("richText"@) == Some(JsonView::List(items)),
        plain == (if m.text is Some && text::trim(m.text->0.content@).len() > 0 {
            1nat
        } else {
            0
        }),
    ensures
        texts_in(m).len() == plain + seqs::count(items, speaks()),
        plain == 1 ==> texts_in(m)[0] == text::trim(m.text->0.content@),
        forall|k: int|
            0 <= k < items.len() && speaks()(#[trigger] items[k]) ==> texts_in(m)[plain as int
                + seqs::count(items.take(k), speaks())] == text::trim(
                items[k].get_text("text"@)->0,
            ),
{
    lemma_item_text_at(items);
    let a = match m.text {
        Some(t) => trimmed_text(t.content@),
        None => Seq::empty(),
    };
    assert(a.len() == plain);
    let b = item_texts(items);
    assert(texts_in(m) == a + b);
    assert forall|k: int| 0 <= k < items.len() && speaks()(
        #[trigger] items[k],
    ) implies texts_in(m)[plain as int + seqs::count(items.take(k), speaks())] == text::trim(
        items[k].get_text("text"@)->0,
    ) by {
        let n = seqs::count(items.take(k), speaks()) as int;
        assert((a + b)[plain + n] == b[n]);
    }
}

/// A message that is not rich text says its plain text, where that is not
/// blank, and nothing else.
pub proof fn law_plain_text_is_taken(m: ChatbotMessage)
    requires
        m.msgtype@ != "richText"@,
    ensures
        m.text is Some && text::trim(m.text->0.content@).len() > 0 ==> texts_in(m) == seq![
            text::trim(m.text->0.content@),
        ],
        m.text is None || text::trim(m.text->0.content@).len() == 0 ==> texts_in(m).len() == 0,
{
    assert(m.text is Some && text::trim(m.text->0.content@).len() > 0 ==> texts_in(m) =~= seq![
        text::trim(m.text->0.content@),
    ]);
}

/// The images of a message are taken by their codes: of a picture its own, of
/// rich text those of the pieces that are pictures, in order.
pub proof fn law_every_image_is_taken(m: ChatbotMessage, items: Seq<JsonView>)
    requires
        m.content is Some,
    ensures
        m.msgtype@ == "picture"@ && m.content->0@.get_text("downloadCode"@) is Some
            && m.content->0@.get_text("downloadCode"@)->0.len() > 0 ==> codes_in(m) == seq![
            m.content->0@.get_text("downloadCode"@)->0,
        ],
        m.msgtype@ == "richText"@ && m.content->0@.get("richText"@) == Some(JsonView::List(items))
            ==> codes_in(m).len() == seqs::count(items, shows()) && forall|k: int|
            0 <= k < items.len() && shows()(#[trigger] items[k]) ==> codes_in(m)[seqs::count(
                items.take(k),
                shows(),
            ) as int] == items[k].get_text("downloadCode"@)->0,
        m.msgtype@ != "picture"@ && m.msgtype@ != "richText"@ ==> codes_in(m).len() == 0,
{
    lemma_item_code_at(items);
    reveal_strlit("picture");
    reveal_strlit("richText");
    assert("picture"@.len() != "richText"@.len());
    assert(m.msgtype@ == "picture"@ ==> codes_in(m) =~= code_in(m.content->0@));
    assert(m.msgtype@ == "richText"@ && m.content->0@.get("richText"@) == Some(
        JsonView::List(items),
    ) ==> codes_in(m) =~= item_codes(items));
}

/// A file is taken by its code and its name, and only from a message that is
/// one.
pub proof fn law_every_file_is_taken(m: ChatbotMessage)
    ensures
        m.msgtype@ != "file"@ ==> files_in(m).len() == 0,
        m.msgtype@ == "file"@ && m.content is Some && m.content->0@.get_text("downloadCode"@) is Some
            && m.content->0@.get_text("downloadCode"@)->0.len() > 0 ==> files_in(m).len() == 1
            && files_in(m)[0].0 == m.content->0@.get_text("downloadCode"@)->0 && (
        m.content->0@.get_text("fileName"@) matches Some(n) ==> files_in(m)[0].1 == n),
{
}

} // verus!

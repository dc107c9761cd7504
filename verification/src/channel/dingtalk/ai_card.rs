//! Cards in DingTalk that show what the agent does while it works.

use crate::json;
use crate::json::{extended, object1, object2, object4, text_value, Json, JsonView};
use crate::message;
use crate::table::Table;
use crate::text;
use crate::text::{is_blank, str_contains, str_eq, str_lines};
use vstd::prelude::*;

verus! {

/// The topic of what users do with cards.
pub const CARD_CALLBACK_TOPIC: &'static str = "/v1.0/card/instances/callback";

/// What stands for no text: cards take no empty ones.
pub const EMPTY_PLACEHOLDER: &'static str = "\u{200B}";

/// After how many seconds a card is given up that was never finished.
pub const CARD_TTL_SECS: u64 = 1800;

/// What a card says of what the agent does.
#[derive(Debug)]
pub struct CardState {
    pub latest_thinking: String,
    pub latest_tool: String,
    /// Whether the card is finished; after that nothing changes it.
    pub finalized: bool,
}

/// A card. The time is in milliseconds.
#[derive(Debug)]
pub struct CardReplier {
    pub template_id: String,
    pub out_track_id: String,
    /// What stands at the top of the card.
    pub header: String,
    /// Who has asked, and alone may stop the agent.
    pub owner_staff_id: String,
    pub created_at: u64,
    pub state: CardState,
}

// ---------------------------------------------------------------------------
// What a card shows
// ---------------------------------------------------------------------------

/// What a card shows while the agent works.
pub open spec fn body_of(header: Seq<char>, thinking: Seq<char>, tool: Seq<char>) -> Seq<char> {
    header + "\n\n🔍 思考中"@ + (if thinking.len() > 0 {
        "\n\n▎"@ + thinking
    } else {
        Seq::empty()
    }) + (if tool.len() > 0 {
        "\n\n▎🔧 "@ + tool
    } else {
        Seq::empty()
    })
}

/// The last line that is not blank; empty where all are.
pub open spec fn last_line(lines: Seq<Seq<char>>) -> Seq<char>
    decreases lines.len(),
{
    if lines.len() == 0 {
        Seq::empty()
    } else if text::trim(lines.last()).len() > 0 {
        lines.last()
    } else {
        last_line(lines.drop_last())
    }
}

/// What a finished card shows.
pub open spec fn final_body(header: Seq<char>, reply: Seq<char>) -> Seq<char> {
    if text::trim(reply).len() == 0 {
        header + "（无输出）"@
    } else {
        reply
    }
}

fn find_last_line(content: &str) -> (r: String)
    ensures
        r@ == last_line(text::lines(content@)),
{
    let lines = str_lines(content);
    let ghost all = text::texts(lines@);
    let mut i: usize = lines.len();
    proof {
        assert(all.take(i as int) =~= all);
    }
    while i > 0
        invariant
            0 <= i <= lines@.len(),
            all == text::texts(lines@),
            all == text::lines(content@),
            last_line(all) == last_line(all.take(i as int)),
        decreases i,
    {
        proof {
            assert(all.take(i as int).drop_last() =~= all.take(i - 1));
            assert(all.take(i as int).last() == all[i - 1]);
        }
        if !is_blank(lines[i - 1].as_str()) {
            return lines[i - 1].clone();
        }
        i -= 1;
    }
    proof {
        text::lemma_empty_literal();
    }
    String::new()
}

impl CardReplier {
    /// A card on which nothing has happened yet.
    pub fn new(
        template_id: &str,
        out_track_id: &str,
        header: &str,
        owner_staff_id: &str,
        created_at: u64,
    ) -> (r: Self)
        ensures
            r.template_id@ == template_id@,
            r.out_track_id@ == out_track_id@,
            r.header@ == header@,
            r.owner_staff_id@ == owner_staff_id@,
            r.created_at == created_at,
            r.state.latest_thinking@.len() == 0,
            r.state.latest_tool@.len() == 0,
            !r.state.finalized,
    {
        proof {
            text::lemma_empty_literal();
        }
        CardReplier {
            template_id: template_id.to_owned(),
            out_track_id: out_track_id.to_owned(),
            header: header.to_owned(),
            owner_staff_id: owner_staff_id.to_owned(),
            created_at,
            state: CardState {
                latest_thinking: String::new(),
                latest_tool: String::new(),
                finalized: false,
            },
        }
    }

    /// What the card shows while the agent works.
    pub open spec fn body(self) -> Seq<char> {
        body_of(self.header@, self.state.latest_thinking@, self.state.latest_tool@)
    }

    /// What the card shows while the agent works.
    pub fn render_body(&self) -> (r: String)
        ensures
            r@ == self.body(),
    {
        let mut out = self.header.clone();
        out.push_str("\n\n🔍 思考中");
        if !self.state.latest_thinking.as_str().is_empty() {
            out.push_str("\n\n▎");
            out.push_str(self.state.latest_thinking.as_str());
        }
        if !self.state.latest_tool.as_str().is_empty() {
            out.push_str("\n\n▎🔧 ");
            out.push_str(self.state.latest_tool.as_str());
        }
        proof {
            assert(out@ =~= self.body());
        }
        out
    }

    /// Takes in what the agent thinks, and hands back what the card then
    /// shows; nothing, where the card is finished or nothing was said.
    pub fn feed_thinking(&mut self, content: &str) -> (r: Option<String>)
        ensures
            ({
                let line = last_line(text::lines(content@));
                if old(self).state.finalized || line.len() == 0 {
                    r is None && *final(self) == *old(self)
                } else {
                    &&& final(self).state.latest_thinking@ == line
                    &&& final(self).state.latest_tool == old(self).state.latest_tool
                    &&& final(self).same_card(*old(self))
                    &&& message::opt_text(r) == Some(final(self).body())
                }
            }),
    {
        if self.state.finalized {
            return None;
        }
        let line = find_last_line(content);
        if line.as_str().is_empty() {
            return None;
        }
        self.state.latest_thinking = line;
        Some(self.render_body())
    }

    /// Takes in which tool the agent uses, and hands back what the card then
    /// shows; nothing, where the card is finished or nothing was said.
    pub fn feed_tool(&mut self, brief: &str) -> (r: Option<String>)
        ensures
            if old(self).state.finalized || brief@.len() == 0 {
                r is None && *final(self) == *old(self)
            } else {
                &&& final(self).state.latest_tool@ == brief@
                &&& final(self).state.latest_thinking == old(self).state.latest_thinking
                &&& final(self).same_card(*old(self))
                &&& message::opt_text(r) == Some(final(self).body())
            },
    {
        if self.state.finalized {
            return None;
        }
        if brief.is_empty() {
            return None;
        }
        self.state.latest_tool = brief.to_owned();
        Some(self.render_body())
    }

    /// Whether this is the same card, as finished as the other.
    pub open spec fn same_card(self, other: CardReplier) -> bool {
        &&& self.template_id == other.template_id
        &&& self.out_track_id == other.out_track_id
        &&& self.header == other.header
        &&& self.owner_staff_id == other.owner_staff_id
        &&& self.created_at == other.created_at
        &&& self.state.finalized == other.state.finalized
    }

    /// Finishes the card, and hands back what it then shows; nothing, where it
    /// was finished before.
    pub fn finalize(&mut self, reply: &str) -> (r: Option<String>)
        ensures
            message::opt_text(r) == (if old(self).state.finalized {
                None
            } else {
                Some(final_body(old(self).header@, reply@))
            }),
            *final(self) == (CardReplier {
                state: CardState { finalized: true, ..old(self).state },
                ..*old(self)
            }),
    {
        if self.state.finalized {
            return None;
        }
        self.state.finalized = true;
        if is_blank(reply) {
            let mut t = self.header.clone();
            t.push_str("（无输出）");
            Some(t)
        } else {
            Some(reply.to_owned())
        }
    }

    /// Finishes the card because the agent was stopped, and hands back what it
    /// then shows; nothing, where it was finished before.
    pub fn terminate(&mut self) -> (r: Option<String>)
        ensures
            message::opt_text(r) == (if old(self).state.finalized {
                None
            } else {
                Some(
                    old(self).body() + "\n\n⏹ 任务已被手动终止，如需继续请重新提问。"@,
                )
            }),
            *final(self) == (CardReplier {
                state: CardState { finalized: true, ..old(self).state },
                ..*old(self)
            }),
    {
        if self.state.finalized {
            return None;
        }
        self.state.finalized = true;
        let mut t = self.render_body();
        t.push_str("\n\n⏹ 任务已被手动终止，如需继续请重新提问。");
        Some(t)
    }
}

// ---------------------------------------------------------------------------
// What is sent
// ---------------------------------------------------------------------------

/// Whether a card may be passed on.
pub open spec fn forwardable() -> JsonView {
    JsonView::Object(seq![("supportForward"@, JsonView::Bool(true))])
}

/// What is sent to make a card.
pub open spec fn create_json(template_id: Seq<char>, track: Seq<char>) -> JsonView {
    JsonView::Object(
        seq![
            ("callbackType"@, JsonView::Text("STREAM"@)),
            (
                "cardData"@,
                JsonView::Object(
                    seq![
                        (
                            "cardParamMap"@,
                            JsonView::Object(
                                seq![
                                    ("content"@, JsonView::Text(EMPTY_PLACEHOLDER@)),
                                    ("flowStatus"@, JsonView::Text("1"@)),
                                ],
                            ),
                        ),
                    ],
                ),
            ),
            ("cardTemplateId"@, JsonView::Text(template_id)),
            ("imGroupOpenSpaceModel"@, forwardable()),
            ("imRobotOpenSpaceModel"@, forwardable()),
            ("outTrackId"@, JsonView::Text(track)),
            ("userIdType"@, JsonView::Number(text::dec(1))),
        ],
    )
}

fn forwardable_json() -> (r: Json)
    ensures
        r@ == forwardable(),
{
    object1("supportForward", Json::Bool(true))
}

/// What is sent to make a card.
pub fn create_body(template_id: &str, out_track_id: &str) -> (r: Json)
    ensures
        r@ == create_json(template_id@, out_track_id@),
{
    let data = object1(
        "cardParamMap",
        object2("content", text_value(EMPTY_PLACEHOLDER), "flowStatus", text_value("1")),
    );
    let a = object4(
        "callbackType",
        text_value("STREAM"),
        "cardData",
        data,
        "cardTemplateId",
        text_value(template_id),
        "imGroupOpenSpaceModel",
        forwardable_json(),
    );
    let b = extended(a, "imRobotOpenSpaceModel", forwardable_json());
    let c = extended(b, "outTrackId", text_value(out_track_id));
    let r = extended(c, "userIdType", json::number_value(1));
    proof {
        assert(r@->Object_0 =~= create_json(template_id@, out_track_id@)->Object_0);
    }
    r
}

/// What is sent to show a card: to the asker in private, else in the
/// conversation.
pub open spec fn deliver_json(
    track: Seq<char>,
    robot: Seq<char>,
    conversation: Seq<char>,
    staff: Seq<char>,
    private: bool,
) -> JsonView {
    if private {
        JsonView::Object(
            seq![
                (
                    "imRobotOpenDeliverModel"@,
                    JsonView::Object(
                        seq![
                            ("robotCode"@, JsonView::Text(robot)),
                            ("spaceType"@, JsonView::Text("IM_ROBOT"@)),
                        ],
                    ),
                ),
                ("openSpaceId"@, JsonView::Text("dtv1.card//IM_ROBOT."@ + staff)),
                ("outTrackId"@, JsonView::Text(track)),
                ("userIdType"@, JsonView::Number(text::dec(1))),
            ],
        )
    } else {
        JsonView::Object(
            seq![
                (
                    "imGroupOpenDeliverModel"@,
                    JsonView::Object(seq![("robotCode"@, JsonView::Text(robot))]),
                ),
                ("openSpaceId"@, JsonView::Text("dtv1.card//IM_GROUP."@ + conversation)),
                ("outTrackId"@, JsonView::Text(track)),
                ("userIdType"@, JsonView::Number(text::dec(1))),
            ],
        )
    }
}

/// What is sent to show a card.
pub fn deliver_body(
    out_track_id: &str,
    robot_code: &str,
    conversation_id: &str,
    sender_staff_id: &str,
    is_private: bool,
) -> (r: Json)
    ensures
        r@ == deliver_json(
            out_track_id@,
            robot_code@,
            conversation_id@,
            sender_staff_id@,
            is_private,
        ),
{
    if is_private {
        let mut space = "dtv1.card//IM_ROBOT.".to_owned();
        space.push_str(sender_staff_id);
        object4(
            "imRobotOpenDeliverModel",
            object2("robotCode", text_value(robot_code), "spaceType", text_value("IM_ROBOT")),
            "openSpaceId",
            Json::Text(space),
            "outTrackId",
            text_value(out_track_id),
            "userIdType",
            json::number_value(1),
        )
    } else {
        let mut space = "dtv1.card//IM_GROUP.".to_owned();
        space.push_str(conversation_id);
        object4(
            "imGroupOpenDeliverModel",
            object1("robotCode", text_value(robot_code)),
            "openSpaceId",
            Json::Text(space),
            "outTrackId",
            text_value(out_track_id),
            "userIdType",
            json::number_value(1),
        )
    }
}

/// Why a card was not made, given how the request went: the answer to it, with
/// whether it was a good one.
pub fn check_step(step: &str, success: bool, status: &str, body: &str) -> (r: Result<(), String>)
    ensures
        match r {
            Ok(_) => success,
            Err(e) => !success && e@ == step@ + " card HTTP "@ + status@ + ": "@ + body@,
        },
{
    if success {
        return Ok(());
    }
    let mut e = step.to_owned();
    e.push_str(" card HTTP ");
    e.push_str(status);
    e.push_str(": ");
    e.push_str(body);
    Err(e)
}

/// Why a card is not shown, given the answer to the request to show it: the
/// answer can be a good one and yet say that it failed.
pub fn check_delivery(success: bool, status: &str, body: &str) -> (r: Result<(), String>)
    ensures
        match r {
            Ok(_) => success && !text::contains(body@, "\"success\":false"@),
            Err(e) => if success {
                text::contains(body@, "\"success\":false"@) && e@ == "deliver card rejected: "@
                    + body@
            } else {
                e@ == "deliver card HTTP "@ + status@ + ": "@ + body@
            },
        },
{
    if !success {
        let mut e = "deliver card HTTP ".to_owned();
        e.push_str(status);
        e.push_str(": ");
        e.push_str(body);
        return Err(e);
    }
    if str_contains(body, "\"success\":false") {
        let mut e = "deliver card rejected: ".to_owned();
        e.push_str(body);
        return Err(e);
    }
    Ok(())
}

/// What is sent to change what a card shows.
pub open spec fn stream_json(
    track: Seq<char>,
    guid: Seq<char>,
    content: Seq<char>,
    full: bool,
    last: bool,
) -> JsonView {
    JsonView::Object(
        seq![
            ("content"@, JsonView::Text(content)),
            ("guid"@, JsonView::Text(guid)),
            ("isError"@, JsonView::Bool(false)),
            ("isFinalize"@, JsonView::Bool(last)),
            ("isFull"@, JsonView::Bool(full)),
            ("key"@, JsonView::Text("content"@)),
            ("outTrackId"@, JsonView::Text(track)),
        ],
    )
}

/// What is sent to change what a card shows.
pub fn stream_body(out_track_id: &str, guid: &str, content: &str, is_full: bool, is_finalize: bool) -> (r:
    Json)
    ensures
        r@ == stream_json(out_track_id@, guid@, content@, is_full, is_finalize),
{
    let a = object4(
        "content",
        text_value(content),
        "guid",
        text_value(guid),
        "isError",
        Json::Bool(false),
        "isFinalize",
        Json::Bool(is_finalize),
    );
    let b = extended(a, "isFull", Json::Bool(is_full));
    let c = extended(b, "key", text_value("content"));
    let r = extended(c, "outTrackId", text_value(out_track_id));
    proof {
        assert(r@->Object_0 =~= stream_json(
            out_track_id@,
            guid@,
            content@,
            is_full,
            is_finalize,
        )->Object_0);
    }
    r
}

/// What is sent to finish a card.
pub open spec fn update_json(track: Seq<char>, result: Seq<char>) -> JsonView {
    JsonView::Object(
        seq![
            (
                "cardData"@,
                JsonView::Object(
                    seq![
                        (
                            "cardParamMap"@,
                            JsonView::Object(
                                seq![
                                    ("flowStatus"@, JsonView::Text("3"@)),
                                    ("result"@, JsonView::Text(result)),
                                ],
                            ),
                        ),
                    ],
                ),
            ),
            ("outTrackId"@, JsonView::Text(track)),
        ],
    )
}

/// What is sent to finish a card.
pub fn update_body(out_track_id: &str, result: &str) -> (r: Json)
    ensures
        r@ == update_json(out_track_id@, result@),
{
    object2(
        "cardData",
        object1(
            "cardParamMap",
            object2("flowStatus", text_value("3"), "result", text_value(result)),
        ),
        "outTrackId",
        text_value(out_track_id),
    )
}

// ---------------------------------------------------------------------------
// The cards that are in use
// ---------------------------------------------------------------------------

/// The cards that are in use, by the chats in which they are shown.
pub struct AiCardRegistry {
    pub cards: Table<CardReplier>,
}

/// No card is in use.
pub fn new_card_registry() -> (r: AiCardRegistry)
    ensures
        r.cards@ == Map::<Seq<char>, CardReplier>::empty(),
{
    AiCardRegistry { cards: Table::new() }
}

/// The card of a chat.
pub fn find_card<'a>(registry: &'a AiCardRegistry, chat_id: &str) -> (r: Option<&'a CardReplier>)
    ensures
        r is Some <==> registry.cards@.contains_key(chat_id@),
        r matches Some(c) ==> *c == registry.cards@[chat_id@],
{
    registry.cards.get(chat_id)
}

/// Puts a card in use; one that the chat had before goes.
pub fn register_card(registry: &mut AiCardRegistry, chat_id: &str, card: CardReplier)
    ensures
        final(registry).cards@ == old(registry).cards@.insert(chat_id@, card),
{
    registry.cards.insert(chat_id.to_owned(), card);
}

/// Takes the card of a chat out of use.
pub fn unregister_card(registry: &mut AiCardRegistry, chat_id: &str) -> (r: Option<CardReplier>)
    ensures
        final(registry).cards@ == old(registry).cards@.remove(chat_id@),
        r is Some <==> old(registry).cards@.contains_key(chat_id@),
        r matches Some(c) ==> c == old(registry).cards@[chat_id@],
{
    registry.cards.remove(chat_id)
}

/// Whether a card was given up.
pub open spec fn is_stale(c: CardReplier, now: u64) -> bool {
    now >= c.created_at && (now - c.created_at) / 1000 > CARD_TTL_SECS
}

/// The chats whose cards were given up, each once, in no particular order.
pub fn stale_cards(registry: &AiCardRegistry, now: u64) -> (r: Vec<String>)
    ensures
        text::texts(r@).no_duplicates(),
        forall|k: Seq<char>| #[trigger]
            text::texts(r@).contains(k) <==> registry.cards@.contains_key(k) && is_stale(
                registry.cards@[k],
                now,
            ),
{
    let keys = registry.cards.keys();
    let ghost all = text::texts(keys@);
    let mut out: Vec<String> = Vec::new();
    let mut i: usize = 0;
    while i < keys.len()
        invariant
            0 <= i <= keys@.len(),
            all == text::texts(keys@),
            all.no_duplicates(),
            text::texts(out@).no_duplicates(),
            forall|k: Seq<char>| #[trigger] all.contains(k) <==> registry.cards@.contains_key(k),
            forall|k: Seq<char>| #[trigger]
                text::texts(out@).contains(k) <==> all.take(i as int).contains(k) && is_stale(
                    registry.cards@[k],
                    now,
                ),
        decreases keys@.len() - i,
    {
        let ghost before = text::texts(out@);
        let ghost key = keys@[i as int]@;
        proof {
            assert(all[i as int] == key);
            assert(all.contains(key));
            assert(all.take(i + 1) =~= all.take(i as int).push(key));
            assert forall|k: Seq<char>| #[trigger] all.take(i + 1).contains(k) <==> all.take(
                i as int,
            ).contains(k) || k == key by {
                crate::seqs::lemma_push_contains(all.take(i as int), key, k);
            }
        }
        let stale = match registry.cards.get(keys[i].as_str()) {
            Some(c) => now >= c.created_at && (now - c.created_at) / 1000 > CARD_TTL_SECS,
            None => false,
        };
        if stale {
            out.push(keys[i].clone());
            proof {
                assert(!before.contains(key)) by {
                    assert forall|j: int| 0 <= j < i implies all.take(i as int)[j] != key by {
                        assert(all[j] != all[i as int]);
                    }
                }
                assert(text::texts(out@) =~= before.push(key));
                assert forall|k: Seq<char>| #[trigger]
                    text::texts(out@).contains(k) <==> before.contains(k) || k == key by {
                    crate::seqs::lemma_push_contains(before, key, k);
                }
            }
        }
        i += 1;
    }
    proof {
        assert(all.take(i as int) =~= all);
    }
    out
}

/// Whether the card of a chat is the one with that id.
pub open spec fn tracks(cards: Map<Seq<char>, CardReplier>, chat: Seq<char>, track: Seq<char>) -> bool {
    cards.contains_key(chat) && cards[chat].out_track_id@ == track
}

/// A chat whose card has that id, where there is one.
pub fn find_card_by_track_id(registry: &AiCardRegistry, track_id: &str) -> (r: Option<String>)
    ensures
        r matches Some(chat) ==> tracks(registry.cards@, chat@, track_id@),
        r is None ==> forall|chat: Seq<char>| !#[trigger] tracks(
            registry.cards@,
            chat,
            track_id@,
        ),
{
    let keys = registry.cards.keys();
    let ghost all = text::texts(keys@);
    let mut i: usize = 0;
    while i < keys.len()
        invariant
            0 <= i <= keys@.len(),
            all == text::texts(keys@),
            forall|k: Seq<char>| #[trigger] all.contains(k) <==> registry.cards@.contains_key(k),
            forall|k: int|
                0 <= k < i ==> !tracks(registry.cards@, #[trigger] all[k], track_id@),
        decreases keys@.len() - i,
    {
        proof {
            assert(all[i as int] == keys@[i as int]@);
            assert(all.contains(all[i as int]));
        }
        if let Some(c) = registry.cards.get(keys[i].as_str()) {
            if str_eq(c.out_track_id.as_str(), track_id) {
                return Some(keys[i].clone());
            }
        }
        i += 1;
    }
    proof {
        assert forall|chat: Seq<char>| !#[trigger] tracks(registry.cards@, chat, track_id@) by {
            if tracks(registry.cards@, chat, track_id@) {
                assert(all.contains(chat));
                let k = choose|k: int| 0 <= k < all.len() && all[k] == chat;
                assert(!tracks(registry.cards@, all[k], track_id@));
            }
        }
    }
    None
}

// ---------------------------------------------------------------------------
// What users do with cards
// ---------------------------------------------------------------------------

/// The first of some fields that is there; empty where it is no text, or where
/// none is there.
pub open spec fn first_field(v: JsonView, keys: Seq<Seq<char>>) -> Seq<char>
    decreases keys.len(),
{
    if keys.len() == 0 {
        Seq::empty()
    } else {
        match v.get(keys[0]) {
            Some(f) => match f.text() {
                Some(t) => t,
                None => Seq::empty(),
            },
            None => first_field(v, keys.skip(1)),
        }
    }
}

fn field_text(f: &Json) -> (r: String)
    ensures
        r@ == (match f@.text() {
            Some(t) => t,
            None => Seq::empty(),
        }),
{
    proof {
        text::lemma_empty_literal();
    }
    match f.text() {
        Some(t) => t.to_owned(),
        None => String::new(),
    }
}

/// The card that was clicked.
pub open spec fn clicked_card(v: JsonView) -> Seq<char> {
    first_field(v, seq!["outTrackId"@, "cardInstanceId"@])
}

/// Who has clicked.
pub open spec fn clicker(v: JsonView) -> Seq<char> {
    first_field(v, seq!["userId"@, "staffId"@, "operatorUserId"@])
}

fn find_clicked(v: &Json) -> (r: String)
    ensures
        r@ == clicked_card(v@),
{
    proof {
        text::lemma_empty_literal();
        let k = seq!["outTrackId"@, "cardInstanceId"@];
        assert(k.skip(1) =~= seq!["cardInstanceId"@]);
        assert(seq!["cardInstanceId"@].skip(1) =~= Seq::<Seq<char>>::empty());
        reveal_with_fuel(first_field, 3);
    }
    match v.get("outTrackId") {
        Some(f) => field_text(f),
        None => match v.get("cardInstanceId") {
            Some(f) => field_text(f),
            None => String::new(),
        },
    }
}

fn find_clicker(v: &Json) -> (r: String)
    ensures
        r@ == clicker(v@),
{
    proof {
        text::lemma_empty_literal();
        let k = seq!["userId"@, "staffId"@, "operatorUserId"@];
        assert(k.skip(1) =~= seq!["staffId"@, "operatorUserId"@]);
        assert(seq!["staffId"@, "operatorUserId"@].skip(1) =~= seq!["operatorUserId"@]);
        assert(seq!["operatorUserId"@].skip(1) =~= Seq::<Seq<char>>::empty());
        reveal_with_fuel(first_field, 4);
    }
    match v.get("userId") {
        Some(f) => field_text(f),
        None => match v.get("staffId") {
            Some(f) => field_text(f),
            None => match v.get("operatorUserId") {
                Some(f) => field_text(f),
                None => String::new(),
            },
        },
    }
}

/// For whom and where the agent is to be stopped.
#[derive(Debug)]
pub struct StopRequest {
    pub channel: String,
    pub conversation_id: Option<String>,
    pub user_id: String,
    pub chat_id: String,
}

/// Whether a request to stop is for that chat: one with a colon is a group,
/// before the colon the conversation and behind it the user.
pub open spec fn stops(s: StopRequest, chat: Seq<char>) -> bool {
    let n = text::until(chat, ':') as int;
    &&& s.chat_id@ == chat
    &&& if n < chat.len() {
        &&& s.channel@ == "dingtalk_group"@
        &&& message::opt_text(s.conversation_id) == Some(chat.take(n))
        &&& s.user_id@ == chat.skip(n + 1)
    } else {
        &&& s.channel@ == "dingtalk_private"@
        &&& s.conversation_id is None
        &&& s.user_id@ == chat
    }
}

/// The request to stop the agent in a chat.
pub fn stop_request(chat_id: &str) -> (r: StopRequest)
    ensures
        stops(r, chat_id@),
{
    let cs = text::chars_of(chat_id);
    let n: usize = cs.len();
    let at: usize = text::until_at(cs.as_slice(), ':', 0);
    proof {
        assert(chat_id@.skip(0) =~= chat_id@);
    }
    if at < n {
        let conversation = text::string_of(cs.as_slice(), 0, at);
        let user = text::string_of(cs.as_slice(), at + 1, n);
        proof {
            assert(conversation@ =~= chat_id@.take(at as int));
            assert(user@ =~= chat_id@.skip(at + 1));
        }
        StopRequest {
            channel: "dingtalk_group".to_owned(),
            conversation_id: Some(conversation),
            user_id: user,
            chat_id: chat_id.to_owned(),
        }
    } else {
        StopRequest {
            channel: "dingtalk_private".to_owned(),
            conversation_id: None,
            user_id: chat_id.to_owned(),
            chat_id: chat_id.to_owned(),
        }
    }
}

/// Whether a click on a card stops the agent: the card is in use, and whoever
/// has clicked is known and is the one who asked.
pub open spec fn may_stop(cards: Map<Seq<char>, CardReplier>, v: JsonView, chat: Seq<char>) -> bool {
    &&& clicked_card(v).len() > 0
    &&& tracks(cards, chat, clicked_card(v))
    &&& clicker(v).len() > 0
    &&& clicker(v) == cards[chat].owner_staff_id@
}

/// What a click on a card leads to. Nothing happens where the card is not in
/// use, or where somebody else or nobody known has clicked.
pub fn process_click(registry: &AiCardRegistry, data: &Json) -> (r: Option<StopRequest>)
    ensures
        r matches Some(s) ==> exists|chat: Seq<char>| #[trigger]
            may_stop(registry.cards@, data@, chat) && stops(s, chat),
        r is None ==> clicked_card(data@).len() == 0 || (forall|chat: Seq<char>| !#[trigger] tracks(
            registry.cards@,
            chat,
            clicked_card(data@),
        )) || exists|chat: Seq<char>| #[trigger]
            tracks(registry.cards@, chat, clicked_card(data@)) && !may_stop(
                registry.cards@,
                data@,
                chat,
            ),
{
    let track = find_clicked(data);
    if track.as_str().is_empty() {
        return None;
    }
    let who = find_clicker(data);
    match find_card_by_track_id(registry, track.as_str()) {
        Some(chat) => match registry.cards.get(chat.as_str()) {
            Some(card) => {
                if who.as_str().is_empty() || !str_eq(who.as_str(), card.owner_staff_id.as_str()) {
                    proof {
                        assert(tracks(registry.cards@, chat@, clicked_card(data@)));
                        assert(!may_stop(registry.cards@, data@, chat@));
                    }
                    return None;
                }
                proof {
                    assert(may_stop(registry.cards@, data@, chat@));
                }
                Some(stop_request(chat.as_str()))
            },
            None => None,
        },
        None => None,
    }
}

/// Nobody but the one who asked can stop the agent by a click.
pub proof fn law_only_the_owner_stops(
    cards: Map<Seq<char>, CardReplier>,
    v: JsonView,
    chat: Seq<char>,
)
    requires
        clicker(v).len() == 0 || clicker(v) != cards[chat].owner_staff_id@,
    ensures
        !may_stop(cards, v, chat),
{
}

/// A card at work shows its heading, what the agent thinks and what it does.
pub proof fn law_card_shows_the_work(header: Seq<char>, thinking: Seq<char>, tool: Seq<char>)
    ensures
        text::starts_with(body_of(header, thinking, tool), header),
        thinking.len() > 0 ==> text::contains(body_of(header, thinking, tool), thinking),
        tool.len() > 0 ==> text::ends_with(body_of(header, thinking, tool), tool),
{
    let s = body_of(header, thinking, tool);
    assert(s.subrange(0, header.len() as int) =~= header);
    if thinking.len() > 0 {
        let a = header + "\n\n🔍 思考中"@ + "\n\n▎"@;
        let b = s.skip((a.len() + thinking.len()) as int);
        assert(s =~= a + thinking + b);
        text::lemma_contains_part(a, thinking, b);
    }
    if tool.len() > 0 {
        assert(s.subrange(s.len() - tool.len(), s.len() as int) =~= tool);
    }
}

/// A finished card shows the reply as it is, unless there is none.
pub proof fn law_finished_card_shows_the_reply(header: Seq<char>, reply: Seq<char>, k: int)
    requires
        0 <= k < reply.len(),
        !text::is_white(reply[k]),
    ensures
        final_body(header, reply) == reply,
{
    text::lemma_trim_black(reply, k);
}

/// Of the lines of a thought the last that is not blank is shown.
pub proof fn law_last_line_is_shown(lines: Seq<Seq<char>>, i: int)
    requires
        0 <= i < lines.len(),
        text::trim(lines[i]).len() > 0,
        forall|j: int| i < j < lines.len() ==> text::trim(#[trigger] lines[j]).len() == 0,
    ensures
        last_line(lines) == lines[i],
    decreases lines.len(),
{
    if i < lines.len() - 1 {
        let p = lines.drop_last();
        assert(text::trim(lines[lines.len() - 1]).len() == 0);
        assert forall|j: int| i < j < p.len() implies text::trim(#[trigger] p[j]).len() == 0 by {
            assert(p[j] == lines[j]);
        }
        law_last_line_is_shown(p, i);
    }
}

/// What is sent of a card names the card, and carries what it is to show.
pub proof fn law_requests_name_their_card(
    template_id: Seq<char>,
    track: Seq<char>,
    guid: Seq<char>,
    content: Seq<char>,
    full: bool,
    last: bool,
)
    ensures
        create_json(template_id, track).get_text("outTrackId"@) == Some(track),
        create_json(template_id, track).get_text("cardTemplateId"@) == Some(template_id),
        stream_json(track, guid, content, full, last).get_text("outTrackId"@) == Some(track),
        stream_json(track, guid, content, full, last).get_text("content"@) == Some(content),
        stream_json(track, guid, content, full, last).get_text("guid"@) == Some(guid),
        stream_json(track, guid, content, full, last).get("isFull"@) == Some(JsonView::Bool(full)),
        stream_json(track, guid, content, full, last).get("isFinalize"@) == Some(
            JsonView::Bool(last),
        ),
{
    reveal_strlit("callbackType");
    reveal_strlit("cardData");
    reveal_strlit("cardTemplateId");
    reveal_strlit("imGroupOpenSpaceModel");
    reveal_strlit("imRobotOpenSpaceModel");
    reveal_strlit("outTrackId");
    reveal_strlit("userIdType");
    reveal_strlit("content");
    reveal_strlit("guid");
    reveal_strlit("isError");
    reveal_strlit("isFinalize");
    reveal_strlit("isFull");
    reveal_strlit("key");
    assert("callbackType"@.len() == 12 && "cardData"@.len() == 8 && "cardTemplateId"@.len() == 14
        && "imGroupOpenSpaceModel"@.len() == 21 && "imRobotOpenSpaceModel"@.len() == 21
        && "outTrackId"@.len() == 10 && "userIdType"@.len() == 10);
    assert("content"@.len() == 7 && "guid"@.len() == 4 && "isError"@.len() == 7
        && "isFinalize"@.len() == 10 && "isFull"@.len() == 6 && "key"@.len() == 3);
    assert("outTrackId"@[0] != "userIdType"@[0]);
    assert("content"@[0] != "isError"@[0]);
    assert("outTrackId"@[0] != "isFinalize"@[0]);
    let m = create_json(template_id, track)->Object_0;
    json::lemma_member_at(m, 5);
    json::lemma_member_at(m, 2);
    let s = stream_json(track, guid, content, full, last)->Object_0;
    json::lemma_member_at(s, 0);
    json::lemma_member_at(s, 1);
    json::lemma_member_at(s, 3);
    json::lemma_member_at(s, 4);
    json::lemma_member_at(s, 6);
}

/// A card is delivered to the user in private and to the conversation
/// otherwise.
pub proof fn law_card_is_delivered_to_its_chat(
    track: Seq<char>,
    robot: Seq<char>,
    conversation: Seq<char>,
    staff: Seq<char>,
    private: bool,
)
    ensures
        ({
            let d = deliver_json(track, robot, conversation, staff, private);
            &&& d.get_text("outTrackId"@) == Some(track)
            &&& d.get_text("openSpaceId"@) matches Some(t) && text::ends_with(
                t,
                if private {
                    staff
                } else {
                    conversation
                },
            )
        }),
{
    reveal_strlit("openSpaceId");
    reveal_strlit("outTrackId");
    reveal_strlit("userIdType");
    assert("openSpaceId"@.len() == 11 && "outTrackId"@.len() == 10 && "userIdType"@.len() == 10);
    assert("outTrackId"@[0] != "userIdType"@[0]);
    let m = deliver_json(track, robot, conversation, staff, private)->Object_0;
    json::lemma_member_at(m, 1);
    json::lemma_member_at(m, 2);
    let a = "dtv1.card//IM_ROBOT."@ + staff;
    let b = "dtv1.card//IM_GROUP."@ + conversation;
    assert(a.subrange(a.len() - staff.len(), a.len() as int) =~= staff);
    assert(b.subrange(b.len() - conversation.len(), b.len() as int) =~= conversation);
}

/// The card that was clicked and who clicked it are read from the first of
/// their fields that is there.
pub proof fn law_click_is_read(v: JsonView, t: Seq<char>)
    ensures
        v.get("outTrackId"@) == Some(JsonView::Text(t)) ==> clicked_card(v) == t,
        v.get("outTrackId"@) is None && v.get("cardInstanceId"@) == Some(JsonView::Text(t))
            ==> clicked_card(v) == t,
        v.get("userId"@) == Some(JsonView::Text(t)) ==> clicker(v) == t,
        v.get("userId"@) is None && v.get("staffId"@) == Some(JsonView::Text(t)) ==> clicker(v)
            == t,
        v.get("userId"@) is None && v.get("staffId"@) is None && v.get("operatorUserId"@) == Some(
            JsonView::Text(t),
        ) ==> clicker(v) == t,
{
    let k = seq!["outTrackId"@, "cardInstanceId"@];
    assert(k.skip(1) =~= seq!["cardInstanceId"@]);
    let c = seq!["userId"@, "staffId"@, "operatorUserId"@];
    assert(c.skip(1) =~= seq!["staffId"@, "operatorUserId"@]);
    assert(c.skip(1).skip(1) =~= seq!["operatorUserId"@]);
    reveal_with_fuel(first_field, 4);
}

/// The owner of the card of a chat may stop the work on it.
pub proof fn law_owner_may_stop(
    cards: Map<Seq<char>, CardReplier>,
    v: JsonView,
    chat: Seq<char>,
    t: Seq<char>,
)
    requires
        v.get("outTrackId"@) == Some(JsonView::Text(t)),
        t.len() > 0,
        cards.contains_key(chat),
        cards[chat].out_track_id@ == t,
        v.get("userId"@) == Some(JsonView::Text(cards[chat].owner_staff_id@)),
        cards[chat].owner_staff_id@.len() > 0,
    ensures
        may_stop(cards, v, chat),
{
    law_click_is_read(v, t);
    law_click_is_read(v, cards[chat].owner_staff_id@);
}

/// A finished card is changed under its own id, and carries the reply.
pub proof fn law_result_is_carried(track: Seq<char>, result: Seq<char>)
    ensures
        update_json(track, result).get_text("outTrackId"@) == Some(track),
        update_json(track, result).get("cardData"@) is Some,
        update_json(track, result).get("cardData"@)->0.get("cardParamMap"@) is Some,
        update_json(track, result).get("cardData"@)->0.get("cardParamMap"@)->0.get_text("result"@)
            == Some(result),
{
    let m = update_json(track, result)->Object_0;
    reveal_strlit("cardData");
    reveal_strlit("outTrackId");
    assert("cardData"@.len() == 8 && "outTrackId"@.len() == 10);
    json::lemma_member_at(m, 0);
    json::lemma_member_at(m, 1);
    let d = m[0].1->Object_0;
    json::lemma_member_at(d, 0);
    json::lemma_member_at(d[0].1->Object_0, 1);
}

/// A card is given up once it is older than its time, and never before; one
/// that was given up stays so.
pub proof fn law_old_cards_are_given_up(c: CardReplier, now: u64, later: u64)
    ensures
        now < c.created_at + (CARD_TTL_SECS + 1) * 1000 ==> !is_stale(c, now),
        now >= c.created_at + (CARD_TTL_SECS + 1) * 1000 ==> is_stale(c, now),
        is_stale(c, now) && later >= now ==> is_stale(c, later),
{
}

/// A request to stop names the conversation and the user of a chat in a
/// group, and the user of one in private.
pub proof fn law_stop_names_the_parties(
    s: StopRequest,
    conversation: Seq<char>,
    user: Seq<char>,
)
    requires
        forall|i: int| 0 <= i < conversation.len() ==> #[trigger] conversation[i] != ':',
    ensures
        stops(s, conversation + seq![':'] + user) ==> s.conversation_id is Some
            && s.conversation_id->0@ == conversation && s.user_id@ == user && s.channel@
            == "dingtalk_group"@,
        stops(s, conversation) ==> s.conversation_id is None && s.user_id@ == conversation
            && s.channel@ == "dingtalk_private"@,
{
    let chat = conversation + seq![':'] + user;
    let k = conversation.len() as int;
    text::lemma_until(chat, ':');
    text::lemma_until(conversation, ':');
    let n = text::until(chat, ':') as int;
    assert(chat[k] == ':');
    if n < k {
        assert(chat[n] == conversation[n]);
    }
    assert(chat.take(k) =~= conversation);
    assert(chat.skip(k + 1) =~= user);
}

} // verus!

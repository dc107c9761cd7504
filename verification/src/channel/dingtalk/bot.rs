//! The bot: what it does with a message, and how it answers.

use crate::channel::dingtalk::message as dingtalk;
use crate::channel::dingtalk::message::ChatbotMessage;
use crate::message;
use crate::message::clone_opt;
use crate::orchestration::bus::InboundMessage;
use crate::text;
use crate::text::{
    decimal, fits_bytes, is_blank, str_eq, str_floor_prefix, str_join, str_take_chars, str_trim,
};
use vstd::prelude::*;

verus! {

// ---------------------------------------------------------------------------
// Who asks what, and where
// ---------------------------------------------------------------------------

/// A message to the bot, as the rest of the program sees it.
#[derive(Debug)]
pub struct Asked {
    pub staff_id: String,
    pub nick: String,
    pub question: String,
    pub channel: String,
    pub chat_id: String,
    pub conversation_id: Option<String>,
    pub is_private: bool,
}

/// The name by which a sender is called.
pub open spec fn nick_of(m: ChatbotMessage) -> Seq<char> {
    if m.sender_nick@.len() == 0 {
        "unknown"@
    } else {
        m.sender_nick@
    }
}

/// The texts of a message in one line.
pub open spec fn question_of(m: ChatbotMessage) -> Seq<char> {
    text::join(dingtalk::texts_in(m), " "@)
}

/// The chat to which a message belongs.
pub open spec fn chat_of(m: ChatbotMessage) -> Seq<char> {
    if m.conversation_type@ == "1"@ {
        m.sender_staff_id@
    } else {
        m.conversation_id@ + ":"@ + m.sender_staff_id@
    }
}

/// A message to the bot, as the rest of the program sees it.
pub fn read_message(m: &ChatbotMessage) -> (r: Asked)
    ensures
        r.staff_id@ == m.sender_staff_id@,
        r.nick@ == nick_of(*m),
        r.question@ == question_of(*m),
        r.channel@ == (if m.conversation_type@ == "1"@ {
            "dingtalk_private"@
        } else {
            "dingtalk_group"@
        }),
        r.chat_id@ == chat_of(*m),
        message::opt_text(r.conversation_id) == (if m.conversation_id@.len() == 0 {
            None
        } else {
            Some(m.conversation_id@)
        }),
        r.is_private == (m.conversation_type@ == "1"@),
{
    let nick = if m.sender_nick.as_str().is_empty() {
        "unknown".to_owned()
    } else {
        m.sender_nick.clone()
    };
    let texts = m.get_text_list();
    let question = str_join(&texts, " ");
    let is_private = m.is_private();
    let chat_id = if is_private {
        m.sender_staff_id.clone()
    } else {
        let mut c = m.conversation_id.clone();
        c.push_str(":");
        c.push_str(m.sender_staff_id.as_str());
        c
    };
    let conversation_id = if m.conversation_id.as_str().is_empty() {
        None
    } else {
        Some(m.conversation_id.clone())
    };
    Asked {
        staff_id: m.sender_staff_id.clone(),
        nick,
        question,
        channel: if is_private {
            "dingtalk_private".to_owned()
        } else {
            "dingtalk_group".to_owned()
        },
        chat_id,
        conversation_id,
        is_private,
    }
}

// ---------------------------------------------------------------------------
// What is done with a message
// ---------------------------------------------------------------------------

/// What is done with a message.
#[derive(Debug, Clone, Copy, PartialEq, Eq, Structural)]
pub enum BotStep {
    /// Stop the agent.
    Cancel,
    /// Begin a new conversation.
    Clear,
    /// Ask for a question.
    Greet,
    /// Hand it to the agent.
    Ask,
}

/// Whether a message, in small letters, asks to stop the agent.
pub open spec fn asks_to_stop(lowered: Seq<char>) -> bool {
    ||| lowered == "终止"@
    ||| lowered == "停止"@
    ||| lowered == "终止任务"@
    ||| lowered == "停止任务"@
    ||| lowered == "暂停"@
    ||| lowered == "stop"@
    ||| lowered == "cancel"@
    ||| lowered == "/stop"@
    ||| lowered == "/cancel"@
}

/// Whether a message asks for a new conversation.
pub open spec fn asks_to_clear(question: Seq<char>) -> bool {
    question == "新话题"@ || question == "/new"@
}

/// What is done with a message, given its text also in small letters.
pub open spec fn step_for(
    question: Seq<char>,
    lowered: Seq<char>,
    images: nat,
    files: nat,
) -> BotStep {
    if asks_to_stop(lowered) {
        BotStep::Cancel
    } else if asks_to_clear(question) {
        BotStep::Clear
    } else if question.len() == 0 && images == 0 && files == 0 {
        BotStep::Greet
    } else {
        BotStep::Ask
    }
}

/// What is done with a message, given its text also in small letters.
pub fn choose_step(question: &str, lowered: &str, images: usize, files: usize) -> (r: BotStep)
    ensures
        r == step_for(question@, lowered@, images as nat, files as nat),
{
    if str_eq(lowered, "终止") || str_eq(lowered, "停止") || str_eq(lowered, "终止任务") || str_eq(
        lowered,
        "停止任务",
    ) || str_eq(lowered, "暂停") || str_eq(lowered, "stop") || str_eq(lowered, "cancel") || str_eq(
        lowered,
        "/stop",
    ) || str_eq(lowered, "/cancel") {
        return BotStep::Cancel;
    }
    if str_eq(question, "新话题") || str_eq(question, "/new") {
        return BotStep::Clear;
    }
    if question.is_empty() && images == 0 && files == 0 {
        return BotStep::Greet;
    }
    BotStep::Ask
}

/// What is done with a message.
pub fn process(m: &ChatbotMessage) -> (r: BotStep)
    ensures
        r == step_for(
            question_of(*m),
            text::lowercased(text::trim(question_of(*m))),
            dingtalk::codes_in(*m).len(),
            dingtalk::files_in(*m).len(),
        ),
{
    let asked = read_message(m);
    let lowered = str_trim(asked.question.as_str()).as_str().to_lowercase();
    let images = m.get_image_list();
    let files = m.get_file_list();
    proof {
        assert(text::texts(images@).len() == images@.len());
        assert(crate::order::keyed(files@).len() == files@.len());
    }
    choose_step(asked.question.as_str(), lowered.as_str(), images.len(), files.len())
}

/// What a user is told who has asked to stop the agent.
pub fn cancel_reply(cancelled: bool) -> (r: String)
    ensures
        r@ == (if cancelled {
            "⏹ 已请求终止当前任务，正在收尾..."@
        } else {
            "当前没有正在运行的任务。"@
        }),
{
    if cancelled {
        "⏹ 已请求终止当前任务，正在收尾...".to_owned()
    } else {
        "当前没有正在运行的任务。".to_owned()
    }
}

/// What a user is told who has asked nothing.
pub const GREETING: &'static str = "你好，请发送你的问题~";

/// What a user is told where something went wrong.
pub const FAILURE: &'static str = "处理过程出错，请联系管理员。";

/// What is shown on a message that was received.
pub const RECEIVED: &'static str = "🦀收到...";

/// What a user is told who could not get a new conversation.
pub fn clear_failed(error: &str) -> (r: String)
    ensures
        r@ == "清除会话失败: "@ + error@,
{
    let mut r = "清除会话失败: ".to_owned();
    r.push_str(error);
    r
}

/// What stands at the top of a card.
pub fn card_header(nick: &str, question: &str) -> (r: String)
    ensures
        r@ == "**"@ + nick@ + ":** "@ + question@,
{
    let mut r = "**".to_owned();
    r.push_str(nick);
    r.push_str(":** ");
    r.push_str(question);
    r
}

/// What the agent is asked, given how many images and files have come.
pub open spec fn full_question(question: Seq<char>, images: nat, files: nat) -> Seq<char> {
    if question.len() == 0 && images > 0 {
        "请查看图片并分析。"@
    } else if question.len() == 0 && files > 0 {
        "请查看附件文件并分析。"@
    } else {
        question
    }
}

/// The message that goes to the agent for a message to the bot.
pub fn inbound(
    asked: &Asked,
    msg_id: &str,
    conversation_id: &str,
    images: Vec<String>,
    files: Vec<(String, String)>,
) -> (r: InboundMessage)
    ensures
        r.content@ == full_question(asked.question@, images@.len(), files@.len()),
        r.user_id@ == asked.staff_id@,
        r.user_name@ == asked.nick@,
        r.workspace_id@ == "default"@,
        r.channel@ == asked.channel@,
        r.chat_id@ == asked.chat_id@,
        message::opt_text(r.conversation_id) == message::opt_text(asked.conversation_id),
        r.images == images,
        r.files == files,
        r.awaits_reply,
        !r.is_timer,
        r.emotion_context matches Some(e) && e.0@ == msg_id@ && e.1@ == conversation_id@,
{
    let content = if asked.question.as_str().is_empty() && images.len() > 0 {
        "请查看图片并分析。".to_owned()
    } else if asked.question.as_str().is_empty() && files.len() > 0 {
        "请查看附件文件并分析。".to_owned()
    } else {
        asked.question.clone()
    };
    InboundMessage {
        content,
        user_id: asked.staff_id.clone(),
        user_name: asked.nick.clone(),
        workspace_id: "default".to_owned(),
        channel: asked.channel.clone(),
        chat_id: asked.chat_id.clone(),
        conversation_id: clone_opt(&asked.conversation_id),
        images,
        files,
        awaits_reply: true,
        is_timer: false,
        emotion_context: Some((msg_id.to_owned(), conversation_id.to_owned())),
    }
}

/// The message that goes to the agent for a new conversation.
pub fn clear_inbound(asked: &Asked) -> (r: InboundMessage)
    ensures
        r.content@ == "/new"@,
        r.user_id@ == asked.staff_id@,
        r.user_name@ == asked.nick@,
        r.workspace_id@ == "default"@,
        r.channel@ == asked.channel@,
        r.chat_id@ == asked.chat_id@,
        message::opt_text(r.conversation_id) == message::opt_text(asked.conversation_id),
        r.images@.len() == 0,
        r.files@.len() == 0,
        r.awaits_reply,
        !r.is_timer,
        r.emotion_context is None,
{
    InboundMessage {
        content: "/new".to_owned(),
        user_id: asked.staff_id.clone(),
        user_name: asked.nick.clone(),
        workspace_id: "default".to_owned(),
        channel: asked.channel.clone(),
        chat_id: asked.chat_id.clone(),
        conversation_id: clone_opt(&asked.conversation_id),
        images: Vec::new(),
        files: Vec::new(),
        awaits_reply: true,
        is_timer: false,
        emotion_context: None,
    }
}

// ---------------------------------------------------------------------------
// How a message is answered
// ---------------------------------------------------------------------------

/// An answer that is not too long.
pub open spec fn shortened(t: Seq<char>) -> Seq<char> {
    if text::byte_len(t) > 20000 {
        text::floor_prefix(t, 20000) + "\n\n...（内容过长已截断）"@
    } else {
        t
    }
}

/// What stands above an answer.
pub open spec fn answer_header(private: bool, nick: Seq<char>, asked: Seq<char>) -> Seq<char> {
    let preview = text::take_chars(asked, 50);
    if private {
        "<font size=2 color=#888888>您的问题："@ + preview + "</font>"@
    } else {
        "<font size=2 color=#888888>"@ + nick + " 的问题："@ + preview + "</font>"@
    }
}

/// What stands below an answer.
pub open spec fn answer_footer(secs: nat, tokens: nat) -> Seq<char> {
    if tokens > 0 {
        "<font size=2 color=#888888>🦀 "@ + text::dec(secs) + "秒，"@ + text::dec(tokens)
            + " tokens</font>"@
    } else {
        "<font size=2 color=#888888>🦀 "@ + text::dec(secs) + "秒</font>"@
    }
}

/// An answer, as it goes out.
#[derive(Debug)]
pub struct Answer {
    /// The answer alone.
    pub reply: String,
    /// For a message: with what was asked and what it took.
    pub formatted: String,
    /// For a card: with what it took.
    pub card_content: String,
}

/// The answer of the agent, as it goes out; none where the agent says nothing.
/// `duration_secs` is how long it took.
pub fn format_answer(
    asked: &Asked,
    content: &str,
    response: &str,
    duration_secs: u64,
    prompt_tokens: u64,
    completion_tokens: u64,
) -> (r: Option<Answer>)
    ensures
        r is Some <==> text::trim(response@).len() > 0,
        r matches Some(a) ==> {
            let footer = answer_footer(
                duration_secs as nat,
                (prompt_tokens + completion_tokens) as nat,
            );
            &&& a.reply@ == shortened(response@)
            &&& a.card_content@ == shortened(response@) + "\n\n"@ + footer
            &&& a.formatted@ == answer_header(asked.is_private, asked.nick@, content@) + "\n\n"@
                + shortened(response@) + "\n\n"@ + footer
        },
{
    if is_blank(response) {
        return None;
    }
    let reply = if fits_bytes(response, 20000) {
        response.to_owned()
    } else {
        let mut t = str_floor_prefix(response, 20000);
        t.push_str("\n\n...（内容过长已截断）");
        t
    };
    let preview = str_take_chars(content, 50);
    let mut header = "<font size=2 color=#888888>".to_owned();
    if asked.is_private {
        header = "<font size=2 color=#888888>您的问题：".to_owned();
    } else {
        header.push_str(asked.nick.as_str());
        header.push_str(" 的问题：");
    }
    header.push_str(preview.as_str());
    header.push_str("</font>");
    let total: u128 = prompt_tokens as u128 + completion_tokens as u128;
    let mut footer = "<font size=2 color=#888888>🦀 ".to_owned();
    footer.push_str(decimal(duration_secs as u128).as_str());
    if total > 0 {
        footer.push_str("秒，");
        footer.push_str(decimal(total).as_str());
        footer.push_str(" tokens</font>");
    } else {
        footer.push_str("秒</font>");
    }
    let mut card_content = reply.clone();
    card_content.push_str("\n\n");
    card_content.push_str(footer.as_str());
    let mut formatted = header;
    formatted.push_str("\n\n");
    formatted.push_str(reply.as_str());
    formatted.push_str("\n\n");
    formatted.push_str(footer.as_str());
    Some(Answer { reply, formatted, card_content })
}

/// How an answer reaches the user.
#[derive(Debug, Clone, Copy, PartialEq, Eq, Structural)]
pub enum Delivery {
    /// The card shows it.
    Card,
    /// As an answer to the message.
    Webhook,
    /// Unasked, since the message could not be answered.
    Proactive,
}

/// How an answer reaches the user, given whether there was a card and it was
/// finished, and whether answering the message went well.
pub fn delivery(card_finished: Option<bool>, webhook_sent: bool) -> (r: Delivery)
    ensures
        r == (if card_finished == Some(true) {
            Delivery::Card
        } else if webhook_sent {
            Delivery::Webhook
        } else {
            Delivery::Proactive
        }),
{
    match card_finished {
        Some(true) => Delivery::Card,
        _ => if webhook_sent {
            Delivery::Webhook
        } else {
            Delivery::Proactive
        },
    }
}

/// In a group everybody has a chat of their own, and no chat of a group is one
/// in private, as long as no staff id holds a colon.
pub proof fn law_chats_differ(a: ChatbotMessage, b: ChatbotMessage)
    requires
        forall|i: int| 0 <= i < a.sender_staff_id@.len() ==> #[trigger] a.sender_staff_id@[i]
            != ':',
        forall|i: int| 0 <= i < b.sender_staff_id@.len() ==> #[trigger] b.sender_staff_id@[i]
            != ':',
        chat_of(a) == chat_of(b),
    ensures
        a.sender_staff_id@ == b.sender_staff_id@,
        (a.conversation_type@ == "1"@) == (b.conversation_type@ == "1"@),
        a.conversation_type@ != "1"@ ==> a.conversation_id@ == b.conversation_id@,
{
    reveal_strlit(":");
    let ca = chat_of(a);
    let cb = chat_of(b);
    let sa = a.sender_staff_id@;
    let sb = b.sender_staff_id@;
    if a.conversation_type@ != "1"@ {
        let i = a.conversation_id@.len() as int;
        assert(ca[i] == ':');
        assert(ca.skip(i + 1) =~= sa);
        if b.conversation_type@ == "1"@ {
            assert(sb[i] == ':');
        } else {
            let j = b.conversation_id@.len() as int;
            assert(cb[j] == ':');
            assert(cb.skip(j + 1) =~= sb);
            if i < j {
                assert(sa[j - i - 1] == ca[j]);
            }
            if j < i {
                assert(sb[i - j - 1] == cb[i]);
            }
            assert(ca.take(i) =~= a.conversation_id@);
            assert(cb.take(j) =~= b.conversation_id@);
        }
    } else if b.conversation_type@ != "1"@ {
        let j = b.conversation_id@.len() as int;
        assert(cb[j] == ':');
        assert(sa[j] == ':');
    }
}

/// What is asked holds every text of the message.
pub proof fn law_question_holds_every_text(m: ChatbotMessage, i: int)
    requires
        0 <= i < dingtalk::texts_in(m).len(),
    ensures
        text::contains(question_of(m), dingtalk::texts_in(m)[i]),
        dingtalk::texts_in(m).len() == 1 ==> question_of(m) == dingtalk::texts_in(m)[0],
{
    text::law_joined_text_holds_every_part(dingtalk::texts_in(m), " "@, i);
}

/// A message that says or carries something is handed to the agent, unless it
/// asks to stop or for a new conversation; an empty one is greeted.
pub proof fn law_questions_are_asked(
    question: Seq<char>,
    lowered: Seq<char>,
    images: nat,
    files: nat,
)
    requires
        !asks_to_stop(lowered),
        question != "新话题"@,
        question != "/new"@,
    ensures
        question.len() > 0 || images > 0 || files > 0 <==> step_for(
            question,
            lowered,
            images,
            files,
        ) == BotStep::Ask,
        question.len() == 0 && images == 0 && files == 0 <==> step_for(
            question,
            lowered,
            images,
            files,
        ) == BotStep::Greet,
{
}

/// The agent is asked what was asked; where nothing was said with an image or
/// a file it is still asked something.
pub proof fn law_question_is_passed_on(question: Seq<char>, images: nat, files: nat)
    ensures
        question.len() > 0 ==> full_question(question, images, files) == question,
        images > 0 || files > 0 ==> full_question(question, images, files).len() > 0,
{
    reveal_strlit("请查看图片并分析。");
    reveal_strlit("请查看附件文件并分析。");
}

/// An answer goes out whole where it is not too long, else its front does, and
/// it is never longer than allowed but for the note on the cut.
pub proof fn law_answer_goes_out_whole(response: Seq<char>)
    ensures
        text::byte_len(response) <= 20000 ==> shortened(response) == response,
        text::byte_len(response) > 20000 ==> exists|k: int|
            0 <= k < response.len() && text::starts_with(
                shortened(response),
                #[trigger] response.take(k),
            ) && text::byte_len(response.take(k)) <= 20000 && text::byte_len(
                response.take(k + 1),
            ) > 20000,
{
    if text::byte_len(response) > 20000 {
        text::lemma_floor_chars(response, 20000);
        let k = text::floor_chars(response, 20000) as int;
        let p = response.take(k);
        assert(text::floor_prefix(response, 20000) =~= p);
        assert(shortened(response).subrange(0, p.len() as int) =~= p);
        assert(response.take(response.len() as int) =~= response);
    }
}

/// The heading of an answer in a group says whose question it answers, and
/// what it was.
pub proof fn law_heading_tells_the_question(private: bool, nick: Seq<char>, asked: Seq<char>)
    ensures
        asked.len() <= 50 ==> text::contains(answer_header(private, nick, asked), asked),
        asked.len() > 50 ==> text::contains(answer_header(private, nick, asked), asked.take(50)),
        !private ==> text::contains(answer_header(private, nick, asked), nick),
{
    let h = answer_header(private, nick, asked);
    let p = text::take_chars(asked, 50);
    let a = "<font size=2 color=#888888>您的问题："@;
    let b = "<font size=2 color=#888888>"@;
    let c = " 的问题："@;
    let d = "</font>"@;
    if private {
        assert(h =~= a + p + d);
        text::lemma_contains_part(a, p, d);
    } else {
        assert(h =~= (b + nick + c) + p + d);
        text::lemma_contains_part(b + nick + c, p, d);
        assert(h =~= b + nick + (c + p + d));
        text::lemma_contains_part(b, nick, c + p + d);
    }
}

/// The line below an answer tells how long it took and what it cost.
pub proof fn law_footer_tells_the_cost(secs: nat, tokens: nat)
    ensures
        text::contains(answer_footer(secs, tokens), text::dec(secs)),
        tokens > 0 ==> text::contains(answer_footer(secs, tokens), text::dec(tokens)),
{
    let f = answer_footer(secs, tokens);
    let a = "<font size=2 color=#888888>🦀 "@;
    let s = text::dec(secs);
    let n = text::dec(tokens);
    if tokens > 0 {
        assert(f =~= a + s + ("秒，"@ + n + " tokens</font>"@));
        text::lemma_contains_part(a, s, "秒，"@ + n + " tokens</font>"@);
        assert(f =~= (a + s + "秒，"@) + n + " tokens</font>"@);
        text::lemma_contains_part(a + s + "秒，"@, n, " tokens</font>"@);
    } else {
        assert(f =~= a + s + "秒</font>"@);
        text::lemma_contains_part(a, s, "秒</font>"@);
    }
}

/// The words that ask to stop do stop the agent, whatever else has come; a
/// longer text never does. The words for a new conversation begin one.
pub proof fn law_stop_words_stop(question: Seq<char>, lowered: Seq<char>, images: nat, files: nat)
    ensures
        step_for(question, "stop"@, images, files) == BotStep::Cancel,
        step_for(question, "cancel"@, images, files) == BotStep::Cancel,
        step_for(question, "/stop"@, images, files) == BotStep::Cancel,
        step_for(question, "/cancel"@, images, files) == BotStep::Cancel,
        step_for(question, "终止"@, images, files) == BotStep::Cancel,
        step_for(question, "停止"@, images, files) == BotStep::Cancel,
        step_for(question, "终止任务"@, images, files) == BotStep::Cancel,
        step_for(question, "停止任务"@, images, files) == BotStep::Cancel,
        step_for(question, "暂停"@, images, files) == BotStep::Cancel,
        lowered.len() > 7 ==> step_for(question, lowered, images, files) != BotStep::Cancel,
        lowered.len() > 7 ==> step_for("/new"@, lowered, images, files) == BotStep::Clear,
        lowered.len() > 7 ==> step_for("新话题"@, lowered, images, files) == BotStep::Clear,
{
    reveal_strlit("终止");
    reveal_strlit("停止");
    reveal_strlit("终止任务");
    reveal_strlit("停止任务");
    reveal_strlit("暂停");
    reveal_strlit("stop");
    reveal_strlit("cancel");
    reveal_strlit("/stop");
    reveal_strlit("/cancel");
    assert("终止"@.len() == 2 && "停止"@.len() == 2 && "终止任务"@.len() == 4 && "停止任务"@.len()
        == 4 && "暂停"@.len() == 2 && "stop"@.len() == 4 && "cancel"@.len() == 6 && "/stop"@.len()
        == 5 && "/cancel"@.len() == 7);
}

/// In private a user has one chat; in a group everybody has a chat, named by
/// the group and by the user.
pub proof fn law_everybody_has_a_chat(a: ChatbotMessage, b: ChatbotMessage)
    requires
        a.conversation_type@ == b.conversation_type@,
        a.conversation_id@ == b.conversation_id@,
    ensures
        chat_of(a) == chat_of(b) <==> a.sender_staff_id@ == b.sender_staff_id@,
        a.conversation_type@ == "1"@ ==> chat_of(a) == a.sender_staff_id@,
        a.conversation_type@ != "1"@ ==> text::starts_with(chat_of(a), a.conversation_id@)
            && text::ends_with(chat_of(a), a.sender_staff_id@),
{
    if a.conversation_type@ != "1"@ {
        let head = a.conversation_id@ + ":"@;
        let x = chat_of(a);
        let y = chat_of(b);
        assert(x.skip(head.len() as int) =~= a.sender_staff_id@);
        assert(y.skip(head.len() as int) =~= b.sender_staff_id@);
        assert(x.subrange(0, a.conversation_id@.len() as int) =~= a.conversation_id@);
        assert(x.subrange(x.len() - a.sender_staff_id@.len(), x.len() as int)
            =~= a.sender_staff_id@);
    }
}

/// A sender is called by the name that the message gives.
pub proof fn law_sender_is_called_by_name(m: ChatbotMessage)
    ensures
        m.sender_nick@.len() > 0 ==> nick_of(m) == m.sender_nick@,
        nick_of(m).len() > 0,
{
    reveal_strlit("unknown");
}

} // verus!

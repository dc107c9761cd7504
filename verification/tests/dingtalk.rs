use tyclaw::channel::dingtalk::ai_card::{
    find_card, find_card_by_track_id, new_card_registry, process_click, register_card,
    stale_cards, stop_request, unregister_card, CardReplier, create_body, deliver_body,
    check_step, check_delivery, stream_body, update_body, CARD_TTL_SECS,
};
use tyclaw::channel::dingtalk::bot::{
    cancel_reply, card_header, choose_step, clear_failed, clear_inbound, delivery, format_answer,
    inbound, process, read_message, BotStep, Delivery,
};
use tyclaw::channel::dingtalk::credential::{Credential, TokenState};
use tyclaw::channel::dingtalk::gateway::{
    handle_text, next_retry_delay, GatewayEnvelope, FIRST_RETRY_DELAY,
};
use tyclaw::channel::dingtalk::handler::{
    check_content_length, detect_image_mime, download_request, get_download_url,
    image_as_data_uri, post_json_with_retry, post_webhook, reply_file, reply_markdown,
    reply_text, save_path, send_text_by_channel, send_text_proactive, sent_name, take_chunk,
    upload_media, upload_url, Retry, MAX_FILE_BYTES, MAX_IMAGE_BYTES,
};
use tyclaw::channel::dingtalk::message::{
    AckMessage, CallbackMessage, ChatbotMessage, StreamFrame, TextContent, STATUS_ERROR,
};
use tyclaw::json::{object1, text_value, Json};

fn object(members: Vec<(&str, Json)>) -> Json {
    Json::Object(members.into_iter().map(|(k, v)| (k.to_string(), v)).collect())
}

#[test]
fn test_parse_chatbot_message() {
    let msg = ChatbotMessage {
        msg_id: "msg123".into(),
        conversation_type: "1".into(),
        conversation_id: "conv456".into(),
        sender_staff_id: "staff789".into(),
        sender_nick: "张三".into(),
        msgtype: "text".into(),
        text: Some(TextContent { content: "你好".into() }),
        session_webhook: "https://oapi.dingtalk.com/robot/sendBySession".into(),
        ..Default::default()
    };
    assert!(msg.is_private());
    assert_eq!(msg.sender_nick, "张三");
    assert_eq!(msg.get_text_list(), vec!["你好"]);
}

#[test]
fn test_parse_image_message() {
    let msg = ChatbotMessage {
        msgtype: "picture".into(),
        conversation_type: "2".into(),
        content: Some(object(vec![("downloadCode", text_value("img_code_123"))])),
        session_webhook: "https://example.com".into(),
        ..Default::default()
    };
    assert!(!msg.is_private());
    assert_eq!(msg.get_image_list(), vec!["img_code_123"]);
}

#[test]
fn test_parse_file_message() {
    let msg = ChatbotMessage {
        msgtype: "file".into(),
        conversation_type: "1".into(),
        content: Some(object(vec![
            ("downloadCode", text_value("file_code_456")),
            ("fileName", text_value("report.xlsx")),
            ("fileSize", text_value("12345")),
        ])),
        session_webhook: "https://example.com".into(),
        ..Default::default()
    };
    let files = msg.get_file_list();
    assert_eq!(files.len(), 1);
    assert_eq!(files[0].0, "file_code_456");
    assert_eq!(files[0].1, "report.xlsx");
}

#[test]
fn test_ack_message_serialize() {
    let ack = AckMessage::ok(vec![]);
    let json = ack.to_json();
    assert_eq!(json.get("code"), Some(&Json::Number("200".into())));
    assert_eq!(json.get("message"), Some(&Json::Text("OK".into())));
}

#[test]
fn failures_are_acknowledged_too() {
    let ack = AckMessage::error(vec![], "bad".into());
    assert_eq!(ack.code, STATUS_ERROR);
    assert_eq!(ack.message, "bad");
}

#[test]
fn texts_are_trimmed_and_not_empty() {
    let msg = ChatbotMessage {
        msgtype: "text".into(),
        text: Some(TextContent { content: "  hi \n".into() }),
        ..Default::default()
    };
    assert_eq!(msg.get_text_list(), vec!["hi"]);
    let blank = ChatbotMessage {
        msgtype: "text".into(),
        text: Some(TextContent { content: "   ".into() }),
        ..Default::default()
    };
    assert!(blank.get_text_list().is_empty());
}

#[test]
fn callbacks_are_unwrapped() {
    let frame = StreamFrame {
        msg_type: "CALLBACK".into(),
        headers: vec![("messageId".to_string(), text_value("m1"))],
        data: text_value("{\"a\":\"b\"}"),
    };
    assert_eq!(frame.message_id(), "m1");
    let c = CallbackMessage::from_frame(&frame);
    assert_eq!(c.data.get_text("a"), Some("b"));
}

fn asked(question: &str, group: bool) -> ChatbotMessage {
    ChatbotMessage {
        msg_id: "m".into(),
        conversation_type: if group { "2".into() } else { "1".into() },
        conversation_id: "cid".into(),
        sender_staff_id: "staff".into(),
        sender_nick: "nick".into(),
        msgtype: "text".into(),
        text: Some(TextContent { content: question.into() }),
        ..Default::default()
    }
}

#[test]
fn chats_are_told_apart() {
    let g = read_message(&asked("hi", true));
    assert_eq!(g.chat_id, "cid:staff");
    assert_eq!(g.channel, "dingtalk_group");
    assert_eq!(g.conversation_id.as_deref(), Some("cid"));
    let p = read_message(&asked("hi", false));
    assert_eq!(p.chat_id, "staff");
    assert_eq!(p.channel, "dingtalk_private");
    let m = inbound(&g, "m", "cid", vec![], vec![]);
    assert_eq!(m.content, "hi");
    assert!(m.awaits_reply);
    assert_eq!(clear_inbound(&g).chat_id, "cid:staff");
}

#[test]
fn the_bot_chooses_its_step() {
    assert!(matches!(process(&asked("停止", false)), BotStep::Cancel));
    assert!(matches!(process(&asked("/new", false)), BotStep::Clear));
    assert!(matches!(process(&asked("", false)), BotStep::Greet));
    assert!(matches!(process(&asked("what is up", false)), BotStep::Ask));
    assert!(matches!(choose_step("", "", 1, 0), BotStep::Ask));
    assert_ne!(cancel_reply(true), cancel_reply(false));
    assert!(clear_failed("why").contains("why"));
}

#[test]
fn answers_are_formatted() {
    let a = read_message(&asked("hi", true));
    let out = format_answer(&a, "hi", "the answer", 3, 10, 20).expect("an answer");
    assert!(out.reply.contains("the answer"));
    assert!(out.card_content.contains("the answer"));
    assert!(card_header("nick", "hi").contains("nick"));
    assert!(matches!(delivery(Some(true), false), Delivery::Card));
    assert!(matches!(delivery(Some(false), true), Delivery::Webhook));
    assert!(matches!(delivery(None, false), Delivery::Proactive));
}

#[test]
fn tokens_are_used_while_fresh() {
    let mut t = TokenState::new();
    assert_eq!(t.cached(0), None);
    t.store("tok".into(), Some(7200), 1_000);
    assert_eq!(t.cached(2_000).as_deref(), Some("tok"));
    assert_eq!(t.cached(7_141_000), None);
    t.store("tok".into(), None, 1_000);
    t.reset();
    assert_eq!(t.cached(2_000), None);
    let c = Credential::new("id".into(), "secret".into());
    assert_eq!(c.token_request().render(), "{\"appKey\":\"id\",\"appSecret\":\"secret\"}");
}

#[test]
fn gateway_messages_become_callbacks() {
    let e = GatewayEnvelope {
        msg_type: "message".into(),
        message_id: "m".into(),
        conversation_id: "c".into(),
        sender_id: "s".into(),
        data: "{\"msgtype\":\"text\"}".into(),
    };
    let c = handle_text(&e).expect("a callback");
    assert_eq!(c.data.get_text("msgtype"), Some("text"));
    let other = GatewayEnvelope { msg_type: "pong".into(), ..e };
    assert!(handle_text(&other).is_none());
    assert_eq!(FIRST_RETRY_DELAY, 3);
    assert!(next_retry_delay(3) > 3);
    assert_eq!(next_retry_delay(next_retry_delay(1_000)), next_retry_delay(1_000));
}

#[test]
fn texts_go_to_the_right_place() {
    let (private, body) = send_text_by_channel("robot", "dingtalk_private", "u", "", "hi");
    assert!(private.contains("oToMessages"));
    assert_eq!(body.get_text("robotCode"), Some("robot"));
    let (group, body) = send_text_by_channel("robot", "dingtalk_group", "u", "c", "hi");
    assert!(group.contains("groupMessages"));
    assert_eq!(body.get_text("msgParam"), Some("{\"content\":\"hi\"}"));
    let (a, _) = send_text_proactive("robot", &asked("x", true), "hi");
    assert_eq!(a, group);
    let (_, f) = reply_file("robot", &asked("x", true), "media", "a.txt", "txt");
    assert_eq!(f.get_text("msgKey"), Some("sampleFile"));
}

#[test]
fn webhooks_need_an_address() {
    let mut m = asked("x", true);
    assert!(reply_text("t", &m).is_none());
    m.session_webhook = "https://example.com".into();
    assert!(reply_text("t", &m).is_some());
    assert!(reply_markdown("title", "t", &m).expect("a body").render().contains("title"));
}

#[test]
fn posts_are_retried() {
    assert!(matches!(post_json_with_retry(0, 3, "x", "e"), Retry::Again { .. }));
    match post_json_with_retry(3, 3, "label", "cause") {
        Retry::GiveUp { error } => assert!(error.contains("cause")),
        Retry::Again { .. } => panic!("again"),
    }
    assert!(post_webhook(0).is_some());
    assert_eq!(post_webhook(100), None);
}

#[test]
fn uploads_and_downloads_are_read() {
    assert!(upload_url("tok", "file").contains("tok"));
    assert_eq!(upload_media(&object1("media_id", text_value("@m"))), Ok("@m".to_string()));
    assert!(upload_media(&object1("errmsg", text_value("no"))).is_err());
    assert_eq!(
        get_download_url(&object1("downloadUrl", text_value("https://d"))),
        Ok("https://d".to_string())
    );
    assert!(get_download_url(&object1("x", text_value("y"))).is_err());
    assert_eq!(
        download_request("code", "robot").render(),
        "{\"downloadCode\":\"code\",\"robotCode\":\"robot\"}"
    );
}

#[test]
fn images_become_data_uris() {
    let png: [u8; 8] = [0x89, b'P', b'N', b'G', 0x0d, 0x0a, 0x1a, 0x0a];
    assert_eq!(detect_image_mime(&png).as_deref(), Some("image/png"));
    assert_eq!(
        image_as_data_uri(&png),
        Ok("data:image/png;base64,iVBORw0KGgo=".to_string())
    );
    let coded = |more: &[u8]| {
        let mut image = png.to_vec();
        image.extend_from_slice(more);
        image_as_data_uri(&image).expect("an image")
    };
    assert_eq!(coded(&[0]), "data:image/png;base64,iVBORw0KGgoA");
    assert_eq!(coded(&[0, 0xff]), "data:image/png;base64,iVBORw0KGgoA/w==");
    assert_eq!(coded(&[0, 0xff, 0xef]), "data:image/png;base64,iVBORw0KGgoA/+8=");
    assert!(image_as_data_uri(b"no image").is_err());
    assert!(image_as_data_uri(&vec![0u8; MAX_IMAGE_BYTES + 1]).is_err());
    assert_eq!(detect_image_mime(b"GIF89a..").as_deref(), Some("image/gif"));
}

#[test]
fn large_files_are_refused() {
    assert!(check_content_length(Some(1)).is_ok());
    assert!(check_content_length(None).is_ok());
    assert!(check_content_length(Some(MAX_FILE_BYTES as u64 + 1)).is_err());
    assert_eq!(take_chunk(5, 6), Ok(11));
    assert!(take_chunk(MAX_FILE_BYTES, 1).is_err());
}

#[test]
fn saved_files_stay_in_the_directory() {
    assert_eq!(save_path("/tmp/d", "../../etc/passwd"), "/tmp/d/passwd");
    assert_eq!(save_path("/tmp/d", "a.txt"), "/tmp/d/a.txt");
    assert!(save_path("/tmp/d", "..").starts_with("/tmp/d/"));
    assert_eq!(sent_name("/a/b.txt"), ("b.txt".to_string(), "txt".to_string()));
    assert_eq!(sent_name("/a/b.tar.gz").1, "gz");
    assert_eq!(sent_name("/a/.hidden").1, "file");
    assert_eq!(sent_name("/a/b").1, "file");
    assert_eq!(sent_name(".."), ("file".to_string(), "file".to_string()));
}

fn card(owner: &str, created_at: u64) -> CardReplier {
    CardReplier::new("tpl", "track-1", "HEAD", owner, created_at)
}

#[test]
fn cards_show_what_is_new() {
    let mut c = card("staff", 0);
    assert_eq!(c.render_body(), "HEAD\n\n🔍 思考中");
    assert_eq!(
        c.feed_thinking("one\ntwo\n  \n").as_deref(),
        Some("HEAD\n\n🔍 思考中\n\n▎two")
    );
    assert_eq!(
        c.feed_tool("exec: ls").as_deref(),
        Some("HEAD\n\n🔍 思考中\n\n▎two\n\n▎🔧 exec: ls")
    );
    assert!(c.finalize("answer").expect("a body").contains("answer"));
    assert_eq!(c.feed_tool("late"), None);
    assert_eq!(c.finalize("again"), None);
    assert_eq!(c.terminate(), None);
}

#[test]
fn cards_are_registered_by_chat() {
    let mut r = new_card_registry();
    register_card(&mut r, "cid:staff", card("staff", 0));
    assert!(find_card(&r, "cid:staff").is_some());
    assert!(find_card(&r, "other").is_none());
    assert_eq!(find_card_by_track_id(&r, "track-1").as_deref(), Some("cid:staff"));
    assert!(stale_cards(&r, 1_000).is_empty());
    assert_eq!(stale_cards(&r, (CARD_TTL_SECS + 1) * 1000), vec!["cid:staff".to_string()]);
    assert!(unregister_card(&mut r, "cid:staff").is_some());
    assert!(find_card(&r, "cid:staff").is_none());
}

fn click(user: &str) -> Json {
    object(vec![
        ("outTrackId", text_value("track-1")),
        ("userId", text_value(user)),
        (
            "content",
            text_value("{\"cardPrivateData\":{\"actionIds\":[\"stop\"],\"params\":{\"action\":\"stop\"}}}"),
        ),
    ])
}

#[test]
fn only_the_owner_stops() {
    let mut r = new_card_registry();
    register_card(&mut r, "cid:staff", card("staff", 0));
    assert!(process_click(&r, &click("stranger")).is_none());
    assert!(process_click(&r, &click("")).is_none());
    let stop = process_click(&r, &click("staff")).expect("a stop");
    assert_eq!(stop.chat_id, "cid:staff");
    let stop = stop_request("cid:staff");
    assert_eq!(stop.user_id, "staff");
    assert_eq!(stop.conversation_id.as_deref(), Some("cid"));
    assert_eq!(stop.channel, "dingtalk_group");
    assert_eq!(stop_request("staff").channel, "dingtalk_private");
}

#[test]
fn a_click_of_nobody_stops_nothing() {
    let mut r = new_card_registry();
    register_card(&mut r, "cid:", card("", 0));
    assert!(process_click(&r, &click("")).is_none());
    assert!(process_click(&r, &object(vec![("outTrackId", text_value("track-1"))])).is_none());
    assert!(process_click(&r, &click("staff")).is_none());
}

#[test]
fn stale_cards_are_listed_once() {
    let mut r = new_card_registry();
    register_card(&mut r, "a", card("a", 0));
    register_card(&mut r, "b", card("b", 0));
    register_card(&mut r, "c", card("c", CARD_TTL_SECS * 1000));
    let mut stale = stale_cards(&r, (CARD_TTL_SECS + 1) * 1000);
    stale.sort();
    assert_eq!(stale, vec!["a".to_string(), "b".to_string()]);
}

#[test]
fn card_requests_are_built() {
    assert!(create_body("tpl", "t1").render().contains("tpl"));
    assert!(deliver_body("t1", "robot", "cid", "staff", false).render().contains("cid"));
    assert!(stream_body("t1", "guid", "text", true, false).render().contains("guid"));
    assert!(update_body("t1", "done").render().contains("done"));
    assert!(check_step("create", true, "200", "").is_ok());
    assert!(check_step("create", false, "500", "no").unwrap_err().contains("500"));
    assert!(check_delivery(false, "500", "no").is_err());
    assert_eq!(
        update_body("t1", "done").render(),
        "{\"cardData\":{\"cardParamMap\":{\"flowStatus\":\"3\",\"result\":\"done\"}},\"outTrackId\":\"t1\"}"
    );
}

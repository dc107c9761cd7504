//! Answering messages, and the files that go with them.

use crate::channel::dingtalk::message::ChatbotMessage;
use crate::control::workspace;
use crate::control::workspace::join_path;
use crate::json;
use crate::json::{
    hex_of_byte, list_of, object1, object2, object3, object4, text_value, Json, JsonView,
};
use crate::message;
use crate::text;
use crate::text::{decimal, decimal_usize, parse_u64, str_contains, str_join};
use vstd::prelude::*;

verus! {

/// The largest image that is taken, in bytes.
pub const MAX_IMAGE_BYTES: usize = 5_242_880;

/// The largest file that is taken, in bytes.
pub const MAX_FILE_BYTES: usize = 524_288_000;

// ---------------------------------------------------------------------------
// Messages
// ---------------------------------------------------------------------------

/// Where messages go that are sent unasked.
pub open spec fn proactive_url(private: bool) -> Seq<char> {
    if private {
        "https://api.dingtalk.com/v1.0/robot/oToMessages/batchSend"@
    } else {
        "https://api.dingtalk.com/v1.0/robot/groupMessages/send"@
    }
}

/// A message that is sent unasked: to a user in private, else to a
/// conversation.
pub open spec fn proactive_payload(
    robot: Seq<char>,
    private: bool,
    user: Seq<char>,
    conversation: Seq<char>,
    key: Seq<char>,
    param: Seq<char>,
) -> JsonView {
    if private {
        JsonView::Object(
            seq![
                ("msgKey"@, JsonView::Text(key)),
                ("msgParam"@, JsonView::Text(param)),
                ("robotCode"@, JsonView::Text(robot)),
                ("userIds"@, JsonView::List(seq![JsonView::Text(user)])),
            ],
        )
    } else {
        JsonView::Object(
            seq![
                ("msgKey"@, JsonView::Text(key)),
                ("msgParam"@, JsonView::Text(param)),
                ("openConversationId"@, JsonView::Text(conversation)),
                ("robotCode"@, JsonView::Text(robot)),
            ],
        )
    }
}

fn proactive(
    robot: &str,
    private: bool,
    user: &str,
    conversation: &str,
    key: &str,
    param: &str,
) -> (r: (String, Json))
    ensures
        r.0@ == proactive_url(private),
        r.1@ == proactive_payload(robot@, private, user@, conversation@, key@, param@),
{
    if private {
        (
            "https://api.dingtalk.com/v1.0/robot/oToMessages/batchSend".to_owned(),
            object4(
                "msgKey",
                text_value(key),
                "msgParam",
                text_value(param),
                "robotCode",
                text_value(robot),
                "userIds",
                list_of(text_value(user)),
            ),
        )
    } else {
        (
            "https://api.dingtalk.com/v1.0/robot/groupMessages/send".to_owned(),
            object4(
                "msgKey",
                text_value(key),
                "msgParam",
                text_value(param),
                "openConversationId",
                text_value(conversation),
                "robotCode",
                text_value(robot),
            ),
        )
    }
}

/// A text as the parameter of a message.
pub open spec fn text_param(t: Seq<char>) -> Seq<char> {
    json::json_text(JsonView::Object(seq![("content"@, JsonView::Text(t))]))
}

/// A file as the parameter of a message.
pub open spec fn file_param(media_id: Seq<char>, name: Seq<char>, kind: Seq<char>) -> Seq<char> {
    json::json_text(
        JsonView::Object(
            seq![
                ("fileName"@, JsonView::Text(name)),
                ("fileType"@, JsonView::Text(kind)),
                ("mediaId"@, JsonView::Text(media_id)),
            ],
        ),
    )
}

/// A text that is sent unasked to where a message came from: the address and
/// the message.
pub fn send_text_proactive(robot_code: &str, message: &ChatbotMessage, text: &str) -> (r: (
    String,
    Json,
))
    ensures
        r.0@ == proactive_url(message.conversation_type@ == "1"@),
        r.1@ == proactive_payload(
            robot_code@,
            message.conversation_type@ == "1"@,
            message.sender_staff_id@,
            message.conversation_id@,
            "sampleText"@,
            text_param(text@),
        ),
{
    let param = object1("content", text_value(text)).render();
    proactive(
        robot_code,
        message.is_private(),
        message.sender_staff_id.as_str(),
        message.conversation_id.as_str(),
        "sampleText",
        param.as_str(),
    )
}

/// A text that is sent unasked through a channel: the address and the message.
pub fn send_text_by_channel(
    robot_code: &str,
    channel: &str,
    user_id: &str,
    conversation_id: &str,
    text: &str,
) -> (r: (String, Json))
    ensures
        r.0@ == proactive_url(text::contains(channel@, "private"@)),
        r.1@ == proactive_payload(
            robot_code@,
            text::contains(channel@, "private"@),
            user_id@,
            conversation_id@,
            "sampleText"@,
            text_param(text@),
        ),
{
    let param = object1("content", text_value(text)).render();
    proactive(
        robot_code,
        str_contains(channel, "private"),
        user_id,
        conversation_id,
        "sampleText",
        param.as_str(),
    )
}

/// A file that is sent to where a message came from: the address and the
/// message.
pub fn reply_file(
    robot_code: &str,
    message: &ChatbotMessage,
    media_id: &str,
    file_name: &str,
    file_type: &str,
) -> (r: (String, Json))
    ensures
        r.0@ == proactive_url(message.conversation_type@ == "1"@),
        r.1@ == proactive_payload(
            robot_code@,
            message.conversation_type@ == "1"@,
            message.sender_staff_id@,
            message.conversation_id@,
            "sampleFile"@,
            file_param(media_id@, file_name@, file_type@),
        ),
{
    let param = object3(
        "fileName",
        text_value(file_name),
        "fileType",
        text_value(file_type),
        "mediaId",
        text_value(media_id),
    ).render();
    proactive(
        robot_code,
        message.is_private(),
        message.sender_staff_id.as_str(),
        message.conversation_id.as_str(),
        "sampleFile",
        param.as_str(),
    )
}

/// Who is addressed by an answer.
pub open spec fn addressed(user: Seq<char>) -> JsonView {
    JsonView::Object(seq![("atUserIds"@, JsonView::List(seq![JsonView::Text(user)]))])
}

/// An answer in text.
pub open spec fn text_payload(text: Seq<char>, user: Seq<char>) -> JsonView {
    JsonView::Object(
        seq![
            ("at"@, addressed(user)),
            ("msgtype"@, JsonView::Text("text"@)),
            ("text"@, JsonView::Object(seq![("content"@, JsonView::Text(text))])),
        ],
    )
}

/// An answer in Markdown.
pub open spec fn markdown_payload(title: Seq<char>, text: Seq<char>, user: Seq<char>) -> JsonView {
    JsonView::Object(
        seq![
            ("at"@, addressed(user)),
            (
                "markdown"@,
                JsonView::Object(
                    seq![("text"@, JsonView::Text(text)), ("title"@, JsonView::Text(title))],
                ),
            ),
            ("msgtype"@, JsonView::Text("markdown"@)),
        ],
    )
}

fn address(user: &str) -> (r: Json)
    ensures
        r@ == addressed(user@),
{
    object1("atUserIds", list_of(text_value(user)))
}

/// An answer in text; none where the message cannot be answered.
pub fn reply_text(text: &str, message: &ChatbotMessage) -> (r: Option<Json>)
    ensures
        r is Some <==> message.session_webhook@.len() > 0,
        r matches Some(p) ==> p@ == text_payload(text@, message.sender_staff_id@),
{
    if message.session_webhook.as_str().is_empty() {
        return None;
    }
    Some(
        object3(
            "at",
            address(message.sender_staff_id.as_str()),
            "msgtype",
            text_value("text"),
            "text",
            object1("content", text_value(text)),
        ),
    )
}

/// An answer in Markdown; none where the message cannot be answered.
pub fn reply_markdown(title: &str, text: &str, message: &ChatbotMessage) -> (r: Option<Json>)
    ensures
        r is Some <==> message.session_webhook@.len() > 0,
        r matches Some(p) ==> p@ == markdown_payload(title@, text@, message.sender_staff_id@),
{
    if message.session_webhook.as_str().is_empty() {
        return None;
    }
    Some(
        object3(
            "at",
            address(message.sender_staff_id.as_str()),
            "markdown",
            object2("text", text_value(text), "title", text_value(title)),
            "msgtype",
            text_value("markdown"),
        ),
    )
}

// ---------------------------------------------------------------------------
// Attempts
// ---------------------------------------------------------------------------

/// What is done after an attempt that has failed.
#[derive(Debug)]
pub enum Retry {
    /// Try again after so many milliseconds.
    Again { delay_ms: u64 },
    /// Give up, with this to say.
    GiveUp { error: String },
}

/// What is said once all attempts have failed.
pub open spec fn failure_text(label: Seq<char>, attempts: nat, last: Seq<char>) -> Seq<char> {
    label + " failed after "@ + text::dec(attempts) + " attempts: "@ + last
}

/// What is done after the attempt of that number has failed.
pub fn post_json_with_retry(attempt: usize, max_retries: usize, label: &str, error: &str) -> (r: Retry)
    ensures
        attempt < max_retries ==> r == (Retry::Again { delay_ms: 1000 }),
        attempt >= max_retries ==> r is GiveUp && r->error@ == failure_text(
            label@,
            max_retries as nat,
            error@,
        ),
{
    if attempt < max_retries {
        return Retry::Again { delay_ms: 1000 };
    }
    let mut t = label.to_owned();
    t.push_str(" failed after ");
    t.push_str(decimal_usize(max_retries).as_str());
    t.push_str(" attempts: ");
    t.push_str(error);
    Retry::GiveUp { error: t }
}

/// After how many milliseconds an answer is sent again whose attempt of that
/// number has failed; there are two attempts.
pub fn post_webhook(attempt: usize) -> (r: Option<u64>)
    ensures
        r == (if attempt < 2 {
            Some(500u64)
        } else {
            None
        }),
{
    if attempt < 2 {
        Some(500)
    } else {
        None
    }
}

// ---------------------------------------------------------------------------
// Files
// ---------------------------------------------------------------------------

/// A whole number of 64 bits, with its sign, in a text.
pub open spec fn whole_number(t: Seq<char>) -> Option<int> {
    if t.len() > 0 && t[0] == '-' {
        match text::number(t.skip(1)) {
            Some(n) => if n <= 0x8000_0000_0000_0000 {
                Some(-n)
            } else {
                None
            },
            None => None,
        }
    } else {
        match text::number(t) {
            Some(n) => if n <= 0x7fff_ffff_ffff_ffff {
                Some(n as int)
            } else {
                None
            },
            None => None,
        }
    }
}

/// Whether an answer speaks of an error: a number that is not zero.
pub open spec fn speaks_of_error(v: JsonView) -> bool {
    match v.get("errcode"@) {
        Some(JsonView::Number(n)) => whole_number(n) is Some && whole_number(n)->0 != 0,
        _ => false,
    }
}

fn has_error(v: &Json) -> (r: bool)
    ensures
        r == speaks_of_error(v@),
{
    match v.get("errcode") {
        Some(Json::Number(n)) => {
            let cs = text::chars_of(n.as_str());
            if cs.len() > 0 && cs[0] == '-' {
                let rest = text::string_of(cs.as_slice(), 1, cs.len());
                proof {
                    assert(rest@ =~= n@.skip(1));
                }
                match parse_u64(rest.as_str()) {
                    Some(k) => k != 0 && k <= 0x8000_0000_0000_0000,
                    None => false,
                }
            } else {
                match parse_u64(n.as_str()) {
                    Some(k) => k != 0 && k <= 0x7fff_ffff_ffff_ffff,
                    None => false,
                }
            }
        },
        _ => false,
    }
}

/// The address for uploading a file.
pub fn upload_url(token: &str, media_type: &str) -> (r: String)
    ensures
        r@ == "https://oapi.dingtalk.com/media/upload?access_token="@ + token@ + "&type="@
            + media_type@,
{
    let mut r = "https://oapi.dingtalk.com/media/upload?access_token=".to_owned();
    r.push_str(token);
    r.push_str("&type=");
    r.push_str(media_type);
    r
}

/// The id of a file that was uploaded, or why there is none, given the answer
/// to the upload.
pub fn upload_media(data: &Json) -> (r: Result<String, String>)
    ensures
        match r {
            Ok(id) => !speaks_of_error(data@) && data@.get_text("media_id"@) == Some(id@),
            Err(e) => if speaks_of_error(data@) {
                e@ == "DingTalk upload failed: "@ + json::json_text(data@)
            } else {
                data@.get_text("media_id"@) is None && e@ == "No media_id in response: "@
                    + json::json_text(data@)
            },
        },
{
    if has_error(data) {
        let mut e = "DingTalk upload failed: ".to_owned();
        e.push_str(data.render().as_str());
        return Err(e);
    }
    match data.get_text("media_id") {
        Some(id) => Ok(id.to_owned()),
        None => {
            let mut e = "No media_id in response: ".to_owned();
            e.push_str(data.render().as_str());
            Err(e)
        },
    }
}

/// What is sent to learn where a file can be fetched.
pub fn download_request(download_code: &str, robot_code: &str) -> (r: Json)
    ensures
        r@ == JsonView::Object(
            seq![
                ("downloadCode"@, JsonView::Text(download_code@)),
                ("robotCode"@, JsonView::Text(robot_code@)),
            ],
        ),
{
    object2("downloadCode", text_value(download_code), "robotCode", text_value(robot_code))
}

/// Where a file can be fetched, or why that is not known, given the answer.
pub fn get_download_url(data: &Json) -> (r: Result<String, String>)
    ensures
        match r {
            Ok(url) => data@.get_text("downloadUrl"@) == Some(url@),
            Err(e) => data@.get_text("downloadUrl"@) is None && e@
                == "No downloadUrl in response: "@ + json::json_text(data@),
        },
{
    match data.get_text("downloadUrl") {
        Some(url) => Ok(url.to_owned()),
        None => {
            let mut e = "No downloadUrl in response: ".to_owned();
            e.push_str(data.render().as_str());
            Err(e)
        },
    }
}

/// A kind of image.
#[derive(Debug, Clone, Copy, PartialEq, Eq, Structural)]
pub enum ImageKind {
    Png,
    Jpeg,
    Gif,
    Webp,
}

/// Whether bytes start with these.
pub open spec fn bytes_start(b: Seq<u8>, p: Seq<u8>) -> bool {
    b.len() >= p.len() && b.take(p.len() as int) == p
}

/// The kind of image that bytes are, by how they start.
pub open spec fn image_kind(b: Seq<u8>) -> Option<ImageKind> {
    if b.len() < 4 {
        None
    } else if bytes_start(b, seq![0x89u8, 0x50, 0x4e, 0x47]) {
        Some(ImageKind::Png)
    } else if bytes_start(b, seq![0xffu8, 0xd8, 0xff]) {
        Some(ImageKind::Jpeg)
    } else if bytes_start(b, seq![0x47u8, 0x49, 0x46, 0x38]) {
        Some(ImageKind::Gif)
    } else if b.len() >= 12 && bytes_start(b, seq![0x52u8, 0x49, 0x46, 0x46]) && b.subrange(8, 12)
        == seq![0x57u8, 0x45, 0x42, 0x50] {
        Some(ImageKind::Webp)
    } else {
        None
    }
}

/// The name of a kind of image.
pub open spec fn mime_of(k: ImageKind) -> Seq<char> {
    match k {
        ImageKind::Png => "image/png"@,
        ImageKind::Jpeg => "image/jpeg"@,
        ImageKind::Gif => "image/gif"@,
        ImageKind::Webp => "image/webp"@,
    }
}

/// The kind of image that bytes are, by how they start.
pub fn detect_image_kind(b: &[u8]) -> (r: Option<ImageKind>)
    ensures
        r == image_kind(b@),
{
    let n: usize = b.len();
    if n < 4 {
        return None;
    }
    proof {
        assert(bytes_start(b@, seq![0x89u8, 0x50, 0x4e, 0x47]) == (b@[0] == 0x89 && b@[1] == 0x50
            && b@[2] == 0x4e && b@[3] == 0x47)) by {
            let p = seq![0x89u8, 0x50, 0x4e, 0x47];
            if b@[0] == 0x89 && b@[1] == 0x50 && b@[2] == 0x4e && b@[3] == 0x47 {
                assert(b@.take(4) =~= p);
            }
            if b@.take(4) == p {
                assert(b@[0] == p[0] && b@[1] == p[1] && b@[2] == p[2] && b@[3] == p[3]) by {
                    assert(b@.take(4)[0] == b@[0] && b@.take(4)[1] == b@[1] && b@.take(4)[2]
                        == b@[2] && b@.take(4)[3] == b@[3]);
                }
            }
        }
        assert(bytes_start(b@, seq![0xffu8, 0xd8, 0xff]) == (b@[0] == 0xff && b@[1] == 0xd8
            && b@[2] == 0xff)) by {
            let p = seq![0xffu8, 0xd8, 0xff];
            if b@[0] == 0xff && b@[1] == 0xd8 && b@[2] == 0xff {
                assert(b@.take(3) =~= p);
            }
            if b@.take(3) == p {
                assert(b@.take(3)[0] == b@[0] && b@.take(3)[1] == b@[1] && b@.take(3)[2] == b@[2]);
            }
        }
        assert(bytes_start(b@, seq![0x47u8, 0x49, 0x46, 0x38]) == (b@[0] == 0x47 && b@[1] == 0x49
            && b@[2] == 0x46 && b@[3] == 0x38)) by {
            let p = seq![0x47u8, 0x49, 0x46, 0x38];
            if b@[0] == 0x47 && b@[1] == 0x49 && b@[2] == 0x46 && b@[3] == 0x38 {
                assert(b@.take(4) =~= p);
            }
            if b@.take(4) == p {
                assert(b@.take(4)[0] == b@[0] && b@.take(4)[1] == b@[1] && b@.take(4)[2] == b@[2]
                    && b@.take(4)[3] == b@[3]);
            }
        }
        assert(bytes_start(b@, seq![0x52u8, 0x49, 0x46, 0x46]) == (b@[0] == 0x52 && b@[1] == 0x49
            && b@[2] == 0x46 && b@[3] == 0x46)) by {
            let p = seq![0x52u8, 0x49, 0x46, 0x46];
            if b@[0] == 0x52 && b@[1] == 0x49 && b@[2] == 0x46 && b@[3] == 0x46 {
                assert(b@.take(4) =~= p);
            }
            if b@.take(4) == p {
                assert(b@.take(4)[0] == b@[0] && b@.take(4)[1] == b@[1] && b@.take(4)[2] == b@[2]
                    && b@.take(4)[3] == b@[3]);
            }
        }
    }
    if b[0] == 0x89 && b[1] == 0x50 && b[2] == 0x4e && b[3] == 0x47 {
        return Some(ImageKind::Png);
    }
    if b[0] == 0xff && b[1] == 0xd8 && b[2] == 0xff {
        return Some(ImageKind::Jpeg);
    }
    if b[0] == 0x47 && b[1] == 0x49 && b[2] == 0x46 && b[3] == 0x38 {
        return Some(ImageKind::Gif);
    }
    if n >= 12 {
        proof {
            let p = seq![0x57u8, 0x45, 0x42, 0x50];
            let t = b@.subrange(8, 12);
            assert(t[0] == b@[8] && t[1] == b@[9] && t[2] == b@[10] && t[3] == b@[11]);
            if b@[8] == 0x57 && b@[9] == 0x45 && b@[10] == 0x42 && b@[11] == 0x50 {
                assert(t =~= p);
            }
        }
        if b[0] == 0x52 && b[1] == 0x49 && b[2] == 0x46 && b[3] == 0x46 && b[8] == 0x57 && b[9]
            == 0x45 && b[10] == 0x42 && b[11] == 0x50 {
            return Some(ImageKind::Webp);
        }
    }
    None
}

/// The name of the kind of image that bytes are.
pub fn detect_image_mime(b: &[u8]) -> (r: Option<String>)
    ensures
        message::opt_text(r) == (match image_kind(b@) {
            Some(k) => Some(mime_of(k)),
            None => None,
        }),
{
    match detect_image_kind(b) {
        Some(ImageKind::Png) => Some("image/png".to_owned()),
        Some(ImageKind::Jpeg) => Some("image/jpeg".to_owned()),
        Some(ImageKind::Gif) => Some("image/gif".to_owned()),
        Some(ImageKind::Webp) => Some("image/webp".to_owned()),
        None => None,
    }
}

/// The character that stands for six bits in Base64, with the usual alphabet.
pub open spec fn base64_digit(d: int) -> char {
    if d < 26 {
        ('A' as int + d) as char
    } else if d < 52 {
        ('a' as int + (d - 26)) as char
    } else if d < 62 {
        ('0' as int + (d - 52)) as char
    } else if d == 62 {
        '+'
    } else {
        '/'
    }
}

/// The characters that stand for three bytes in Base64.
pub open spec fn base64_group(a: u8, b: u8, c: u8) -> Seq<char> {
    let n = a * 65536 + b * 256 + c;
    seq![
        base64_digit(n / 262144),
        base64_digit(n / 4096 % 64),
        base64_digit(n / 64 % 64),
        base64_digit(n % 64),
    ]
}

/// Bytes in Base64, with the usual alphabet and padding.
pub open spec fn base64_of(b: Seq<u8>) -> Seq<char>
    decreases b.len(),
{
    if b.len() == 0 {
        Seq::empty()
    } else if b.len() == 1 {
        base64_group(b[0], 0, 0).take(2) + "=="@
    } else if b.len() == 2 {
        base64_group(b[0], b[1], 0).take(3) + "="@
    } else {
        base64_group(b[0], b[1], b[2]) + base64_of(b.skip(3))
    }
}

/// `Engine::encode` of the `base64` crate with its `STANDARD` engine: three
/// bytes become four characters of the usual alphabet, and where bytes lack at
/// the end, equals signs stand for the characters that would say nothing. More
/// bytes than an image may have are left out, since the crate panics where the
/// length of the result does not fit.
#[verifier::external_body]
fn encode_base64(b: &[u8]) -> (r: String)
    requires
        b@.len() <= MAX_IMAGE_BYTES,
    ensures
        r@ == base64_of(b@),
{
    base64::Engine::encode(&base64::engine::general_purpose::STANDARD, b)
}

/// Bytes as hexadecimal numbers.
pub open spec fn hex_list(b: Seq<u8>) -> Seq<Seq<char>> {
    Seq::new(b.len(), |i: int| json::hex_byte(b[i]))
}

/// Why an image is not taken.
pub open spec fn image_fault(b: Seq<u8>) -> Option<Seq<char>> {
    if b.len() > MAX_IMAGE_BYTES {
        Some(
            "Image too large: "@ + text::dec(b.len()) + " bytes (max "@ + text::dec(
                MAX_IMAGE_BYTES as nat,
            ) + ")"@,
        )
    } else if image_kind(b) is None {
        Some(
            "Unsupported image format (first bytes: ["@ + text::join(
                hex_list(
                    if b.len() > 8 {
                        b.take(8)
                    } else {
                        b
                    },
                ),
                ", "@,
            ) + "])"@,
        )
    } else {
        None
    }
}

/// An image as a data URI, given its bytes in Base64.
pub open spec fn data_uri(k: ImageKind, encoded: Seq<char>) -> Seq<char> {
    "data:"@ + mime_of(k) + ";base64,"@ + encoded
}

fn first_bytes(b: &[u8]) -> (r: String)
    ensures
        r@ == text::join(
            hex_list(
                if b@.len() > 8 {
                    b@.take(8)
                } else {
                    b@
                },
            ),
            ", "@,
        ),
{
    let n: usize = if b.len() > 8 {
        8
    } else {
        b.len()
    };
    let mut out: Vec<String> = Vec::new();
    let mut i: usize = 0;
    while i < n
        invariant
            0 <= i <= n <= b@.len(),
            out@.len() == i,
            forall|k: int| 0 <= k < i ==> (#[trigger] out@[k])@ == json::hex_byte(b@[k]),
        decreases n - i,
    {
        out.push(hex_of_byte(b[i]));
        i += 1;
    }
    proof {
        let head = if b@.len() > 8 {
            b@.take(8)
        } else {
            b@
        };
        assert(text::texts(out@) =~= hex_list(head));
    }
    str_join(&out, ", ")
}

/// An image as a data URI, or why it is not taken.
pub fn image_as_data_uri(b: &[u8]) -> (r: Result<String, String>)
    ensures
        match r {
            Ok(u) => image_fault(b@) is None && u@ == data_uri(image_kind(b@)->0, base64_of(b@)),
            Err(e) => image_fault(b@) == Some(e@),
        },
{
    if b.len() > MAX_IMAGE_BYTES {
        let mut e = "Image too large: ".to_owned();
        e.push_str(decimal_usize(b.len()).as_str());
        e.push_str(" bytes (max ");
        e.push_str(decimal_usize(MAX_IMAGE_BYTES).as_str());
        e.push_str(")");
        return Err(e);
    }
    match detect_image_mime(b) {
        Some(mime) => {
            let encoded = encode_base64(b);
            let mut u = "data:".to_owned();
            u.push_str(mime.as_str());
            u.push_str(";base64,");
            u.push_str(encoded.as_str());
            Ok(u)
        },
        None => {
            let mut e = "Unsupported image format (first bytes: [".to_owned();
            e.push_str(first_bytes(b).as_str());
            e.push_str("])");
            Err(e)
        },
    }
}

/// Why a file is not fetched that says it is so large.
pub fn check_content_length(content_length: Option<u64>) -> (r: Result<(), String>)
    ensures
        match r {
            Ok(_) => content_length is None || content_length->0 <= MAX_FILE_BYTES,
            Err(e) => content_length is Some && content_length->0 > MAX_FILE_BYTES && e@
                == "File too large: "@ + text::dec(content_length->0 as nat) + " bytes (max "@
                + text::dec(MAX_FILE_BYTES as nat) + ")"@,
        },
{
    match content_length {
        Some(n) => {
            if n > MAX_FILE_BYTES as u64 {
                let mut e = "File too large: ".to_owned();
                e.push_str(decimal(n as u128).as_str());
                e.push_str(" bytes (max ");
                e.push_str(decimal_usize(MAX_FILE_BYTES).as_str());
                e.push_str(")");
                return Err(e);
            }
            Ok(())
        },
        None => Ok(()),
    }
}

/// How much of a file was fetched after a further piece, or why it is given
/// up.
pub fn take_chunk(total: usize, len: usize) -> (r: Result<usize, String>)
    requires
        total <= MAX_FILE_BYTES,
        total + len <= usize::MAX,
    ensures
        match r {
            Ok(n) => n == total + len && n <= MAX_FILE_BYTES,
            Err(e) => total + len > MAX_FILE_BYTES && e@ == "File too large: "@ + text::dec(
                (total + len) as nat,
            ) + " bytes downloaded (max "@ + text::dec(MAX_FILE_BYTES as nat) + ")"@,
        },
{
    let n: usize = total + len;
    if n > MAX_FILE_BYTES {
        let mut e = "File too large: ".to_owned();
        e.push_str(decimal_usize(n).as_str());
        e.push_str(" bytes downloaded (max ");
        e.push_str(decimal_usize(MAX_FILE_BYTES).as_str());
        e.push_str(")");
        return Err(e);
    }
    Ok(n)
}

/// The last part of a path, where it has one.
pub uninterp spec fn base_name(path: Seq<char>) -> Option<Seq<char>>;

/// Whether a text is the name of something within a directory.
pub open spec fn is_plain_name(n: Seq<char>) -> bool {
    n.len() > 0 && n != ".."@ && forall|i: int| 0 <= i < n.len() ==> #[trigger] n[i] != '/'
}

/// `Path::file_name` of std: the last part of a path, nothing where it ends in
/// `..` or has no parts. The contract names the result, and says that what
/// comes back is a part: not empty, without a slash in it, and not `..`.
#[verifier::external_body]
pub(crate) fn file_name_of(path: &str) -> (r: Option<String>)
    ensures
        message::opt_text(r) == base_name(path@),
        r matches Some(n) ==> is_plain_name(n@),
{
    std::path::Path::new(path).file_name().and_then(|n| n.to_str()).map(|n| n.to_string())
}

/// What stands behind the last dot of the last part of a path, where there is
/// such a dot behind its first character.
pub open spec fn extension_name(path: Seq<char>) -> Option<Seq<char>> {
    match base_name(path) {
        Some(n) => match text::last_of(n, '.') {
            Some(i) if i > 0 => Some(n.skip(i + 1)),
            _ => None,
        },
        None => None,
    }
}

/// `Path::extension` of std: what stands behind the last dot of the file name,
/// nothing where there is no file name, no dot in it, or none but at its
/// front.
#[verifier::external_body]
pub(crate) fn extension_of(path: &str) -> (r: Option<String>)
    ensures
        message::opt_text(r) == extension_name(path@),
{
    std::path::Path::new(path).extension().and_then(|e| e.to_str()).map(|e| e.to_string())
}

/// Where a file is kept that has come with a message, given the last part of
/// its name.
pub fn save_path_for(save_dir: &str, last_part: Option<String>) -> (r: String)
    ensures
        r@ == workspace::below(
            save_dir@,
            match last_part {
                Some(n) => n@,
                None => "downloaded_file"@,
            },
        ),
{
    match last_part {
        Some(n) => join_path(save_dir, n.as_str()),
        None => join_path(save_dir, "downloaded_file"),
    }
}

/// Where a file is kept that has come with a message.
pub fn save_path(save_dir: &str, file_name: &str) -> (r: String)
    ensures
        r@ == workspace::below(
            save_dir@,
            match base_name(file_name@) {
                Some(n) => n,
                None => "downloaded_file"@,
            },
        ),
        exists|n: Seq<char>|
            is_plain_name(n) && r@ == #[trigger] workspace::below(save_dir@, n),
{
    let last_part = file_name_of(file_name);
    proof {
        reveal_strlit("downloaded_file");
        reveal_strlit("..");
        let d = "downloaded_file"@;
        assert(d.len() == 15 && ".."@.len() == 2);
        assert(is_plain_name(d));
    }
    save_path_for(save_dir, last_part)
}

/// A file that has come with a message is kept right below the directory,
/// whatever name it came with: what follows the directory is a plain name.
pub proof fn law_saved_files_stay_in_the_directory(dir: Seq<char>, n: Seq<char>)
    requires
        is_plain_name(n),
    ensures
        workspace::below(dir, n) == dir + n || workspace::below(dir, n) == dir + "/"@ + n,
{
    reveal_strlit("/");
    if text::starts_with(n, "/"@) {
        assert(n.subrange(0, 1)[0] == n[0]);
    }
}

/// The name and the kind under which a file is sent.
pub fn sent_name(file_path: &str) -> (r: (String, String))
    ensures
        r.0@ == (match base_name(file_path@) {
            Some(n) => n,
            None => "file"@,
        }),
        r.1@ == (match extension_name(file_path@) {
            Some(e) => e,
            None => "file"@,
        }),
{
    let name = match file_name_of(file_path) {
        Some(n) => n,
        None => "file".to_owned(),
    };
    let kind = match extension_of(file_path) {
        Some(e) => e,
        None => "file".to_owned(),
    };
    (name, kind)
}

/// A message that is sent unasked goes to the user in private and to the
/// conversation otherwise, and carries what it is to say.
pub proof fn law_unasked_message_is_addressed(
    robot: Seq<char>,
    user: Seq<char>,
    conversation: Seq<char>,
    key: Seq<char>,
    param: Seq<char>,
    private: bool,
)
    ensures
        ({
            let p = proactive_payload(robot, private, user, conversation, key, param);
            &&& p.get_text("msgKey"@) == Some(key)
            &&& p.get_text("msgParam"@) == Some(param)
            &&& p.get_text("robotCode"@) == Some(robot)
            &&& private ==> p.get("userIds"@) == Some(JsonView::List(seq![JsonView::Text(user)]))
            &&& !private ==> p.get_text("openConversationId"@) == Some(conversation)
        }),
{
    reveal_strlit("msgKey");
    reveal_strlit("msgParam");
    reveal_strlit("robotCode");
    reveal_strlit("userIds");
    reveal_strlit("openConversationId");
    assert("msgKey"@.len() == 6 && "msgParam"@.len() == 8 && "robotCode"@.len() == 9
        && "userIds"@.len() == 7 && "openConversationId"@.len() == 18);
    let m = proactive_payload(robot, private, user, conversation, key, param)->Object_0;
    json::lemma_member_at(m, 0);
    json::lemma_member_at(m, 1);
    json::lemma_member_at(m, 2);
    json::lemma_member_at(m, 3);
}

/// An answer carries its text and names the user it is for.
pub proof fn law_answer_carries_its_text(title: Seq<char>, t: Seq<char>, user: Seq<char>)
    ensures
        text_payload(t, user).get_text("msgtype"@) == Some("text"@),
        text_payload(t, user).get("text"@) is Some,
        text_payload(t, user).get("text"@)->0.get_text("content"@) == Some(t),
        markdown_payload(title, t, user).get_text("msgtype"@) == Some("markdown"@),
        markdown_payload(title, t, user).get("markdown"@) is Some,
        markdown_payload(title, t, user).get("markdown"@)->0.get_text("text"@) == Some(t),
        markdown_payload(title, t, user).get("markdown"@)->0.get_text("title"@) == Some(title),
        text_payload(t, user).get("at"@) is Some,
        text_payload(t, user).get("at"@)->0.get("atUserIds"@) == Some(
            JsonView::List(seq![JsonView::Text(user)]),
        ),
        markdown_payload(title, t, user).get("at"@) == text_payload(t, user).get("at"@),
{
    reveal_strlit("at");
    reveal_strlit("msgtype");
    reveal_strlit("text");
    reveal_strlit("title");
    reveal_strlit("markdown");
    assert("at"@.len() == 2 && "msgtype"@.len() == 7 && "text"@.len() == 4 && "title"@.len() == 5
        && "markdown"@.len() == 8);
    let m = text_payload(t, user)->Object_0;
    json::lemma_member_at(m, 0);
    json::lemma_member_at(m, 1);
    json::lemma_member_at(m, 2);
    json::lemma_member_at(m[2].1->Object_0, 0);
    let k = markdown_payload(title, t, user)->Object_0;
    json::lemma_member_at(k, 0);
    json::lemma_member_at(k, 1);
    json::lemma_member_at(k, 2);
    json::lemma_member_at(k[1].1->Object_0, 0);
    json::lemma_member_at(k[1].1->Object_0, 1);
    json::lemma_member_at(addressed(user)->Object_0, 0);
}

/// What is said of a call that failed for good tells what it was, how often
/// it was tried and what went wrong last.
pub proof fn law_failure_is_told(label: Seq<char>, attempts: nat, last: Seq<char>)
    ensures
        text::starts_with(failure_text(label, attempts, last), label),
        text::contains(failure_text(label, attempts, last), text::dec(attempts)),
        text::ends_with(failure_text(label, attempts, last), last),
{
    let t = failure_text(label, attempts, last);
    assert(t.subrange(0, label.len() as int) =~= label);
    assert(t.subrange(t.len() - last.len(), t.len() as int) =~= last);
    let d = text::dec(attempts);
    let a = label + " failed after "@;
    let b = " attempts: "@ + last;
    assert(t =~= a + d + b);
    text::lemma_contains_part(a, d, b);
}

/// A reply whose error code is a number other than zero speaks of an error,
/// and one whose code is zero does not.
pub proof fn law_error_codes_are_read(m: Seq<(Seq<char>, JsonView)>, n: nat)
    requires
        n <= 0x7fff_ffff_ffff_ffff,
        json::member(m, "errcode"@) == Some(JsonView::Number(text::dec(n))),
    ensures
        speaks_of_error(JsonView::Object(m)) <==> n != 0,
{
    text::lemma_dec_is_read(n);
    lemma_dec_is_plain(n);
}

proof fn lemma_dec_is_plain(n: nat)
    ensures
        text::dec(n).len() > 0,
        text::dec(n)[0] != '-',
    decreases n,
{
    if n >= 10 {
        lemma_dec_is_plain(n / 10);
    }
}

/// What stands behind the last dot of a name is its extension.
pub proof fn law_extension_follows_the_dot(path: Seq<char>, stem: Seq<char>, ext: Seq<char>)
    requires
        stem.len() > 0,
        forall|i: int| 0 <= i < ext.len() ==> #[trigger] ext[i] != '.',
        base_name(path) == Some(stem + seq!['.'] + ext),
    ensures
        extension_name(path) == Some(ext),
{
    let n = stem + seq!['.'] + ext;
    text::lemma_last_of(n, '.');
    let k = stem.len() as int;
    assert(n[k] == '.');
    if let Some(i) = text::last_of(n, '.') {
        if i > k {
            assert(n[i] == ext[i - k - 1]);
        }
    }
    assert(n.skip(k + 1) =~= ext);
}

/// Two images are told apart by how they start, and the address of an image
/// holds its encoded bytes behind its kind.
pub proof fn law_image_address_holds_the_image(k: ImageKind, encoded: Seq<char>)
    ensures
        text::ends_with(data_uri(k, encoded), encoded),
        text::starts_with(data_uri(k, encoded), "data:"@ + mime_of(k)),
        forall|j: ImageKind| #[trigger] mime_of(j) == mime_of(k) ==> j == k,
{
    let u = data_uri(k, encoded);
    let p = "data:"@ + mime_of(k);
    assert(u.subrange(u.len() - encoded.len(), u.len() as int) =~= encoded);
    assert(u.subrange(0, p.len() as int) =~= p);
    reveal_strlit("image/png");
    reveal_strlit("image/jpeg");
    reveal_strlit("image/gif");
    reveal_strlit("image/webp");
    assert("image/png"@[6] == 'p' && "image/gif"@[6] == 'g' && "image/jpeg"@[6] == 'j'
        && "image/webp"@[6] == 'w');
}

/// An image is known by how its bytes start, whatever follows.
pub proof fn law_images_are_known_by_their_start(rest: Seq<u8>)
    ensures
        image_kind(seq![0x89u8, 0x50, 0x4e, 0x47] + rest) == Some(ImageKind::Png),
        image_kind(seq![0xffu8, 0xd8, 0xff, 0xe0] + rest) == Some(ImageKind::Jpeg),
        image_kind(seq![0x47u8, 0x49, 0x46, 0x38] + rest) == Some(ImageKind::Gif),
{
    let png = seq![0x89u8, 0x50, 0x4e, 0x47];
    let jpeg = seq![0xffu8, 0xd8, 0xff];
    let gif = seq![0x47u8, 0x49, 0x46, 0x38];
    let a = png + rest;
    let b = seq![0xffu8, 0xd8, 0xff, 0xe0] + rest;
    let c = gif + rest;
    assert(a.take(4) =~= png);
    assert(b.take(3) =~= jpeg);
    assert(b.take(4)[0] == 0xff);
    assert(png[0] == 0x89 && gif[0] == 0x47);
    assert(!bytes_start(b, png));
    assert(c.take(4) =~= gif);
    assert(c.take(4)[0] == 0x47 && c.take(3)[0] == 0x47);
    assert(!bytes_start(c, png));
    assert(!bytes_start(c, jpeg));
}

/// An image is taken where it is of a known kind and not too large, and why
/// another is not taken tells its size where that is the reason.
pub proof fn law_images_are_taken(b: Seq<u8>)
    ensures
        image_fault(b) is None <==> b.len() <= MAX_IMAGE_BYTES && image_kind(b) is Some,
        b.len() > MAX_IMAGE_BYTES ==> image_fault(b) is Some && text::contains(
            image_fault(b)->0,
            text::dec(b.len()),
        ),
{
    if b.len() > MAX_IMAGE_BYTES {
        let t = image_fault(b)->0;
        let d = text::dec(b.len());
        let a = "Image too large: "@;
        let r = t.skip((a.len() + d.len()) as int);
        assert(t =~= a + d + r);
        text::lemma_contains_part(a, d, r);
    }
}

/// What is sent unasked goes to another address in private than in a group,
/// and the parameter of a message holds its text, or says which file it is.
pub proof fn law_parameters_hold_the_message(t: Seq<char>, id: Seq<char>, name: Seq<char>, kind: Seq<char>)
    ensures
        proactive_url(true) != proactive_url(false),
        exists|v: JsonView| #[trigger]
            json::json_text(v) == text_param(t) && v.get_text("content"@) == Some(t),
        exists|v: JsonView| #[trigger]
            json::json_text(v) == file_param(id, name, kind) && v.get_text("mediaId"@) == Some(id)
                && v.get_text("fileName"@) == Some(name) && v.get_text("fileType"@) == Some(kind),
{
    reveal_strlit("https://api.dingtalk.com/v1.0/robot/oToMessages/batchSend");
    reveal_strlit("https://api.dingtalk.com/v1.0/robot/groupMessages/send");
    assert(proactive_url(true)[36] == 'o');
    assert(proactive_url(false)[36] == 'g');
    let a = seq![("content"@, JsonView::Text(t))];
    json::lemma_member_at(a, 0);
    assert(json::json_text(JsonView::Object(a)) == text_param(t));
    let b = seq![
        ("fileName"@, JsonView::Text(name)),
        ("fileType"@, JsonView::Text(kind)),
        ("mediaId"@, JsonView::Text(id)),
    ];
    reveal_strlit("fileName");
    reveal_strlit("fileType");
    reveal_strlit("mediaId");
    assert("fileName"@[4] == 'N' && "fileType"@[4] == 'T' && "mediaId"@.len() == 7
        && "fileName"@.len() == 8 && "fileType"@.len() == 8);
    json::lemma_member_at(b, 0);
    json::lemma_member_at(b, 1);
    json::lemma_member_at(b, 2);
    assert(json::json_text(JsonView::Object(b)) == file_param(id, name, kind));
}

} // verus!

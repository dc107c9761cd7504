//! Sessions: the conversation of a workspace, how it is kept in a file, and
//! which conversations are in use.

use crate::control::workspace;
use crate::control::workspace::{join_path, workspace_path};
use crate::json;
use crate::json::{clone_members, parse, Json, JsonView};
use crate::message;
use crate::message::{
    clone_calls, clone_messages, clone_opt, Content, ContentView, Message, MessageView,
};
use crate::orchestration::session_lines;
use crate::orchestration::session_lines::{message_from_json, message_to_line};
use crate::order;
use crate::seqs;
use crate::table::Table;
use crate::text;
use crate::text::{decimal_usize, parse_u64, str_eq, str_take_chars, str_trim};
use vstd::prelude::*;

verus! {

/// After how many seconds a session counts as no longer busy.
pub const BUSY_TIMEOUT_SECS: u64 = 1800;

// ---------------------------------------------------------------------------
// Identifiers and times
// ---------------------------------------------------------------------------

/// Whether a character is a hexadecimal digit in lower case.
pub open spec fn is_hex(c: char) -> bool {
    '0' <= c <= '9' || 'a' <= c <= 'f'
}

/// `Uuid::new_v4` of the `uuid` crate, written out: thirty-six characters,
/// hexadecimal digits in groups of eight, four, four, four and twelve with
/// hyphens between them. Which digits they are is left to chance.
#[verifier::external_body]
pub(crate) fn new_uuid() -> (r: String)
    ensures
        r@.len() == 36,
        forall|i: int|
            0 <= i < 36 ==> if i == 8 || i == 13 || i == 18 || i == 23 {
                #[trigger] r@[i] == '-'
            } else {
                is_hex(r@[i])
            },
{
    uuid::Uuid::new_v4().to_string()
}

/// The identifier of a session that began at that time, with that tag.
pub open spec fn session_id_of(stamp: Seq<char>, tag: Seq<char>) -> Seq<char> {
    "s_"@ + stamp + "_"@ + tag
}

/// The identifier of a session that began at that time, with that tag.
pub fn session_id_with(stamp: &str, tag: &str) -> (r: String)
    ensures
        r@ == session_id_of(stamp@, tag@),
{
    let mut r = "s_".to_owned();
    r.push_str(stamp);
    r.push_str("_");
    r.push_str(tag);
    r
}

/// A new identifier for a session that begins at that time: the time, and four
/// hexadecimal digits by chance.
pub fn generate_session_id(stamp: &str) -> (r: String)
    ensures
        exists|tag: Seq<char>|
            tag.len() == 4 && (forall|i: int| 0 <= i < 4 ==> is_hex(#[trigger] tag[i])) && r@
                == #[trigger] session_id_of(stamp@, tag),
{
    let id = new_uuid();
    let tag = str_take_chars(id.as_str(), 4);
    proof {
        assert(tag@ =~= id@.take(4));
    }
    session_id_with(stamp, tag.as_str())
}

/// A time in RFC 3339, moved to UTC.
pub uninterp spec fn utc_of(t: Seq<char>) -> Option<Seq<char>>;

/// `DateTime::parse_from_rfc3339` of the `chrono` crate, moved to UTC by
/// `with_timezone` and written by `to_rfc3339`. The contract names the result;
/// nothing comes back where the text is no such time.
#[verifier::external_body]
fn utc_time(t: &str) -> (r: Option<String>)
    ensures
        message::opt_text(r) == utc_of(t@),
{
    chrono::DateTime::parse_from_rfc3339(t).ok().map(
        |d| d.with_timezone(&chrono::Utc).to_rfc3339(),
    )
}

// ---------------------------------------------------------------------------
// Sessions
// ---------------------------------------------------------------------------

/// The conversation of a workspace. Messages are only ever added.
#[derive(Debug)]
pub struct Session {
    pub workspace_key: String,
    /// A new one each time that the session is taken up.
    pub session_id: String,
    pub messages: Vec<Message>,
    pub created_at: String,
    pub updated_at: String,
    /// In the order of the keys.
    pub metadata: Vec<(String, Json)>,
    /// How many messages have been merged into the memory.
    pub last_consolidated: usize,
}

/// What a session stands for.
#[verifier::ext_equal]
pub struct SessionView {
    pub workspace_key: Seq<char>,
    pub session_id: Seq<char>,
    pub messages: Seq<MessageView>,
    pub created_at: Seq<char>,
    pub updated_at: Seq<char>,
    pub metadata: Seq<(Seq<char>, JsonView)>,
    pub last_consolidated: usize,
}

impl View for Session {
    type V = SessionView;

    open spec fn view(&self) -> SessionView {
        SessionView {
            workspace_key: self.workspace_key@,
            session_id: self.session_id@,
            messages: message::views(self.messages@),
            created_at: self.created_at@,
            updated_at: self.updated_at@,
            metadata: json::members_view(self.metadata@),
            last_consolidated: self.last_consolidated,
        }
    }
}

/// A session without messages.
pub open spec fn new_session(key: Seq<char>, id: Seq<char>, now: Seq<char>) -> SessionView {
    SessionView {
        workspace_key: key,
        session_id: id,
        messages: Seq::empty(),
        created_at: now,
        updated_at: now,
        metadata: Seq::empty(),
        last_consolidated: 0,
    }
}

/// Whether a member of that name is handed to the model.
pub open spec fn is_handed_on(key: Seq<char>) -> bool {
    ||| key == "role"@
    ||| key == "content"@
    ||| key == "tool_calls"@
    ||| key == "tool_call_id"@
    ||| key == "name"@
}

/// What of a message is handed to the model. A role or a content that is
/// missing is handed on as the empty text.
pub open spec fn history_entry(m: MessageView) -> MessageView {
    MessageView {
        role: if m.role is None && m.has_other("role"@) {
            None
        } else {
            Some(m.role_or_empty())
        },
        content: match m.content {
            ContentView::Missing => ContentView::Text(Seq::empty()),
            c => c,
        },
        reasoning: None,
        timestamp: None,
        turn_id: None,
        reset_iterations: false,
        rest: seqs::select(m.rest, |p: (Seq<char>, JsonView)| is_handed_on(p.0)),
        ..m
    }
}

/// Whether a member of that name is handed to the model.
fn is_handed(key: &str) -> (r: bool)
    ensures
        r == is_handed_on(key@),
{
    str_eq(key, "role") || str_eq(key, "content") || str_eq(key, "tool_calls") || str_eq(
        key,
        "tool_call_id",
    ) || str_eq(key, "name")
}

/// The members that are handed to the model.
fn handed_members(m: &Vec<(String, Json)>) -> (r: Vec<(String, Json)>)
    ensures
        json::members_view(r@) == seqs::select(
            json::members_view(m@),
            |p: (Seq<char>, JsonView)| is_handed_on(p.0),
        ),
{
    let ghost all = json::members_view(m@);
    let ghost f = |p: (Seq<char>, JsonView)| is_handed_on(p.0);
    let mut out: Vec<(String, Json)> = Vec::new();
    let mut i: usize = 0;
    proof {
        json::lemma_members_view(m@);
        assert(all.skip(0) =~= all);
        assert(json::members_view(out@) + seqs::select(all, f) =~= seqs::select(all, f));
    }
    while i < m.len()
        invariant
            0 <= i <= m@.len() == all.len(),
            all == json::members_view(m@),
            f == (|p: (Seq<char>, JsonView)| is_handed_on(p.0)),
            forall|k: int| 0 <= k < m@.len() ==> #[trigger] all[k] == (m@[k].0@, m@[k].1@),
            json::members_view(out@) + seqs::select(all.skip(i as int), f) == seqs::select(all, f),
        decreases m@.len() - i,
    {
        let ghost rest = all.skip(i as int);
        let ghost before = out@;
        proof {
            assert(rest[0] == all[i as int]);
            assert(rest.skip(1) =~= all.skip(i + 1));
        }
        if is_handed(m[i].0.as_str()) {
            let k = m[i].0.clone();
            let v = m[i].1.clone();
            out.push((k, v));
            proof {
                json::lemma_members_push(before, k, v);
                assert(json::members_view(out@) + seqs::select(rest.skip(1), f)
                    =~= json::members_view(before) + (seq![rest[0]] + seqs::select(
                    rest.skip(1),
                    f,
                )));
            }
        }
        i += 1;
    }
    proof {
        assert(seqs::select(all.skip(i as int), f) =~= Seq::empty());
    }
    out
}

impl SessionView {
    /// The messages that are handed to the model: those that were not merged
    /// into the memory, and of these the last `max`, or all where that is 0.
    pub open spec fn history(self, max: nat) -> Seq<MessageView> {
        let open = self.messages.skip(self.last_consolidated as int);
        let sliced = if max > 0 && open.len() > max {
            open.skip(open.len() - max)
        } else {
            open
        };
        Seq::new(sliced.len(), |i: int| history_entry(sliced[i]))
    }
}

impl Session {
    /// A session without messages.
    pub fn new(workspace_key: &str, session_id: &str, now: &str) -> (r: Self)
        ensures
            r@ == new_session(workspace_key@, session_id@, now@),
    {
        let r = Session {
            workspace_key: workspace_key.to_owned(),
            session_id: session_id.to_owned(),
            messages: Vec::new(),
            created_at: now.to_owned(),
            updated_at: now.to_owned(),
            metadata: Vec::new(),
            last_consolidated: 0,
        };
        proof {
            assert(r@ =~= new_session(workspace_key@, session_id@, now@));
        }
        r
    }

    /// A copy of the session.
    pub fn duplicate(&self) -> (r: Self)
        ensures
            r@ == self@,
    {
        Session {
            workspace_key: self.workspace_key.clone(),
            session_id: self.session_id.clone(),
            messages: clone_messages(&self.messages),
            created_at: self.created_at.clone(),
            updated_at: self.updated_at.clone(),
            metadata: clone_members(&self.metadata),
            last_consolidated: self.last_consolidated,
        }
    }

    /// Adds a message.
    pub fn add_message(&mut self, role: &str, content: &str, now: &str)
        ensures
            final(self)@ == (SessionView {
                messages: old(self)@.messages.push(
                    (MessageView { timestamp: Some(now@), ..message::plain(role@, content@) }),
                ),
                updated_at: now@,
                ..old(self)@
            }),
    {
        let ghost before = self@;
        let mut m = Message::with_content(role, Content::Text(content.to_owned()));
        m.timestamp = Some(now.to_owned());
        let ghost ms = self.messages@;
        self.messages.push(m);
        self.updated_at = now.to_owned();
        proof {
            message::lemma_views_push(ms, m);
            assert(self@ =~= (SessionView {
                messages: before.messages.push(m@),
                updated_at: now@,
                ..before
            }));
        }
    }

    /// The messages that are handed to the model.
    pub fn get_history(&self, max_messages: usize) -> (r: Vec<Message>)
        requires
            self@.last_consolidated <= self@.messages.len(),
        ensures
            message::views(r@) == self@.history(max_messages as nat),
    {
        let n: usize = self.messages.len();
        let open: usize = n - self.last_consolidated;
        let start: usize = if max_messages > 0 && open > max_messages {
            n - max_messages
        } else {
            self.last_consolidated
        };
        let mut out: Vec<Message> = Vec::new();
        let mut i: usize = start;
        while i < n
            invariant
                start <= i <= n,
                n == self.messages@.len(),
                out@.len() == i - start,
                forall|k: int|
                    0 <= k < i - start ==> (#[trigger] out@[k])@ == history_entry(
                        self.messages@[start + k]@,
                    ),
            decreases n - i,
        {
            let m = &self.messages[i];
            let role = match &m.role {
                Some(r) => Some(r.clone()),
                None => if json::find_member(&m.rest, "role").is_some() {
                    None
                } else {
                    Some(String::new())
                },
            };
            let content = match &m.content {
                Content::Missing => Content::Text(String::new()),
                c => c.clone(),
            };
            proof {
                text::lemma_empty_literal();
            }
            let calls = match &m.tool_calls {
                Some(c) => Some(clone_calls(c)),
                None => None,
            };
            let entry = Message {
                role,
                content,
                tool_calls: calls,
                tool_call_id: clone_opt(&m.tool_call_id),
                name: clone_opt(&m.name),
                reasoning: None,
                timestamp: None,
                turn_id: None,
                reset_iterations: false,
                rest: handed_members(&m.rest),
            };
            proof {
                assert(entry@ =~= history_entry(m@));
            }
            out.push(entry);
            i += 1;
        }
        proof {
            assert(message::views(out@) =~= self@.history(max_messages as nat));
        }
        out
    }

    /// Forgets the messages; the identifier stays.
    pub fn clear(&mut self, now: &str)
        ensures
            final(self)@ == (SessionView {
                messages: Seq::empty(),
                last_consolidated: 0,
                updated_at: now@,
                ..old(self)@
            }),
    {
        let ghost before = self@;
        self.messages = Vec::new();
        self.last_consolidated = 0;
        self.updated_at = now.to_owned();
        proof {
            assert(self@ =~= (SessionView {
                messages: Seq::empty(),
                last_consolidated: 0,
                updated_at: now@,
                ..before
            }));
        }
    }
}

/// What is handed to the model is the end of what was said, in order, and no
/// more than was asked for.
pub proof fn law_history_is_the_end(s: SessionView, max: nat)
    requires
        s.last_consolidated <= s.messages.len(),
    ensures
        max > 0 ==> s.history(max).len() <= max,
        s.history(max).len() <= s.messages.len() - s.last_consolidated,
        forall|i: int|
            0 <= i < s.history(max).len() ==> #[trigger] s.history(max)[i] == history_entry(
                s.messages[s.messages.len() - s.history(max).len() + i],
            ),
{
}

// ---------------------------------------------------------------------------
// The lines of a session
// ---------------------------------------------------------------------------

/// The members of the first line of a session.
pub open spec fn metadata_members(s: SessionView) -> Seq<(Seq<char>, JsonView)> {
    seq![
        ("_type"@, JsonView::Text("metadata"@)),
        ("created_at"@, JsonView::Text(s.created_at)),
        ("last_consolidated"@, JsonView::Number(text::dec(s.last_consolidated as nat))),
        ("metadata"@, JsonView::Object(s.metadata)),
        ("session_id"@, JsonView::Text(s.session_id)),
        ("updated_at"@, JsonView::Text(s.updated_at)),
        ("workspace_key"@, JsonView::Text(s.workspace_key)),
    ]
}

/// The first line of a session.
pub open spec fn metadata_line(s: SessionView) -> Seq<char> {
    json::json_text(JsonView::Object(metadata_members(s)))
}

/// The lines of messages.
pub open spec fn message_lines(m: Seq<MessageView>) -> Seq<Seq<char>> {
    Seq::new(m.len(), |i: int| session_lines::message_line(m[i]))
}

/// The lines of a session.
pub open spec fn lines_of(s: SessionView) -> Seq<Seq<char>> {
    seq![metadata_line(s)] + message_lines(s.messages)
}

/// What is known of a session after some of its lines were read.
#[verifier::ext_equal]
pub struct LoadedView {
    pub messages: Seq<MessageView>,
    pub metadata: Seq<(Seq<char>, JsonView)>,
    pub created_at: Option<Seq<char>>,
    pub last_consolidated: usize,
}

/// Nothing was read yet.
pub open spec fn nothing_loaded() -> LoadedView {
    LoadedView {
        messages: Seq::empty(),
        metadata: Seq::empty(),
        created_at: None,
        last_consolidated: 0,
    }
}

/// A natural number of 64 bits that stands under a key.
pub open spec fn number_under(m: Seq<(Seq<char>, JsonView)>, key: Seq<char>) -> Option<nat> {
    match json::member(m, key) {
        Some(JsonView::Number(n)) => match text::number(n) {
            Some(k) => if k <= u64::MAX {
                Some(k)
            } else {
                None
            },
            None => None,
        },
        _ => None,
    }
}

/// What is known after the members of a line of metadata.
pub open spec fn with_metadata(l: LoadedView, m: Seq<(Seq<char>, JsonView)>) -> LoadedView {
    LoadedView {
        messages: l.messages,
        metadata: match json::member(m, "metadata"@) {
            Some(JsonView::Object(o)) => o,
            _ => l.metadata,
        },
        created_at: match json::member_text(m, "created_at"@) {
            Some(t) => utc_of(t),
            None => l.created_at,
        },
        last_consolidated: match number_under(m, "last_consolidated"@) {
            Some(k) => k as u64 as usize,
            None => l.last_consolidated,
        },
    }
}

/// What is known after a value that was read from a line.
pub open spec fn with_value(l: LoadedView, v: Option<JsonView>) -> LoadedView {
    match v {
        Some(JsonView::Object(m)) => if json::member_text(m, "_type"@) == Some("metadata"@) {
            with_metadata(l, m)
        } else {
            LoadedView {
                messages: l.messages.push(session_lines::read_message(JsonView::Object(m))),
                ..l
            }
        },
        _ => l,
    }
}

/// What is known after a further line. A line that is no object says nothing.
pub open spec fn with_line(l: LoadedView, line: Seq<char>) -> LoadedView {
    let t = text::trim(line);
    if t.len() == 0 {
        l
    } else {
        with_value(l, json::parsed(t))
    }
}

/// What is known after all of the lines.
pub open spec fn loaded(lines: Seq<Seq<char>>) -> LoadedView
    decreases lines.len(),
{
    if lines.len() == 0 {
        nothing_loaded()
    } else {
        with_line(loaded(lines.drop_last()), lines.last())
    }
}

/// The session of which that is known.
pub open spec fn session_from(
    l: LoadedView,
    key: Seq<char>,
    id: Seq<char>,
    now: Seq<char>,
) -> SessionView {
    SessionView {
        workspace_key: key,
        session_id: id,
        messages: l.messages,
        created_at: match l.created_at {
            Some(t) => t,
            None => now,
        },
        updated_at: now,
        metadata: l.metadata,
        last_consolidated: l.last_consolidated,
    }
}

// ---------------------------------------------------------------------------
// Reading back
// ---------------------------------------------------------------------------

/// Whether an object in its regular form, if the line is one, is what the
/// parser reads from it.
pub open spec fn is_faithful(line: Seq<char>) -> bool {
    forall|m: Seq<(Seq<char>, JsonView)>|
        #![trigger json::json_text(JsonView::Object(m))]
        json::json_text(JsonView::Object(m)) == line && json::is_regular(JsonView::Object(m), 100)
            ==> line.len() > 0 && text::trim(line) == line && json::parsed(line) == Some(
            JsonView::Object(m),
        )
}

/// An object in JSON has no white space around it.
proof fn lemma_object_is_trimmed(m: Seq<(Seq<char>, JsonView)>)
    ensures
        json::json_text(JsonView::Object(m)).len() > 0,
        text::trim(json::json_text(JsonView::Object(m))) == json::json_text(JsonView::Object(m)),
{
    reveal_strlit("{");
    reveal_strlit("}");
    let t = json::json_text(JsonView::Object(m));
    assert(t == "{"@ + json::members_text(m) + "}"@);
    assert(t[0] == '{');
    assert(t.last() == '}');
    assert(!text::is_white('{') && !text::is_white('}'));
}

/// The first line of a session is regular.
proof fn lemma_metadata_regular(s: SessionView)
    requires
        json::is_regular(JsonView::Object(s.metadata), 99),
    ensures
        json::keys_rise(metadata_members(s)),
        json::is_regular(JsonView::Object(metadata_members(s)), 100),
{
    let m = metadata_members(s);
    reveal_strlit("_type");
    reveal_strlit("created_at");
    reveal_strlit("last_consolidated");
    reveal_strlit("metadata");
    reveal_strlit("session_id");
    reveal_strlit("updated_at");
    reveal_strlit("workspace_key");
    assert("_type"@[0] == '_' && "created_at"@[0] == 'c' && "last_consolidated"@[0] == 'l'
        && "metadata"@[0] == 'm' && "session_id"@[0] == 's' && "updated_at"@[0] == 'u'
        && "workspace_key"@[0] == 'w');
    assert forall|i: int, j: int| 0 <= i < j < m.len() implies order::before(
        (#[trigger] m[i]).0,
        (#[trigger] m[j]).0,
    ) by {
        assert((m[i].0[0] as u32) < (m[j].0[0] as u32));
    }
    let k = s.last_consolidated as u64;
    assert(text::dec(k as nat) == text::dec(s.last_consolidated as nat));
    assert forall|i: int| 0 <= i < m.len() implies json::is_regular((#[trigger] m[i]).1, 99) by {
        if i == 2 {
            assert(m[2].1 == JsonView::Number(text::dec(k as nat)));
        }
    }
}

/// What is known after the first line of a session.
proof fn lemma_metadata_is_read(s: SessionView, l: LoadedView)
    requires
        json::is_regular(JsonView::Object(s.metadata), 99),
        is_faithful(metadata_line(s)),
    ensures
        with_line(l, metadata_line(s)) == (LoadedView {
            messages: l.messages,
            metadata: s.metadata,
            created_at: utc_of(s.created_at),
            last_consolidated: s.last_consolidated,
        }),
{
    lemma_metadata_regular(s);
    let m = metadata_members(s);
    json::lemma_rising_member(m, 0);
    json::lemma_rising_member(m, 1);
    json::lemma_rising_member(m, 2);
    json::lemma_rising_member(m, 3);
    assert(json::json_text(JsonView::Object(m)) == metadata_line(s));
    text::lemma_dec_is_read(s.last_consolidated as nat);
    assert(json::parsed(metadata_line(s)) == Some(JsonView::Object(m)));
}

/// What is known after the line of a message.
proof fn lemma_message_is_read(m: MessageView, l: LoadedView)
    requires
        session_lines::is_sound(m),
        is_faithful(session_lines::message_line(m)),
    ensures
        with_line(l, session_lines::message_line(m)) == (LoadedView {
            messages: l.messages.push(m),
            ..l
        }),
{
    session_lines::lemma_message_regular(m);
    session_lines::law_message_is_read_back(m);
    let o = session_lines::message_members(m);
    assert(json::json_text(JsonView::Object(o)) == session_lines::message_line(m));
    assert(json::member_text(o, "_type"@) != Some("metadata"@));
}

/// Whether messages are what their lines give back.
pub open spec fn all_sound(m: Seq<MessageView>) -> bool {
    forall|i: int| 0 <= i < m.len() ==> session_lines::is_sound(#[trigger] m[i])
}

/// What is known after the lines of messages.
proof fn lemma_messages_are_read(before: Seq<Seq<char>>, m: Seq<MessageView>)
    requires
        all_sound(m),
        forall|i: int| 0 <= i < m.len() ==> is_faithful(#[trigger] message_lines(m)[i]),
    ensures
        loaded(before + message_lines(m)) == (LoadedView {
            messages: loaded(before).messages + m,
            ..loaded(before)
        }),
    decreases m.len(),
{
    let all = before + message_lines(m);
    if m.len() == 0 {
        assert(all =~= before);
        assert(loaded(before).messages + m =~= loaded(before).messages);
    } else {
        let p = m.drop_last();
        assert(message_lines(p) =~= message_lines(m).drop_last());
        assert forall|i: int| 0 <= i < p.len() implies is_faithful(#[trigger] message_lines(p)[i]) by {
            assert(message_lines(p)[i] == message_lines(m)[i]);
        }
        assert(all_sound(p)) by {
            assert forall|i: int| 0 <= i < p.len() implies session_lines::is_sound(
                #[trigger] p[i],
            ) by {
                assert(p[i] == m[i]);
            }
        }
        assert(session_lines::is_sound(m[m.len() - 1]));
        lemma_messages_are_read(before, p);
        assert(all.drop_last() =~= before + message_lines(p));
        assert(all.last() == message_lines(m)[m.len() - 1]);
        assert(all.last() == session_lines::message_line(m.last()));
        lemma_message_is_read(m.last(), loaded(before + message_lines(p)));
        assert((loaded(before).messages + p).push(m.last()) =~= loaded(before).messages + m);
    }
}

/// The lines of a session are single lines.
pub proof fn law_lines_are_single(s: SessionView)
    requires
        all_sound(s.messages),
        json::is_regular(JsonView::Object(s.metadata), 99),
    ensures
        forall|i: int| 0 <= i < lines_of(s).len() ==> session_lines::is_one_line(
            #[trigger] lines_of(s)[i],
        ),
{
    lemma_metadata_regular(s);
    session_lines::lemma_json_one_line(JsonView::Object(metadata_members(s)), 100);
    assert forall|i: int| 0 <= i < lines_of(s).len() implies session_lines::is_one_line(
        #[trigger] lines_of(s)[i],
    ) by {
        if i > 0 {
            assert(session_lines::is_sound(s.messages[i - 1]));
            session_lines::law_message_is_one_line(s.messages[i - 1]);
            assert(lines_of(s)[i] == message_lines(s.messages)[i - 1]);
        } else {
            assert(lines_of(s)[0] == metadata_line(s));
        }
    }
}

// ---------------------------------------------------------------------------
// Writing and reading
// ---------------------------------------------------------------------------

/// The first line of a session.
pub fn metadata_to_line(s: &Session) -> (r: String)
    ensures
        r@ == metadata_line(s@),
{
    let mut m: Vec<(String, Json)> = Vec::new();
    m.push(("_type".to_owned(), Json::Text("metadata".to_owned())));
    m.push(("created_at".to_owned(), Json::Text(s.created_at.clone())));
    m.push(("last_consolidated".to_owned(), Json::Number(decimal_usize(s.last_consolidated))));
    m.push(("metadata".to_owned(), Json::Object(clone_members(&s.metadata))));
    m.push(("session_id".to_owned(), Json::Text(s.session_id.clone())));
    m.push(("updated_at".to_owned(), Json::Text(s.updated_at.clone())));
    m.push(("workspace_key".to_owned(), Json::Text(s.workspace_key.clone())));
    proof {
        json::lemma_members_view(m@);
        assert(json::members_view(m@) =~= metadata_members(s@));
    }
    let v = Json::Object(m);
    v.render()
}

/// The lines of messages.
pub fn messages_to_lines(messages: &Vec<Message>) -> (r: Vec<String>)
    ensures
        text::texts(r@) == message_lines(message::views(messages@)),
{
    let mut out: Vec<String> = Vec::new();
    let mut i: usize = 0;
    while i < messages.len()
        invariant
            0 <= i <= messages@.len(),
            out@.len() == i,
            forall|k: int|
                0 <= k < i ==> (#[trigger] out@[k])@ == session_lines::message_line(
                    messages@[k]@,
                ),
        decreases messages@.len() - i,
    {
        out.push(message_to_line(&messages[i]));
        i += 1;
    }
    proof {
        assert(text::texts(out@) =~= message_lines(message::views(messages@)));
    }
    out
}

/// The lines of a session.
pub fn session_to_lines(s: &Session) -> (r: Vec<String>)
    ensures
        text::texts(r@) == lines_of(s@),
{
    let mut out: Vec<String> = Vec::new();
    out.push(metadata_to_line(s));
    let mut rest = messages_to_lines(&s.messages);
    let ghost lines = rest@;
    out.append(&mut rest);
    proof {
        assert(text::texts(out@) =~= seq![metadata_line(s@)] + text::texts(lines));
    }
    out
}

/// What is known of a session while its lines are read.
pub struct Loaded {
    pub messages: Vec<Message>,
    pub metadata: Vec<(String, Json)>,
    pub created_at: Option<String>,
    pub last_consolidated: usize,
}

impl View for Loaded {
    type V = LoadedView;

    open spec fn view(&self) -> LoadedView {
        LoadedView {
            messages: message::views(self.messages@),
            metadata: json::members_view(self.metadata@),
            created_at: message::opt_text(self.created_at),
            last_consolidated: self.last_consolidated,
        }
    }
}

impl Loaded {
    /// Nothing was read yet.
    pub fn new() -> (r: Self)
        ensures
            r@ == nothing_loaded(),
    {
        let r = Loaded {
            messages: Vec::new(),
            metadata: Vec::new(),
            created_at: None,
            last_consolidated: 0,
        };
        proof {
            assert(r@ =~= nothing_loaded());
        }
        r
    }

    /// Takes in the members of a line of metadata.
    fn take_metadata(&mut self, m: &Vec<(String, Json)>)
        ensures
            final(self)@ == with_metadata(old(self)@, json::members_view(m@)),
    {
        if let Some(Json::Object(o)) = json::find_member(m, "metadata") {
            self.metadata = clone_members(o);
        }
        if let Some(t) = json::find_text(m, "created_at") {
            self.created_at = utc_time(t);
        }
        if let Some(Json::Number(n)) = json::find_member(m, "last_consolidated") {
            if let Some(k) = parse_u64(n.as_str()) {
                self.last_consolidated = k as usize;
            }
        }
    }

    /// Takes in the value of a line.
    pub fn take_value(&mut self, v: Option<Json>)
        ensures
            final(self)@ == with_value(
                old(self)@,
                match v {
                    Some(j) => Some(j@),
                    None => None,
                },
            ),
    {
        let ghost before = self@;
        if let Some(Json::Object(m)) = v {
            let is_metadata = match json::find_text(&m, "_type") {
                Some(t) => str_eq(t, "metadata"),
                None => false,
            };
            if is_metadata {
                self.take_metadata(&m);
            } else {
                let o = Json::Object(m);
                let msg = message_from_json(&o);
                let ghost ms = self.messages@;
                self.messages.push(msg);
                proof {
                    message::lemma_views_push(ms, msg);
                    assert(self@ =~= (LoadedView { messages: before.messages.push(msg@), ..before }));
                }
            }
        }
    }

    /// Takes in a line.
    pub fn take_line(&mut self, line: &str)
        ensures
            final(self)@ == with_line(old(self)@, line@),
            is_faithful(line@),
    {
        let t = str_trim(line);
        proof {
            assert forall|m: Seq<(Seq<char>, JsonView)>|
                #![trigger json::json_text(JsonView::Object(m))]
                json::json_text(JsonView::Object(m)) == line@ implies t@ == line@ && t@.len() > 0 by {
                lemma_object_is_trimmed(m);
            }
        }
        if t.as_str().is_empty() {
            return;
        }
        let v = parse(t.as_str());
        proof {
            assert forall|m: Seq<(Seq<char>, JsonView)>|
                #![trigger json::json_text(JsonView::Object(m))]
                json::json_text(JsonView::Object(m)) == line@ && json::is_regular(
                    JsonView::Object(m),
                    100,
                ) implies json::parsed(line@) == Some(JsonView::Object(m)) by {
                let o = JsonView::Object(m);
                assert(json::json_text(o) == t@);
                assert(v is Some && v->0@ == o);
            }
        }
        self.take_value(v);
    }
}

/// Reads the lines of a session. The lines that were written for a session,
/// and for messages after it, give them back.
pub fn read_lines(lines: &Vec<String>) -> (r: Loaded)
    ensures
        r@ == loaded(text::texts(lines@)),
        forall|s: SessionView|
            #[trigger] lines_of(s) == text::texts(lines@) && all_sound(s.messages)
                && json::is_regular(JsonView::Object(s.metadata), 99) ==> r@ == (LoadedView {
                messages: s.messages,
                metadata: s.metadata,
                created_at: utc_of(s.created_at),
                last_consolidated: s.last_consolidated,
            }),
        forall|before: Seq<Seq<char>>, m: Seq<MessageView>| #[trigger]
            (before + message_lines(m)) == text::texts(lines@) && all_sound(m) ==> r@ == (LoadedView {
                messages: loaded(before).messages + m,
                ..loaded(before)
            }),
{
    let mut l = Loaded::new();
    let mut i: usize = 0;
    let ghost all = text::texts(lines@);
    proof {
        assert(all.take(0) =~= Seq::empty());
    }
    while i < lines.len()
        invariant
            0 <= i <= lines@.len(),
            all == text::texts(lines@),
            l@ == loaded(all.take(i as int)),
            forall|k: int| 0 <= k < i ==> is_faithful(#[trigger] all[k]),
        decreases lines@.len() - i,
    {
        l.take_line(lines[i].as_str());
        proof {
            assert(all.take(i + 1).drop_last() =~= all.take(i as int));
            assert(all.take(i + 1).last() == all[i as int]);
        }
        i += 1;
    }
    proof {
        assert(all.take(i as int) =~= all);
        assert forall|before: Seq<Seq<char>>, m: Seq<MessageView>| #[trigger]
            (before + message_lines(m)) == text::texts(lines@) && all_sound(m) implies l@ == (
        LoadedView {
            messages: loaded(before).messages + m,
            ..loaded(before)
        }) by {
            assert forall|k: int| 0 <= k < m.len() implies is_faithful(
                #[trigger] message_lines(m)[k],
            ) by {
                assert(all[before.len() + k] == message_lines(m)[k]);
            }
            lemma_messages_are_read(before, m);
        }
        assert forall|s: SessionView|
            #[trigger] lines_of(s) == text::texts(lines@) && all_sound(s.messages)
                && json::is_regular(JsonView::Object(s.metadata), 99) implies l@ == (LoadedView {
            messages: s.messages,
            metadata: s.metadata,
            created_at: utc_of(s.created_at),
            last_consolidated: s.last_consolidated,
        }) by {
            let first = seq![metadata_line(s)];
            assert(first + message_lines(s.messages) == all);
            assert(all[0] == metadata_line(s));
            assert(first.drop_last() =~= Seq::empty());
            lemma_metadata_is_read(s, nothing_loaded());
            assert(loaded(first) == with_line(loaded(first.drop_last()), first.last()));
            assert(Seq::<MessageView>::empty() + s.messages =~= s.messages);
        }
    }
    l
}

/// The session of which lines were kept.
pub fn read_session(
    workspace_key: &str,
    lines: &Vec<String>,
    session_id: &str,
    now: &str,
) -> (r: Session)
    ensures
        r@ == session_from(loaded(text::texts(lines@)), workspace_key@, session_id@, now@),
        forall|s: SessionView|
            #[trigger] lines_of(s) == text::texts(lines@) && all_sound(s.messages)
                && json::is_regular(JsonView::Object(s.metadata), 99) ==> r@.messages == s.messages && r@.metadata == s.metadata && r@.last_consolidated
                == s.last_consolidated && r@.created_at == (match utc_of(s.created_at) {
                Some(t) => t,
                None => now@,
            }),
{
    let l = read_lines(lines);
    let created = match l.created_at {
        Some(t) => t,
        None => now.to_owned(),
    };
    Session {
        workspace_key: workspace_key.to_owned(),
        session_id: session_id.to_owned(),
        messages: l.messages,
        created_at: created,
        updated_at: now.to_owned(),
        metadata: l.metadata,
        last_consolidated: l.last_consolidated,
    }
}

// ---------------------------------------------------------------------------
// The sessions in use
// ---------------------------------------------------------------------------

/// A session in use. Times are in milliseconds.
struct ActiveSession {
    session: Session,
    last_access: u64,
    /// Since when a request is worked on.
    busy_since: Option<u64>,
}

/// What a session in use stands for.
pub struct ActiveView {
    pub session: SessionView,
    pub last_access: u64,
    pub busy_since: Option<u64>,
}

impl View for ActiveSession {
    type V = ActiveView;

    closed spec fn view(&self) -> ActiveView {
        ActiveView {
            session: self.session@,
            last_access: self.last_access,
            busy_since: self.busy_since,
        }
    }
}

/// The seconds from one time to another; none where the other is earlier.
pub open spec fn secs_between(from: u64, now: u64) -> int {
    if now >= from {
        (now - from) / 1000
    } else {
        0
    }
}

/// The milliseconds from one time to another; none where the other is earlier.
pub open spec fn ms_between(from: u64, now: u64) -> int {
    if now >= from {
        now - from
    } else {
        0
    }
}

impl ActiveView {
    /// Whether a request is worked on. One that takes too long does not count.
    pub open spec fn is_busy(self, now: u64) -> bool {
        match self.busy_since {
            Some(since) => secs_between(since, now) < BUSY_TIMEOUT_SECS,
            None => false,
        }
    }

    /// Whether nobody has used the session for that long.
    pub open spec fn is_idle(self, timeout_secs: u64, now: u64) -> bool {
        !self.is_busy(now) && secs_between(self.last_access, now) >= timeout_secs
    }
}

fn elapsed_ms(from: u64, now: u64) -> (r: u64)
    ensures
        r == ms_between(from, now),
        r / 1000 == secs_between(from, now),
{
    if now >= from {
        now - from
    } else {
        0
    }
}

/// The sessions in use, by the keys of their workspaces.
pub struct SessionManager {
    cache: Table<ActiveSession>,
    root: String,
}

/// What the sessions in use stand for.
pub struct SessionsView {
    pub cache: Map<Seq<char>, ActiveView>,
    pub root: Seq<char>,
}

spec fn active_views(t: Map<Seq<char>, ActiveSession>) -> Map<Seq<char>, ActiveView> {
    t.map_values(|a: ActiveSession| a@)
}

impl View for SessionManager {
    type V = SessionsView;

    closed spec fn view(&self) -> SessionsView {
        SessionsView { cache: active_views(self.cache@), root: self.root@ }
    }
}

impl SessionsView {
    /// What is in use once a session was asked for.
    pub open spec fn opened(self, key: Seq<char>, stored: SessionView, now: u64) -> SessionsView {
        let a = if self.cache.contains_key(key) {
            ActiveView { last_access: now, ..self.cache[key] }
        } else {
            ActiveView { session: stored, last_access: now, busy_since: None }
        };
        SessionsView { cache: self.cache.insert(key, a), ..self }
    }

    /// What is in use once a session was written.
    pub open spec fn saved(self, session: SessionView, now: u64) -> SessionsView {
        let key = session.workspace_key;
        let busy = if self.cache.contains_key(key) {
            self.cache[key].busy_since
        } else {
            None
        };
        SessionsView {
            cache: self.cache.insert(
                key,
                ActiveView { session, last_access: now, busy_since: busy },
            ),
            ..self
        }
    }

    /// What is in use once a session has changed, where it is in use.
    pub open spec fn changed(self, key: Seq<char>, a: ActiveView) -> SessionsView {
        if self.cache.contains_key(key) {
            SessionsView { cache: self.cache.insert(key, a), ..self }
        } else {
            self
        }
    }
}

/// The session that was kept, or a new one.
pub open spec fn stored_session(
    key: Seq<char>,
    stored: Option<Seq<Seq<char>>>,
    id: Seq<char>,
    now: Seq<char>,
) -> SessionView {
    match stored {
        Some(lines) => session_from(loaded(lines), key, id, now),
        None => new_session(key, id, now),
    }
}

/// Lines, where there are some.
pub open spec fn opt_texts(o: Option<Vec<String>>) -> Option<Seq<Seq<char>>> {
    match o {
        Some(v) => Some(text::texts(v@)),
        None => None,
    }
}

impl SessionManager {
    /// No session is in use.
    pub fn new(root: &str) -> (r: Self)
        ensures
            r@.cache == Map::<Seq<char>, ActiveView>::empty(),
            r@.root == root@,
    {
        let r = SessionManager { cache: Table::new(), root: root.to_owned() };
        proof {
            assert(r@.cache =~= Map::<Seq<char>, ActiveView>::empty());
        }
        r
    }

    /// The file of a session.
    pub fn history_path(&self, workspace_key: &str) -> (r: String)
        ensures
            r@ == workspace::below(
                workspace::workspace_dir_of(
                    workspace::below(self@.root, "works"@),
                    workspace_key@,
                ),
                "history.jsonl"@,
            ),
    {
        let dir = workspace_path(self.root.as_str(), workspace_key);
        join_path(dir.as_str(), "history.jsonl")
    }

    /// Whether a session is in use.
    pub fn is_active(&self, workspace_key: &str) -> (r: bool)
        ensures
            r == self@.cache.contains_key(workspace_key@),
    {
        match self.cache.get(workspace_key) {
            Some(_) => true,
            None => false,
        }
    }

    /// Puts back what was taken out, as it is now.
    fn put(&mut self, workspace_key: &str, a: ActiveSession)
        ensures
            final(self)@ == (SessionsView {
                cache: old(self)@.cache.insert(workspace_key@, a@),
                ..old(self)@
            }),
    {
        let ghost before = self.cache@;
        self.cache.insert(workspace_key.to_owned(), a);
        proof {
            assert(active_views(self.cache@) =~= active_views(before).insert(
                workspace_key@,
                a@,
            ));
        }
    }

    fn take(&mut self, workspace_key: &str) -> (r: Option<ActiveSession>)
        ensures
            final(self)@ == (SessionsView {
                cache: old(self)@.cache.remove(workspace_key@),
                ..old(self)@
            }),
            r is Some <==> old(self)@.cache.contains_key(workspace_key@),
            r matches Some(a) ==> a@ == old(self)@.cache[workspace_key@],
    {
        let ghost before = self.cache@;
        let r = self.cache.remove(workspace_key);
        proof {
            assert(active_views(self.cache@) =~= active_views(before).remove(workspace_key@));
        }
        r
    }

    /// A copy of the session of a workspace. One that is not in use yet is
    /// made from the lines that were kept, or new.
    pub fn get_or_create_clone(
        &mut self,
        workspace_key: &str,
        stored: Option<Vec<String>>,
        session_id: &str,
        now: &str,
        tick: u64,
    ) -> (r: Session)
        ensures
            final(self)@ == old(self)@.opened(
                workspace_key@,
                stored_session(workspace_key@, opt_texts(stored), session_id@, now@),
                tick,
            ),
            r@ == final(self)@.cache[workspace_key@].session,
    {
        let ghost before = self@;
        let a = match self.take(workspace_key) {
            Some(a) => ActiveSession { last_access: tick, ..a },
            None => {
                let session = match &stored {
                    Some(lines) => read_session(workspace_key, lines, session_id, now),
                    None => Session::new(workspace_key, session_id, now),
                };
                ActiveSession { session, last_access: tick, busy_since: None }
            },
        };
        let copy = a.session.duplicate();
        self.put(workspace_key, a);
        proof {
            assert(self@.cache =~= before.opened(
                workspace_key@,
                stored_session(workspace_key@, opt_texts(stored), session_id@, now@),
                tick,
            ).cache);
        }
        copy
    }

    /// Notes that a session is being used.
    pub fn touch(&mut self, workspace_key: &str, tick: u64)
        ensures
            final(self)@ == old(self)@.changed(
                workspace_key@,
                (ActiveView { last_access: tick, ..old(self)@.cache[workspace_key@] }),
            ),
    {
        let ghost before = self@;
        if let Some(a) = self.take(workspace_key) {
            self.put(workspace_key, ActiveSession { last_access: tick, ..a });
            proof {
                assert(self@.cache =~= before.changed(
                    workspace_key@,
                    (ActiveView { last_access: tick, ..before.cache[workspace_key@] }),
                ).cache);
            }
        } else {
            proof {
                assert(self@.cache =~= before.cache);
            }
        }
    }

    /// Notes that a request is being worked on.
    pub fn set_busy(&mut self, workspace_key: &str, tick: u64)
        ensures
            final(self)@ == old(self)@.changed(
                workspace_key@,
                (ActiveView { busy_since: Some(tick), ..old(self)@.cache[workspace_key@] }),
            ),
    {
        let ghost before = self@;
        if let Some(a) = self.take(workspace_key) {
            self.put(workspace_key, ActiveSession { busy_since: Some(tick), ..a });
            proof {
                assert(self@.cache =~= before.changed(
                    workspace_key@,
                    (ActiveView { busy_since: Some(tick), ..before.cache[workspace_key@] }),
                ).cache);
            }
        } else {
            proof {
                assert(self@.cache =~= before.cache);
            }
        }
    }

    /// For how many milliseconds a request has been worked on; nothing where
    /// none is, or where it has taken too long.
    pub fn busy_elapsed(&self, workspace_key: &str, tick: u64) -> (r: Option<u64>)
        ensures
            r is Some <==> self@.cache.contains_key(workspace_key@)
                && self@.cache[workspace_key@].is_busy(tick),
            r matches Some(e) ==> e == ms_between(
                self@.cache[workspace_key@].busy_since->0,
                tick,
            ),
    {
        match self.cache.get(workspace_key) {
            Some(a) => match a.busy_since {
                Some(since) => {
                    let e = elapsed_ms(since, tick);
                    if e / 1000 < BUSY_TIMEOUT_SECS {
                        Some(e)
                    } else {
                        None
                    }
                },
                None => None,
            },
            None => None,
        }
    }

    /// Notes that no request is being worked on any more.
    pub fn clear_busy(&mut self, workspace_key: &str, tick: u64)
        ensures
            final(self)@ == old(self)@.changed(
                workspace_key@,
                (ActiveView {
                    busy_since: None,
                    last_access: tick,
                    ..old(self)@.cache[workspace_key@]
                }),
            ),
    {
        let ghost before = self@;
        if let Some(a) = self.take(workspace_key) {
            self.put(
                workspace_key,
                ActiveSession { busy_since: None, last_access: tick, ..a },
            );
            proof {
                assert(self@.cache =~= before.changed(
                    workspace_key@,
                    (ActiveView {
                        busy_since: None,
                        last_access: tick,
                        ..before.cache[workspace_key@]
                    }),
                ).cache);
            }
        } else {
            proof {
                assert(self@.cache =~= before.cache);
            }
        }
    }

    /// The identifier of a session in use.
    pub fn get_session_id(&self, workspace_key: &str) -> (r: Option<String>)
        ensures
            message::opt_text(r) == (if self@.cache.contains_key(workspace_key@) {
                Some(self@.cache[workspace_key@].session.session_id)
            } else {
                None::<Seq<char>>
            }),
    {
        match self.cache.get(workspace_key) {
            Some(a) => Some(a.session.session_id.clone()),
            None => None,
        }
    }

    /// Notes that a session was written as a whole.
    pub fn save(&mut self, session: &Session, tick: u64)
        ensures
            final(self)@ == old(self)@.saved(session@, tick),
    {
        let ghost before = self@;
        let busy = match self.take(session.workspace_key.as_str()) {
            Some(a) => a.busy_since,
            None => None,
        };
        let a = ActiveSession { session: session.duplicate(), last_access: tick, busy_since: busy };
        self.put(session.workspace_key.as_str(), a);
        proof {
            assert(self@.cache =~= before.saved(session@, tick).cache);
        }
    }

    /// The lines to be written behind those that are there: those of the
    /// messages, and before them the first line where there is no file yet.
    pub fn append_lines(
        &self,
        workspace_key: &str,
        messages: &Vec<Message>,
        file_exists: bool,
        new_id: &str,
        now: &str,
    ) -> (r: Vec<String>)
        ensures
            text::texts(r@) == (if messages@.len() > 0 && !file_exists {
                seq![metadata_line(
                    new_session(
                        workspace_key@,
                        if self@.cache.contains_key(workspace_key@) {
                            self@.cache[workspace_key@].session.session_id
                        } else {
                            new_id@
                        },
                        now@,
                    ),
                )] + message_lines(message::views(messages@))
            } else {
                message_lines(message::views(messages@))
            }),
    {
        let mut lines = messages_to_lines(messages);
        if messages.len() == 0 || file_exists {
            return lines;
        }
        let session = match self.get_session_id(workspace_key) {
            Some(id) => Session::new(workspace_key, id.as_str(), now),
            None => Session::new(workspace_key, new_id, now),
        };
        let mut out: Vec<String> = Vec::new();
        out.push(metadata_to_line(&session));
        let ghost rest = lines@;
        out.append(&mut lines);
        proof {
            assert(text::texts(out@) =~= seq![metadata_line(session@)] + text::texts(rest));
        }
        out
    }

    /// Notes that messages were written; where there were some, the session is
    /// read anew the next time.
    pub fn append_messages(&mut self, workspace_key: &str, messages: &Vec<Message>)
        ensures
            final(self)@ == (if messages@.len() > 0 {
                SessionsView {
                    cache: old(self)@.cache.remove(workspace_key@),
                    ..old(self)@
                }
            } else {
                old(self)@
            }),
    {
        if messages.len() > 0 {
            let _gone = self.take(workspace_key);
        }
    }

    /// Takes a session out of use.
    pub fn invalidate(&mut self, workspace_key: &str)
        ensures
            final(self)@ == (SessionsView {
                cache: old(self)@.cache.remove(workspace_key@),
                ..old(self)@
            }),
    {
        let _gone = self.take(workspace_key);
    }

    /// The workspaces whose sessions nobody has used for that long, in no
    /// particular order.
    pub fn find_idle_workspaces(&self, timeout_secs: u64, tick: u64) -> (r: Vec<String>)
        ensures
            text::texts(r@).no_duplicates(),
            forall|k: Seq<char>| #[trigger]
                text::texts(r@).contains(k) <==> self@.cache.contains_key(k)
                    && self@.cache[k].is_idle(timeout_secs, tick),
    {
        let keys = self.cache.keys();
        let ghost all = text::texts(keys@);
        let mut out: Vec<String> = Vec::new();
        let mut i: usize = 0;
        while i < keys.len()
            invariant
                0 <= i <= keys@.len(),
                all == text::texts(keys@),
                all.no_duplicates(),
                forall|k: Seq<char>| #[trigger] all.contains(k) <==> self@.cache.contains_key(k),
                text::texts(out@).no_duplicates(),
                forall|k: Seq<char>| #[trigger]
                    text::texts(out@).contains(k) <==> all.take(i as int).contains(k)
                        && self@.cache[k].is_idle(timeout_secs, tick),
            decreases keys@.len() - i,
        {
            let ghost before = text::texts(out@);
            let ghost key = keys@[i as int]@;
            proof {
                assert(all[i as int] == key);
                assert(all.contains(key));
                assert(all.take(i + 1) =~= all.take(i as int).push(key));
                assert(!all.take(i as int).contains(key)) by {
                    if all.take(i as int).contains(key) {
                        let j = choose|j: int| 0 <= j < i && all.take(i as int)[j] == key;
                        assert(all[j] == all[i as int]);
                    }
                }
                assert forall|k: Seq<char>| #[trigger] all.take(i + 1).contains(k) <==> all.take(
                    i as int,
                ).contains(k) || k == key by {
                    seqs::lemma_push_contains(all.take(i as int), key, k);
                }
            }
            let is_idle = match self.cache.get(keys[i].as_str()) {
                Some(a) => {
                    let busy = match a.busy_since {
                        Some(since) => elapsed_ms(since, tick) / 1000 < BUSY_TIMEOUT_SECS,
                        None => false,
                    };
                    !busy && elapsed_ms(a.last_access, tick) / 1000 >= timeout_secs
                },
                None => false,
            };
            if is_idle {
                out.push(keys[i].clone());
                proof {
                    assert(text::texts(out@) =~= before.push(key));
                    assert(!before.contains(key));
                    assert forall|k: Seq<char>| #[trigger]
                        text::texts(out@).contains(k) <==> before.contains(k) || k == key by {
                        seqs::lemma_push_contains(before, key, k);
                    }
                }
            }
            i += 1;
        }
        proof {
            assert(all.take(i as int) =~= all);
        }
        out
    }

    /// Takes a session out of use and hands it back.
    pub fn evict(&mut self, workspace_key: &str) -> (r: Option<Session>)
        ensures
            final(self)@ == (SessionsView {
                cache: old(self)@.cache.remove(workspace_key@),
                ..old(self)@
            }),
            r is Some <==> old(self)@.cache.contains_key(workspace_key@),
            r matches Some(s) ==> s@ == old(self)@.cache[workspace_key@].session,
    {
        match self.take(workspace_key) {
            Some(a) => Some(a.session),
            None => None,
        }
    }

    /// How many sessions are in use.
    pub fn active_count(&self) -> (r: usize)
        ensures
            self@.cache.dom().finite(),
            r == self@.cache.dom().len(),
    {
        proof {
            assert(active_views(self.cache@).dom() =~= self.cache@.dom());
        }
        self.cache.len()
    }
}

/// While a request is worked on, and for no longer than the limit, its session
/// is not idle; nor is one that was used just now, unless no time at all is
/// allowed.
pub proof fn law_busy_is_not_idle(a: ActiveView, timeout_secs: u64, now: u64)
    ensures
        a.busy_since is Some && ms_between(a.busy_since->0, now) < BUSY_TIMEOUT_SECS * 1000
            ==> !a.is_idle(timeout_secs, now),
        a.last_access == now && timeout_secs > 0 ==> !a.is_idle(timeout_secs, now),
        a.busy_since is Some && ms_between(a.busy_since->0, now) >= BUSY_TIMEOUT_SECS * 1000
            && ms_between(a.last_access, now) >= timeout_secs * 1000 ==> a.is_idle(
            timeout_secs,
            now,
        ),
{
}

/// A session that was written is the one that is handed out, whatever the file
/// holds, and writing one leaves the others alone.
pub proof fn law_saved_session_is_handed_out(
    all: SessionsView,
    session: SessionView,
    stored: SessionView,
    tick: u64,
    later: u64,
)
    ensures
        all.saved(session, tick).opened(
            session.workspace_key,
            stored,
            later,
        ).cache[session.workspace_key].session == session,
        forall|k: Seq<char>|
            k != session.workspace_key && all.cache.contains_key(k) ==> #[trigger] all.saved(
                session,
                tick,
            ).cache[k] == all.cache[k],
{
}

proof fn lemma_handed_member(m: Seq<(Seq<char>, JsonView)>, key: Seq<char>)
    requires
        is_handed_on(key),
    ensures
        json::member(seqs::select(m, |p: (Seq<char>, JsonView)| is_handed_on(p.0)), key)
            == json::member(m, key),
{
    json::lemma_select_member(m, |p: (Seq<char>, JsonView)| is_handed_on(p.0), key);
}

/// The history says of each message who said what, which tools were called
/// and which call a result answers, as the session has it, and nothing of when
/// and in which turn. All of the messages that were not merged into the memory
/// are there, or as many of the last ones as were asked for.
pub proof fn law_history_tells_what_was_said(s: SessionView, max: nat, i: int)
    requires
        s.last_consolidated <= s.messages.len(),
    ensures
        max == 0 ==> s.history(max).len() == s.messages.len() - s.last_consolidated,
        0 < max <= s.messages.len() - s.last_consolidated ==> s.history(max).len() == max,
        max > s.messages.len() - s.last_consolidated ==> s.history(max).len() == s.messages.len()
            - s.last_consolidated,
        0 <= i < s.history(max).len() ==> {
            let e = s.history(max)[i];
            let m = s.messages[s.messages.len() - s.history(max).len() + i];
            &&& e.tool_calls == m.tool_calls
            &&& e.tool_call_id == m.tool_call_id
            &&& e.name == m.name
            &&& m.role is Some ==> e.role == m.role
            &&& m.content !is Missing ==> e.content == m.content
            &&& m.content is Missing ==> e.content == ContentView::Text(Seq::empty())
            &&& e.reasoning is None
            &&& e.timestamp is None
            &&& e.turn_id is None
            &&& !e.reset_iterations
            &&& json::member(e.rest, "role"@) == json::member(m.rest, "role"@)
            &&& json::member(e.rest, "tool_calls"@) == json::member(m.rest, "tool_calls"@)
            &&& json::member(e.rest, "tool_call_id"@) == json::member(m.rest, "tool_call_id"@)
            &&& json::member(e.rest, "name"@) == json::member(m.rest, "name"@)
        },
{
    if 0 <= i < s.history(max).len() {
        let m = s.messages[s.messages.len() - s.history(max).len() + i];
        lemma_handed_member(m.rest, "role"@);
        lemma_handed_member(m.rest, "tool_calls"@);
        lemma_handed_member(m.rest, "tool_call_id"@);
        lemma_handed_member(m.rest, "name"@);
    }
}

/// A longer history ends with the shorter one.
pub proof fn law_histories_end_alike(s: SessionView, a: nat, b: nat, i: int)
    requires
        s.last_consolidated <= s.messages.len(),
        0 < a <= b,
        0 <= i < s.history(a).len(),
    ensures
        s.history(a).len() <= s.history(b).len() <= s.history(0).len(),
        s.history(a)[i] == s.history(b)[s.history(b).len() - s.history(a).len() + i],
        s.history(a)[i] == s.history(0)[s.history(0).len() - s.history(a).len() + i],
{
}

/// A session that is in use is handed out with what it holds, and one that is
/// not as it is kept. The other sessions are left alone.
pub proof fn law_opened_session_is_kept(
    all: SessionsView,
    key: Seq<char>,
    stored: SessionView,
    tick: u64,
)
    ensures
        ({
            let after = all.opened(key, stored, tick);
            &&& after.cache.contains_key(key)
            &&& after.cache[key].session == (if all.cache.contains_key(key) {
                all.cache[key].session
            } else {
                stored
            })
            &&& after.cache[key].last_access == tick
            &&& all.cache.contains_key(key) ==> after.cache[key].busy_since
                == all.cache[key].busy_since
            &&& !all.cache.contains_key(key) ==> after.cache[key].busy_since is None
            &&& forall|k: Seq<char>| k != key ==> (#[trigger] after.cache.contains_key(k)
                <==> all.cache.contains_key(k)) && after.cache[k] == all.cache[k]
            &&& after.root == all.root
        }),
{
}

/// A session that was kept is taken up with its messages, how far they were
/// merged and when it began; where none was kept, a session starts empty.
pub proof fn law_kept_session_is_taken_up(
    key: Seq<char>,
    lines: Seq<Seq<char>>,
    id: Seq<char>,
    now: Seq<char>,
)
    ensures
        ({
            let s = stored_session(key, Some(lines), id, now);
            let l = loaded(lines);
            &&& s.messages == l.messages
            &&& s.last_consolidated == l.last_consolidated
            &&& s.metadata == l.metadata
            &&& l.created_at is Some ==> s.created_at == l.created_at->0
            &&& s.workspace_key == key
            &&& s.session_id == id
        }),
        ({
            let s = stored_session(key, None, id, now);
            &&& s.messages.len() == 0
            &&& s.last_consolidated == 0
            &&& s.workspace_key == key
            &&& s.session_id == id
            &&& s.created_at == now
        }),
{
}

/// The id of a session tells when it began and has its tag at the end.
pub proof fn law_session_id_tells_its_time(stamp: Seq<char>, tag: Seq<char>)
    ensures
        text::contains(session_id_of(stamp, tag), stamp),
        text::ends_with(session_id_of(stamp, tag), tag),
{
    let s = session_id_of(stamp, tag);
    let b = "_"@ + tag;
    assert(s =~= "s_"@ + stamp + b);
    text::lemma_contains_part("s_"@, stamp, b);
    assert(s.subrange(s.len() - tag.len(), s.len() as int) =~= tag);
}

/// A change of a session in use changes that session and no other, and one
/// that is not in use is not brought into use by it.
pub proof fn law_other_sessions_stay(
    all: SessionsView,
    key: Seq<char>,
    a: ActiveView,
    other: Seq<char>,
)
    requires
        other != key,
    ensures
        all.changed(key, a).cache.contains_key(other) == all.cache.contains_key(other),
        all.cache.contains_key(other) ==> all.changed(key, a).cache[other] == all.cache[other],
        all.changed(key, a).cache.contains_key(key) == all.cache.contains_key(key),
        all.cache.contains_key(key) ==> all.changed(key, a).cache[key] == a,
{
}

} // verus!

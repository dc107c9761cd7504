//! Chat messages: what the logic reads of a message that goes to or comes
//! from a model.

use crate::json;
use crate::json::{clone_members, find_member, replace_value, Json, JsonView};
use crate::text;
use vstd::prelude::*;

verus! {

/// One piece of a message whose content is not plain text.
#[derive(Debug)]
pub enum ContentBlock {
    /// A piece of text.
    Text(String),
    /// An image, by its URL.
    ImageUrl(String),
}

/// What a message says.
#[derive(Debug)]
pub enum Content {
    /// No content is given.
    Missing,
    /// The content is `null`.
    Nothing,
    /// Plain text.
    Text(String),
    /// A sequence of blocks.
    Blocks(Vec<ContentBlock>),
    /// Content of another form, as it came.
    Other(Json),
}

/// A tool call in an assistant message. `arguments` is the JSON text of the
/// arguments.
#[derive(Debug)]
pub struct ToolCall {
    pub id: Option<String>,
    pub name: Option<String>,
    pub arguments: Option<String>,
    /// The call as it came, where it is not of the usual form.
    pub given: Option<Json>,
}

/// One chat message.
#[derive(Debug)]
pub struct Message {
    pub role: Option<String>,
    pub content: Content,
    pub tool_calls: Option<Vec<ToolCall>>,
    pub tool_call_id: Option<String>,
    pub name: Option<String>,
    pub reasoning: Option<String>,
    pub timestamp: Option<String>,
    pub turn_id: Option<String>,
    /// Marks a message that asks the next run to start its counters at zero.
    pub reset_iterations: bool,
    /// The members that none of the other fields stands for, in the order of
    /// their names.
    pub rest: Vec<(String, Json)>,
}

/// A tool call as a model asks for it. The arguments are the members of a JSON
/// object.
pub struct ToolCallRequest {
    pub id: String,
    pub name: String,
    pub arguments: Vec<(String, Json)>,
}

/// The content of a message as mathematical data.
pub enum ContentView {
    Missing,
    Nothing,
    Text(Seq<char>),
    Blocks(Seq<ContentBlockView>),
    Other(JsonView),
}

/// A content block as mathematical data.
pub enum ContentBlockView {
    Text(Seq<char>),
    ImageUrl(Seq<char>),
}

/// A tool call as mathematical data.
pub struct ToolCallView {
    pub id: Option<Seq<char>>,
    pub name: Option<Seq<char>>,
    pub arguments: Option<Seq<char>>,
    pub given: Option<JsonView>,
}

impl ToolCallView {
    /// The same call under another id.
    pub open spec fn with_id(self, id: Seq<char>) -> ToolCallView {
        ToolCallView {
            id: Some(id),
            given: match self.given {
                Some(j) => Some(json::with_value(j, "id"@, JsonView::Text(id))),
                None => None,
            },
            ..self
        }
    }

    /// The same call with other arguments.
    pub open spec fn with_arguments(self, a: Seq<char>) -> ToolCallView {
        ToolCallView {
            arguments: Some(a),
            given: match self.given {
                Some(j) => Some(
                    match j.get("function"@) {
                        Some(f) => json::with_value(
                            j,
                            "function"@,
                            json::with_value(f, "arguments"@, JsonView::Text(a)),
                        ),
                        None => j,
                    },
                ),
                None => None,
            },
            ..self
        }
    }
}

/// A message as mathematical data.
#[verifier::ext_equal]
pub struct MessageView {
    pub role: Option<Seq<char>>,
    pub content: ContentView,
    pub tool_calls: Option<Seq<ToolCallView>>,
    pub tool_call_id: Option<Seq<char>>,
    pub name: Option<Seq<char>>,
    pub reasoning: Option<Seq<char>>,
    pub timestamp: Option<Seq<char>>,
    pub turn_id: Option<Seq<char>>,
    pub reset_iterations: bool,
    pub rest: Seq<(Seq<char>, JsonView)>,
}

/// The characters of an optional string.
pub open spec fn opt_text(o: Option<String>) -> Option<Seq<char>> {
    match o {
        Some(s) => Some(s@),
        None => None,
    }
}

impl View for ContentBlock {
    type V = ContentBlockView;

    open spec fn view(&self) -> ContentBlockView {
        match self {
            ContentBlock::Text(t) => ContentBlockView::Text(t@),
            ContentBlock::ImageUrl(u) => ContentBlockView::ImageUrl(u@),
        }
    }
}

impl View for Content {
    type V = ContentView;

    open spec fn view(&self) -> ContentView {
        match self {
            Content::Missing => ContentView::Missing,
            Content::Nothing => ContentView::Nothing,
            Content::Text(t) => ContentView::Text(t@),
            Content::Blocks(b) => ContentView::Blocks(Seq::new(b@.len(), |i: int| b@[i]@)),
            Content::Other(j) => ContentView::Other(j@),
        }
    }
}

impl View for ToolCall {
    type V = ToolCallView;

    open spec fn view(&self) -> ToolCallView {
        ToolCallView {
            id: opt_text(self.id),
            name: opt_text(self.name),
            arguments: opt_text(self.arguments),
            given: opt_json(self.given),
        }
    }
}

/// An optional JSON value as mathematical data.
pub open spec fn opt_json(o: Option<Json>) -> Option<JsonView> {
    match o {
        Some(j) => Some(j@),
        None => None,
    }
}

/// The tool calls of a list, each as mathematical data.
pub open spec fn calls_view(calls: Seq<ToolCall>) -> Seq<ToolCallView> {
    Seq::new(calls.len(), |i: int| calls[i]@)
}

/// An optional list of tool calls as mathematical data.
pub open spec fn opt_calls_view(calls: Option<Vec<ToolCall>>) -> Option<Seq<ToolCallView>> {
    match calls {
        Some(v) => Some(calls_view(v@)),
        None => None,
    }
}

impl View for Message {
    type V = MessageView;

    open spec fn view(&self) -> MessageView {
        MessageView {
            role: opt_text(self.role),
            content: self.content@,
            tool_calls: opt_calls_view(self.tool_calls),
            tool_call_id: opt_text(self.tool_call_id),
            name: opt_text(self.name),
            reasoning: opt_text(self.reasoning),
            timestamp: opt_text(self.timestamp),
            turn_id: opt_text(self.turn_id),
            reset_iterations: self.reset_iterations,
            rest: json::members_view(self.rest@),
        }
    }
}

/// The messages of a list, each as mathematical data.
pub open spec fn views(messages: Seq<Message>) -> Seq<MessageView> {
    Seq::new(messages.len(), |i: int| messages[i]@)
}

impl MessageView {
    /// The role, or the empty string where there is none.
    pub open spec fn role_or_empty(self) -> Seq<char> {
        match self.role {
            Some(r) => r,
            None => Seq::empty(),
        }
    }

    /// Whether the role is `r`.
    pub open spec fn has_role(self, r: Seq<char>) -> bool {
        self.role == Some(r)
    }

    /// The content where it is plain text.
    pub open spec fn text(self) -> Option<Seq<char>> {
        match self.content {
            ContentView::Text(t) => Some(t),
            _ => None,
        }
    }

    /// The content where it is plain text, else the empty string.
    pub open spec fn text_or_empty(self) -> Seq<char> {
        match self.content {
            ContentView::Text(t) => t,
            _ => Seq::empty(),
        }
    }

    /// Whether this is an assistant message with at least one tool call.
    pub open spec fn is_tool_round(self) -> bool {
        &&& self.has_role("assistant"@)
        &&& self.tool_calls is Some
        &&& self.tool_calls->0.len() > 0
    }

    /// Whether there is a member of that name that no field stands for.
    pub open spec fn has_other(self, key: Seq<char>) -> bool {
        json::member(self.rest, key) is Some
    }

    /// Whether tool calls are given, in whatever form.
    pub open spec fn has_calls(self) -> bool {
        self.tool_calls is Some || self.has_other("tool_calls"@)
    }

    /// Whether a time is given, in whatever form.
    pub open spec fn has_timestamp(self) -> bool {
        self.timestamp is Some || self.has_other("timestamp"@)
    }

    /// Whether a turn is given, in whatever form.
    pub open spec fn has_turn_id(self) -> bool {
        self.turn_id is Some || self.has_other("_turn_id"@)
    }

    /// The same message with other text.
    pub open spec fn with_text(self, t: Seq<char>) -> MessageView {
        MessageView { content: ContentView::Text(t), ..self }
    }
}

/// Views of prefixes and of longer lists.
pub broadcast proof fn lemma_views_push(messages: Seq<Message>, m: Message)
    ensures
        #[trigger] views(messages.push(m)) == views(messages).push(m@),
{
    assert(views(messages.push(m)) =~= views(messages).push(m@));
}

/// A copy of an optional string.
pub fn clone_opt(o: &Option<String>) -> (r: Option<String>)
    ensures
        opt_text(r) == opt_text(*o),
{
    match o {
        Some(s) => Some(s.clone()),
        None => None,
    }
}

impl ContentBlock {
    /// A copy of the block.
    pub fn duplicate(&self) -> (r: ContentBlock)
        ensures
            r@ == self@,
    {
        match self {
            ContentBlock::Text(t) => ContentBlock::Text(t.clone()),
            ContentBlock::ImageUrl(u) => ContentBlock::ImageUrl(u.clone()),
        }
    }
}

impl Clone for ContentBlock {
    fn clone(&self) -> (r: Self)
        ensures
            r@ == self@,
    {
        self.duplicate()
    }
}

impl Clone for Content {
    fn clone(&self) -> (r: Self)
        ensures
            r@ == self@,
    {
        match self {
            Content::Missing => Content::Missing,
            Content::Nothing => Content::Nothing,
            Content::Text(t) => Content::Text(t.clone()),
            Content::Other(j) => Content::Other(j.clone()),
            Content::Blocks(b) => {
                let mut c: Vec<ContentBlock> = Vec::new();
                let mut i: usize = 0;
                while i < b.len()
                    invariant
                        0 <= i <= b@.len(),
                        c@.len() == i,
                        forall|j: int| 0 <= j < i ==> (#[trigger] c@[j])@ == b@[j]@,
                    decreases b@.len() - i,
                {
                    c.push(b[i].duplicate());
                    i += 1;
                }
                proof {
                    assert(Seq::new(c@.len(), |i: int| c@[i]@) =~= Seq::new(
                        b@.len(),
                        |i: int| b@[i]@,
                    ));
                }
                Content::Blocks(c)
            },
        }
    }
}

impl Clone for ToolCall {
    fn clone(&self) -> (r: Self)
        ensures
            r@ == self@,
    {
        ToolCall {
            id: clone_opt(&self.id),
            name: clone_opt(&self.name),
            arguments: clone_opt(&self.arguments),
            given: match &self.given {
                Some(j) => Some(j.clone()),
                None => None,
            },
        }
    }
}

impl ToolCall {
    /// The same call under another id.
    pub fn with_id(&self, id: String) -> (r: ToolCall)
        ensures
            r@ == self@.with_id(id@),
    {
        let given = match &self.given {
            Some(j) => {
                let v = Json::Text(id.clone());
                Some(replace_value(j, "id", &v))
            },
            None => None,
        };
        ToolCall {
            id: Some(id),
            name: clone_opt(&self.name),
            arguments: clone_opt(&self.arguments),
            given,
        }
    }

    /// The same call with other arguments.
    pub fn with_arguments(&self, a: String) -> (r: ToolCall)
        ensures
            r@ == self@.with_arguments(a@),
    {
        let given = match &self.given {
            Some(j) => match j.get("function") {
                Some(f) => {
                    let v = Json::Text(a.clone());
                    let g = replace_value(f, "arguments", &v);
                    Some(replace_value(j, "function", &g))
                },
                None => Some(j.clone()),
            },
            None => None,
        };
        ToolCall {
            id: clone_opt(&self.id),
            name: clone_opt(&self.name),
            arguments: Some(a),
            given,
        }
    }
}

/// A copy of a list of tool calls.
pub fn clone_calls(calls: &Vec<ToolCall>) -> (r: Vec<ToolCall>)
    ensures
        calls_view(r@) == calls_view(calls@),
{
    let mut c: Vec<ToolCall> = Vec::new();
    let mut i: usize = 0;
    while i < calls.len()
        invariant
            0 <= i <= calls@.len(),
            c@.len() == i,
            forall|j: int| 0 <= j < i ==> (#[trigger] c@[j])@ == calls@[j]@,
        decreases calls@.len() - i,
    {
        c.push(calls[i].clone());
        i += 1;
    }
    proof {
        assert(calls_view(c@) =~= calls_view(calls@));
    }
    c
}

impl Clone for Message {
    fn clone(&self) -> (r: Self)
        ensures
            r@ == self@,
    {
        Message {
            role: clone_opt(&self.role),
            content: self.content.clone(),
            tool_calls: match &self.tool_calls {
                Some(v) => Some(clone_calls(v)),
                None => None,
            },
            tool_call_id: clone_opt(&self.tool_call_id),
            name: clone_opt(&self.name),
            reasoning: clone_opt(&self.reasoning),
            timestamp: clone_opt(&self.timestamp),
            turn_id: clone_opt(&self.turn_id),
            reset_iterations: self.reset_iterations,
            rest: clone_members(&self.rest),
        }
    }
}

/// A copy of a list of messages.
pub fn clone_messages(messages: &Vec<Message>) -> (r: Vec<Message>)
    ensures
        views(r@) == views(messages@),
{
    let mut c: Vec<Message> = Vec::new();
    let mut i: usize = 0;
    while i < messages.len()
        invariant
            0 <= i <= messages@.len(),
            c@.len() == i,
            forall|j: int| 0 <= j < i ==> (#[trigger] c@[j])@ == messages@[j]@,
        decreases messages@.len() - i,
    {
        c.push(messages[i].clone());
        i += 1;
    }
    proof {
        assert(views(c@) =~= views(messages@));
    }
    c
}

/// The message that holds nothing but a role and a text.
pub open spec fn plain(role: Seq<char>, text: Seq<char>) -> MessageView {
    MessageView {
        role: Some(role),
        content: ContentView::Text(text),
        tool_calls: None,
        tool_call_id: None,
        name: None,
        reasoning: None,
        timestamp: None,
        turn_id: None,
        reset_iterations: false,
        rest: Seq::empty(),
    }
}

impl Message {
    /// The message that holds nothing but a role and a content.
    pub fn with_content(role: &str, content: Content) -> (r: Message)
        ensures
            r@ == (MessageView { content: content@, ..plain(role@, Seq::empty()) }),
    {
        Message {
            role: Some(role.to_owned()),
            content,
            tool_calls: None,
            tool_call_id: None,
            name: None,
            reasoning: None,
            timestamp: None,
            turn_id: None,
            reset_iterations: false,
            rest: Vec::new(),
        }
    }

    /// Whether there is a member of that name that no field stands for.
    fn has_other(&self, key: &str) -> (b: bool)
        ensures
            b == self@.has_other(key@),
    {
        find_member(&self.rest, key).is_some()
    }

    /// Whether tool calls are given, in whatever form.
    pub fn has_calls(&self) -> (b: bool)
        ensures
            b == self@.has_calls(),
    {
        self.tool_calls.is_some() || self.has_other("tool_calls")
    }

    /// Whether a time is given, in whatever form.
    pub fn has_timestamp(&self) -> (b: bool)
        ensures
            b == self@.has_timestamp(),
    {
        self.timestamp.is_some() || self.has_other("timestamp")
    }

    /// Whether a turn is given, in whatever form.
    pub fn has_turn_id(&self) -> (b: bool)
        ensures
            b == self@.has_turn_id(),
    {
        self.turn_id.is_some() || self.has_other("_turn_id")
    }

    /// Whether the role is `r`.
    pub fn has_role(&self, r: &str) -> (b: bool)
        ensures
            b == self@.has_role(r@),
    {
        match &self.role {
            Some(role) => *role.as_str() == *r,
            None => false,
        }
    }

    /// The content where it is plain text.
    pub fn text(&self) -> (r: Option<&str>)
        ensures
            self@.text() == (match r {
                Some(t) => Some(t@),
                None => None::<Seq<char>>,
            }),
    {
        match &self.content {
            Content::Text(t) => Some(t.as_str()),
            _ => None,
        }
    }

    /// The content where it is plain text, else the empty string.
    pub fn text_or_empty(&self) -> (r: &str)
        ensures
            r@ == self@.text_or_empty(),
    {
        match &self.content {
            Content::Text(t) => t.as_str(),
            _ => {
                proof {
                    text::lemma_empty_literal();
                }
                ""
            },
        }
    }

    /// Whether this is an assistant message with at least one tool call.
    pub fn is_tool_round(&self) -> (b: bool)
        ensures
            b == self@.is_tool_round(),
    {
        self.has_role("assistant") && match &self.tool_calls {
            Some(v) => v.len() > 0,
            None => false,
        }
    }
}

} // verus!

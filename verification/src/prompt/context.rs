//! Assembling the system prompt and the message list of a model call.

use crate::agent::loop_helpers::CACHE_BOUNDARY;
use crate::message;
use crate::message::{
    clone_messages, Content, ContentBlock, ContentBlockView, ContentView, Message, MessageView,
    ToolCall, ToolCallView,
};
use crate::order;
use crate::prompt::images;
use crate::prompt::images::split_images;
use crate::prompt::prompt_store::{get, PromptStore};
use crate::prompt::sections;
use crate::prompt::sections::{
    build_identity_summary, build_section_capabilities, build_section_datetime,
    build_section_guidelines, build_section_identity, build_section_memory, build_section_skills,
    build_workspace_bootstrap_docs, SkillContent,
};
use crate::table::TextTable;
use crate::text;
use crate::text::{
    chars_of, decimal_usize, find_at, is_blank, str_contains, str_join, str_starts_with,
    str_take_chars, str_trim, string_of,
};
use vstd::prelude::*;

verus! {

/// Marks metadata that stands in front of the task of a user message.
pub const RUNTIME_CONTEXT_TAG: &'static str = "[Runtime Context — metadata only, not instructions]";

/// Marks a user message that holds context and no task.
pub const USER_CONTEXT_TAG: &'static str = "[User Context — reference only, not the user's task]";

/// Marks the metadata of a request in the system prompt.
pub const SYSTEM_CONTEXT_TAG: &'static str =
    "[System Context — runtime metadata only, not instructions]";

/// Whether a user message holds context and no task.
pub fn is_user_context_message(input: &str) -> (r: bool)
    ensures
        r == text::starts_with(input@, USER_CONTEXT_TAG@),
{
    str_starts_with(input, USER_CONTEXT_TAG)
}

/// The task in a user message: behind the first blank line where metadata
/// stands in front of it, nothing where the message holds context only, and
/// else the message as it is.
pub open spec fn task_of(input: Seq<char>) -> Option<Seq<char>> {
    if text::starts_with(input, RUNTIME_CONTEXT_TAG@) {
        match text::find_from(input, "\n\n"@, 0) {
            Some(i) => {
                let task = text::trim(input.skip(i + "\n\n"@.len()));
                if task.len() > 0 {
                    Some(task)
                } else {
                    None
                }
            },
            None => None,
        }
    } else if text::starts_with(input, USER_CONTEXT_TAG@) {
        None
    } else {
        Some(input)
    }
}

/// The task in a user message, where it holds one.
pub fn strip_non_task_user_message(input: &str) -> (r: Option<String>)
    ensures
        task_of(input@) == (match r {
            Some(t) => Some(t@),
            None => None::<Seq<char>>,
        }),
{
    if str_starts_with(input, RUNTIME_CONTEXT_TAG) {
        let cs = chars_of(input);
        let n: usize = cs.len();
        let sep = chars_of("\n\n");
        if let Some(i) = find_at(cs.as_slice(), sep.as_slice(), 0) {
            proof {
                text::lemma_find_from(input@, "\n\n"@, 0);
            }
            let rest = string_of(cs.as_slice(), i + sep.len(), n);
            proof {
                assert(rest@ =~= input@.skip(i + "\n\n"@.len()));
            }
            let task = str_trim(rest.as_str());
            if !task.as_str().is_empty() {
                return Some(task);
            }
        }
        return None;
    }
    if is_user_context_message(input) {
        return None;
    }
    Some(input.to_owned())
}

// ---------------------------------------------------------------------------
// What a prompt is made of
// ---------------------------------------------------------------------------

/// How much a system prompt says.
#[derive(Debug, Clone, Copy, PartialEq, Eq, Structural)]
pub enum PromptMode {
    /// Everything: for the main agent.
    Full,
    /// Identity, tools and time: for an agent that works on a subtask.
    Minimal,
    /// One line of identity.
    Bare,
}

impl Default for PromptMode {
    fn default() -> (r: Self)
        ensures
            r == PromptMode::Full,
    {
        PromptMode::Full
    }
}

/// A section of a prompt.
#[derive(Debug, Clone, Copy, PartialEq, Eq, Structural, Hash)]
pub enum PromptSection {
    Identity,
    Bootstrap,
    Memory,
    DateTime,
    Capabilities,
    Skills,
    Cases,
}

impl PromptSection {
    /// Whether the section belongs to a prompt of that mode.
    pub open spec fn is_enabled(self, mode: PromptMode) -> bool {
        match mode {
            PromptMode::Full => true,
            PromptMode::Minimal => self == PromptSection::Identity || self
                == PromptSection::Bootstrap || self == PromptSection::DateTime,
            PromptMode::Bare => self == PromptSection::Identity,
        }
    }

    /// Whether the section belongs to a prompt of that mode.
    pub fn enabled_in(self, mode: PromptMode) -> (r: bool)
        ensures
            r == self.is_enabled(mode),
    {
        match mode {
            PromptMode::Full => true,
            PromptMode::Minimal => matches!(
                self,
                PromptSection::Identity | PromptSection::Bootstrap | PromptSection::DateTime
            ),
            PromptMode::Bare => matches!(self, PromptSection::Identity),
        }
    }
}

/// A section that belongs to a smaller prompt belongs to a larger one too.
pub proof fn law_modes_are_nested(s: PromptSection)
    ensures
        s.is_enabled(PromptMode::Bare) ==> s.is_enabled(PromptMode::Minimal),
        s.is_enabled(PromptMode::Minimal) ==> s.is_enabled(PromptMode::Full),
{
}

/// What a request hands in for its prompt.
pub struct PromptInputs<'a> {
    pub mode: PromptMode,
    pub capabilities: Option<&'a Vec<TextTable>>,
    pub skill_contents: Option<&'a Vec<SkillContent>>,
    pub pinned_cases: Option<&'a str>,
    pub similar_cases: Option<&'a str>,
    /// The long-term memory, in place of the one in the workspace.
    pub memory_content: Option<&'a str>,
    pub channel: Option<&'a str>,
    pub chat_id: Option<&'a str>,
    pub user_id: Option<&'a str>,
    pub workspace_id: Option<&'a str>,
}

impl<'a> Default for PromptInputs<'a> {
    fn default() -> (r: Self)
        ensures
            r == (PromptInputs {
                mode: PromptMode::Full,
                capabilities: None,
                skill_contents: None,
                pinned_cases: None,
                similar_cases: None,
                memory_content: None,
                channel: None,
                chat_id: None,
                user_id: None,
                workspace_id: None,
            }),
    {
        PromptInputs {
            mode: PromptMode::Full,
            capabilities: None,
            skill_contents: None,
            pinned_cases: None,
            similar_cases: None,
            memory_content: None,
            channel: None,
            chat_id: None,
            user_id: None,
            workspace_id: None,
        }
    }
}

/// What was read for a prompt: the prompt texts, the files of the workspace
/// and the clock.
pub struct PromptSources<'a> {
    pub store: &'a PromptStore,
    pub os: &'a str,
    pub arch: &'a str,
    /// The files of the workspace by name, with their contents.
    pub files: &'a Vec<(String, String)>,
    /// The long-term memory of the workspace; empty where there is none.
    pub memory_file: &'a str,
    pub local_time: &'a str,
    pub time_zone: &'a str,
}

/// A piece of context under a label.
#[derive(Debug)]
pub struct PromptContextEntry {
    pub label: String,
    pub content: String,
}

/// A planned prompt.
#[derive(Debug)]
pub struct PlannedPromptContext {
    pub system_prompt_parts: Vec<String>,
    pub user_context: Vec<PromptContextEntry>,
    pub system_context: Vec<PromptContextEntry>,
}

/// Pieces of context, each as a label and a text.
pub open spec fn entries_view(v: Seq<PromptContextEntry>) -> Seq<(Seq<char>, Seq<char>)> {
    Seq::new(v.len(), |i: int| (v[i].label@, v[i].content@))
}

/// Puts the prompts of an agent together.
#[derive(Debug)]
pub struct ContextBuilder {
    workspace: String,
    /// The path of the workspace as the model sees it.
    display_workspace: String,
}

/// The part, unless it is blank.
pub open spec fn part(t: Seq<char>) -> Seq<Seq<char>> {
    if text::trim(t).len() == 0 {
        Seq::empty()
    } else {
        seq![t]
    }
}

/// The piece of context, unless it is blank.
pub open spec fn entry(label: Seq<char>, t: Seq<char>) -> Seq<(Seq<char>, Seq<char>)> {
    if text::trim(t).len() == 0 {
        Seq::empty()
    } else {
        seq![(label, t)]
    }
}

/// The piece of context, where there is one that is not blank.
pub open spec fn opt_entry(label: Seq<char>, head: Seq<char>, t: Option<&str>) -> Seq<
    (Seq<char>, Seq<char>),
> {
    match t {
        Some(t) => entry(label, head + t@),
        None => Seq::empty(),
    }
}

/// Whether the store holds the texts that a prompt of these inputs needs.
pub open spec fn has_texts(store: PromptStore, inputs: PromptInputs) -> bool {
    &&& store.top("identity"@) is Some
    &&& inputs.mode == PromptMode::Full ==> store.top("main_execution_baseline"@) is Some
        && store.top("guidelines"@) is Some
}

/// The part on who the agent is and where it works.
pub open spec fn identity_parts(src: PromptSources, workspace: Seq<char>) -> Seq<Seq<char>> {
    part(sections::identity_section(src.store.top("identity"@)->0, src.os@, src.arch@, workspace))
}

/// The parts on how the agent works.
pub open spec fn guideline_parts(src: PromptSources, inputs: PromptInputs) -> Seq<Seq<char>> {
    if inputs.mode == PromptMode::Full {
        part(src.store.top("main_execution_baseline"@)->0) + part(
            "## GUIDELINES\n\n"@ + src.store.top("guidelines"@)->0,
        )
    } else {
        Seq::empty()
    }
}

/// The part on the capabilities.
pub open spec fn capability_parts(inputs: PromptInputs) -> Seq<Seq<char>> {
    match inputs.capabilities {
        Some(caps) => if inputs.mode == PromptMode::Full {
            part(sections::capabilities_section(caps@))
        } else {
            Seq::empty()
        },
        None => Seq::empty(),
    }
}

/// The part on the skills.
pub open spec fn skill_parts(src: PromptSources, inputs: PromptInputs) -> Seq<Seq<char>> {
    match inputs.skill_contents {
        Some(skills) => if inputs.mode == PromptMode::Full {
            part(sections::skills_section(sections::skills_intro(*src.store), skills@))
        } else {
            Seq::empty()
        },
        None => Seq::empty(),
    }
}

/// The parts of the system prompt.
pub open spec fn system_parts(
    src: PromptSources,
    inputs: PromptInputs,
    workspace: Seq<char>,
) -> Seq<Seq<char>> {
    if inputs.mode == PromptMode::Bare {
        seq![sections::identity_summary(src.store.top("identity"@)->0)]
    } else {
        identity_parts(src, workspace) + guideline_parts(src, inputs) + capability_parts(inputs)
            + skill_parts(src, inputs) + part(CACHE_BOUNDARY@)
    }
}

/// The long-term memory that goes into the prompt.
pub open spec fn memory_text(src: PromptSources, inputs: PromptInputs) -> Seq<char> {
    match inputs.memory_content {
        Some(t) => sections::memory_section(t@),
        None => sections::memory_section(src.memory_file@),
    }
}

/// The context that goes to the model as a message of the user.
pub open spec fn user_entries(src: PromptSources, inputs: PromptInputs) -> Seq<
    (Seq<char>, Seq<char>),
> {
    let files = order::keyed(src.files@);
    let time = entry(
        "Current Date And Time"@,
        sections::time_section(src.local_time@, src.time_zone@),
    );
    match inputs.mode {
        PromptMode::Bare => Seq::empty(),
        PromptMode::Minimal => entry(
            "Workspace Instructions"@,
            sections::documents(files, true),
        ) + time,
        PromptMode::Full => entry("Workspace Instructions"@, sections::documents(files, false))
            + entry("Workspace Memory"@, memory_text(src, inputs)) + opt_entry(
            "Pinned Cases"@,
            Seq::empty(),
            inputs.pinned_cases,
        ) + time + opt_entry("Similar Cases"@, Seq::empty(), inputs.similar_cases),
    }
}

/// The metadata of the request that goes into the system prompt.
pub open spec fn system_entries(inputs: PromptInputs) -> Seq<(Seq<char>, Seq<char>)> {
    if inputs.mode == PromptMode::Bare {
        Seq::empty()
    } else {
        opt_entry("User Identity"@, "User ID (staff_id): "@, inputs.user_id) + opt_entry(
            "Workspace Identity"@,
            "Workspace ID: "@,
            inputs.workspace_id,
        ) + opt_entry("Request Channel"@, "Channel: "@, inputs.channel) + opt_entry(
            "Conversation Identity"@,
            "Chat ID: "@,
            inputs.chat_id,
        )
    }
}

fn push_part(parts: &mut Vec<String>, content: String)
    ensures
        text::texts(final(parts)@) == text::texts(old(parts)@) + part(content@),
{
    let ghost before = parts@;
    if !is_blank(content.as_str()) {
        parts.push(content);
    }
    proof {
        assert(text::texts(parts@) =~= text::texts(before) + part(content@));
    }
}

fn push_context_entry(entries: &mut Vec<PromptContextEntry>, label: &str, content: String)
    ensures
        entries_view(final(entries)@) == entries_view(old(entries)@) + entry(label@, content@),
{
    let ghost before = entries@;
    if !is_blank(content.as_str()) {
        entries.push(PromptContextEntry { label: label.to_owned(), content });
    }
    proof {
        assert(entries_view(entries@) =~= entries_view(before) + entry(label@, content@));
    }
}

fn push_optional(
    entries: &mut Vec<PromptContextEntry>,
    label: &str,
    head: &str,
    content: Option<&str>,
)
    ensures
        entries_view(final(entries)@) == entries_view(old(entries)@) + opt_entry(
            label@,
            head@,
            content,
        ),
{
    match content {
        Some(t) => {
            let mut s = head.to_owned();
            s.push_str(t);
            push_context_entry(entries, label, s);
        },
        None => {
            proof {
                assert(entries_view(entries@) =~= entries_view(entries@) + opt_entry(
                    label@,
                    head@,
                    content,
                ));
            }
        },
    }
}

impl ContextBuilder {
    /// The path of the workspace.
    pub closed spec fn workspace_path(self) -> Seq<char> {
        self.workspace@
    }

    /// The path of the workspace as the model sees it.
    pub closed spec fn shown_workspace(self) -> Seq<char> {
        self.display_workspace@
    }

    /// Puts the prompts of an agent in that workspace together.
    pub fn new(workspace: &str) -> (r: Self)
        ensures
            r.workspace_path() == workspace@,
            r.shown_workspace() == workspace@,
    {
        ContextBuilder {
            workspace: workspace.to_owned(),
            display_workspace: workspace.to_owned(),
        }
    }

    /// The path of the workspace.
    pub fn workspace(&self) -> (r: &str)
        ensures
            r@ == self.workspace_path(),
    {
        self.workspace.as_str()
    }

    /// Sets the path of the workspace as the model sees it.
    pub fn set_display_workspace(&mut self, path: &str)
        ensures
            final(self).shown_workspace() == path@,
            final(self).workspace_path() == old(self).workspace_path(),
    {
        self.display_workspace = path.to_owned();
    }

    /// Plans the prompt of a request.
    pub fn plan_prompt_context(&self, inputs: &PromptInputs, src: &PromptSources) -> (r:
        PlannedPromptContext)
        requires
            has_texts(*src.store, *inputs),
        ensures
            text::texts(r.system_prompt_parts@) == system_parts(
                *src,
                *inputs,
                self.shown_workspace(),
            ),
            entries_view(r.user_context@) == user_entries(*src, *inputs),
            entries_view(r.system_context@) == system_entries(*inputs),
    {
        let identity = get(src.store, "identity");
        let mut parts: Vec<String> = Vec::new();
        let mut user_context: Vec<PromptContextEntry> = Vec::new();
        let mut system_context: Vec<PromptContextEntry> = Vec::new();
        if inputs.mode == PromptMode::Bare {
            let summary = build_identity_summary(identity.as_str());
            parts.push(summary);
            proof {
                assert(text::texts(parts@) =~= seq![summary@]);
                assert(entries_view(user_context@) =~= Seq::empty());
                assert(entries_view(system_context@) =~= Seq::empty());
            }
            return PlannedPromptContext {
                system_prompt_parts: parts,
                user_context,
                system_context,
            };
        }
        let ghost ws = self.shown_workspace();
        proof {
            assert(text::texts(parts@) =~= Seq::empty());
        }
        push_part(
            &mut parts,
            build_section_identity(
                identity.as_str(),
                src.os,
                src.arch,
                self.display_workspace.as_str(),
            ),
        );
        if inputs.mode == PromptMode::Full {
            push_part(&mut parts, get(src.store, "main_execution_baseline"));
            let guidelines = get(src.store, "guidelines");
            push_part(&mut parts, build_section_guidelines(guidelines.as_str()));
        }
        let ghost base = identity_parts(*src, ws) + guideline_parts(*src, *inputs);
        proof {
            assert(text::texts(parts@) =~= base);
        }
        if PromptSection::Capabilities.enabled_in(inputs.mode) {
            if let Some(caps) = inputs.capabilities {
                push_part(&mut parts, build_section_capabilities(caps));
            }
        }
        proof {
            assert(text::texts(parts@) =~= base + capability_parts(*inputs));
        }
        if PromptSection::Skills.enabled_in(inputs.mode) {
            if let Some(skills) = inputs.skill_contents {
                push_part(&mut parts, build_section_skills(src.store, skills));
            }
        }
        proof {
            assert(text::texts(parts@) =~= base + capability_parts(*inputs) + skill_parts(
                *src,
                *inputs,
            ));
        }
        push_part(&mut parts, CACHE_BOUNDARY.to_owned());
        let minimal = inputs.mode == PromptMode::Minimal;
        proof {
            assert(entries_view(user_context@) =~= Seq::empty());
        }
        if PromptSection::Bootstrap.enabled_in(inputs.mode) {
            push_context_entry(
                &mut user_context,
                "Workspace Instructions",
                build_workspace_bootstrap_docs(src.files, minimal),
            );
        }
        if PromptSection::Memory.enabled_in(inputs.mode) {
            let memory = match inputs.memory_content {
                Some(t) => build_section_memory(t),
                None => build_section_memory(src.memory_file),
            };
            push_context_entry(&mut user_context, "Workspace Memory", memory);
        }
        if PromptSection::Cases.enabled_in(inputs.mode) {
            push_optional(&mut user_context, "Pinned Cases", "", inputs.pinned_cases);
        }
        if PromptSection::DateTime.enabled_in(inputs.mode) {
            push_context_entry(
                &mut user_context,
                "Current Date And Time",
                build_section_datetime(src.local_time, src.time_zone),
            );
        }
        if PromptSection::Cases.enabled_in(inputs.mode) {
            push_optional(&mut user_context, "Similar Cases", "", inputs.similar_cases);
        }
        proof {
            text::lemma_empty_literal();
            assert(entries_view(user_context@) =~= user_entries(*src, *inputs));
            assert(entries_view(system_context@) =~= Seq::empty());
        }
        push_optional(&mut system_context, "User Identity", "User ID (staff_id): ", inputs.user_id);
        push_optional(
            &mut system_context,
            "Workspace Identity",
            "Workspace ID: ",
            inputs.workspace_id,
        );
        push_optional(&mut system_context, "Request Channel", "Channel: ", inputs.channel);
        push_optional(&mut system_context, "Conversation Identity", "Chat ID: ", inputs.chat_id);
        proof {
            assert(entries_view(system_context@) =~= system_entries(*inputs));
        }
        PlannedPromptContext { system_prompt_parts: parts, user_context, system_context }
    }
}

/// The small prompt holds nothing but who the agent is, what it is told of its
/// tools, the time, and the metadata of the request.
pub proof fn law_minimal_prompt_is_small(
    src: PromptSources,
    inputs: PromptInputs,
    workspace: Seq<char>,
)
    requires
        inputs.mode == PromptMode::Minimal,
    ensures
        system_parts(src, inputs, workspace) == identity_parts(src, workspace) + part(
            CACHE_BOUNDARY@,
        ),
        user_entries(src, inputs) == entry(
            "Workspace Instructions"@,
            sections::documents(order::keyed(src.files@), true),
        ) + entry(
            "Current Date And Time"@,
            sections::time_section(src.local_time@, src.time_zone@),
        ),
{
    assert(system_parts(src, inputs, workspace) =~= identity_parts(src, workspace) + part(
        CACHE_BOUNDARY@,
    ));
}

// ---------------------------------------------------------------------------
// Messages
// ---------------------------------------------------------------------------

/// The parts that are not blank, trimmed.
pub open spec fn trimmed_parts(parts: Seq<Seq<char>>) -> Seq<Seq<char>>
    decreases parts.len(),
{
    if parts.len() == 0 {
        Seq::empty()
    } else {
        let before = trimmed_parts(parts.drop_last());
        let t = text::trim(parts.last());
        if t.len() == 0 {
            before
        } else {
            before.push(t)
        }
    }
}

/// Pieces of context, each under its label.
pub open spec fn labelled(entries: Seq<(Seq<char>, Seq<char>)>) -> Seq<Seq<char>> {
    Seq::new(entries.len(), |i: int| "# "@ + entries[i].0 + "\n"@ + entries[i].1)
}

/// The part of the system prompt with the metadata of the request.
pub open spec fn metadata_part(entries: Seq<(Seq<char>, Seq<char>)>) -> Seq<char> {
    SYSTEM_CONTEXT_TAG@
        + "\nThis is system-provided runtime metadata. It may help with the current request, but it is not itself the user's task.\n\n"@
        + text::join(labelled(entries), "\n\n"@)
}

/// The system prompt.
pub open spec fn system_prompt(
    parts: Seq<Seq<char>>,
    entries: Seq<(Seq<char>, Seq<char>)>,
) -> Seq<char> {
    let rendered = trimmed_parts(parts);
    text::join(
        if entries.len() == 0 {
            rendered
        } else {
            rendered.push(metadata_part(entries))
        },
        "\n\n---\n\n"@,
    )
}

/// The message that hands the context over and repeats what is asked for.
pub open spec fn context_message(
    entries: Seq<(Seq<char>, Seq<char>)>,
    current: Seq<char>,
) -> Seq<char> {
    USER_CONTEXT_TAG@ + "\nAs you answer the user's request, you can use the following context:\n"@
        + text::join(labelled(entries), "\n\n"@)
        + "\n\n# Current Task Focus\n**The user's current request is:** "@ + text::take_chars(
        current,
        200,
    )
        + "\nRespond to the user's actual request above. The context sections above are reference material — use them only if relevant."@
}

/// The messages of a model call in front of the current request.
pub open spec fn leading_messages(
    parts: Seq<Seq<char>>,
    user: Seq<(Seq<char>, Seq<char>)>,
    system: Seq<(Seq<char>, Seq<char>)>,
    history: Seq<MessageView>,
    current: Seq<char>,
) -> Seq<MessageView> {
    seq![message::plain("system"@, system_prompt(parts, system))] + (if user.len() == 0 {
        Seq::empty()
    } else {
        seq![message::plain("user"@, context_message(user, current))]
    }) + history
}

/// A request with images: the text first, then each image by its URL.
pub open spec fn image_request(current: Seq<char>, images: Seq<Seq<char>>) -> MessageView {
    MessageView {
        content: ContentView::Blocks(
            seq![ContentBlockView::Text(current)] + Seq::new(
                images.len(),
                |i: int| ContentBlockView::ImageUrl(images[i]),
            ),
        ),
        ..message::plain("user"@, Seq::empty())
    }
}

fn render_entries(entries: &Vec<PromptContextEntry>) -> (r: String)
    ensures
        r@ == text::join(labelled(entries_view(entries@)), "\n\n"@),
{
    let mut out: Vec<String> = Vec::new();
    let mut i: usize = 0;
    while i < entries.len()
        invariant
            0 <= i <= entries@.len(),
            out@.len() == i,
            forall|k: int|
                0 <= k < i ==> (#[trigger] out@[k])@ == "# "@ + entries@[k].label@ + "\n"@
                    + entries@[k].content@,
        decreases entries@.len() - i,
    {
        let mut t = "# ".to_owned();
        t.push_str(entries[i].label.as_str());
        t.push_str("\n");
        t.push_str(entries[i].content.as_str());
        out.push(t);
        i += 1;
    }
    proof {
        assert(text::texts(out@) =~= labelled(entries_view(entries@)));
    }
    str_join(&out, "\n\n")
}

/// The system prompt of planned parts.
pub fn render_system_prompt_parts(parts: &Vec<String>, system_context: &Vec<PromptContextEntry>) -> (r:
    String)
    ensures
        r@ == system_prompt(text::texts(parts@), entries_view(system_context@)),
{
    let ghost pv = text::texts(parts@);
    let mut rendered: Vec<String> = Vec::new();
    let mut i: usize = 0;
    proof {
        assert(text::texts(rendered@) =~= trimmed_parts(pv.take(0)));
    }
    while i < parts.len()
        invariant
            0 <= i <= parts@.len(),
            pv == text::texts(parts@),
            text::texts(rendered@) == trimmed_parts(pv.take(i as int)),
        decreases parts@.len() - i,
    {
        proof {
            assert(pv.take(i + 1).drop_last() =~= pv.take(i as int));
            assert(pv.take(i + 1).last() == parts@[i as int]@);
        }
        let t = str_trim(parts[i].as_str());
        if !t.as_str().is_empty() {
            let ghost before = rendered@;
            rendered.push(t);
            proof {
                assert(text::texts(rendered@) =~= text::texts(before).push(t@));
            }
        }
        i += 1;
    }
    proof {
        assert(pv.take(i as int) =~= pv);
    }
    if system_context.len() > 0 {
        let context = render_entries(system_context);
        let mut t = SYSTEM_CONTEXT_TAG.to_owned();
        t.push_str(
            "\nThis is system-provided runtime metadata. It may help with the current request, but it is not itself the user's task.\n\n",
        );
        t.push_str(context.as_str());
        let ghost before = rendered@;
        rendered.push(t);
        proof {
            assert(text::texts(rendered@) =~= text::texts(before).push(t@));
        }
    }
    str_join(&rendered, "\n\n---\n\n")
}

/// The message that hands the context over, where there is any.
pub fn render_user_context_with_focus(entries: &Vec<PromptContextEntry>, current: &str) -> (r:
    Option<String>)
    ensures
        message::opt_text(r) == (if entries@.len() == 0 {
            None
        } else {
            Some(context_message(entries_view(entries@), current@))
        }),
{
    if entries.len() == 0 {
        return None;
    }
    let body = render_entries(entries);
    let focus = str_take_chars(current, 200);
    let mut t = USER_CONTEXT_TAG.to_owned();
    t.push_str("\nAs you answer the user's request, you can use the following context:\n");
    t.push_str(body.as_str());
    t.push_str("\n\n# Current Task Focus\n**The user's current request is:** ");
    t.push_str(focus.as_str());
    t.push_str(
        "\nRespond to the user's actual request above. The context sections above are reference material — use them only if relevant.",
    );
    Some(t)
}

fn text_message(role: &str, t: String) -> (r: Message)
    ensures
        r@ == message::plain(role@, t@),
{
    Message::with_content(role, Content::Text(t))
}

fn assemble_leading(planned: &PlannedPromptContext, history: &Vec<Message>, current: &str) -> (r: Vec<
    Message,
>)
    ensures
        message::views(r@) == leading_messages(
            text::texts(planned.system_prompt_parts@),
            entries_view(planned.user_context@),
            entries_view(planned.system_context@),
            message::views(history@),
            current@,
        ),
{
    let system = render_system_prompt_parts(
        &planned.system_prompt_parts,
        &planned.system_context,
    );
    let mut messages: Vec<Message> = Vec::new();
    messages.push(text_message("system", system));
    if let Some(t) = render_user_context_with_focus(&planned.user_context, current) {
        messages.push(text_message("user", t));
    }
    let mut copied = clone_messages(history);
    let ghost head = messages@;
    let ghost tail = copied@;
    messages.append(&mut copied);
    proof {
        assert(message::views(messages@) =~= message::views(head) + message::views(tail));
        assert(message::views(messages@) =~= leading_messages(
            text::texts(planned.system_prompt_parts@),
            entries_view(planned.user_context@),
            entries_view(planned.system_context@),
            message::views(history@),
            current@,
        ));
    }
    messages
}

impl ContextBuilder {
    /// The messages of a model call: the system prompt, the context, the
    /// history and the request.
    pub fn assemble_messages(
        &self,
        planned: &PlannedPromptContext,
        history: &Vec<Message>,
        current_message: &str,
    ) -> (r: Vec<Message>)
        ensures
            message::views(r@) == leading_messages(
                text::texts(planned.system_prompt_parts@),
                entries_view(planned.user_context@),
                entries_view(planned.system_context@),
                message::views(history@),
                current_message@,
            ).push(message::plain("user"@, current_message@)),
    {
        let mut messages = assemble_leading(planned, history, current_message);
        let ghost before = messages@;
        let m = text_message("user", current_message.to_owned());
        messages.push(m);
        proof {
            message::lemma_views_push(before, m);
        }
        messages
    }

    /// The messages of a model call whose request holds images.
    pub fn assemble_messages_multimodal(
        &self,
        planned: &PlannedPromptContext,
        history: &Vec<Message>,
        current_message: &str,
        image_data_uris: &Vec<String>,
    ) -> (r: Vec<Message>)
        ensures
            message::views(r@) == leading_messages(
                text::texts(planned.system_prompt_parts@),
                entries_view(planned.user_context@),
                entries_view(planned.system_context@),
                message::views(history@),
                current_message@,
            ).push(image_request(current_message@, text::texts(image_data_uris@))),
    {
        let mut messages = assemble_leading(planned, history, current_message);
        let m = image_blocks(current_message.to_owned(), image_data_uris);
        let ghost before = messages@;
        messages.push(m);
        proof {
            message::lemma_views_push(before, m);
        }
        messages
    }

    /// Adds an assistant message.
    pub fn add_assistant_message(
        messages: &mut Vec<Message>,
        content: Option<&str>,
        tool_calls: Option<Vec<ToolCall>>,
        reasoning: Option<&str>,
    )
        ensures
            message::views(final(messages)@) == message::views(old(messages)@).push(
                assistant_message(
                    text::opt_str(content),
                    message::opt_calls_view(tool_calls),
                    text::opt_str(reasoning),
                ),
            ),
    {
        let mut m = Message::with_content(
            "assistant",
            match content {
                Some(t) => Content::Text(t.to_owned()),
                None => Content::Nothing,
            },
        );
        m.tool_calls = tool_calls;
        m.reasoning = match reasoning {
            Some(t) => Some(t.to_owned()),
            None => None,
        };
        let ghost before = messages@;
        messages.push(m);
        proof {
            message::lemma_views_push(before, m);
        }
    }
}

/// An assistant message.
pub open spec fn assistant_message(
    content: Option<Seq<char>>,
    calls: Option<Seq<ToolCallView>>,
    reasoning: Option<Seq<char>>,
) -> MessageView {
    MessageView {
        content: match content {
            Some(t) => ContentView::Text(t),
            None => ContentView::Nothing,
        },
        tool_calls: calls,
        reasoning,
        ..message::plain("assistant"@, Seq::empty())
    }
}

/// The messages of a model call start with the system prompt, end with the
/// request and hold the history unchanged in between.
pub proof fn law_messages_hold_history(
    parts: Seq<Seq<char>>,
    user: Seq<(Seq<char>, Seq<char>)>,
    system: Seq<(Seq<char>, Seq<char>)>,
    history: Seq<MessageView>,
    current: Seq<char>,
    request: MessageView,
)
    ensures
        ({
            let ms = leading_messages(parts, user, system, history, current).push(request);
            &&& ms[0].role == Some("system"@)
            &&& ms[0].content == ContentView::Text(system_prompt(parts, system))
            &&& user.len() > 0 ==> ms[1].role == Some("user"@) && ms[1].content
                == ContentView::Text(context_message(user, current))
            &&& ms.last() == request
            &&& ms.drop_last().skip(ms.len() - 1 - history.len()) == history
            &&& ms.len() == history.len() + (if user.len() == 0 {
                2int
            } else {
                3
            })
        }),
{
    let lead = leading_messages(parts, user, system, history, current);
    let ms = lead.push(request);
    assert(ms.drop_last() =~= lead);
    assert(lead.skip(ms.len() - 1 - history.len()) =~= history);
}

/// The message that hands the context over is recognised as one, and is never
/// taken for a task.
pub proof fn law_context_is_no_task(entries: Seq<(Seq<char>, Seq<char>)>, current: Seq<char>)
    ensures
        text::starts_with(context_message(entries, current), USER_CONTEXT_TAG@),
        task_of(context_message(entries, current)) is None,
{
    let m = context_message(entries, current);
    let tag = USER_CONTEXT_TAG@;
    assert(m.subrange(0, tag.len() as int) =~= tag);
    reveal_strlit("[Runtime Context — metadata only, not instructions]");
    reveal_strlit("[User Context — reference only, not the user's task]");
    assert(m[1] == tag[1]);
    let other = RUNTIME_CONTEXT_TAG@;
    if text::starts_with(m, other) {
        assert(m.subrange(0, other.len() as int)[1] == other[1]);
    }
}

/// The message with a tool result.
pub open spec fn tool_message(id: Seq<char>, name: Seq<char>, t: Seq<char>) -> MessageView {
    MessageView { tool_call_id: Some(id), name: Some(name), ..message::plain("tool"@, t) }
}

/// What is said of a tool result with images: the texts around them, else how
/// many they are.
pub open spec fn image_summary(name: Seq<char>, result: Seq<char>) -> Seq<char> {
    let parts = images::texts_in(result);
    if parts.len() == 0 {
        "[Image loaded: "@ + text::dec(images::images_in(result).len()) + " image(s) from "@ + name
            + "]"@
    } else {
        text::join(parts, "\n"@)
    }
}

/// The message of the user that carries the images of a tool result.
pub open spec fn image_message(name: Seq<char>, uris: Seq<Seq<char>>) -> MessageView {
    image_request(
        "[Visual input from "@ + name + ": "@ + text::dec(uris.len()) + " image(s)]"@,
        uris,
    )
}

/// The messages that a tool result becomes: one with its text, and where it
/// holds images one of the user that carries them.
pub open spec fn result_messages(id: Seq<char>, name: Seq<char>, result: Seq<char>) -> Seq<MessageView> {
    if text::contains(result, "[[IMAGE:data:image/"@) {
        let uris = images::images_in(result);
        seq![tool_message(id, name, image_summary(name, result))] + (if uris.len() == 0 {
            Seq::empty()
        } else {
            seq![image_message(name, uris)]
        })
    } else {
        seq![tool_message(id, name, result)]
    }
}

fn image_blocks(first: String, uris: &Vec<String>) -> (r: Message)
    ensures
        r@ == image_request(first@, text::texts(uris@)),
{
    let mut blocks: Vec<ContentBlock> = Vec::new();
    blocks.push(ContentBlock::Text(first));
    let mut i: usize = 0;
    while i < uris.len()
        invariant
            0 <= i <= uris@.len(),
            blocks@.len() == i + 1,
            blocks@[0]@ == ContentBlockView::Text(first@),
            forall|k: int|
                0 < k <= i ==> (#[trigger] blocks@[k])@ == ContentBlockView::ImageUrl(
                    uris@[k - 1]@,
                ),
        decreases uris@.len() - i,
    {
        blocks.push(ContentBlock::ImageUrl(uris[i].clone()));
        i += 1;
    }
    let m = Message::with_content("user", Content::Blocks(blocks));
    proof {
        let want = image_request(first@, text::texts(uris@));
        assert(m@.content->Blocks_0 =~= want.content->Blocks_0);
    }
    m
}

fn make_tool_message(id: &str, name: &str, t: String) -> (r: Message)
    ensures
        r@ == tool_message(id@, name@, t@),
{
    let mut m = text_message("tool", t);
    m.tool_call_id = Some(id.to_owned());
    m.name = Some(name.to_owned());
    m
}

impl ContextBuilder {
    /// Adds a tool result. The images in it go into a message of the user of
    /// their own.
    pub fn add_tool_result(
        messages: &mut Vec<Message>,
        tool_call_id: &str,
        tool_name: &str,
        result: &str,
    )
        ensures
            message::views(final(messages)@) == message::views(old(messages)@) + result_messages(
                tool_call_id@,
                tool_name@,
                result@,
            ),
    {
        let ghost before = messages@;
        if str_contains(result, "[[IMAGE:data:image/") {
            let (parts, uris) = split_images(result);
            proof {
                assert(text::texts(parts@).len() == parts@.len());
                assert(text::texts(uris@).len() == uris@.len());
            }
            let n = decimal_usize(uris.len());
            let summary = if parts.len() == 0 {
                let mut t = "[Image loaded: ".to_owned();
                t.push_str(n.as_str());
                t.push_str(" image(s) from ");
                t.push_str(tool_name);
                t.push_str("]");
                t
            } else {
                str_join(&parts, "\n")
            };
            messages.push(make_tool_message(tool_call_id, tool_name, summary));
            if uris.len() > 0 {
                let mut t = "[Visual input from ".to_owned();
                t.push_str(tool_name);
                t.push_str(": ");
                t.push_str(n.as_str());
                t.push_str(" image(s)]");
                messages.push(image_blocks(t, &uris));
            }
        } else {
            messages.push(make_tool_message(tool_call_id, tool_name, result.to_owned()));
        }
        proof {
            assert(message::views(messages@) =~= message::views(before) + result_messages(
                tool_call_id@,
                tool_name@,
                result@,
            ));
        }
    }
}

/// A tool result becomes a message of the tool that holds text alone, and at
/// most one message of the user behind it that carries its images in order.
pub proof fn law_tool_result_is_text(id: Seq<char>, name: Seq<char>, result: Seq<char>)
    ensures
        ({
            let ms = result_messages(id, name, result);
            &&& 1 <= ms.len() <= 2
            &&& ms[0].has_role("tool"@)
            &&& ms[0].tool_call_id == Some(id)
            &&& ms[0].name == Some(name)
            &&& ms[0].text() is Some
            &&& !text::contains(result, "[[IMAGE:data:image/"@) ==> ms.len() == 1 && ms[0].text()
                == Some(result)
            &&& text::contains(result, "[[IMAGE:data:image/"@) && images::images_in(result).len()
                > 0 ==> ms.len() == 2
            &&& ms.len() == 2 ==> {
                &&& ms[1].has_role("user"@)
                &&& ms[1].content is Blocks
                &&& ms[1].content->Blocks_0.len() == images::images_in(result).len() + 1
                &&& forall|i: int|
                    0 <= i < images::images_in(result).len()
                        ==> #[trigger] ms[1].content->Blocks_0[i + 1]
                        == ContentBlockView::ImageUrl(images::images_in(result)[i])
            }
        }),
{
}

// ---------------------------------------------------------------------------
// What a prompt holds
// ---------------------------------------------------------------------------

/// Whether there is exactly one piece of context with that label, and the text
/// occurs in it.
pub open spec fn tells_once(
    entries: Seq<(Seq<char>, Seq<char>)>,
    label: Seq<char>,
    t: Seq<char>,
) -> bool {
    exists|i: int|
        0 <= i < entries.len() && (#[trigger] entries[i]).0 == label && text::contains(
            entries[i].1,
            t,
        ) && forall|j: int| 0 <= j < entries.len() && (#[trigger] entries[j]).0 == label ==> j == i
}

/// Whether a text occurs in one of the parts.
pub open spec fn is_told(parts: Seq<Seq<char>>, t: Seq<char>) -> bool {
    exists|i: int| 0 <= i < parts.len() && text::contains(#[trigger] parts[i], t)
}

proof fn lemma_user_labels_differ()
    ensures
        "Workspace Instructions"@.len() == 22,
        "Workspace Memory"@.len() == 16,
        "Pinned Cases"@.len() == 12,
        "Current Date And Time"@.len() == 21,
        "Similar Cases"@.len() == 13,
{
    reveal_strlit("Workspace Instructions");
    reveal_strlit("Workspace Memory");
    reveal_strlit("Pinned Cases");
    reveal_strlit("Current Date And Time");
    reveal_strlit("Similar Cases");
}

proof fn lemma_system_labels_differ()
    ensures
        "User Identity"@.len() == 13,
        "Workspace Identity"@.len() == 18,
        "Request Channel"@.len() == 15,
        "Conversation Identity"@.len() == 21,
{
    reveal_strlit("User Identity");
    reveal_strlit("Workspace Identity");
    reveal_strlit("Request Channel");
    reveal_strlit("Conversation Identity");
}

/// Whether a text holds anything but white space.
pub open spec fn says(t: Seq<char>) -> bool {
    exists|k: int| 0 <= k < t.len() && !text::is_white(#[trigger] t[k])
}

proof fn lemma_says(t: Seq<char>)
    requires
        says(t),
    ensures
        text::trim(t).len() > 0,
        text::contains(t, text::trim(t)),
{
    let k = choose|k: int| 0 <= k < t.len() && !text::is_white(#[trigger] t[k]);
    text::lemma_trim_black(t, k);
}

/// The entry at `i` of entries that are put together of five pieces of at most
/// one.
proof fn lemma_one_of_five(
    a: Seq<(Seq<char>, Seq<char>)>,
    b: Seq<(Seq<char>, Seq<char>)>,
    c: Seq<(Seq<char>, Seq<char>)>,
    d: Seq<(Seq<char>, Seq<char>)>,
    e: Seq<(Seq<char>, Seq<char>)>,
    i: int,
)
    requires
        a.len() <= 1,
        b.len() <= 1,
        c.len() <= 1,
        d.len() <= 1,
        e.len() <= 1,
        0 <= i < (a + b + c + d + e).len(),
    ensures
        ({
            let x = (a + b + c + d + e)[i];
            ||| a.len() == 1 && i == 0 && x == a[0]
            ||| b.len() == 1 && i == a.len() && x == b[0]
            ||| c.len() == 1 && i == a.len() + b.len() && x == c[0]
            ||| d.len() == 1 && i == a.len() + b.len() + c.len() && x == d[0]
            ||| e.len() == 1 && i == a.len() + b.len() + c.len() + d.len() && x == e[0]
        }),
{
}

/// In a full prompt the long-term memory, the one that is handed in or else
/// the one of the workspace, is told in one piece of the context. Where it is
/// empty there is no such piece.
pub proof fn law_memory_is_told(src: PromptSources, inputs: PromptInputs, m: Seq<char>)
    requires
        inputs.mode == PromptMode::Full,
        m == (match inputs.memory_content {
            Some(t) => t@,
            None => src.memory_file@,
        }),
    ensures
        m.len() > 0 ==> tells_once(user_entries(src, inputs), "Workspace Memory"@, m),
        m.len() == 0 ==> forall|i: int|
            0 <= i < user_entries(src, inputs).len() ==> (#[trigger] user_entries(src, inputs)[i]).0
                != "Workspace Memory"@,
{
    lemma_user_labels_differ();
    let files = order::keyed(src.files@);
    let a = entry("Workspace Instructions"@, sections::documents(files, false));
    let b = entry("Workspace Memory"@, memory_text(src, inputs));
    let c = opt_entry("Pinned Cases"@, Seq::empty(), inputs.pinned_cases);
    let d = entry(
        "Current Date And Time"@,
        sections::time_section(src.local_time@, src.time_zone@),
    );
    let e = opt_entry("Similar Cases"@, Seq::empty(), inputs.similar_cases);
    let all = user_entries(src, inputs);
    assert(all == a + b + c + d + e);
    if m.len() > 0 {
        let t = memory_text(src, inputs);
        reveal_strlit("# Memory\n\n");
        assert(t[0] == '#');
        text::lemma_trim_black(t, 0);
        assert(t =~= "# Memory\n\n"@ + m + Seq::<char>::empty());
        text::lemma_contains_part("# Memory\n\n"@, m, Seq::empty());
        assert(all[a.len() as int] == b[0]);
        assert forall|j: int| 0 <= j < all.len() && (#[trigger] all[j]).0
            == "Workspace Memory"@ implies j == a.len() by {
            lemma_one_of_five(a, b, c, d, e, j);
        }
        assert(all[a.len() as int].0 == "Workspace Memory"@);
    } else {
        assert(text::trim(memory_text(src, inputs)).len() == 0);
        assert forall|j: int| 0 <= j < all.len() implies (#[trigger] all[j]).0
            != "Workspace Memory"@ by {
            lemma_one_of_five(a, b, c, d, e, j);
        }
    }
}

/// Whether there is exactly one piece of context with that label, and it is
/// that text.
pub open spec fn quotes_once(
    entries: Seq<(Seq<char>, Seq<char>)>,
    label: Seq<char>,
    t: Seq<char>,
) -> bool {
    exists|i: int|
        0 <= i < entries.len() && #[trigger] entries[i] == (label, t) && forall|j: int|
            0 <= j < entries.len() && (#[trigger] entries[j]).0 == label ==> j == i
}

/// In a full prompt the cases that are handed in are told as they are, each
/// kind in one piece of the context.
pub proof fn law_cases_are_told(src: PromptSources, inputs: PromptInputs, t: Seq<char>)
    requires
        inputs.mode == PromptMode::Full,
        says(t),
    ensures
        text::opt_str(inputs.pinned_cases) == Some(t) ==> quotes_once(
            user_entries(src, inputs),
            "Pinned Cases"@,
            t,
        ),
        text::opt_str(inputs.similar_cases) == Some(t) ==> quotes_once(
            user_entries(src, inputs),
            "Similar Cases"@,
            t,
        ),
{
    if text::opt_str(inputs.pinned_cases) == Some(t) {
        lemma_pinned_cases(src, inputs, t);
    }
    if text::opt_str(inputs.similar_cases) == Some(t) {
        lemma_similar_cases(src, inputs, t);
    }
}

proof fn lemma_case_entry(label: Seq<char>, cases: Option<&str>, t: Seq<char>)
    requires
        says(t),
        text::opt_str(cases) == Some(t),
    ensures
        opt_entry(label, Seq::empty(), cases) == seq![(label, t)],
{
    lemma_says(t);
    assert(Seq::<char>::empty() + t =~= t);
}

proof fn lemma_quotes_once(
    before: Seq<(Seq<char>, Seq<char>)>,
    x: (Seq<char>, Seq<char>),
    after: Seq<(Seq<char>, Seq<char>)>,
)
    requires
        forall|j: int| 0 <= j < before.len() ==> (#[trigger] before[j]).0 != x.0,
        forall|j: int| 0 <= j < after.len() ==> (#[trigger] after[j]).0 != x.0,
    ensures
        quotes_once(before + seq![x] + after, x.0, x.1),
{
    let all = before + seq![x] + after;
    let i = before.len() as int;
    assert(all[i] == x);
    assert forall|j: int| 0 <= j < all.len() && (#[trigger] all[j]).0 == x.0 implies j == i by {
        if j < i {
            assert(all[j] == before[j]);
        } else if j > i {
            assert(all[j] == after[j - i - 1]);
        }
    }
}

/// A piece of context that is the third or the last of five is quoted once.
proof fn lemma_quoted_in(
    a: Seq<(Seq<char>, Seq<char>)>,
    b: Seq<(Seq<char>, Seq<char>)>,
    c: Seq<(Seq<char>, Seq<char>)>,
    d: Seq<(Seq<char>, Seq<char>)>,
    e: Seq<(Seq<char>, Seq<char>)>,
    x: (Seq<char>, Seq<char>),
)
    requires
        a.len() <= 1 && b.len() <= 1 && c.len() <= 1 && d.len() <= 1 && e.len() <= 1,
        c == seq![x] || e == seq![x],
        a.len() == 1 ==> a[0].0 != x.0,
        b.len() == 1 ==> b[0].0 != x.0,
        c.len() == 1 && c != seq![x] ==> c[0].0 != x.0,
        d.len() == 1 ==> d[0].0 != x.0,
        e.len() == 1 && e != seq![x] ==> e[0].0 != x.0,
        !(c == seq![x] && e == seq![x]),
    ensures
        quotes_once(a + b + c + d + e, x.0, x.1),
{
    if c == seq![x] {
        lemma_quotes_once(a + b, x, d + e);
        assert(a + b + c + d + e =~= (a + b) + seq![x] + (d + e));
    } else {
        let none = Seq::<(Seq<char>, Seq<char>)>::empty();
        lemma_quotes_once(a + b + c + d, x, none);
        assert(a + b + c + d + e =~= (a + b + c + d) + seq![x] + none);
    }
}

proof fn lemma_pinned_cases(src: PromptSources, inputs: PromptInputs, t: Seq<char>)
    requires
        inputs.mode == PromptMode::Full,
        says(t),
        text::opt_str(inputs.pinned_cases) == Some(t),
    ensures
        quotes_once(user_entries(src, inputs), "Pinned Cases"@, t),
{
    lemma_user_labels_differ();
    lemma_case_entry("Pinned Cases"@, inputs.pinned_cases, t);
    let docs = sections::documents(order::keyed(src.files@), false);
    let time = sections::time_section(src.local_time@, src.time_zone@);
    let a = entry("Workspace Instructions"@, docs);
    let b = entry("Workspace Memory"@, memory_text(src, inputs));
    let c = opt_entry("Pinned Cases"@, Seq::empty(), inputs.pinned_cases);
    let d = entry("Current Date And Time"@, time);
    let e = opt_entry("Similar Cases"@, Seq::empty(), inputs.similar_cases);
    lemma_quoted_in(a, b, c, d, e, ("Pinned Cases"@, t));
}

proof fn lemma_similar_cases(src: PromptSources, inputs: PromptInputs, t: Seq<char>)
    requires
        inputs.mode == PromptMode::Full,
        says(t),
        text::opt_str(inputs.similar_cases) == Some(t),
    ensures
        quotes_once(user_entries(src, inputs), "Similar Cases"@, t),
{
    lemma_user_labels_differ();
    lemma_case_entry("Similar Cases"@, inputs.similar_cases, t);
    let docs = sections::documents(order::keyed(src.files@), false);
    let time = sections::time_section(src.local_time@, src.time_zone@);
    let a = entry("Workspace Instructions"@, docs);
    let b = entry("Workspace Memory"@, memory_text(src, inputs));
    let c = opt_entry("Pinned Cases"@, Seq::empty(), inputs.pinned_cases);
    let d = entry("Current Date And Time"@, time);
    let e = opt_entry("Similar Cases"@, Seq::empty(), inputs.similar_cases);
    lemma_quoted_in(a, b, c, d, e, ("Similar Cases"@, t));
}

/// Every prompt but the bare one tells the time and its zone.
pub proof fn law_time_is_told(src: PromptSources, inputs: PromptInputs)
    requires
        inputs.mode != PromptMode::Bare,
    ensures
        tells_once(user_entries(src, inputs), "Current Date And Time"@, src.local_time@),
        tells_once(user_entries(src, inputs), "Current Date And Time"@, src.time_zone@),
{
    lemma_user_labels_differ();
    let none = Seq::<(Seq<char>, Seq<char>)>::empty();
    let files = order::keyed(src.files@);
    let full = inputs.mode == PromptMode::Full;
    let a = entry("Workspace Instructions"@, sections::documents(files, !full));
    let b = if full {
        entry("Workspace Memory"@, memory_text(src, inputs))
    } else {
        none
    };
    let c = if full {
        opt_entry("Pinned Cases"@, Seq::empty(), inputs.pinned_cases)
    } else {
        none
    };
    let t = sections::time_section(src.local_time@, src.time_zone@);
    let d = entry("Current Date And Time"@, t);
    let e = if full {
        opt_entry("Similar Cases"@, Seq::empty(), inputs.similar_cases)
    } else {
        none
    };
    let all = user_entries(src, inputs);
    assert(all =~= a + b + c + d + e);
    reveal_strlit("# Date & Time\n\nCurrent time: ");
    assert(t[0] == '#');
    text::lemma_trim_black(t, 0);
    let head = "# Date & Time\n\nCurrent time: "@;
    assert(t =~= head + src.local_time@ + ("\nTimezone: "@ + src.time_zone@));
    text::lemma_contains_part(head, src.local_time@, "\nTimezone: "@ + src.time_zone@);
    let before = head + src.local_time@ + "\nTimezone: "@;
    assert(t =~= before + src.time_zone@ + Seq::<char>::empty());
    text::lemma_contains_part(before, src.time_zone@, Seq::empty());
    let i = (a.len() + b.len() + c.len()) as int;
    assert(all[i] == d[0]);
    assert forall|j: int| 0 <= j < all.len() && (#[trigger] all[j]).0
        == "Current Date And Time"@ implies j == i by {
        lemma_one_of_five(a, b, c, d, e, j);
    }
    assert(all[i].0 == "Current Date And Time"@);
}

/// In a full prompt every document of the workspace is told whole, in the one
/// piece with the instructions; in a small prompt the one on the tools is.
pub proof fn law_documents_are_told(
    src: PromptSources,
    inputs: PromptInputs,
    k: int,
    stem: Seq<char>,
)
    requires
        0 <= k < src.files@.len(),
        src.files@[k].0@ == stem + ".md"@,
        stem.len() > 0,
        src.files@[k].1@.len() > 0,
        inputs.mode == PromptMode::Full || inputs.mode == PromptMode::Minimal && stem == "TOOLS"@,
    ensures
        tells_once(user_entries(src, inputs), "Workspace Instructions"@, src.files@[k].1@),
{
    lemma_user_labels_differ();
    let none = Seq::<(Seq<char>, Seq<char>)>::empty();
    let files = order::keyed(src.files@);
    let full = inputs.mode == PromptMode::Full;
    let t = sections::documents(files, !full);
    let a = entry("Workspace Instructions"@, t);
    let b = if full {
        entry("Workspace Memory"@, memory_text(src, inputs))
    } else {
        none
    };
    let c = if full {
        opt_entry("Pinned Cases"@, Seq::empty(), inputs.pinned_cases)
    } else {
        none
    };
    let d = entry(
        "Current Date And Time"@,
        sections::time_section(src.local_time@, src.time_zone@),
    );
    let e = if full {
        opt_entry("Similar Cases"@, Seq::empty(), inputs.similar_cases)
    } else {
        none
    };
    let all = user_entries(src, inputs);
    assert(all =~= a + b + c + d + e);
    if !full {
        reveal_strlit("TOOLS");
        reveal_strlit(".md");
        reveal_strlit("TOOLS.md");
        assert("TOOLS"@ + ".md"@ =~= "TOOLS.md"@);
    }
    sections::law_documents_hold_every_document(files, !full, k, stem);
    assert(says(t)) by {
        reveal_strlit("## ");
        let i = choose|i: int| text::occurs_at(t, "## "@, i);
        assert(t.subrange(i, i + 3)[0] == '#');
        assert(t[i] == '#');
        assert(!text::is_white(t[i]));
    }
    lemma_says(t);
    assert(all[0] == a[0]);
    assert forall|j: int| 0 <= j < all.len() && (#[trigger] all[j]).0
        == "Workspace Instructions"@ implies j == 0 by {
        lemma_one_of_five(a, b, c, d, e, j);
    }
    assert(all[0].0 == "Workspace Instructions"@);
}

proof fn lemma_told(parts: Seq<Seq<char>>, before: Seq<Seq<char>>, t: Seq<char>, after: Seq<Seq<char>>)
    requires
        parts == before + seq![t] + after,
    ensures
        is_told(parts, t),
        forall|p: Seq<char>| text::contains(t, p) ==> #[trigger] is_told(parts, p),
{
    let i = before.len() as int;
    assert(parts[i] == t);
    text::lemma_contains_itself(t);
    assert(text::contains(parts[i], t));
    assert forall|p: Seq<char>| text::contains(t, p) implies #[trigger] is_told(parts, p) by {
        assert(text::contains(parts[i], p));
    }
}

/// Every prompt but the bare one says who the agent is, on what system it runs
/// and where its workspace is, and ends with the boundary of what may be
/// cached.
pub proof fn law_identity_is_told(src: PromptSources, inputs: PromptInputs, workspace: Seq<char>)
    requires
        inputs.mode != PromptMode::Bare,
        src.store.top("identity"@) is Some,
    ensures
        is_told(system_parts(src, inputs, workspace), src.store.top("identity"@)->0),
        is_told(system_parts(src, inputs, workspace), src.os@),
        is_told(system_parts(src, inputs, workspace), src.arch@),
        is_told(system_parts(src, inputs, workspace), workspace),
        system_parts(src, inputs, workspace).last() == CACHE_BOUNDARY@,
{
    let id = src.store.top("identity"@)->0;
    let t = sections::identity_section(id, src.os@, src.arch@, workspace);
    let run = "\n\n## Runtime\n"@;
    let where_ = ", Rust\n\n## Workspace\nYour workspace is at: "@;
    reveal_strlit("\n\n## Runtime\n");
    assert(t[id.len() as int + 2] == run[2]);
    text::lemma_trim_black(t, id.len() as int + 2);
    let none = Seq::<char>::empty();
    assert(t =~= none + id + (run + src.os@ + " "@ + src.arch@ + where_ + workspace));
    text::lemma_contains_part(none, id, run + src.os@ + " "@ + src.arch@ + where_ + workspace);
    assert(t =~= (id + run) + src.os@ + (" "@ + src.arch@ + where_ + workspace));
    text::lemma_contains_part(id + run, src.os@, " "@ + src.arch@ + where_ + workspace);
    assert(t =~= (id + run + src.os@ + " "@) + src.arch@ + (where_ + workspace));
    text::lemma_contains_part(id + run + src.os@ + " "@, src.arch@, where_ + workspace);
    assert(t =~= (id + run + src.os@ + " "@ + src.arch@ + where_) + workspace + none);
    text::lemma_contains_part(
        id + run + src.os@ + " "@ + src.arch@ + where_,
        workspace,
        none,
    );
    let parts = system_parts(src, inputs, workspace);
    let after = guideline_parts(src, inputs) + capability_parts(inputs) + skill_parts(src, inputs)
        + part(CACHE_BOUNDARY@);
    assert(parts =~= Seq::<Seq<char>>::empty() + seq![t] + after);
    lemma_told(parts, Seq::empty(), t, after);
    reveal_strlit("[[CACHE_BOUNDARY]]");
    assert(CACHE_BOUNDARY@[0] == '[');
    text::lemma_trim_black(CACHE_BOUNDARY@, 0);
}

/// A full prompt holds the baseline and the guidelines of the store.
pub proof fn law_guidelines_are_told(src: PromptSources, inputs: PromptInputs, workspace: Seq<char>)
    requires
        inputs.mode == PromptMode::Full,
        has_texts(*src.store, inputs),
    ensures
        is_told(system_parts(src, inputs, workspace), src.store.top("guidelines"@)->0),
        says(src.store.top("main_execution_baseline"@)->0) ==> is_told(
            system_parts(src, inputs, workspace),
            src.store.top("main_execution_baseline"@)->0,
        ),
{
    let parts = system_parts(src, inputs, workspace);
    let base = src.store.top("main_execution_baseline"@)->0;
    let g = src.store.top("guidelines"@)->0;
    let head = "## GUIDELINES\n\n"@;
    let t = head + g;
    reveal_strlit("## GUIDELINES\n\n");
    assert(t[0] == '#');
    text::lemma_trim_black(t, 0);
    assert(t =~= head + g + Seq::<char>::empty());
    text::lemma_contains_part(head, g, Seq::empty());
    let after = capability_parts(inputs) + skill_parts(src, inputs) + part(CACHE_BOUNDARY@);
    let before = identity_parts(src, workspace) + part(base);
    assert(parts =~= before + seq![t] + after);
    lemma_told(parts, before, t, after);
    if says(base) {
        lemma_says(base);
        assert(parts =~= identity_parts(src, workspace) + seq![base] + (seq![t] + after));
        lemma_told(parts, identity_parts(src, workspace), base, seq![t] + after);
    }
}

/// A full prompt names every skill that is handed in.
pub proof fn law_skills_are_told(
    src: PromptSources,
    inputs: PromptInputs,
    workspace: Seq<char>,
    k: int,
)
    requires
        inputs.mode == PromptMode::Full,
        inputs.skill_contents is Some,
        0 <= k < inputs.skill_contents->0@.len(),
    ensures
        is_told(system_parts(src, inputs, workspace), inputs.skill_contents->0@[k].name@),
{
    let skills = inputs.skill_contents->0@;
    let intro = sections::skills_intro(*src.store);
    let t = sections::skills_section(intro, skills);
    sections::law_skills_are_listed(intro, skills, k);
    reveal_strlit("# Available Skills\n\n");
    assert(t[0] == '#');
    text::lemma_trim_black(t, 0);
    let parts = system_parts(src, inputs, workspace);
    let before = identity_parts(src, workspace) + guideline_parts(src, inputs) + capability_parts(
        inputs,
    );
    assert(parts =~= before + seq![t] + part(CACHE_BOUNDARY@));
    lemma_told(parts, before, t, part(CACHE_BOUNDARY@));
}

/// A full prompt names every capability that is handed in, and its category.
pub proof fn law_capabilities_are_told(
    src: PromptSources,
    inputs: PromptInputs,
    workspace: Seq<char>,
    k: int,
)
    requires
        inputs.mode == PromptMode::Full,
        inputs.capabilities is Some,
        0 <= k < inputs.capabilities->0@.len(),
    ensures
        inputs.capabilities->0@[k]@.contains_key("name"@) ==> is_told(
            system_parts(src, inputs, workspace),
            inputs.capabilities->0@[k]@["name"@],
        ),
        inputs.capabilities->0@[k]@.contains_key("category"@) ==> is_told(
            system_parts(src, inputs, workspace),
            inputs.capabilities->0@[k]@["category"@],
        ),
{
    let caps = inputs.capabilities->0@;
    let t = sections::capabilities_section(caps);
    sections::law_capabilities_are_listed(caps, k);
    reveal_strlit("# Available Capabilities (");
    assert(t[0] == '#');
    text::lemma_trim_black(t, 0);
    let parts = system_parts(src, inputs, workspace);
    let before = identity_parts(src, workspace) + guideline_parts(src, inputs);
    let after = skill_parts(src, inputs) + part(CACHE_BOUNDARY@);
    assert(parts =~= before + seq![t] + after);
    lemma_told(parts, before, t, after);
}

proof fn lemma_opt_entry(label: Seq<char>, head: Seq<char>, t: Option<&str>)
    requires
        t is Some,
        head.len() > 0,
        !text::is_white(head[0]),
    ensures
        opt_entry(label, head, t) == seq![(label, head + t->0@)],
        text::contains(head + t->0@, t->0@),
{
    let s = head + t->0@;
    assert(s[0] == head[0]);
    text::lemma_trim_black(s, 0);
    assert(s =~= head + t->0@ + Seq::<char>::empty());
    text::lemma_contains_part(head, t->0@, Seq::empty());
}

/// Every prompt but the bare one says from whom the request is, in which
/// workspace, and through which channel and chat it came, as far as it is
/// known.
pub proof fn law_request_is_identified(inputs: PromptInputs)
    requires
        inputs.mode != PromptMode::Bare,
    ensures
        inputs.user_id matches Some(t) ==> tells_once(
            system_entries(inputs),
            "User Identity"@,
            t@,
        ),
        inputs.workspace_id matches Some(t) ==> tells_once(
            system_entries(inputs),
            "Workspace Identity"@,
            t@,
        ),
        inputs.channel matches Some(t) ==> tells_once(
            system_entries(inputs),
            "Request Channel"@,
            t@,
        ),
        inputs.chat_id matches Some(t) ==> tells_once(
            system_entries(inputs),
            "Conversation Identity"@,
            t@,
        ),
{
    lemma_system_labels_differ();
    reveal_strlit("User ID (staff_id): ");
    reveal_strlit("Workspace ID: ");
    reveal_strlit("Channel: ");
    reveal_strlit("Chat ID: ");
    let a = opt_entry("User Identity"@, "User ID (staff_id): "@, inputs.user_id);
    let b = opt_entry("Workspace Identity"@, "Workspace ID: "@, inputs.workspace_id);
    let c = opt_entry("Request Channel"@, "Channel: "@, inputs.channel);
    let d = opt_entry("Conversation Identity"@, "Chat ID: "@, inputs.chat_id);
    let e = Seq::<(Seq<char>, Seq<char>)>::empty();
    let all = system_entries(inputs);
    assert(all =~= a + b + c + d + e);
    if let Some(t) = inputs.user_id {
        lemma_opt_entry("User Identity"@, "User ID (staff_id): "@, inputs.user_id);
        assert(all[0] == a[0]);
        assert forall|j: int| 0 <= j < all.len() && (#[trigger] all[j]).0
            == "User Identity"@ implies j == 0 by {
            lemma_one_of_five(a, b, c, d, e, j);
        }
        assert(all[0].0 == "User Identity"@);
    }
    if let Some(t) = inputs.workspace_id {
        lemma_opt_entry("Workspace Identity"@, "Workspace ID: "@, inputs.workspace_id);
        let i = a.len() as int;
        assert(all[i] == b[0]);
        assert forall|j: int| 0 <= j < all.len() && (#[trigger] all[j]).0
            == "Workspace Identity"@ implies j == i by {
            lemma_one_of_five(a, b, c, d, e, j);
        }
        assert(all[i].0 == "Workspace Identity"@);
    }
    if let Some(t) = inputs.channel {
        lemma_opt_entry("Request Channel"@, "Channel: "@, inputs.channel);
        let i = (a.len() + b.len()) as int;
        assert(all[i] == c[0]);
        assert forall|j: int| 0 <= j < all.len() && (#[trigger] all[j]).0
            == "Request Channel"@ implies j == i by {
            lemma_one_of_five(a, b, c, d, e, j);
        }
        assert(all[i].0 == "Request Channel"@);
    }
    if let Some(t) = inputs.chat_id {
        lemma_opt_entry("Conversation Identity"@, "Chat ID: "@, inputs.chat_id);
        let i = (a.len() + b.len() + c.len()) as int;
        assert(all[i] == d[0]);
        assert forall|j: int| 0 <= j < all.len() && (#[trigger] all[j]).0
            == "Conversation Identity"@ implies j == i by {
            lemma_one_of_five(a, b, c, d, e, j);
        }
        assert(all[i].0 == "Conversation Identity"@);
    }
}

proof fn lemma_trimmed_parts(parts: Seq<Seq<char>>, i: int)
    requires
        0 <= i < parts.len(),
        text::trim(parts[i]).len() > 0,
    ensures
        trimmed_parts(parts).contains(text::trim(parts[i])),
    decreases parts.len(),
{
    let p = parts.drop_last();
    let r = trimmed_parts(parts);
    if i == parts.len() - 1 {
        assert(r[r.len() - 1] == text::trim(parts[i]));
    } else {
        lemma_trimmed_parts(p, i);
        let b = trimmed_parts(p);
        let k = choose|k: int| 0 <= k < b.len() && b[k] == text::trim(parts[i]);
        assert(r[k] == b[k]);
    }
}

/// The system prompt holds every part that is not blank, but for white space
/// around it, and every piece of metadata under its label.
pub proof fn law_system_prompt_holds_everything(
    parts: Seq<Seq<char>>,
    entries: Seq<(Seq<char>, Seq<char>)>,
    i: int,
)
    ensures
        0 <= i < parts.len() && says(parts[i]) ==> text::contains(
            system_prompt(parts, entries),
            text::trim(parts[i]),
        ),
        0 <= i < entries.len() ==> text::contains(system_prompt(parts, entries), entries[i].0)
            && text::contains(system_prompt(parts, entries), entries[i].1),
{
    let sep = "\n\n---\n\n"@;
    let r = trimmed_parts(parts);
    let all = if entries.len() == 0 {
        r
    } else {
        r.push(metadata_part(entries))
    };
    let prompt = system_prompt(parts, entries);
    if 0 <= i < parts.len() && says(parts[i]) {
        lemma_says(parts[i]);
        lemma_trimmed_parts(parts, i);
        let k = choose|k: int| 0 <= k < r.len() && r[k] == text::trim(parts[i]);
        assert(all[k] == r[k]);
        text::law_joined_text_holds_every_part(all, sep, k);
    }
    if 0 <= i < entries.len() {
        let m = metadata_part(entries);
        let last = all.len() - 1;
        assert(all[last] == m);
        text::law_joined_text_holds_every_part(all, sep, last);
        lemma_labelled(entries, i);
        let list = text::join(labelled(entries), "\n\n"@);
        let head = SYSTEM_CONTEXT_TAG@
            + "\nThis is system-provided runtime metadata. It may help with the current request, but it is not itself the user's task.\n\n"@;
        assert(m =~= head + list + Seq::<char>::empty());
        text::lemma_contains_part(head, list, Seq::empty());
        text::lemma_contains_within(prompt, m, list);
        text::lemma_contains_within(prompt, list, entries[i].0);
        text::lemma_contains_within(prompt, list, entries[i].1);
    }
}

proof fn lemma_labelled(entries: Seq<(Seq<char>, Seq<char>)>, i: int)
    requires
        0 <= i < entries.len(),
    ensures
        text::contains(text::join(labelled(entries), "\n\n"@), entries[i].0),
        text::contains(text::join(labelled(entries), "\n\n"@), entries[i].1),
{
    let l = labelled(entries);
    let list = text::join(l, "\n\n"@);
    text::law_joined_text_holds_every_part(l, "\n\n"@, i);
    let (a, b) = entries[i];
    assert(l[i] =~= "# "@ + a + ("\n"@ + b));
    text::lemma_contains_part("# "@, a, "\n"@ + b);
    assert(l[i] =~= ("# "@ + a + "\n"@) + b + Seq::<char>::empty());
    text::lemma_contains_part("# "@ + a + "\n"@, b, Seq::empty());
    text::lemma_contains_within(list, l[i], a);
    text::lemma_contains_within(list, l[i], b);
}

/// The message with the context holds every piece of it under its label, and
/// the request, or its first two hundred characters.
pub proof fn law_context_message_holds_everything(
    entries: Seq<(Seq<char>, Seq<char>)>,
    current: Seq<char>,
    i: int,
)
    ensures
        0 <= i < entries.len() ==> text::contains(context_message(entries, current), entries[i].0)
            && text::contains(context_message(entries, current), entries[i].1),
        current.len() <= 200 ==> text::contains(context_message(entries, current), current),
        current.len() > 200 ==> text::contains(
            context_message(entries, current),
            current.take(200),
        ),
{
    let m = context_message(entries, current);
    let list = text::join(labelled(entries), "\n\n"@);
    let head = USER_CONTEXT_TAG@
        + "\nAs you answer the user's request, you can use the following context:\n"@;
    let mid = "\n\n# Current Task Focus\n**The user's current request is:** "@;
    let focus = text::take_chars(current, 200);
    let tail =
        "\nRespond to the user's actual request above. The context sections above are reference material — use them only if relevant."@;
    assert(m =~= head + list + (mid + focus + tail));
    text::lemma_contains_part(head, list, mid + focus + tail);
    assert(m =~= (head + list + mid) + focus + tail);
    text::lemma_contains_part(head + list + mid, focus, tail);
    if 0 <= i < entries.len() {
        lemma_labelled(entries, i);
        text::lemma_contains_within(m, list, entries[i].0);
        text::lemma_contains_within(m, list, entries[i].1);
    }
}

/// The memory of a full prompt reaches the model: it stands in the message
/// with the context, right behind the system prompt.
pub proof fn law_memory_reaches_the_model(
    src: PromptSources,
    inputs: PromptInputs,
    workspace: Seq<char>,
    history: Seq<MessageView>,
    current: Seq<char>,
    m: Seq<char>,
)
    requires
        inputs.mode == PromptMode::Full,
        m.len() > 0,
        m == (match inputs.memory_content {
            Some(t) => t@,
            None => src.memory_file@,
        }),
    ensures
        ({
            let ms = leading_messages(
                system_parts(src, inputs, workspace),
                user_entries(src, inputs),
                system_entries(inputs),
                history,
                current,
            );
            &&& ms.len() >= 2
            &&& ms[1].role == Some("user"@)
            &&& ms[1].content is Text
            &&& text::contains(ms[1].content->Text_0, m)
        }),
{
    law_memory_is_told(src, inputs, m);
    let es = user_entries(src, inputs);
    let i = choose|i: int|
        0 <= i < es.len() && (#[trigger] es[i]).0 == "Workspace Memory"@ && text::contains(
            es[i].1,
            m,
        ) && forall|j: int| 0 <= j < es.len() && (#[trigger] es[j]).0 == "Workspace Memory"@ ==> j
            == i;
    law_context_message_holds_everything(es, current, i);
    text::lemma_contains_within(context_message(es, current), es[i].1, m);
}

/// A message of the user without a mark is the task as it is. Behind the mark
/// of metadata the task is what follows the first blank line.
pub proof fn law_task_is_found(input: Seq<char>, i: int)
    ensures
        !text::starts_with(input, RUNTIME_CONTEXT_TAG@) && !text::starts_with(
            input,
            USER_CONTEXT_TAG@,
        ) ==> task_of(input) == Some(input),
        text::starts_with(input, RUNTIME_CONTEXT_TAG@) && text::occurs_at(input, "\n\n"@, i) && (
        forall|j: int| 0 <= j < i ==> !text::occurs_at(input, "\n\n"@, j)) && says(
            input.skip(i + 2),
        ) ==> task_of(input) == Some(text::trim(input.skip(i + 2))),
{
    reveal_strlit("\n\n");
    text::lemma_find_from(input, "\n\n"@, 0);
    if says(input.skip(i + 2)) {
        lemma_says(input.skip(i + 2));
    }
    if text::occurs_at(input, "\n\n"@, i) {
        if let Some(k) = text::find_from(input, "\n\n"@, 0) {
            assert(i < k ==> !text::occurs_at(input, "\n\n"@, i));
        }
    }
}

/// A request with images holds its text first and then every image, in their
/// order.
pub proof fn law_images_reach_the_model(current: Seq<char>, images: Seq<Seq<char>>, i: int)
    requires
        0 <= i < images.len(),
    ensures
        image_request(current, images).role == Some("user"@),
        image_request(current, images).content matches ContentView::Blocks(b) && b.len()
            == images.len() + 1 && b[0] == ContentBlockView::Text(current) && b[i + 1]
            == ContentBlockView::ImageUrl(images[i]),
{
}

} // verus!

//! How a request is handled: what is done with it, what the agent is handed,
//! and what becomes of the outcome.

use crate::agent::runtime::{RuntimeResult, RuntimeStatus};
use crate::control::workspace;
use crate::control::workspace::join_path;
use crate::json;
use crate::json::{Json, JsonView};
use crate::message;
use crate::message::{Message, MessageView};
use crate::orchestration::helpers;
use crate::orchestration::helpers::{
    build_handoff_markdown, extract_skills_used, strip_internal_markers,
};
use crate::orchestration::prepare;
use crate::orchestration::prepare::path_below;
use crate::orchestration::session_manager::{Session, SessionView};
use crate::orchestration::types::{AgentResponse, OrchestratorFeatures};
use crate::prompt::context;
use crate::prompt::context::ContextBuilder;
use crate::seqs;
use crate::text;
use crate::text::{decimal, decimal_usize, is_blank, str_eq, str_replace, str_take_chars, str_trim};
use vstd::prelude::*;

verus! {

// ---------------------------------------------------------------------------
// What is done with a request
// ---------------------------------------------------------------------------

/// A command that a request can be.
#[derive(Debug, Clone, Copy, PartialEq, Eq, Structural)]
pub enum SlashCommand {
    /// Write down what was said: `/save` or `/handoff`.
    Save,
    /// Begin anew: `/new`.
    New,
}

/// The command of that name, in small letters.
pub open spec fn command_named(t: Seq<char>) -> Option<SlashCommand> {
    if t == "/save"@ || t == "/handoff"@ {
        Some(SlashCommand::Save)
    } else if t == "/new"@ {
        Some(SlashCommand::New)
    } else {
        None
    }
}

/// The command of that name, in small letters.
pub fn command_for(lowered: &str) -> (r: Option<SlashCommand>)
    ensures
        r == command_named(lowered@),
{
    if str_eq(lowered, "/save") || str_eq(lowered, "/handoff") {
        Some(SlashCommand::Save)
    } else if str_eq(lowered, "/new") {
        Some(SlashCommand::New)
    } else {
        None
    }
}

/// The command that a request is, where it is one.
pub fn slash_command(user_message: &str) -> (r: Option<SlashCommand>)
    ensures
        r == command_named(text::lowercased(text::trim(user_message@))),
{
    let t = str_trim(user_message);
    let lowered = t.as_str().to_lowercase();
    command_for(lowered.as_str())
}

/// What is done with a request.
#[derive(Debug, Clone, Copy, PartialEq, Eq, Structural)]
pub enum Step {
    /// The agent is at work for this workspace: hand it the message.
    Inject,
    /// The agent has asked something: the message is the answer.
    Resume,
    /// Too many requests.
    Refuse,
    /// Carry out a command.
    Command(SlashCommand),
    /// Let the agent work on it.
    Work,
}

/// What is done with a request: to an agent at work it is handed on, one that
/// waits gets it as an answer, and only then limits and commands count.
pub open spec fn step_of(
    busy: bool,
    waiting: bool,
    limited: bool,
    command: Option<SlashCommand>,
) -> Step {
    if busy {
        Step::Inject
    } else if waiting {
        Step::Resume
    } else if limited {
        Step::Refuse
    } else {
        match command {
            Some(c) => Step::Command(c),
            None => Step::Work,
        }
    }
}

/// What is done with a request, given whether the agent is at work for the
/// workspace or waits for an answer, and whether the user has asked too often.
pub fn handle_with_context(
    busy: bool,
    waiting: bool,
    over_limit: bool,
    features: &OrchestratorFeatures,
    user_message: &str,
) -> (r: Step)
    ensures
        r == step_of(
            busy,
            waiting,
            features.enable_rate_limit && over_limit,
            command_named(text::lowercased(text::trim(user_message@))),
        ),
{
    if busy {
        return Step::Inject;
    }
    if waiting {
        return Step::Resume;
    }
    if features.enable_rate_limit && over_limit {
        return Step::Refuse;
    }
    match slash_command(user_message) {
        Some(c) => Step::Command(c),
        None => Step::Work,
    }
}

/// While the agent is at work for a workspace no second run begins there, and
/// a request over the limit neither runs nor carries out a command.
pub proof fn law_one_run_per_workspace(
    busy: bool,
    waiting: bool,
    limited: bool,
    command: Option<SlashCommand>,
)
    ensures
        busy ==> step_of(busy, waiting, limited, command) == Step::Inject,
        limited ==> step_of(busy, waiting, limited, command) != Step::Work && !(step_of(
            busy,
            waiting,
            limited,
            command,
        ) is Command),
{
}

/// The role that counts: everybody is an administrator where roles are
/// switched off.
pub fn role_in_force(features: &OrchestratorFeatures, role: String) -> (r: String)
    ensures
        r@ == (if features.enable_rbac {
            role@
        } else {
            "admin"@
        }),
{
    if features.enable_rbac {
        role
    } else {
        "admin".to_owned()
    }
}

/// A reply that is text and nothing else.
pub fn text_response(t: String) -> (r: AgentResponse)
    ensures
        r.text@ == t@,
        r.tools_used@.len() == 0,
        r.prompt_tokens == 0,
        r.completion_tokens == 0,
        r.output_files@.len() == 0,
{
    AgentResponse {
        text: t,
        tools_used: Vec::new(),
        prompt_tokens: 0,
        completion_tokens: 0,
        output_files: Vec::new(),
    }
}

// ---------------------------------------------------------------------------
// Attachments
// ---------------------------------------------------------------------------

/// The line of an attachment.
pub open spec fn attachment_line(name: Seq<char>, path: Seq<char>) -> Seq<char> {
    "\n- "@ + name + " (路径: "@ + path + ")"@
}

/// The path of an attachment as the agent sees it.
pub open spec fn shown_attachment(dir: Seq<char>, name: Seq<char>) -> Seq<char> {
    dir + "/"@ + name
}

/// The lines of attachments, each with its name and path.
pub open spec fn attachment_lines(s: Seq<(Seq<char>, Seq<char>)>) -> Seq<char>
    decreases s.len(),
{
    if s.len() == 0 {
        Seq::empty()
    } else {
        attachment_lines(s.drop_last()) + attachment_line(s.last().0, s.last().1)
    }
}

/// A message with the lines of its attachments.
pub open spec fn with_attachments(msg: Seq<char>, s: Seq<(Seq<char>, Seq<char>)>) -> Seq<char> {
    if s.len() == 0 {
        msg
    } else {
        msg + "\n\n[附件文件]"@ + attachment_lines(s)
    }
}

/// The names of attachments, and their paths as the agent sees them.
pub open spec fn all_shown(files: Seq<(String, String)>, dir: Seq<char>) -> Seq<
    (Seq<char>, Seq<char>),
> {
    Seq::new(files.len(), |i: int| (files[i].1@, shown_attachment(dir, files[i].1@)))
}

/// The names of attachments, and their paths once they were copied: one that
/// could not be copied is left where it is.
pub open spec fn copied_paths(
    files: Seq<(String, String)>,
    target_dir: Seq<char>,
    dir: Seq<char>,
    copied: Seq<bool>,
) -> Seq<(Seq<char>, Seq<char>)> {
    Seq::new(
        files.len(),
        |i: int|
            (
                files[i].1@,
                if files[i].0@ == workspace::below(target_dir, files[i].1@) || copied[i] {
                    shown_attachment(dir, files[i].1@)
                } else {
                    files[i].0@
                },
            ),
    )
}

fn push_attachment(msg: &mut String, name: &str, path: &str)
    ensures
        final(msg)@ == old(msg)@ + attachment_line(name@, path@),
{
    let ghost before = msg@;
    msg.push_str("\n- ");
    msg.push_str(name);
    msg.push_str(" (路径: ");
    msg.push_str(path);
    msg.push_str(")");
    proof {
        assert(msg@ =~= before + attachment_line(name@, path@));
    }
}

fn show_attachment(dir: &str, name: &str) -> (r: String)
    ensures
        r@ == shown_attachment(dir@, name@),
{
    let mut r = dir.to_owned();
    r.push_str("/");
    r.push_str(name);
    r
}

/// Where an attachment is to be copied; nowhere, where it already lies there.
pub fn copy_target(path: &str, name: &str, target_dir: &str) -> (r: Option<String>)
    ensures
        message::opt_text(r) == (if path@ == workspace::below(target_dir@, name@) {
            None
        } else {
            Some(workspace::below(target_dir@, name@))
        }),
{
    let dest = join_path(target_dir, name);
    if str_eq(path, dest.as_str()) {
        None
    } else {
        Some(dest)
    }
}

/// The message that an agent at work is handed: the request with its
/// attachments, all of them below the directory of attachments.
pub fn injected_message(user_message: &str, files: &Vec<(String, String)>, dir: &str) -> (r: String)
    ensures
        r@ == with_attachments(user_message@, all_shown(files@, dir@)),
{
    let mut msg = user_message.to_owned();
    let n: usize = files.len();
    if n == 0 {
        return msg;
    }
    msg.push_str("\n\n[附件文件]");
    let ghost head = msg@;
    let ghost s = all_shown(files@, dir@);
    let mut i: usize = 0;
    proof {
        assert(msg@ =~= head + attachment_lines(s.take(0)));
    }
    while i < n
        invariant
            0 <= i <= n,
            n == files@.len(),
            s == all_shown(files@, dir@),
            msg@ == head + attachment_lines(s.take(i as int)),
        decreases n - i,
    {
        let path = show_attachment(dir, files[i].1.as_str());
        push_attachment(&mut msg, files[i].1.as_str(), path.as_str());
        proof {
            assert(s.take(i + 1).drop_last() =~= s.take(i as int));
            assert(s.take(i + 1).last() == s[i as int]);
            assert(msg@ =~= head + attachment_lines(s.take(i + 1)));
        }
        i += 1;
    }
    proof {
        assert(s.take(i as int) =~= s);
    }
    msg
}

/// The request with its attachments, once they were copied below
/// `target_dir`, which the agent sees as `dir`. `copied` says of each whether
/// that went well.
pub fn process_attachments(
    user_message: &str,
    files: &Vec<(String, String)>,
    target_dir: &str,
    dir: &str,
    copied: &Vec<bool>,
) -> (r: String)
    requires
        copied@.len() == files@.len(),
    ensures
        r@ == with_attachments(
            user_message@,
            copied_paths(files@, target_dir@, dir@, copied@),
        ),
{
    let mut msg = user_message.to_owned();
    let n: usize = files.len();
    if n == 0 {
        return msg;
    }
    msg.push_str("\n\n[附件文件]");
    let ghost head = msg@;
    let ghost s = copied_paths(files@, target_dir@, dir@, copied@);
    let mut i: usize = 0;
    proof {
        assert(msg@ =~= head + attachment_lines(s.take(0)));
    }
    while i < n
        invariant
            0 <= i <= n,
            n == files@.len(),
            copied@.len() == n,
            s == copied_paths(files@, target_dir@, dir@, copied@),
            msg@ == head + attachment_lines(s.take(i as int)),
        decreases n - i,
    {
        let name = files[i].1.as_str();
        let there = match copy_target(files[i].0.as_str(), name, target_dir) {
            None => true,
            Some(_) => copied[i],
        };
        if there {
            let path = show_attachment(dir, name);
            push_attachment(&mut msg, name, path.as_str());
        } else {
            push_attachment(&mut msg, name, files[i].0.as_str());
        }
        proof {
            assert(s.take(i + 1).drop_last() =~= s.take(i as int));
            assert(s.take(i + 1).last() == s[i as int]);
            assert(msg@ =~= head + attachment_lines(s.take(i + 1)));
        }
        i += 1;
    }
    proof {
        assert(s.take(i as int) =~= s);
    }
    msg
}

// ---------------------------------------------------------------------------
// Commands
// ---------------------------------------------------------------------------

/// The name of the file for a handoff.
pub open spec fn handoff_name(key: Seq<char>, stamp: Seq<char>) -> Seq<char> {
    "handoff_"@ + text::replace_all(key, ":"@, "_"@) + "_"@ + stamp + ".md"@
}

/// The file for a handoff and what goes into it; nothing, where nothing was
/// said.
pub fn prepare_handoff(session: &Session, workspace_dir: &str, stamp: &str, now: &str) -> (r: Option<
    (String, String),
>)
    ensures
        r is Some <==> session@.messages.len() > 0,
        r matches Some(f) ==> f.0@ == workspace::below(
            workspace_dir@,
            handoff_name(session@.workspace_key, stamp@),
        ) && f.1@ == helpers::handoff(session@.workspace_key, session@.messages, now@),
{
    proof {
        assert(session@.messages.len() == session.messages@.len());
    }
    if session.messages.len() == 0 {
        return None;
    }
    proof {
        reveal_strlit(":");
    }
    let safe = str_replace(session.workspace_key.as_str(), ":", "_");
    let mut name = "handoff_".to_owned();
    name.push_str(safe.as_str());
    name.push_str("_");
    name.push_str(stamp);
    name.push_str(".md");
    let path = join_path(workspace_dir, name.as_str());
    let content = build_handoff_markdown(session.workspace_key.as_str(), &session.messages, now);
    Some((path, content))
}

/// The reply to a command to write down what was said, where nothing was.
pub const NOTHING_TO_SAVE: &'static str = "当前会话暂无可保存内容。";

/// The reply to a command to begin anew.
pub const NEW_SESSION: &'static str = "New session started.";

/// What a reply says of where a handoff was written, seen from the root.
pub open spec fn saved_reply(root: Seq<char>, path: Seq<char>) -> Seq<char> {
    "已保存当前会话信息到：`"@ + (match prepare::rest_below(root, path) {
        Some(rel) => rel,
        None => path,
    }) + "`。\n现在可以输入 `/new` 开新任务，并把这个文件内容粘贴给我继续。"@
}

/// The reply once a handoff was written, or why it was not.
pub fn handoff_reply(root: &str, path: &str, error: Option<&str>) -> (r: String)
    ensures
        r@ == (match error {
            None => saved_reply(root@, path@),
            Some(e) => "保存会话失败："@ + e@,
        }),
{
    match error {
        Some(e) => {
            let mut r = "保存会话失败：".to_owned();
            r.push_str(e);
            r
        },
        None => {
            let mut r = "已保存当前会话信息到：`".to_owned();
            match path_below(root, path) {
                Some(rel) => r.push_str(rel.as_str()),
                None => r.push_str(path),
            }
            r.push_str("`。\n现在可以输入 `/new` 开新任务，并把这个文件内容粘贴给我继续。");
            r
        },
    }
}

// ---------------------------------------------------------------------------
// Answers to questions of the agent
// ---------------------------------------------------------------------------

/// What the agent is told that the user has answered.
pub open spec fn answer_of(user_message: Seq<char>) -> Seq<char> {
    if text::trim(user_message).len() == 0 {
        "用户未回复，请根据已有信息自行判断，选择最合理的方案继续执行。"@
    } else {
        "User replied: "@ + user_message
    }
}

/// What the agent is told that the user has answered.
pub fn answer(user_message: &str) -> (r: String)
    ensures
        r@ == answer_of(user_message@),
{
    if is_blank(user_message) {
        return "用户未回复，请根据已有信息自行判断，选择最合理的方案继续执行。".to_owned();
    }
    let mut r = "User replied: ".to_owned();
    r.push_str(user_message);
    r
}

/// The messages with which a run goes on after the user has answered.
pub fn resume_messages(saved: Vec<Message>, tool_call_id: &str, user_message: &str) -> (r: Vec<
    Message,
>)
    ensures
        message::views(r@) == message::views(saved@) + context::result_messages(
            tool_call_id@,
            "ask_user"@,
            answer_of(user_message@),
        ),
{
    let mut messages = saved;
    let reply = answer(user_message);
    ContextBuilder::add_tool_result(&mut messages, tool_call_id, "ask_user", reply.as_str());
    messages
}

/// Adds to a session what a run has added to the messages with which it went
/// on. Says whether that was anything.
pub fn keep_resumed(session: &mut Session, messages: &Vec<Message>, before: usize, now: &str) -> (r:
    bool)
    ensures
        r == (messages@.len() > before),
        final(session)@ == (if messages@.len() > before {
            SessionView {
                messages: old(session)@.messages + message::views(messages@).skip(before as int),
                updated_at: now@,
                ..old(session)@
            }
        } else {
            old(session)@
        }),
{
    let n: usize = messages.len();
    if n <= before {
        return false;
    }
    let ghost old_view = session@;
    let ghost all = message::views(messages@);
    let mut i: usize = before;
    proof {
        assert(session@.messages =~= old_view.messages + all.subrange(before as int, before as int));
        assert(session@ =~= (SessionView { messages: session@.messages, ..old_view }));
    }
    while i < n
        invariant
            before <= i <= n,
            n == messages@.len(),
            all == message::views(messages@),
            session@ == (SessionView {
                messages: old_view.messages + all.subrange(before as int, i as int),
                ..old_view
            }),
        decreases n - i,
    {
        let m = messages[i].clone();
        let ghost ms = session.messages@;
        session.messages.push(m);
        proof {
            message::lemma_views_push(ms, m);
            assert(all[i as int] == m@);
            assert(session@.messages =~= old_view.messages + all.subrange(
                before as int,
                i + 1,
            ));
            assert(session@ =~= (SessionView {
                messages: old_view.messages + all.subrange(before as int, i + 1),
                ..old_view
            }));
        }
        i += 1;
    }
    session.updated_at = now.to_owned();
    proof {
        assert(all.subrange(before as int, n as int) =~= all.skip(before as int));
        assert(session@ =~= (SessionView {
            messages: old_view.messages + all.skip(before as int),
            updated_at: now@,
            ..old_view
        }));
    }
    true
}

// ---------------------------------------------------------------------------
// Runs
// ---------------------------------------------------------------------------

/// A run that is done, before its outcome is kept.
pub struct CompletedRun {
    pub final_content: String,
    pub tools_used: Vec<String>,
    pub messages: Vec<Message>,
    pub turn_id: String,
    pub total_prompt_tokens: u64,
    pub total_completion_tokens: u64,
    pub cache_hit_tokens: u64,
    pub cache_write_tokens: u64,
}

/// How a run went.
pub enum AgentRunResult {
    /// The agent waits for an answer: the reply is its question.
    EarlyReturn {
        response: AgentResponse,
        pending_tool_call_id: String,
        messages: Vec<Message>,
        turn_id: String,
    },
    Completed(CompletedRun),
}

/// The question of an agent that waits.
pub open spec fn question_of(content: Option<Seq<char>>) -> Seq<char> {
    match content {
        Some(c) => c,
        None => "I need your input."@,
    }
}

/// The reply of an agent that is done.
pub open spec fn reply_of(content: Option<Seq<char>>) -> Seq<char> {
    helpers::without_marks(
        match content {
            Some(c) => c,
            None => "处理完成，未生成回复内容。"@,
        },
    )
}

/// What comes of a run.
pub fn run_agent(result: RuntimeResult) -> (r: AgentRunResult)
    ensures
        match result.status {
            RuntimeStatus::NeedsInput { pending_tool_call_id: id } => {
                &&& r is EarlyReturn
                &&& r->response.text@ == question_of(message::opt_text(result.content))
                &&& r->response.tools_used == result.tools_used
                &&& r->response.prompt_tokens == result.total_prompt_tokens
                &&& r->response.completion_tokens == result.total_completion_tokens
                &&& r->response.output_files@.len() == 0
                &&& r->pending_tool_call_id == id
                &&& r->EarlyReturn_messages == result.messages
                &&& r->EarlyReturn_turn_id == result.turn_id
            },
            RuntimeStatus::Complete => {
                &&& r is Completed
                &&& r->Completed_0.final_content@ == reply_of(message::opt_text(result.content))
                &&& r->Completed_0.tools_used == result.tools_used
                &&& r->Completed_0.messages == result.messages
                &&& r->Completed_0.turn_id == result.turn_id
                &&& r->Completed_0.total_prompt_tokens == result.total_prompt_tokens
                &&& r->Completed_0.total_completion_tokens == result.total_completion_tokens
                &&& r->Completed_0.cache_hit_tokens == result.cache_hit_tokens
                &&& r->Completed_0.cache_write_tokens == result.cache_write_tokens
            },
        },
{
    match result.status {
        RuntimeStatus::NeedsInput { pending_tool_call_id } => {
            let question = match result.content {
                Some(c) => c,
                None => "I need your input.".to_owned(),
            };
            AgentRunResult::EarlyReturn {
                response: AgentResponse {
                    text: question,
                    tools_used: result.tools_used,
                    prompt_tokens: result.total_prompt_tokens,
                    completion_tokens: result.total_completion_tokens,
                    output_files: Vec::new(),
                },
                pending_tool_call_id,
                messages: result.messages,
                turn_id: result.turn_id,
            }
        },
        RuntimeStatus::Complete => {
            let final_content = match &result.content {
                Some(c) => strip_internal_markers(c.as_str()),
                None => strip_internal_markers("处理完成，未生成回复内容。"),
            };
            AgentRunResult::Completed(
                CompletedRun {
                    final_content,
                    tools_used: result.tools_used,
                    messages: result.messages,
                    turn_id: result.turn_id,
                    total_prompt_tokens: result.total_prompt_tokens,
                    total_completion_tokens: result.total_completion_tokens,
                    cache_hit_tokens: result.cache_hit_tokens,
                    cache_write_tokens: result.cache_write_tokens,
                },
            )
        },
    }
}

/// The scope under which the model may keep what it was sent.
pub fn cache_scope(workspace_key: &str) -> (r: String)
    ensures
        r@ == "session:"@ + workspace_key@,
{
    let mut r = "session:".to_owned();
    r.push_str(workspace_key);
    r
}

/// What is said of the tokens that a run took.
pub open spec fn token_text(prompt: nat, completion: nat, hit: nat, write: nat, rate: nat) -> Seq<char> {
    "[Token] prompt="@ + text::dec(prompt) + " completion="@ + text::dec(completion)
        + " | cache: hit="@ + text::dec(hit) + " write="@ + text::dec(write) + " ("@ + text::dec(
        rate,
    ) + "%)"@
}

/// What is said of the tokens that a run took, where it took any. `rate` is
/// the share of the cache in percent.
pub fn token_line(prompt: u64, completion: u64, hit: u64, write: u64, rate: u64) -> (r: Option<
    String,
>)
    ensures
        message::opt_text(r) == (if prompt > 0 || hit > 0 {
            Some(
                token_text(
                    prompt as nat,
                    completion as nat,
                    hit as nat,
                    write as nat,
                    rate as nat,
                ),
            )
        } else {
            None
        }),
{
    if prompt == 0 && hit == 0 {
        return None;
    }
    let mut t = "[Token] prompt=".to_owned();
    t.push_str(decimal(prompt as u128).as_str());
    t.push_str(" completion=");
    t.push_str(decimal(completion as u128).as_str());
    t.push_str(" | cache: hit=");
    t.push_str(decimal(hit as u128).as_str());
    t.push_str(" write=");
    t.push_str(decimal(write as u128).as_str());
    t.push_str(" (");
    t.push_str(decimal(rate as u128).as_str());
    t.push_str("%)");
    Some(t)
}

/// A task that the agent works on. The time is in milliseconds.
#[derive(Debug)]
pub struct ActiveTask {
    pub user_id: String,
    pub summary: String,
    pub started_at: u64,
}

impl ActiveTask {
    /// The task of a request.
    pub fn new(user_id: &str, user_message: &str, started_at: u64) -> (r: Self)
        ensures
            r.user_id@ == user_id@,
            r.summary@ == text::take_chars(user_message@, 50),
            r.started_at == started_at,
    {
        ActiveTask {
            user_id: user_id.to_owned(),
            summary: str_take_chars(user_message, 50),
            started_at,
        }
    }
}

/// What is written of a task.
pub open spec fn task_json(t: ActiveTask, now: u64) -> JsonView {
    let secs = if now >= t.started_at {
        (now - t.started_at) / 1000
    } else {
        0
    };
    JsonView::Object(
        seq![
            ("running_seconds"@, JsonView::Number(text::dec(secs as nat))),
            ("summary"@, JsonView::Text(t.summary@)),
            ("user_id"@, JsonView::Text(t.user_id@)),
        ],
    )
}

/// What is written of the tasks that the agent works on.
pub open spec fn tasks_json(tasks: Seq<ActiveTask>, now: u64, local_time: Seq<char>) -> JsonView {
    JsonView::Object(
        seq![
            (
                "active_tasks"@,
                JsonView::List(Seq::new(tasks.len(), |i: int| task_json(tasks[i], now))),
            ),
            ("updated_at"@, JsonView::Text(local_time)),
        ],
    )
}

fn task_to_json(t: &ActiveTask, now: u64) -> (r: Json)
    ensures
        r@ == task_json(*t, now),
{
    let secs: u64 = if now >= t.started_at {
        (now - t.started_at) / 1000
    } else {
        0
    };
    let mut m: Vec<(String, Json)> = Vec::new();
    m.push(("running_seconds".to_owned(), Json::Number(decimal(secs as u128))));
    m.push(("summary".to_owned(), Json::Text(t.summary.clone())));
    m.push(("user_id".to_owned(), Json::Text(t.user_id.clone())));
    proof {
        json::lemma_members_view(m@);
        assert(json::members_view(m@) =~= task_json(*t, now)->Object_0);
    }
    Json::Object(m)
}

/// What is written of the tasks that the agent works on.
pub fn active_tasks_file(tasks: &Vec<ActiveTask>, now: u64, local_time: &str) -> (r: Json)
    ensures
        r@ == tasks_json(tasks@, now, local_time@),
{
    let mut l: Vec<Json> = Vec::new();
    let mut i: usize = 0;
    while i < tasks.len()
        invariant
            0 <= i <= tasks@.len(),
            l@.len() == i,
            forall|k: int| 0 <= k < i ==> (#[trigger] l@[k])@ == task_json(tasks@[k], now),
        decreases tasks@.len() - i,
    {
        l.push(task_to_json(&tasks[i], now));
        i += 1;
    }
    proof {
        json::lemma_list_view(l@);
        assert(json::list_view(l@) =~= Seq::new(
            tasks@.len(),
            |i: int| task_json(tasks@[i], now),
        ));
    }
    let mut m: Vec<(String, Json)> = Vec::new();
    m.push(("active_tasks".to_owned(), Json::List(l)));
    m.push(("updated_at".to_owned(), Json::Text(local_time.to_owned())));
    proof {
        json::lemma_members_view(m@);
        assert(json::members_view(m@) =~= tasks_json(tasks@, now, local_time@)->Object_0);
    }
    Json::Object(m)
}

// ---------------------------------------------------------------------------
// What becomes of the outcome
// ---------------------------------------------------------------------------

/// What messages take together.
pub open spec fn total(costs: Seq<usize>) -> int
    decreases costs.len(),
{
    if costs.len() == 0 {
        0
    } else {
        total(costs.drop_last()) + costs.last()
    }
}

proof fn lemma_total_grows(costs: Seq<usize>, i: int)
    requires
        0 <= i <= costs.len(),
    ensures
        0 <= total(costs.take(i)) <= total(costs),
    decreases costs.len(),
{
    if i == costs.len() {
        assert(costs.take(i) =~= costs);
        if i > 0 {
            lemma_total_grows(costs.drop_last(), i - 1);
            assert(costs.drop_last().take(i - 1) =~= costs.drop_last());
        }
    } else {
        lemma_total_grows(costs.drop_last(), i);
        assert(costs.drop_last().take(i) =~= costs.take(i));
    }
}

/// Whether a session is to be merged into the memory: its messages take more
/// than half of the context window. `costs` is what each of them takes.
pub fn should_consolidate(costs: &Vec<usize>, context_window_tokens: usize) -> (r: bool)
    ensures
        r == (total(costs@) > context_window_tokens as int / 2),
{
    let threshold: usize = context_window_tokens / 2;
    let mut sum: usize = 0;
    let mut i: usize = 0;
    proof {
        assert(costs@.take(0) =~= Seq::empty());
    }
    while i < costs.len()
        invariant
            0 <= i <= costs@.len(),
            threshold == context_window_tokens as int / 2,
            sum == total(costs@.take(i as int)),
            sum <= threshold,
        decreases costs@.len() - i,
    {
        proof {
            assert(costs@.take(i + 1).drop_last() =~= costs@.take(i as int));
            assert(costs@.take(i + 1).last() == costs@[i as int]);
            lemma_total_grows(costs@, i + 1);
        }
        if costs[i] > threshold - sum {
            return true;
        }
        sum = sum + costs[i];
        i += 1;
    }
    proof {
        assert(costs@.take(i as int) =~= costs@);
    }
    false
}

/// What is said while a session is merged into the memory.
pub fn consolidation_notice(count: usize) -> (r: String)
    ensures
        r@ == "[整理记忆中... ("@ + text::dec(count as nat) + " 条消息)]"@,
{
    let mut r = "[整理记忆中... (".to_owned();
    r.push_str(decimal_usize(count).as_str());
    r.push_str(" 条消息)]");
    r
}

/// What is said once a session was merged into the memory.
pub const CONSOLIDATION_DONE: &'static str = "[记忆整理完成，历史已清空]";

/// The messages that belong to a turn.
pub open spec fn of_turn(messages: Seq<MessageView>, turn: Seq<char>) -> Seq<MessageView>
    decreases messages.len(),
{
    if messages.len() == 0 {
        Seq::empty()
    } else if messages.last().turn_id == Some(turn) {
        of_turn(messages.drop_last(), turn).push(messages.last())
    } else {
        of_turn(messages.drop_last(), turn)
    }
}

/// The messages that belong to a turn.
pub fn messages_of_turn(messages: &Vec<Message>, turn_id: &str) -> (r: Vec<Message>)
    ensures
        message::views(r@) == of_turn(message::views(messages@), turn_id@),
{
    let mut out: Vec<Message> = Vec::new();
    let ghost all = message::views(messages@);
    let mut i: usize = 0;
    proof {
        assert(message::views(out@) =~= of_turn(all.take(0), turn_id@));
    }
    while i < messages.len()
        invariant
            0 <= i <= messages@.len(),
            all == message::views(messages@),
            message::views(out@) == of_turn(all.take(i as int), turn_id@),
        decreases messages@.len() - i,
    {
        let ghost before = out@;
        proof {
            assert(all.take(i + 1).drop_last() =~= all.take(i as int));
            assert(all.take(i + 1).last() == messages@[i as int]@);
        }
        let belongs = match &messages[i].turn_id {
            Some(t) => str_eq(t.as_str(), turn_id),
            None => false,
        };
        if belongs {
            let m = messages[i].clone();
            out.push(m);
            proof {
                message::lemma_views_push(before, m);
            }
        }
        i += 1;
    }
    proof {
        assert(all.take(i as int) =~= all);
    }
    out
}

/// A record of a request. When it was made and how long it took is added by
/// whoever keeps it.
#[derive(Debug)]
pub struct AuditEntry {
    pub workspace_key: String,
    pub session_id: String,
    pub user_id: String,
    pub user_name: String,
    pub channel: String,
    pub request: String,
    pub tool_calls: Vec<Json>,
    pub skills_used: Vec<Json>,
    pub final_response: Option<String>,
    pub token_usage: Option<Json>,
}

/// The session of a record; `unknown` where none is in use.
pub open spec fn audited_session(id: Option<Seq<char>>) -> Seq<char> {
    match id {
        Some(i) => i,
        None => "unknown"@,
    }
}

/// The record of a message that was handed to an agent at work.
pub fn injected_audit(
    workspace_key: &str,
    session_id: Option<String>,
    user_id: &str,
    user_name: &str,
    channel: &str,
    msg: &str,
) -> (r: AuditEntry)
    ensures
        r.workspace_key@ == workspace_key@,
        r.session_id@ == audited_session(message::opt_text(session_id)),
        r.user_id@ == user_id@,
        r.user_name@ == user_name@,
        r.channel@ == channel@,
        r.request@ == "[injected] "@ + text::take_chars(msg@, 500),
        r.tool_calls@.len() == 0,
        r.skills_used@.len() == 0,
        message::opt_text(r.final_response) == Some("injected into running agent loop"@),
        r.token_usage is None,
{
    let mut request = "[injected] ".to_owned();
    let head = str_take_chars(msg, 500);
    request.push_str(head.as_str());
    AuditEntry {
        workspace_key: workspace_key.to_owned(),
        session_id: match session_id {
            Some(id) => id,
            None => "unknown".to_owned(),
        },
        user_id: user_id.to_owned(),
        user_name: user_name.to_owned(),
        channel: channel.to_owned(),
        request,
        tool_calls: Vec::new(),
        skills_used: Vec::new(),
        final_response: Some("injected into running agent loop".to_owned()),
        token_usage: None,
    }
}

/// The record of a tool that was used.
pub open spec fn tool_record(name: Seq<char>) -> JsonView {
    JsonView::Object(seq![("name"@, JsonView::Text(name))])
}

/// The record of the tokens that a run took.
pub open spec fn token_record(run: CompletedRun) -> JsonView {
    JsonView::Object(
        seq![
            ("cache_hit_tokens"@, JsonView::Number(text::dec(run.cache_hit_tokens as nat))),
            ("cache_write_tokens"@, JsonView::Number(text::dec(run.cache_write_tokens as nat))),
            (
                "completion_tokens"@,
                JsonView::Number(text::dec(run.total_completion_tokens as nat)),
            ),
            ("prompt_tokens"@, JsonView::Number(text::dec(run.total_prompt_tokens as nat))),
        ],
    )
}

fn tokens_to_json(run: &CompletedRun) -> (r: Json)
    ensures
        r@ == token_record(*run),
{
    let mut m: Vec<(String, Json)> = Vec::new();
    m.push(
        ("cache_hit_tokens".to_owned(), Json::Number(decimal(run.cache_hit_tokens as u128))),
    );
    m.push(
        ("cache_write_tokens".to_owned(), Json::Number(decimal(run.cache_write_tokens as u128))),
    );
    m.push(
        (
            "completion_tokens".to_owned(),
            Json::Number(decimal(run.total_completion_tokens as u128)),
        ),
    );
    m.push(
        ("prompt_tokens".to_owned(), Json::Number(decimal(run.total_prompt_tokens as u128))),
    );
    proof {
        json::lemma_members_view(m@);
        assert(json::members_view(m@) =~= token_record(*run)->Object_0);
    }
    Json::Object(m)
}

fn tools_to_json(tools: &Vec<String>) -> (r: Vec<Json>)
    ensures
        json::list_view(r@) == Seq::new(tools@.len(), |i: int| tool_record(tools@[i]@)),
{
    let mut l: Vec<Json> = Vec::new();
    let mut i: usize = 0;
    while i < tools.len()
        invariant
            0 <= i <= tools@.len(),
            l@.len() == i,
            forall|k: int| 0 <= k < i ==> (#[trigger] l@[k])@ == tool_record(tools@[k]@),
        decreases tools@.len() - i,
    {
        let mut m: Vec<(String, Json)> = Vec::new();
        m.push(("name".to_owned(), Json::Text(tools[i].clone())));
        proof {
            json::lemma_members_view(m@);
            assert(json::members_view(m@) =~= tool_record(tools@[i as int]@)->Object_0);
        }
        l.push(Json::Object(m));
        i += 1;
    }
    proof {
        json::lemma_list_view(l@);
        assert(json::list_view(l@) =~= Seq::new(tools@.len(), |i: int| tool_record(tools@[i]@)));
    }
    l
}

/// The record of a request that the agent has worked on.
pub fn audit_entry(
    workspace_key: &str,
    session_id: Option<String>,
    user_id: &str,
    user_name: &str,
    channel: &str,
    user_message: &str,
    run: &CompletedRun,
) -> (r: AuditEntry)
    ensures
        r.workspace_key@ == workspace_key@,
        r.session_id@ == audited_session(message::opt_text(session_id)),
        r.user_id@ == user_id@,
        r.user_name@ == user_name@,
        r.channel@ == channel@,
        r.request@ == text::take_chars(user_message@, 500),
        json::list_view(r.tool_calls@) == Seq::new(
            run.tools_used@.len(),
            |i: int| tool_record(run.tools_used@[i]@),
        ),
        json::list_view(r.skills_used@) == helpers::records(
            helpers::skills_in(
                of_turn(message::views(run.messages@), run.turn_id@),
                workspace_key@,
                user_name@,
            ),
        ),
        message::opt_text(r.final_response) == Some(
            text::take_chars(run.final_content@, 500),
        ),
        r.token_usage matches Some(t) && t@ == token_record(*run),
{
    let turn = messages_of_turn(&run.messages, run.turn_id.as_str());
    let skills = extract_skills_used(&turn, workspace_key, user_name);
    AuditEntry {
        workspace_key: workspace_key.to_owned(),
        session_id: match session_id {
            Some(id) => id,
            None => "unknown".to_owned(),
        },
        user_id: user_id.to_owned(),
        user_name: user_name.to_owned(),
        channel: channel.to_owned(),
        request: str_take_chars(user_message, 500),
        tool_calls: tools_to_json(&run.tools_used),
        skills_used: skills,
        final_response: Some(str_take_chars(run.final_content.as_str(), 500)),
        token_usage: Some(tokens_to_json(run)),
    }
}

/// What is done once a run is done.
#[derive(Debug, Clone, Copy, PartialEq, Eq, Structural)]
pub struct Aftermath {
    /// Write the turn into the history.
    pub save_turn: bool,
    /// See whether the history is to be merged into the memory.
    pub check_memory: bool,
    /// Count the request.
    pub count_request: bool,
    /// Keep a record.
    pub audit: bool,
    /// Keep the request as a case.
    pub extract_case: bool,
}

/// What is done once a run is done.
pub fn plan_aftermath(run: &CompletedRun, features: &OrchestratorFeatures) -> (r: Aftermath)
    ensures
        r.save_turn == (run.messages@.len() > 0),
        r.check_memory == features.enable_memory,
        r.count_request == features.enable_rate_limit,
        r.audit == features.enable_audit,
        r.extract_case == (features.enable_memory && run.tools_used@.len() > 0),
{
    Aftermath {
        save_turn: run.messages.len() > 0,
        check_memory: features.enable_memory,
        count_request: features.enable_rate_limit,
        audit: features.enable_audit,
        extract_case: features.enable_memory && run.tools_used.len() > 0,
    }
}

/// The reply to a request that the agent has worked on.
pub fn post_process(run: CompletedRun, output_files: Vec<String>) -> (r: AgentResponse)
    ensures
        r == (AgentResponse {
            text: run.final_content,
            tools_used: run.tools_used,
            prompt_tokens: run.total_prompt_tokens,
            completion_tokens: run.total_completion_tokens,
            output_files,
        }),
{
    AgentResponse {
        text: run.final_content,
        tools_used: run.tools_used,
        prompt_tokens: run.total_prompt_tokens,
        completion_tokens: run.total_completion_tokens,
        output_files,
    }
}

// ---------------------------------------------------------------------------
// Laws
// ---------------------------------------------------------------------------

/// A request is worked on, or its command carried out, unless the agent is at
/// work already, waits for an answer, or the user has asked too often; then it
/// is handed to that agent, taken as the answer, or refused.
pub proof fn law_requests_are_worked_on(
    busy: bool,
    waiting: bool,
    limited: bool,
    command: Option<SlashCommand>,
)
    ensures
        !busy && waiting ==> step_of(busy, waiting, limited, command) == Step::Resume,
        !busy && !waiting && limited ==> step_of(busy, waiting, limited, command) == Step::Refuse,
        !busy && !waiting && !limited && command is None ==> step_of(
            busy,
            waiting,
            limited,
            command,
        ) == Step::Work,
        !busy && !waiting && !limited ==> (command matches Some(c) ==> step_of(
            busy,
            waiting,
            limited,
            command,
        ) == Step::Command(c)),
{
}

proof fn lemma_attachment_lines(s: Seq<(Seq<char>, Seq<char>)>, i: int)
    requires
        0 <= i < s.len(),
    ensures
        text::contains(attachment_lines(s), attachment_line(s[i].0, s[i].1)),
    decreases s.len(),
{
    let p = attachment_lines(s.drop_last());
    let last = attachment_line(s.last().0, s.last().1);
    let none = Seq::<char>::empty();
    if i == s.len() - 1 {
        assert(p + last =~= p + last + none);
        text::lemma_contains_part(p, last, none);
    } else {
        lemma_attachment_lines(s.drop_last(), i);
        assert(p + last =~= none + p + last);
        text::lemma_contains_part(none, p, last);
        text::lemma_contains_within(p + last, p, attachment_line(s[i].0, s[i].1));
    }
}

/// The agent is told what was asked, and of every attachment its name and
/// where it is.
pub proof fn law_attachments_are_told(msg: Seq<char>, s: Seq<(Seq<char>, Seq<char>)>, i: int)
    ensures
        text::starts_with(with_attachments(msg, s), msg),
        s.len() == 0 ==> with_attachments(msg, s) == msg,
        0 <= i < s.len() ==> text::contains(with_attachments(msg, s), s[i].0) && text::contains(
            with_attachments(msg, s),
            s[i].1,
        ),
{
    let w = with_attachments(msg, s);
    assert(w.subrange(0, msg.len() as int) =~= msg);
    if 0 <= i < s.len() {
        let list = attachment_lines(s);
        let none = Seq::<char>::empty();
        let head = msg + "\n\n[附件文件]"@;
        let (a, b) = s[i];
        let line = attachment_line(a, b);
        assert(text::contains(w, line)) by {
            lemma_attachment_lines(s, i);
            assert(w =~= head + list + none);
            text::lemma_contains_part(head, list, none);
            text::lemma_contains_within(w, list, line);
        }
        assert(text::contains(line, a)) by {
            assert(line =~= "\n- "@ + a + (" (路径: "@ + b + ")"@));
            text::lemma_contains_part("\n- "@, a, " (路径: "@ + b + ")"@);
        }
        assert(text::contains(line, b)) by {
            assert(line =~= ("\n- "@ + a + " (路径: "@) + b + ")"@);
            text::lemma_contains_part("\n- "@ + a + " (路径: "@, b, ")"@);
        }
        text::lemma_contains_within(w, line, a);
        text::lemma_contains_within(w, line, b);
    }
}

/// An attachment is where it was copied to, and where it was if it could not
/// be copied.
pub proof fn law_attachments_are_found(
    files: Seq<(String, String)>,
    target_dir: Seq<char>,
    dir: Seq<char>,
    copied: Seq<bool>,
    i: int,
)
    requires
        0 <= i < files.len(),
    ensures
        copied_paths(files, target_dir, dir, copied).len() == files.len(),
        copied_paths(files, target_dir, dir, copied)[i].0 == files[i].1@,
        copied[i] ==> copied_paths(files, target_dir, dir, copied)[i].1 == dir + "/"@
            + files[i].1@,
        !copied[i] && files[i].0@ != workspace::below(target_dir, files[i].1@) ==> copied_paths(
            files,
            target_dir,
            dir,
            copied,
        )[i].1 == files[i].0@,
{
}

/// A run that waited goes on with the answer of the user, in a message that
/// answers the call by which the agent asked.
pub proof fn law_answer_reaches_the_agent(id: Seq<char>, user_message: Seq<char>)
    requires
        text::trim(user_message).len() > 0,
        !text::contains(answer_of(user_message), "[[IMAGE:data:image/"@),
    ensures
        ({
            let ms = context::result_messages(id, "ask_user"@, answer_of(user_message));
            &&& ms.len() == 1
            &&& ms[0].role == Some("tool"@)
            &&& ms[0].tool_call_id == Some(id)
            &&& ms[0].text() is Some
            &&& text::contains(ms[0].text()->0, user_message)
        }),
{
    let none = Seq::<char>::empty();
    let a = answer_of(user_message);
    assert(a =~= "User replied: "@ + user_message + none);
    text::lemma_contains_part("User replied: "@, user_message, none);
}

/// The messages of a turn are those that carry its id, in order.
pub proof fn law_turn_is_picked_by_its_id(messages: Seq<MessageView>, turn: Seq<char>)
    ensures
        of_turn(messages, turn) == seqs::select(
            messages,
            |m: MessageView| m.turn_id == Some(turn),
        ),
    decreases messages.len(),
{
    let f = |m: MessageView| m.turn_id == Some(turn);
    if messages.len() > 0 {
        let p = messages.drop_last();
        let x = messages.last();
        law_turn_is_picked_by_its_id(p, turn);
        assert(messages =~= p + seq![x]);
        seqs::lemma_select_concat(p, seq![x], f);
        reveal_with_fuel(seqs::select, 3);
        assert(of_turn(messages, turn) =~= seqs::select(messages, f));
    } else {
        assert(of_turn(messages, turn) =~= seqs::select(messages, f));
    }
}

/// The reply of the agent is shown as it is, but for white space around it and
/// for the marks that the user does not see.
pub proof fn law_reply_is_shown(c: Seq<char>)
    requires
        !text::contains(c, "[[TYCLAW_COMPACT_ASSISTANT]]"@),
        !text::contains(c, "[[TYCLAW_COMPACT_SYSTEM]]"@),
        !text::contains(c, "[[TYCLAW_MAX_REACHED_RESET_NEXT_RUN]]"@),
    ensures
        reply_of(Some(c)) == text::trim(c),
        question_of(Some(c)) == c,
{
    text::lemma_contains_find(c, "[[TYCLAW_COMPACT_ASSISTANT]]"@);
    text::lemma_contains_find(c, "[[TYCLAW_COMPACT_SYSTEM]]"@);
    text::lemma_contains_find(c, "[[TYCLAW_MAX_REACHED_RESET_NEXT_RUN]]"@);
}

/// The user is told where a conversation was saved.
pub proof fn law_saved_place_is_told(root: Seq<char>, path: Seq<char>)
    ensures
        prepare::rest_below(root, path) is None ==> text::contains(saved_reply(root, path), path),
        prepare::rest_below(root, path) matches Some(rel) ==> text::contains(
            saved_reply(root, path),
            rel,
        ),
{
    let shown = match prepare::rest_below(root, path) {
        Some(rel) => rel,
        None => path,
    };
    let a = "已保存当前会话信息到：`"@;
    let b = "`。\n现在可以输入 `/new` 开新任务，并把这个文件内容粘贴给我继续。"@;
    assert(saved_reply(root, path) =~= a + shown + b);
    text::lemma_contains_part(a, shown, b);
}

/// A command is known by its name alone.
pub proof fn law_commands_are_known_by_name(t: Seq<char>)
    ensures
        command_named("/save"@) == Some(SlashCommand::Save),
        command_named("/handoff"@) == Some(SlashCommand::Save),
        command_named("/new"@) == Some(SlashCommand::New),
        (t.len() == 0 || t[0] != '/') ==> command_named(t) is None,
{
    reveal_strlit("/save");
    reveal_strlit("/handoff");
    reveal_strlit("/new");
    assert("/save"@.len() == 5 && "/handoff"@.len() == 8 && "/new"@.len() == 4);
    assert("/save"@[0] == '/' && "/handoff"@[0] == '/' && "/new"@[0] == '/');
}

/// The file for a handoff is named by the workspace and by the time.
pub proof fn law_handoff_is_named(key: Seq<char>, stamp: Seq<char>)
    requires
        forall|i: int| 0 <= i < key.len() ==> #[trigger] key[i] != ':',
    ensures
        text::contains(handoff_name(key, stamp), key),
        text::contains(handoff_name(key, stamp), stamp),
{
    reveal_strlit(":");
    text::lemma_find_from(key, ":"@, 0);
    if let Some(i) = text::find_from(key, ":"@, 0) {
        assert(key.subrange(i, i + 1)[0] == key[i]);
    }
    assert(text::replace_all(key, ":"@, "_"@) == key);
    let n = handoff_name(key, stamp);
    assert(text::contains(n, key)) by {
        let b = "_"@ + stamp + ".md"@;
        assert(n =~= "handoff_"@ + key + b);
        text::lemma_contains_part("handoff_"@, key, b);
    }
    text::lemma_contains_part("handoff_"@ + key + "_"@, stamp, ".md"@);
}

/// What is said of the tokens of a run tells all of their counts.
pub proof fn law_tokens_are_told(prompt: nat, completion: nat, hit: nat, write: nat, rate: nat)
    ensures
        ({
            let t = token_text(prompt, completion, hit, write, rate);
            &&& text::contains(t, text::dec(prompt))
            &&& text::contains(t, text::dec(completion))
            &&& text::contains(t, text::dec(hit))
            &&& text::contains(t, text::dec(write))
            &&& text::contains(t, text::dec(rate))
        }),
{
    let t = token_text(prompt, completion, hit, write, rate);
    let a1 = "[Token] prompt="@;
    assert(text::contains(t, text::dec(prompt))) by {
        let d = text::dec(prompt);
        let b = t.skip((a1.len() + d.len()) as int);
        assert(t =~= a1 + d + b);
        text::lemma_contains_part(a1, d, b);
    }
    let a2 = a1 + text::dec(prompt) + " completion="@;
    assert(text::contains(t, text::dec(completion))) by {
        let d = text::dec(completion);
        let b = t.skip((a2.len() + d.len()) as int);
        assert(t =~= a2 + d + b);
        text::lemma_contains_part(a2, d, b);
    }
    let a3 = a2 + text::dec(completion) + " | cache: hit="@;
    assert(text::contains(t, text::dec(hit))) by {
        let d = text::dec(hit);
        let b = t.skip((a3.len() + d.len()) as int);
        assert(t =~= a3 + d + b);
        text::lemma_contains_part(a3, d, b);
    }
    let a4 = a3 + text::dec(hit) + " write="@;
    assert(text::contains(t, text::dec(write))) by {
        let d = text::dec(write);
        let b = t.skip((a4.len() + d.len()) as int);
        assert(t =~= a4 + d + b);
        text::lemma_contains_part(a4, d, b);
    }
    assert(text::contains(t, text::dec(rate))) by {
        let d = text::dec(rate);
        let f = t.take(t.len() - "%)"@.len() - d.len());
        assert(t =~= f + d + "%)"@);
        text::lemma_contains_part(f, d, "%)"@);
    }
}

/// Every task that the agent works on is written down, with what it is, whose
/// it is and how long it has been running.
pub proof fn law_every_task_is_written(tasks: Seq<ActiveTask>, now: u64, local_time: Seq<char>, i: int)
    requires
        0 <= i < tasks.len(),
        now >= tasks[i].started_at,
    ensures
        ({
            let v = tasks_json(tasks, now, local_time);
            &&& v.get_text("updated_at"@) == Some(local_time)
            &&& v.get("active_tasks"@) matches Some(JsonView::List(l)) && l.len() == tasks.len()
                && l[i].get_text("summary"@) == Some(tasks[i].summary@) && l[i].get_text("user_id"@)
                == Some(tasks[i].user_id@) && l[i].get("running_seconds"@) == Some(
                JsonView::Number(text::dec(((now - tasks[i].started_at) / 1000) as nat)),
            )
        }),
{
    reveal_strlit("active_tasks");
    reveal_strlit("updated_at");
    reveal_strlit("running_seconds");
    reveal_strlit("summary");
    reveal_strlit("user_id");
    assert("active_tasks"@.len() == 12 && "updated_at"@.len() == 10 && "running_seconds"@.len()
        == 15 && "summary"@.len() == 7 && "user_id"@.len() == 7);
    assert("summary"@[0] != "user_id"@[0]);
    let m = tasks_json(tasks, now, local_time)->Object_0;
    json::lemma_member_at(m, 0);
    json::lemma_member_at(m, 1);
    let t = task_json(tasks[i], now)->Object_0;
    json::lemma_member_at(t, 0);
    json::lemma_member_at(t, 1);
    json::lemma_member_at(t, 2);
}

/// The record of a run holds the counts of its tokens, and that of a tool
/// holds its name.
pub proof fn law_records_hold_the_counts(run: CompletedRun, name: Seq<char>)
    ensures
        ({
            let t = token_record(run);
            &&& t.get("prompt_tokens"@) == Some(
                JsonView::Number(text::dec(run.total_prompt_tokens as nat)),
            )
            &&& t.get("completion_tokens"@) == Some(
                JsonView::Number(text::dec(run.total_completion_tokens as nat)),
            )
            &&& t.get("cache_hit_tokens"@) == Some(
                JsonView::Number(text::dec(run.cache_hit_tokens as nat)),
            )
            &&& t.get("cache_write_tokens"@) == Some(
                JsonView::Number(text::dec(run.cache_write_tokens as nat)),
            )
        }),
        tool_record(name).get_text("name"@) == Some(name),
{
    reveal_strlit("cache_hit_tokens");
    reveal_strlit("cache_write_tokens");
    reveal_strlit("completion_tokens");
    reveal_strlit("prompt_tokens");
    assert("cache_hit_tokens"@.len() == 16 && "cache_write_tokens"@.len() == 18
        && "completion_tokens"@.len() == 17 && "prompt_tokens"@.len() == 13);
    let m = token_record(run)->Object_0;
    json::lemma_member_at(m, 0);
    json::lemma_member_at(m, 1);
    json::lemma_member_at(m, 2);
    json::lemma_member_at(m, 3);
    json::lemma_member_at(tool_record(name)->Object_0, 0);
}

} // verus!

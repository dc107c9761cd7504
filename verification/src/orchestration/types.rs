//! What a request is and what it is allowed.

use vstd::prelude::*;

verus! {

/// The longest tool result that is kept in a history.
pub const TOOL_RESULT_MAX_CHARS: usize = 500;

/// How many messages a handoff holds at most.
pub const HANDOFF_MAX_MESSAGES: usize = 120;

/// The longest message in a handoff.
pub const HANDOFF_MAX_CONTENT_CHARS: usize = 2000;

/// How many skills a prompt tells of.
pub const MAX_INJECTED_SKILLS: usize = 8;

/// How long the section on similar cases may be.
pub const MAX_SIMILAR_CASES_CHARS: usize = 2500;

/// The share of the context window that goes to the history, in percent.
pub const HISTORY_BUDGET_RATIO: usize = 45;

/// The most tokens that a history may take.
pub const MAX_HISTORY_TOKENS_HARD_LIMIT: usize = 16_384;

/// The fewest tokens that a history may take.
pub const MIN_HISTORY_BUDGET_TOKENS: usize = 256;

/// The largest share of the context window that goes to the history.
pub const MAX_HISTORY_BUDGET_RATIO: usize = 65;

/// The most skills that any prompt tells of.
pub const MAX_DYNAMIC_INJECTED_SKILLS: usize = 12;

/// The longest that the section on similar cases may ever be.
pub const MAX_DYNAMIC_SIMILAR_CASES_CHARS: usize = 4000;

/// How many more skills the first prompt of a session tells of.
pub const FIRST_TURN_SKILL_BONUS: usize = 2;

/// How much longer the section on similar cases of the first prompt is.
pub const FIRST_TURN_CASES_CHARS_BONUS: usize = 1200;

/// Who asks, and where.
#[derive(Debug)]
pub struct RequestContext {
    pub user_id: String,
    pub user_name: String,
    pub workspace_id: String,
    pub channel: String,
    pub chat_id: String,
    /// The conversation, where the channel has one.
    pub conversation_id: Option<String>,
    /// The images of the request, as data URIs.
    pub image_data_uris: Vec<String>,
    /// The files of the request: where each is, and its name.
    pub file_attachments: Vec<(String, String)>,
}

impl Default for RequestContext {
    fn default() -> (r: Self)
        ensures
            r.user_id@ == "user"@,
            r.user_name@ == Seq::<char>::empty(),
            r.workspace_id@ == "default"@,
            r.channel@ == "api"@,
            r.chat_id@ == "direct"@,
            r.conversation_id is None,
            r.image_data_uris@.len() == 0,
            r.file_attachments@.len() == 0,
    {
        RequestContext::new("user", "default", "api", "direct")
    }
}

impl RequestContext {
    /// A request without images or files.
    pub fn new(user_id: &str, workspace_id: &str, channel: &str, chat_id: &str) -> (r: Self)
        ensures
            r.user_id@ == user_id@,
            r.user_name@ == Seq::<char>::empty(),
            r.workspace_id@ == workspace_id@,
            r.channel@ == channel@,
            r.chat_id@ == chat_id@,
            r.conversation_id is None,
            r.image_data_uris@.len() == 0,
            r.file_attachments@.len() == 0,
    {
        RequestContext {
            user_id: user_id.to_owned(),
            user_name: String::new(),
            workspace_id: workspace_id.to_owned(),
            channel: channel.to_owned(),
            chat_id: chat_id.to_owned(),
            conversation_id: None,
            image_data_uris: Vec::new(),
            file_attachments: Vec::new(),
        }
    }

    /// The same request with the name of the user.
    pub fn with_user_name(self, name: String) -> (r: Self)
        ensures
            r == (RequestContext { user_name: name, ..self }),
    {
        RequestContext { user_name: name, ..self }
    }

    /// The same request in a conversation.
    pub fn with_conversation_id(self, cid: String) -> (r: Self)
        ensures
            r == (RequestContext { conversation_id: Some(cid), ..self }),
    {
        RequestContext { conversation_id: Some(cid), ..self }
    }

    /// The same request with images.
    pub fn with_images(self, images: Vec<String>) -> (r: Self)
        ensures
            r == (RequestContext { image_data_uris: images, ..self }),
    {
        RequestContext { image_data_uris: images, ..self }
    }

    /// The same request with files.
    pub fn with_files(self, files: Vec<(String, String)>) -> (r: Self)
        ensures
            r == (RequestContext { file_attachments: files, ..self }),
    {
        RequestContext { file_attachments: files, ..self }
    }
}

/// What is switched on.
#[derive(Debug, Clone, Copy, PartialEq, Eq, Structural)]
pub struct OrchestratorFeatures {
    pub enable_audit: bool,
    pub enable_memory: bool,
    pub enable_rbac: bool,
    pub enable_rate_limit: bool,
}

impl Default for OrchestratorFeatures {
    fn default() -> (r: Self)
        ensures
            r.enable_audit,
            r.enable_memory,
            r.enable_rbac,
            r.enable_rate_limit,
    {
        OrchestratorFeatures {
            enable_audit: true,
            enable_memory: true,
            enable_rbac: true,
            enable_rate_limit: true,
        }
    }
}

/// What a request is answered.
#[derive(Debug)]
pub struct AgentResponse {
    pub text: String,
    pub tools_used: Vec<String>,
    pub prompt_tokens: u64,
    pub completion_tokens: u64,
    /// The files that go to the user.
    pub output_files: Vec<String>,
}

/// How the context window is shared out.
#[derive(Debug, Clone, Copy)]
pub struct ContextBudgetPlan {
    /// The share of the history, in percent.
    pub history_ratio: usize,
    /// How many skills the prompt tells of.
    pub max_skills: usize,
    /// How long the section on similar cases may be.
    pub max_cases_chars: usize,
}

} // verus!

//! The configuration that the programs share.

use crate::control::workspace::WorkspaceKeyStrategy;
use crate::text;
use crate::text::{chars_of, string_of};
use vstd::prelude::*;

verus! {

/// How workspaces are used.
#[derive(Debug, Clone, Copy)]
pub struct WorkspaceRuntimeConfig {
    pub key_strategy: WorkspaceKeyStrategy,
    /// After how many seconds without use a workspace is cleared; never where
    /// it is 0.
    pub idle_timeout_secs: u64,
}

impl Default for WorkspaceRuntimeConfig {
    fn default() -> (r: Self)
        ensures
            r.key_strategy == WorkspaceKeyStrategy::UserId,
            r.idle_timeout_secs == 1800,
    {
        WorkspaceRuntimeConfig {
            key_strategy: WorkspaceKeyStrategy::default(),
            idle_timeout_secs: default_idle_timeout_secs(),
        }
    }
}

/// After how many seconds without use a workspace is cleared.
pub fn default_idle_timeout_secs() -> (r: u64)
    ensures
        r == 1800,
{
    1800
}

/// How the model is asked. Where a provider is named, the fields that say how
/// it is reached do not count.
#[derive(Debug)]
pub struct LlmConfig {
    pub provider: Option<String>,
    pub api_key: Option<String>,
    pub api_base: Option<String>,
    pub model: Option<String>,
    pub max_iterations: usize,
    pub context_window_tokens: Option<usize>,
    pub snapshot: bool,
    pub thinking_enabled: bool,
    pub thinking_effort: String,
    pub thinking_budget_tokens: Option<u32>,
}

impl Default for LlmConfig {
    fn default() -> (r: Self)
        ensures
            r.provider is None,
            r.api_key is None,
            r.api_base is None,
            r.model is None,
            r.max_iterations == 0,
            r.context_window_tokens is None,
            !r.snapshot,
            !r.thinking_enabled,
            r.thinking_effort@ == Seq::<char>::empty(),
            r.thinking_budget_tokens is None,
    {
        proof {
            text::lemma_empty_literal();
        }
        LlmConfig {
            provider: None,
            api_key: None,
            api_base: None,
            model: None,
            max_iterations: 0,
            context_window_tokens: None,
            snapshot: false,
            thinking_enabled: false,
            thinking_effort: String::new(),
            thinking_budget_tokens: None,
        }
    }
}

/// What is logged and where.
#[derive(Debug)]
pub struct LoggingConfig {
    pub level: String,
    pub file: Option<String>,
}

impl Default for LoggingConfig {
    fn default() -> (r: Self)
        ensures
            r.level@ == "info"@,
            r.file is None,
    {
        LoggingConfig { level: default_log_level(), file: None }
    }
}

/// How many rounds the agent has.
pub fn default_max_iterations() -> (r: usize)
    ensures
        r == 40,
{
    40
}

/// How hard the model thinks.
pub fn default_thinking_effort() -> (r: String)
    ensures
        r@ == "high"@,
{
    "high".to_owned()
}

/// What is logged.
pub fn default_log_level() -> (r: String)
    ensures
        r@ == "info"@,
{
    "info".to_owned()
}

/// A secret as it may be shown: its first and last four characters, or none
/// where it is short.
pub open spec fn masked(s: Seq<char>) -> Seq<char> {
    if s.len() == 0 {
        "<empty>"@
    } else if s.len() <= 8 {
        "***"@
    } else {
        s.take(4) + "***"@ + s.skip(s.len() - 4)
    }
}

/// A secret as it may be shown.
pub fn mask_secret(secret: &str) -> (r: String)
    ensures
        r@ == masked(secret@),
{
    let cs = chars_of(secret);
    let n: usize = cs.len();
    if n == 0 {
        return "<empty>".to_owned();
    }
    if n <= 8 {
        return "***".to_owned();
    }
    let mut r = string_of(cs.as_slice(), 0, 4);
    r.push_str("***");
    let tail = string_of(cs.as_slice(), n - 4, n);
    r.push_str(tail.as_str());
    proof {
        assert(secret@.subrange(0, 4) =~= secret@.take(4));
        assert(tail@ =~= secret@.skip(n - 4));
    }
    r
}

/// Of a secret no more than eight characters are shown, and secrets that
/// differ only in between look the same.
pub proof fn law_masking_hides_the_middle(a: Seq<char>, b: Seq<char>)
    ensures
        masked(a).len() <= 11,
        a.len() > 8 && b.len() > 8 && a.take(4) == b.take(4) && a.skip(a.len() - 4) == b.skip(
            b.len() - 4,
        ) ==> masked(a) == masked(b),
        0 < a.len() <= 8 && 0 < b.len() <= 8 ==> masked(a) == masked(b),
{
    reveal_strlit("<empty>");
    reveal_strlit("***");
}

/// Of a long secret the first and the last four characters are shown, and
/// what is shown of a short one tells nothing of it.
pub proof fn law_ends_of_a_secret_are_shown(s: Seq<char>)
    ensures
        s.len() > 8 ==> masked(s).take(4) == s.take(4) && masked(s).skip(masked(s).len() - 4)
            == s.skip(s.len() - 4) && masked(s).len() == 11,
        0 < s.len() <= 8 ==> masked(s) == seq!['*', '*', '*'],
{
    reveal_strlit("***");
    if s.len() > 8 {
        assert(masked(s).take(4) =~= s.take(4));
        assert(masked(s).skip(masked(s).len() - 4) =~= s.skip(s.len() - 4));
    } else {
        assert("***"@ =~= seq!['*', '*', '*']);
    }
}

} // verus!

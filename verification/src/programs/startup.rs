//! How the programs start: which model is asked, where logs go, what is shown
//! of the configuration, and what a timer sends.

use crate::agent::runtime::parse_thinking_prefix;
use crate::channel::dingtalk::handler;
use crate::channel::dingtalk::handler::file_name_of;
use crate::control::workspace;
use crate::control::workspace::join_path;
use crate::message;
use crate::message::clone_opt;
use crate::orchestration::bus::InboundMessage;
use crate::orchestration::config;
use crate::orchestration::config::{mask_secret, LlmConfig, LoggingConfig};
use crate::order;
use crate::order::sort_pairs;
use crate::programs::outbound;
use crate::prompt::sections;
use crate::prompt::sections::parent_of;
use crate::seqs;
use crate::subtasks::config::{ProviderConfig, SubtasksConfig};
use crate::subtasks::engine::ThinkingConfig;
use crate::subtasks::protocol::FailurePolicy;
use crate::table::Table;
use crate::text;
use crate::text::{decimal_usize, is_blank, str_eq, str_join};
use vstd::prelude::*;

verus! {

// ---------------------------------------------------------------------------
// Which model is asked
// ---------------------------------------------------------------------------

/// How a model is reached.
#[derive(Debug)]
pub struct ModelAccess {
    pub api_key: String,
    pub api_base: String,
    pub model: String,
    pub thinking: Option<ThinkingConfig>,
}

/// What the command line, or the environment in its place, says of the model.
#[derive(Debug)]
pub struct ModelArgs {
    pub api_key: Option<String>,
    pub api_base: Option<String>,
    pub model: Option<String>,
}

/// Why the program does not start.
#[derive(Debug)]
pub enum StartError {
    /// The provider that is named is not configured.
    UnknownProvider(String),
    /// The provider that is named has no key.
    ProviderWithoutKey(String),
    /// Nothing gives a key.
    NoKey,
    /// The bot has no id.
    NoClientId,
    /// The bot has no secret.
    NoClientSecret,
}

/// A text, or another where it is missing.
pub open spec fn or_else(a: Option<String>, b: Seq<char>) -> Seq<char> {
    match a {
        Some(s) => s@,
        None => b,
    }
}

/// How a model is to think, where it is to.
pub open spec fn thinking_of(enabled: bool, effort: Seq<char>, budget: Option<u32>) -> Option<
    (Seq<char>, Option<u32>),
> {
    if enabled {
        Some((effort, budget))
    } else {
        None
    }
}

/// How a model is reached, as mathematical data: the key, the address, the
/// name and how it thinks.
pub open spec fn access(m: ModelAccess) -> (
    Seq<char>,
    Seq<char>,
    Seq<char>,
    Option<(Seq<char>, Option<u32>)>,
) {
    (
        m.api_key@,
        m.api_base@,
        m.model@,
        match m.thinking {
            Some(t) => Some((t.effort@, t.budget_tokens)),
            None => None,
        },
    )
}

fn thinking(enabled: bool, effort: &String, budget: Option<u32>) -> (r: Option<ThinkingConfig>)
    ensures
        (match r {
            Some(t) => Some((t.effort@, t.budget_tokens)),
            None => None,
        }) == thinking_of(enabled, effort@, budget),
{
    if enabled {
        Some(ThinkingConfig { effort: effort.clone(), budget_tokens: budget })
    } else {
        None
    }
}

fn pick(a: &Option<String>, b: &Option<String>) -> (r: Option<String>)
    ensures
        message::opt_text(r) == (match *a {
            Some(s) => Some(s@),
            None => message::opt_text(*b),
        }),
{
    match a {
        Some(s) => Some(s.clone()),
        None => clone_opt(b),
    }
}

/// How the model is reached. What the command line says comes first. Where it
/// gives no key, the rest comes from the provider that the configuration names,
/// if it names one; else from what the configuration says of the model itself.
pub fn resolve_model(
    args: &ModelArgs,
    llm: &LlmConfig,
    providers: &Table<ProviderConfig>,
    default_model: &str,
) -> (r: Result<ModelAccess, StartError>)
    ensures
        match (args.api_key, llm.provider) {
            (None, Some(name)) => if !providers@.contains_key(name@) {
                r matches Err(StartError::UnknownProvider(n)) && n@ == name@
            } else {
                let p = providers@[name@];
                match p.api_key {
                    None => r matches Err(StartError::ProviderWithoutKey(n)) && n@ == name@,
                    Some(k) => r matches Ok(m) && access(m) == (
                        k@,
                        or_else(args.api_base, p.endpoint@),
                        or_else(args.model, or_else(p.model, name@)),
                        thinking_of(
                            p.thinking_enabled,
                            p.thinking_effort@,
                            p.thinking_budget_tokens,
                        ),
                    ),
                }
            },
            _ => if args.api_key is None && llm.api_key is None {
                r matches Err(StartError::NoKey)
            } else {
                r matches Ok(m) && access(m) == (
                    or_else(args.api_key, or_else(llm.api_key, Seq::empty())),
                    or_else(args.api_base, or_else(llm.api_base, "https://api.openai.com/v1"@)),
                    or_else(args.model, or_else(llm.model, default_model@)),
                    thinking_of(
                        llm.thinking_enabled,
                        llm.thinking_effort@,
                        llm.thinking_budget_tokens,
                    ),
                )
            },
        },
{
    let named = match (&args.api_key, &llm.provider) {
        (None, Some(name)) => Some(name),
        _ => None,
    };
    match named {
        Some(name) => match providers.get(name.as_str()) {
            None => Err(StartError::UnknownProvider(name.clone())),
            Some(p) => match &p.api_key {
                None => Err(StartError::ProviderWithoutKey(name.clone())),
                Some(k) => Ok(
                    ModelAccess {
                        api_key: k.clone(),
                        api_base: match &args.api_base {
                            Some(b) => b.clone(),
                            None => p.endpoint.clone(),
                        },
                        model: match pick(&args.model, &p.model) {
                            Some(m) => m,
                            None => name.clone(),
                        },
                        thinking: thinking(
                            p.thinking_enabled,
                            &p.thinking_effort,
                            p.thinking_budget_tokens,
                        ),
                    },
                ),
            },
        },
        None => match pick(&args.api_key, &llm.api_key) {
            None => Err(StartError::NoKey),
            Some(api_key) => Ok(
                ModelAccess {
                    api_key,
                    api_base: match pick(&args.api_base, &llm.api_base) {
                        Some(b) => b,
                        None => "https://api.openai.com/v1".to_owned(),
                    },
                    model: match pick(&args.model, &llm.model) {
                        Some(m) => m,
                        None => default_model.to_owned(),
                    },
                    thinking: thinking(
                        llm.thinking_enabled,
                        &llm.thinking_effort,
                        llm.thinking_budget_tokens,
                    ),
                },
            ),
        },
    }
}

/// What the user is told where the program does not start; `available` lists
/// the providers that are configured.
pub open spec fn start_error_text(e: StartError, available: Seq<char>) -> Seq<char> {
    match e {
        StartError::UnknownProvider(name) => "Error: llm.provider = \""@ + name@
            + "\" not found in [providers] section.\nAvailable providers: "@ + available,
        StartError::ProviderWithoutKey(name) => "Error: providers."@ + name@
            + ".api_key is required."@,
        StartError::NoKey =>
            "Error: API key required.\nSet llm.provider (recommended), llm.api_key, --api-key flag, or OPENAI_API_KEY env var."@,
        StartError::NoClientId =>
            "Error: DingTalk client_id required.\nSet in config.yaml (dingtalk.client_id)."@,
        StartError::NoClientSecret =>
            "Error: DingTalk client_secret required.\nSet in config.yaml (dingtalk.client_secret)."@,
    }
}

/// What the user is told where the program does not start.
pub fn describe_start_error(e: &StartError, available: &str) -> (r: String)
    ensures
        r@ == start_error_text(*e, available@),
{
    match e {
        StartError::UnknownProvider(name) => {
            let mut r = "Error: llm.provider = \"".to_owned();
            r.push_str(name.as_str());
            r.push_str("\" not found in [providers] section.\nAvailable providers: ");
            r.push_str(available);
            r
        },
        StartError::ProviderWithoutKey(name) => {
            let mut r = "Error: providers.".to_owned();
            r.push_str(name.as_str());
            r.push_str(".api_key is required.");
            r
        },
        StartError::NoKey =>
            "Error: API key required.\nSet llm.provider (recommended), llm.api_key, --api-key flag, or OPENAI_API_KEY env var.".to_owned(),
        StartError::NoClientId =>
            "Error: DingTalk client_id required.\nSet in config.yaml (dingtalk.client_id).".to_owned(),
        StartError::NoClientSecret =>
            "Error: DingTalk client_secret required.\nSet in config.yaml (dingtalk.client_secret).".to_owned(),
    }
}

/// How many rounds the agent has and how large its window is: as the command
/// line says, else as the configuration does.
pub fn resolve_limits(
    max_iterations: Option<usize>,
    context_window_tokens: Option<usize>,
    llm: &LlmConfig,
) -> (r: (usize, Option<usize>))
    ensures
        r.0 == (match max_iterations {
            Some(n) => n,
            None => llm.max_iterations,
        }),
        r.1 == (match context_window_tokens {
            Some(n) => Some(n),
            None => llm.context_window_tokens,
        }),
{
    let n: usize = match max_iterations {
        Some(n) => n,
        None => llm.max_iterations,
    };
    let window = match context_window_tokens {
        Some(n) => Some(n),
        None => llm.context_window_tokens,
    };
    (n, window)
}

/// Adds the providers of the whole program to those of the subtasks; where
/// both have one under a name, that of the subtasks stays.
pub fn merge_providers(shared: Table<ProviderConfig>, subtasks: &mut SubtasksConfig)
    ensures
        final(subtasks).providers@ == shared@.union_prefer_right(old(subtasks).providers@),
        *final(subtasks) == (SubtasksConfig {
            providers: final(subtasks).providers,
            ..*old(subtasks)
        }),
{
    let mut shared = shared;
    let ghost all = shared@;
    let ghost own = subtasks.providers@;
    let ghost before = *subtasks;
    let keys = shared.keys();
    let ghost names = text::texts(keys@);
    let mut i: usize = 0;
    proof {
        assert(own =~= all.restrict(names.take(0).to_set()).union_prefer_right(own));
        assert forall|j: int| 0 <= j < names.len() implies shared@.contains_key(
            #[trigger] names[j],
        ) by {
            assert(names.contains(names[j]));
        }
    }
    while i < keys.len()
        invariant
            0 <= i <= keys@.len(),
            names == text::texts(keys@),
            names.no_duplicates(),
            forall|k: Seq<char>| #[trigger] names.contains(k) <==> all.contains_key(k),
            forall|j: int|
                i <= j < names.len() ==> shared@.contains_key(#[trigger] names[j])
                    && shared@[names[j]] == all[names[j]],
            subtasks.providers@ == all.restrict(names.take(i as int).to_set()).union_prefer_right(
                own,
            ),
            *subtasks == (SubtasksConfig { providers: subtasks.providers, ..before }),
        decreases keys@.len() - i,
    {
        let ghost name = names[i as int];
        let ghost held = subtasks.providers@;
        proof {
            assert(names.contains(name));
            assert(names.take(i + 1) =~= names.take(i as int).push(name));
            assert forall|k: Seq<char>| #[trigger]
                names.take(i + 1).contains(k) <==> names.take(i as int).contains(k) || k == name by {
                seqs::lemma_push_contains(names.take(i as int), name, k);
            }
            if names.take(i as int).contains(name) {
                let j = choose|j: int| 0 <= j < i && names.take(i as int)[j] == name;
                assert(names[j] == names[i as int]);
            }
        }
        let taken = shared.remove(keys[i].as_str());
        let known = subtasks.providers.get(keys[i].as_str()).is_some();
        if let Some(p) = taken {
            if !known {
                subtasks.providers.insert(keys[i].clone(), p);
            }
        }
        proof {
            assert(subtasks.providers@ =~= all.restrict(
                names.take(i + 1).to_set(),
            ).union_prefer_right(own));
        }
        i += 1;
    }
    proof {
        assert(names.take(i as int) =~= names);
        assert(all.restrict(names.to_set()) =~= all);
    }
}

// ---------------------------------------------------------------------------
// Where logs go
// ---------------------------------------------------------------------------

/// Where the log is: where the configuration says, or under a name in the
/// directory for logs.
pub open spec fn log_path(workspace: Seq<char>, file: Option<String>, name: Seq<char>) -> Seq<
    char,
> {
    match file {
        Some(f) => workspace::below(workspace, f@),
        None => workspace::below(workspace::below(workspace, "logs"@), name),
    }
}

/// The directory and the name of the log.
pub fn log_place(workspace: &str, logging: &LoggingConfig, default_name: &str) -> (r: (
    String,
    String,
))
    ensures
        ({
            let path = log_path(workspace@, logging.file, default_name@);
            &&& r.0@ == (match sections::parent_path(path) {
                Some(d) => d,
                None => workspace::below(workspace@, "logs"@),
            })
            &&& r.1@ == (match handler::base_name(path) {
                Some(n) => n,
                None => default_name@,
            })
        }),
{
    let logs = join_path(workspace, "logs");
    let path = match &logging.file {
        Some(f) => join_path(workspace, f.as_str()),
        None => join_path(logs.as_str(), default_name),
    };
    let dir = match parent_of(path.as_str()) {
        Some(d) => d,
        None => logs,
    };
    let name = match file_name_of(path.as_str()) {
        Some(n) => n,
        None => default_name.to_owned(),
    };
    (dir, name)
}

/// What is logged: as the configuration says, in small letters.
pub fn log_level(logging: &LoggingConfig) -> (r: String)
    ensures
        r@ == (if text::trim(logging.level@).len() == 0 {
            "info"@
        } else {
            text::lowercased(logging.level@)
        }),
{
    if is_blank(logging.level.as_str()) {
        "info".to_owned()
    } else {
        logging.level.as_str().to_lowercase()
    }
}

// ---------------------------------------------------------------------------
// What is shown of the configuration
// ---------------------------------------------------------------------------

/// How the bot is set up.
#[derive(Debug)]
pub struct DingTalkConfig {
    pub client_id: Option<String>,
    pub client_secret: Option<String>,
    /// The gateway through which messages come; without one they come straight
    /// from DingTalk.
    pub gateway_url: Option<String>,
    /// The template of cards; without one there are none.
    pub card_template_id: Option<String>,
}

/// What is shown of a secret that may be missing.
pub open spec fn shown_secret(s: Option<String>) -> Seq<char> {
    match s {
        Some(t) => config::masked(t@),
        None => "<empty>"@,
    }
}

/// A truth value as text.
pub open spec fn truth(b: bool) -> Seq<char> {
    if b {
        "true"@
    } else {
        "false"@
    }
}

/// What is shown of the model and of where things are.
pub open spec fn head_lines(
    config_path: Seq<char>,
    mode: Seq<char>,
    workspace: Seq<char>,
    m: (Seq<char>, Seq<char>, Seq<char>),
    max_iterations: nat,
    window: Option<usize>,
    snapshot: bool,
    logging: LoggingConfig,
) -> Seq<Seq<char>> {
    seq![
        "=== TyClaw.rs Effective Config ==="@,
        "mode: "@ + mode,
        "workspace: "@ + workspace,
        "config_file: "@ + config_path,
        "llm.model: "@ + m.2,
        "llm.api_base: "@ + m.1,
        "llm.api_key: "@ + config::masked(m.0),
        "llm.max_iterations: "@ + text::dec(max_iterations),
        "llm.context_window_tokens: "@ + (match window {
            Some(n) => text::dec(n as nat),
            None => "<default>"@,
        }),
        "llm.snapshot: "@ + truth(snapshot),
        "logging.level: "@ + (if text::trim(logging.level@).len() == 0 {
            "info"@
        } else {
            logging.level@
        }),
        "logging.file: "@ + or_else(logging.file, "<workspace>/logs/tyclaw.log"@),
    ]
}

/// Texts in their order.
pub open spec fn in_order(names: Seq<Seq<char>>) -> Seq<Seq<char>> {
    order::sorted(
        Seq::new(names.len(), |i: int| (names[i], Seq::<char>::empty())),
    ).map_values(|p: (Seq<char>, Seq<char>)| p.0)
}

/// What is shown of the workspaces that are configured.
pub open spec fn workspace_lines(ids: Seq<Seq<char>>) -> Seq<Seq<char>> {
    seq!["workspaces.count: "@ + text::dec(ids.len())] + (if ids.len() > 0 {
        seq!["workspaces.ids: "@ + text::join(in_order(ids), ", "@)]
    } else {
        Seq::empty()
    })
}

/// What is shown of the bot, where there is one.
pub open spec fn dingtalk_lines(mode: Seq<char>, d: DingTalkConfig) -> Seq<Seq<char>> {
    if mode == "dingtalk"@ {
        seq![
            "dingtalk.client_id: "@ + shown_secret(d.client_id),
            "dingtalk.client_secret: "@ + shown_secret(d.client_secret),
            "dingtalk.gateway_url: "@ + or_else(d.gateway_url, "<none, direct stream>"@),
        ]
    } else {
        Seq::empty()
    }
}

/// What is shown of a provider.
pub open spec fn provider_line(name: Seq<char>, p: ProviderConfig) -> Seq<char> {
    "  "@ + name + ": endpoint="@ + p.endpoint@ + ", model="@ + or_else(p.model, name)
}

/// What is shown of providers, in the order of `names`.
pub open spec fn provider_lines(
    names: Seq<Seq<char>>,
    providers: Map<Seq<char>, ProviderConfig>,
) -> Seq<Seq<char>> {
    Seq::new(names.len(), |i: int| provider_line(names[i], providers[names[i]]))
}

/// What a failure does to the rest of a plan, as text.
pub open spec fn policy_name(p: FailurePolicy) -> Seq<char> {
    match p {
        FailurePolicy::FailFast => "FailFast"@,
        FailurePolicy::BestEffort => "BestEffort"@,
    }
}

/// What is shown of the subtasks, with the providers in the order of `names`.
pub open spec fn subtasks_lines(s: SubtasksConfig, names: Seq<Seq<char>>) -> Seq<Seq<char>> {
    seq!["subtasks.enabled: "@ + truth(s.enabled)] + (if s.enabled {
        seq![
            "subtasks.planner_model: "@ + or_else(s.planner_model, "<default>"@),
            "subtasks.max_concurrency: "@ + text::dec(s.max_concurrency as nat),
            "subtasks.failure_policy: "@ + policy_name(s.failure_policy),
            "subtasks.routing_rules: "@ + text::dec(s.routing_rules@.len()),
            "subtasks.providers: "@ + text::dec(s.providers@.dom().len()),
        ] + provider_lines(names, s.providers@)
    } else {
        Seq::empty()
    })
}

/// Whether a list names the keys of a table, each once.
pub open spec fn lists<V>(names: Seq<Seq<char>>, table: Map<Seq<char>, V>) -> bool {
    names.no_duplicates() && forall|k: Seq<char>| #[trigger]
        names.contains(k) <==> table.contains_key(k)
}

fn line(out: &mut Vec<String>, label: &str, value: &str)
    ensures
        text::texts(final(out)@) == text::texts(old(out)@).push(label@ + value@),
{
    let mut s = label.to_owned();
    s.push_str(value);
    out.push(s);
    proof {
        assert(text::texts(out@) =~= text::texts(old(out)@).push(label@ + value@));
    }
}

fn truth_text(b: bool) -> (r: &'static str)
    ensures
        r@ == truth(b),
{
    if b {
        "true"
    } else {
        "false"
    }
}

fn text_or(a: &Option<String>, b: &str) -> (r: String)
    ensures
        r@ == or_else(*a, b@),
{
    match a {
        Some(s) => s.clone(),
        None => b.to_owned(),
    }
}

fn show_secret(s: &Option<String>) -> (r: String)
    ensures
        r@ == shown_secret(*s),
{
    match s {
        Some(t) => mask_secret(t.as_str()),
        None => "<empty>".to_owned(),
    }
}

/// Texts in their order.
fn sort_texts(names: &Vec<String>) -> (r: Vec<String>)
    ensures
        text::texts(r@) == in_order(text::texts(names@)),
{
    let mut pairs: Vec<(String, String)> = Vec::new();
    let mut i: usize = 0;
    proof {
        text::lemma_empty_literal();
    }
    while i < names.len()
        invariant
            0 <= i <= names@.len(),
            pairs@.len() == i,
            forall|k: int|
                0 <= k < i ==> (#[trigger] pairs@[k]).0@ == names@[k]@ && pairs@[k].1@
                    == Seq::<char>::empty(),
        decreases names@.len() - i,
    {
        pairs.push((names[i].clone(), String::new()));
        i += 1;
    }
    let ghost given = Seq::new(
        text::texts(names@).len(),
        |i: int| (text::texts(names@)[i], Seq::<char>::empty()),
    );
    proof {
        assert(order::keyed(pairs@) =~= given);
    }
    let sorted = sort_pairs(&pairs);
    let mut out: Vec<String> = Vec::new();
    let mut j: usize = 0;
    while j < sorted.len()
        invariant
            0 <= j <= sorted@.len(),
            out@.len() == j,
            forall|k: int| 0 <= k < j ==> (#[trigger] out@[k])@ == sorted@[k].0@,
        decreases sorted@.len() - j,
    {
        out.push(sorted[j].0.clone());
        j += 1;
    }
    proof {
        assert(text::texts(out@) =~= order::keyed(sorted@).map_values(
            |p: (Seq<char>, Seq<char>)| p.0,
        ));
        assert(order::keyed(sorted@) == order::sorted(given));
    }
    out
}

/// What is shown of the providers, and the order in which they stand.
fn show_providers(out: &mut Vec<String>, providers: &Table<ProviderConfig>) -> (r: Vec<String>)
    ensures
        lists(text::texts(r@), providers@),
        text::texts(final(out)@) == text::texts(old(out)@) + provider_lines(
            text::texts(r@),
            providers@,
        ),
{
    let names = providers.keys();
    let ghost n = text::texts(names@);
    let ghost before = text::texts(out@);
    let mut i: usize = 0;
    proof {
        assert(provider_lines(n, providers@).take(0) =~= Seq::empty());
        assert(before + provider_lines(n, providers@).take(0) =~= before);
    }
    while i < names.len()
        invariant
            0 <= i <= names@.len(),
            n == text::texts(names@),
            lists(n, providers@),
            text::texts(out@) == before + provider_lines(n, providers@).take(i as int),
        decreases names@.len() - i,
    {
        proof {
            assert(n.contains(n[i as int]));
        }
        let name = names[i].as_str();
        if let Some(p) = providers.get(name) {
            let mut rest = name.to_owned();
            rest.push_str(": endpoint=");
            rest.push_str(p.endpoint.as_str());
            rest.push_str(", model=");
            let model = text_or(&p.model, name);
            rest.push_str(model.as_str());
            line(out, "  ", rest.as_str());
            proof {
                let all = provider_lines(n, providers@);
                assert("  "@ + rest@ =~= provider_line(n[i as int], *p));
                assert(all.take(i + 1) =~= all.take(i as int).push(all[i as int]));
                assert(before + all.take(i + 1) =~= (before + all.take(i as int)).push(
                    all[i as int],
                ));
            }
        }
        i += 1;
    }
    proof {
        assert(provider_lines(n, providers@).take(i as int) =~= provider_lines(n, providers@));
    }
    names
}

/// What is shown of the model and of where things are.
fn show_head(
    config_path: &str,
    mode: &str,
    workspace: &str,
    model: &ModelAccess,
    max_iterations: usize,
    context_window_tokens: Option<usize>,
    snapshot: bool,
    logging: &LoggingConfig,
) -> (r: Vec<String>)
    ensures
        text::texts(r@) == head_lines(
            config_path@,
            mode@,
            workspace@,
            (model.api_key@, model.api_base@, model.model@),
            max_iterations as nat,
            context_window_tokens,
            snapshot,
            *logging,
        ),
{
    let mut out: Vec<String> = Vec::new();
    out.push("=== TyClaw.rs Effective Config ===".to_owned());
    line(&mut out, "mode: ", mode);
    line(&mut out, "workspace: ", workspace);
    line(&mut out, "config_file: ", config_path);
    line(&mut out, "llm.model: ", model.model.as_str());
    line(&mut out, "llm.api_base: ", model.api_base.as_str());
    let key = mask_secret(model.api_key.as_str());
    line(&mut out, "llm.api_key: ", key.as_str());
    let rounds = decimal_usize(max_iterations);
    line(&mut out, "llm.max_iterations: ", rounds.as_str());
    let window = match context_window_tokens {
        Some(n) => decimal_usize(n),
        None => "<default>".to_owned(),
    };
    line(&mut out, "llm.context_window_tokens: ", window.as_str());
    line(&mut out, "llm.snapshot: ", truth_text(snapshot));
    let level = if is_blank(logging.level.as_str()) {
        "info"
    } else {
        logging.level.as_str()
    };
    line(&mut out, "logging.level: ", level);
    let file = text_or(&logging.file, "<workspace>/logs/tyclaw.log");
    line(&mut out, "logging.file: ", file.as_str());
    proof {
        assert(text::texts(out@) =~= head_lines(
            config_path@,
            mode@,
            workspace@,
            (model.api_key@, model.api_base@, model.model@),
            max_iterations as nat,
            context_window_tokens,
            snapshot,
            *logging,
        ));
    }
    out
}

/// What is shown of the workspaces that are configured.
fn show_workspaces(out: &mut Vec<String>, ids: &Vec<String>)
    ensures
        text::texts(final(out)@) == text::texts(old(out)@) + workspace_lines(text::texts(ids@)),
{
    let count = decimal_usize(ids.len());
    line(out, "workspaces.count: ", count.as_str());
    if ids.len() > 0 {
        let sorted = sort_texts(ids);
        let all = str_join(&sorted, ", ");
        line(out, "workspaces.ids: ", all.as_str());
    }
    proof {
        assert(text::texts(out@) =~= text::texts(old(out)@) + workspace_lines(text::texts(ids@)));
    }
}

/// What is shown of the bot, where there is one.
fn show_dingtalk(out: &mut Vec<String>, mode: &str, d: &DingTalkConfig)
    ensures
        text::texts(final(out)@) == text::texts(old(out)@) + dingtalk_lines(mode@, *d),
{
    if str_eq(mode, "dingtalk") {
        let id = show_secret(&d.client_id);
        line(out, "dingtalk.client_id: ", id.as_str());
        let secret = show_secret(&d.client_secret);
        line(out, "dingtalk.client_secret: ", secret.as_str());
        let gateway = text_or(&d.gateway_url, "<none, direct stream>");
        line(out, "dingtalk.gateway_url: ", gateway.as_str());
    }
    proof {
        assert(text::texts(out@) =~= text::texts(old(out)@) + dingtalk_lines(mode@, *d));
    }
}

/// What is shown of the subtasks, and the order in which the providers stand.
fn show_subtasks(out: &mut Vec<String>, s: &SubtasksConfig) -> (r: Vec<String>)
    ensures
        lists(text::texts(r@), s.providers@),
        text::texts(final(out)@) == text::texts(old(out)@) + subtasks_lines(
            *s,
            text::texts(r@),
        ),
{
    line(out, "subtasks.enabled: ", truth_text(s.enabled));
    let names = if s.enabled {
        let planner = text_or(&s.planner_model, "<default>");
        line(out, "subtasks.planner_model: ", planner.as_str());
        let concurrency = decimal_usize(s.max_concurrency);
        line(out, "subtasks.max_concurrency: ", concurrency.as_str());
        let policy = match s.failure_policy {
            FailurePolicy::FailFast => "FailFast",
            FailurePolicy::BestEffort => "BestEffort",
        };
        line(out, "subtasks.failure_policy: ", policy);
        let rules = decimal_usize(s.routing_rules.len());
        line(out, "subtasks.routing_rules: ", rules.as_str());
        let n = decimal_usize(s.providers.len());
        line(out, "subtasks.providers: ", n.as_str());
        show_providers(out, &s.providers)
    } else {
        s.providers.keys()
    };
    proof {
        assert(text::texts(out@) =~= text::texts(old(out)@) + subtasks_lines(
            *s,
            text::texts(names@),
        ));
    }
    names
}

/// What is shown of the configuration. The order of the providers is left
/// open.
pub fn format_effective_config(
    config_path: &str,
    mode: &str,
    workspace: &str,
    model: &ModelAccess,
    max_iterations: usize,
    context_window_tokens: Option<usize>,
    snapshot: bool,
    logging: &LoggingConfig,
    dingtalk: &DingTalkConfig,
    workspaces: &Vec<String>,
    subtasks: &SubtasksConfig,
) -> (r: Vec<String>)
    ensures
        exists|names: Seq<Seq<char>>| #[trigger]
            lists(names, subtasks.providers@) && text::texts(r@) == head_lines(
                config_path@,
                mode@,
                workspace@,
                (model.api_key@, model.api_base@, model.model@),
                max_iterations as nat,
                context_window_tokens,
                snapshot,
                *logging,
            ) + workspace_lines(text::texts(workspaces@)) + dingtalk_lines(mode@, *dingtalk)
                + subtasks_lines(*subtasks, names) + seq!["==============================="@],
{
    let mut out = show_head(
        config_path,
        mode,
        workspace,
        model,
        max_iterations,
        context_window_tokens,
        snapshot,
        logging,
    );
    show_workspaces(&mut out, workspaces);
    show_dingtalk(&mut out, mode, dingtalk);
    let names = show_subtasks(&mut out, subtasks);
    let ghost before = text::texts(out@);
    out.push("===============================".to_owned());
    proof {
        assert(lists(text::texts(names@), subtasks.providers@));
        assert(text::texts(out@) =~= before + seq!["==============================="@]);
    }
    out
}

/// What the small client shows of its configuration.
pub fn print_config(config_path: &str, workspace: &str, model: &ModelAccess, max_iterations: usize) -> (r: (
    String,
    String,
))
    ensures
        r.0@ == outbound::faint(
            "[config] "@ + config_path@ + " | model="@ + model.model@ + " | api_base="@
                + model.api_base@ + " | key="@ + config::masked(model.api_key@) + " | max_iter="@
                + text::dec(max_iterations as nat),
        ),
        r.1@ == outbound::faint("[workspace] "@ + workspace@),
{
    let mut a = "\x1b[2m".to_owned();
    let mut s = "[config] ".to_owned();
    s.push_str(config_path);
    s.push_str(" | model=");
    s.push_str(model.model.as_str());
    s.push_str(" | api_base=");
    s.push_str(model.api_base.as_str());
    s.push_str(" | key=");
    let key = mask_secret(model.api_key.as_str());
    s.push_str(key.as_str());
    s.push_str(" | max_iter=");
    let n = decimal_usize(max_iterations);
    s.push_str(n.as_str());
    a.push_str(s.as_str());
    a.push_str("\x1b[0m");
    let mut b = "\x1b[2m".to_owned();
    let mut w = "[workspace] ".to_owned();
    w.push_str(workspace);
    b.push_str(w.as_str());
    b.push_str("\x1b[0m");
    (a, b)
}

// ---------------------------------------------------------------------------
// The bot
// ---------------------------------------------------------------------------

/// How messages come from DingTalk.
#[derive(Debug)]
pub enum MessageSource {
    /// Through a gateway, at this address.
    Gateway(String),
    /// Straight from DingTalk.
    Direct,
}

/// How the bot runs.
#[derive(Debug)]
pub struct BotSetup {
    pub client_id: String,
    pub client_secret: String,
    pub source: MessageSource,
    pub card_template_id: Option<String>,
}

/// How the bot runs; it needs an id and a secret.
pub fn bot_setup(d: DingTalkConfig) -> (r: Result<BotSetup, StartError>)
    ensures
        match (d.client_id, d.client_secret) {
            (None, _) => r matches Err(StartError::NoClientId),
            (Some(_), None) => r matches Err(StartError::NoClientSecret),
            (Some(i), Some(s)) => r matches Ok(b) && b.client_id == i && b.client_secret == s
                && b.card_template_id == d.card_template_id && b.source == (match d.gateway_url {
                Some(u) => MessageSource::Gateway(u),
                None => MessageSource::Direct,
            }),
        },
{
    let client_id = match d.client_id {
        Some(i) => i,
        None => {
            return Err(StartError::NoClientId);
        },
    };
    let client_secret = match d.client_secret {
        Some(s) => s,
        None => {
            return Err(StartError::NoClientSecret);
        },
    };
    let source = match d.gateway_url {
        Some(u) => MessageSource::Gateway(u),
        None => MessageSource::Direct,
    };
    Ok(BotSetup { client_id, client_secret, source, card_template_id: d.card_template_id })
}

// ---------------------------------------------------------------------------
// Timers
// ---------------------------------------------------------------------------

/// What a timer was set for.
#[derive(Debug)]
pub struct TimerJob {
    pub name: String,
    pub message: String,
    pub user_id: String,
    pub workspace_id: Option<String>,
    pub channel: Option<String>,
    pub chat_id: Option<String>,
    pub conversation_id: Option<String>,
}

/// The message that a timer sends when its time has come.
pub fn timer_message(job: TimerJob) -> (r: InboundMessage)
    ensures
        r.content@ == "[Scheduled Task: "@ + job.name@ + "] "@ + job.message@,
        r.user_id == job.user_id,
        r.user_name@ == "timer"@,
        r.emotion_context is None,
        r.workspace_id@ == or_else(job.workspace_id, "default"@),
        r.channel@ == or_else(job.channel, "cli"@),
        r.chat_id@ == or_else(job.chat_id, "direct"@),
        r.conversation_id == job.conversation_id,
        r.images@.len() == 0,
        r.files@.len() == 0,
        !r.awaits_reply,
        r.is_timer,
{
    let mut content = "[Scheduled Task: ".to_owned();
    content.push_str(job.name.as_str());
    content.push_str("] ");
    content.push_str(job.message.as_str());
    InboundMessage {
        content,
        user_id: job.user_id,
        user_name: "timer".to_owned(),
        workspace_id: text_or(&job.workspace_id, "default"),
        channel: text_or(&job.channel, "cli"),
        chat_id: text_or(&job.chat_id, "direct"),
        conversation_id: job.conversation_id,
        images: Vec::new(),
        files: Vec::new(),
        awaits_reply: false,
        is_timer: true,
        emotion_context: None,
    }
}

/// What is printed of a note of progress by the small client.
pub fn client_progress(msg: &str) -> (r: String)
    ensures
        r@ == (if text::starts_with(msg@, "[Thinking]\n"@) {
            outbound::faint("[Thinking] "@ + msg@.skip("[Thinking]\n"@.len() as int))
        } else {
            outbound::faint(msg@)
        }),
{
    let (is_thinking, content) = parse_thinking_prefix(msg);
    let mut r = "\x1b[2m".to_owned();
    let mut s = String::new();
    if is_thinking {
        s.push_str("[Thinking] ");
    }
    s.push_str(content);
    r.push_str(s.as_str());
    r.push_str("\x1b[0m");
    proof {
        text::lemma_empty_literal();
        assert(s@ =~= if is_thinking {
            "[Thinking] "@ + content@
        } else {
            content@
        });
    }
    r
}

/// What is shown of the configuration names the mode, the workspace, the model
/// and its address as they are, and the key only masked.
pub proof fn law_configuration_is_shown(
    config_path: Seq<char>,
    mode: Seq<char>,
    workspace: Seq<char>,
    m: (Seq<char>, Seq<char>, Seq<char>),
    max_iterations: nat,
    window: Option<usize>,
    snapshot: bool,
    logging: LoggingConfig,
)
    ensures
        ({
            let l = head_lines(
                config_path,
                mode,
                workspace,
                m,
                max_iterations,
                window,
                snapshot,
                logging,
            );
            &&& l.len() == 12
            &&& text::ends_with(l[1], mode)
            &&& text::ends_with(l[2], workspace)
            &&& text::ends_with(l[3], config_path)
            &&& text::ends_with(l[4], m.2)
            &&& text::ends_with(l[5], m.1)
            &&& text::ends_with(l[6], config::masked(m.0))
            &&& text::ends_with(l[7], text::dec(max_iterations))
        }),
{
    lemma_shown_at_the_end("mode: "@, mode);
    lemma_shown_at_the_end("workspace: "@, workspace);
    lemma_shown_at_the_end("config_file: "@, config_path);
    lemma_shown_at_the_end("llm.model: "@, m.2);
    lemma_shown_at_the_end("llm.api_base: "@, m.1);
    lemma_shown_at_the_end("llm.api_key: "@, config::masked(m.0));
    lemma_shown_at_the_end("llm.max_iterations: "@, text::dec(max_iterations));
}

proof fn lemma_shown_at_the_end(label: Seq<char>, value: Seq<char>)
    ensures
        text::ends_with(label + value, value),
{
    let s = label + value;
    assert(s.subrange(s.len() - value.len(), s.len() as int) =~= value);
}

/// Every provider is shown with its name, its address and its model, and every
/// workspace is counted and named.
pub proof fn law_providers_are_shown(
    names: Seq<Seq<char>>,
    providers: Map<Seq<char>, ProviderConfig>,
    i: int,
)
    requires
        0 <= i < names.len(),
    ensures
        provider_lines(names, providers).len() == names.len(),
        text::contains(provider_lines(names, providers)[i], names[i]),
        text::contains(provider_lines(names, providers)[i], providers[names[i]].endpoint@),
        text::ends_with(
            provider_lines(names, providers)[i],
            match providers[names[i]].model {
                Some(m) => m@,
                None => names[i],
            },
        ),
        workspace_lines(names).len() == 2,
        text::ends_with(workspace_lines(names)[0], text::dec(names.len())),
{
    let p = providers[names[i]];
    let l = provider_lines(names, providers)[i];
    let m = or_else(p.model, names[i]);
    assert(text::contains(l, names[i])) by {
        let b = l.skip(("  "@.len() + names[i].len()) as int);
        assert(l =~= "  "@ + names[i] + b);
        text::lemma_contains_part("  "@, names[i], b);
    }
    assert(text::contains(l, p.endpoint@)) by {
        let a = "  "@ + names[i] + ": endpoint="@;
        let b = ", model="@ + m;
        assert(l =~= a + p.endpoint@ + b);
        text::lemma_contains_part(a, p.endpoint@, b);
    }
    assert(l.subrange(l.len() - m.len(), l.len() as int) =~= m);
    lemma_shown_at_the_end("workspaces.count: "@, text::dec(names.len()));
}

/// What the user is told where a provider is missing names the provider and
/// those that there are.
pub proof fn law_missing_provider_is_named(name: String, available: Seq<char>)
    ensures
        text::contains(start_error_text(StartError::UnknownProvider(name), available), name@),
        text::ends_with(start_error_text(StartError::UnknownProvider(name), available), available),
        text::contains(start_error_text(StartError::ProviderWithoutKey(name), available), name@),
{
    let t = start_error_text(StartError::UnknownProvider(name), available);
    let a = "Error: llm.provider = \""@;
    let b = t.skip((a.len() + name@.len()) as int);
    assert(t =~= a + name@ + b);
    text::lemma_contains_part(a, name@, b);
    assert(t.subrange(t.len() - available.len(), t.len() as int) =~= available);
    text::lemma_contains_part("Error: providers."@, name@, ".api_key is required."@);
}

} // verus!

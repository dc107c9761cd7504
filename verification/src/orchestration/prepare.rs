//! What the agent is told before it works on a request.

use crate::control::workspace::PathConfig;
use crate::message;
use crate::message::{Content, ContentBlockView, ContentView, Message, MessageView};
use crate::orchestration::helpers;
use crate::orchestration::helpers::{
    compute_context_budget_plan, first_turn_budget, history_budget, optimize_similar_cases,
};
use crate::orchestration::history;
use crate::orchestration::history::{
    dedupe_history, enforce_tool_call_pairing, trim_history_by_token_budget,
};
use crate::orchestration::memory_filter;
use crate::orchestration::memory_filter::filter_memory_by_relevance;
use crate::orchestration::session_manager::{Session, SessionView};
use crate::orchestration::types::{ContextBudgetPlan, RequestContext};
use crate::prompt::context;
use crate::prompt::context::{ContextBuilder, PromptInputs, PromptMode, PromptSources};
use crate::prompt::sections::SkillContent;
use crate::table::TextTable;
use crate::text;
use crate::text::{chars_of, clone_texts, str_eq, str_join, str_starts_with, string_of};
use vstd::prelude::*;

verus! {

// ---------------------------------------------------------------------------
// Skills and capabilities
// ---------------------------------------------------------------------------

/// A skill as it was found.
#[derive(Debug)]
pub struct SkillMeta {
    pub key: String,
    pub name: String,
    pub description: String,
    pub content: String,
    pub category: String,
    /// `builtin` where the skill is shared.
    pub status: String,
    pub triggers: Vec<String>,
    /// The program of the skill, below its directory.
    pub tool: Option<String>,
    /// The directory of the skill.
    pub skill_dir: String,
    /// The program of the skill, outside of a container.
    pub host_tool_path: Option<String>,
    pub risk_level: String,
    pub requires_capabilities: Vec<String>,
}

/// Where the part of a path that starts at `i` ends.
pub open spec fn part_end(s: Seq<char>, i: int) -> int
    decreases s.len() - i,
{
    if 0 <= i < s.len() && s[i] != '/' {
        part_end(s, i + 1)
    } else {
        i
    }
}

/// Whether what stands from `i` to `j` counts as a part of a path: it is not
/// empty, and it is `.` at the front alone.
pub open spec fn is_part(s: Seq<char>, i: int, j: int) -> bool {
    i < j && !(j == i + 1 && s[i] == '.' && i > 0)
}

/// Where the parts of a path from `i` on start and end.
pub open spec fn parts_from(s: Seq<char>, i: int) -> Seq<(int, int)>
    decreases s.len() + 1 - i,
{
    if i < 0 || i >= s.len() {
        Seq::empty()
    } else {
        proof {
            lemma_part_end(s, i);
        }
        let j = part_end(s, i);
        (if is_part(s, i, j) {
            seq![(i, j)]
        } else {
            Seq::empty()
        }) + parts_from(s, j + 1)
    }
}

/// A part ends within its path.
pub proof fn lemma_part_end(s: Seq<char>, i: int)
    requires
        0 <= i <= s.len(),
    ensures
        i <= part_end(s, i) <= s.len(),
    decreases s.len() - i,
{
    if i < s.len() && s[i] != '/' {
        lemma_part_end(s, i + 1);
    }
}

/// Where the parts of a path start and end. The root is the first part of a
/// path that starts with it.
pub open spec fn path_parts(s: Seq<char>) -> Seq<(int, int)> {
    (if s.len() > 0 && s[0] == '/' {
        seq![(0int, 1int)]
    } else {
        Seq::empty()
    }) + parts_from(s, 0)
}

/// Whether the first parts of a path are those of a directory.
pub open spec fn lies_in(dir: Seq<char>, path: Seq<char>) -> bool {
    let d = path_parts(dir);
    let p = path_parts(path);
    d.len() <= p.len() && forall|k: int|
        0 <= k < d.len() ==> dir.subrange((#[trigger] d[k]).0, d[k].1) == path.subrange(
            p[k].0,
            p[k].1,
        )
}

/// What stands below a directory on the way to a path, where the path lies in
/// it: from the first part that is not of the directory to the last one.
pub open spec fn rest_below(dir: Seq<char>, path: Seq<char>) -> Option<Seq<char>> {
    let n = path_parts(dir).len() as int;
    let p = path_parts(path);
    if !lies_in(dir, path) {
        None
    } else if n == p.len() {
        Some(Seq::empty())
    } else {
        Some(path.subrange(p[n].0, p.last().1))
    }
}

/// Pairs of indexes as mathematical data.
spec fn ranges(v: Seq<(usize, usize)>) -> Seq<(int, int)> {
    Seq::new(v.len(), |i: int| (v[i].0 as int, v[i].1 as int))
}

/// Whether all of the parts stand one after the other within a path.
spec fn within(p: Seq<(int, int)>, n: int) -> bool {
    &&& forall|k: int| 0 <= k < p.len() ==> 0 <= (#[trigger] p[k]).0 <= p[k].1 <= n
    &&& forall|j: int, k: int| 0 <= j <= k < p.len() ==> (#[trigger] p[j]).0 <= (#[trigger] p[k]).1
}

fn find_parts(s: &[char]) -> (r: Vec<(usize, usize)>)
    ensures
        ranges(r@) == path_parts(s@),
        within(ranges(r@), s@.len() as int),
{
    let n: usize = s.len();
    let mut out: Vec<(usize, usize)> = Vec::new();
    if n > 0 && s[0] == '/' {
        out.push((0, 1));
    }
    let mut i: usize = 0;
    proof {
        assert(ranges(out@) + parts_from(s@, 0) =~= path_parts(s@));
    }
    while i < n
        invariant
            0 <= i <= n == s@.len(),
            ranges(out@) + parts_from(s@, i as int) == path_parts(s@),
            within(ranges(out@), n as int),
            forall|k: int| 0 <= k < out@.len() ==> (#[trigger] out@[k]).0 <= i,
        decreases n - i,
    {
        let mut j: usize = i;
        while j < n && s[j] != '/'
            invariant
                i <= j <= n == s@.len(),
                part_end(s@, i as int) == part_end(s@, j as int),
            decreases n - j,
        {
            j += 1;
        }
        let ghost before = out@;
        if i < j && !(j == i + 1 && s[i] == '.' && i > 0) {
            out.push((i, j));
            proof {
                assert(ranges(out@) =~= ranges(before).push((i as int, j as int)));
                assert forall|a: int, b: int| 0 <= a <= b < out@.len() implies (
                #[trigger] ranges(out@)[a]).0 <= (#[trigger] ranges(out@)[b]).1 by {
                    if b < before.len() {
                        assert(ranges(before)[a].0 <= ranges(before)[b].1);
                    } else if a < before.len() {
                        assert(before[a].0 <= i);
                    }
                }
            }
        }
        proof {
            assert(ranges(out@) + parts_from(s@, j + 1) =~= ranges(before) + parts_from(
                s@,
                i as int,
            ));
        }
        if j == n {
            proof {
                assert(parts_from(s@, j + 1) =~= Seq::empty());
                assert(ranges(out@) =~= path_parts(s@));
            }
            return out;
        }
        i = j + 1;
    }
    proof {
        assert(ranges(out@) =~= path_parts(s@));
    }
    out
}

/// What stands below a directory on the way to a path, where the path lies in
/// it.
pub fn path_below(dir: &str, path: &str) -> (r: Option<String>)
    ensures
        message::opt_text(r) == rest_below(dir@, path@),
{
    let dc = chars_of(dir);
    let pc = chars_of(path);
    let d = find_parts(dc.as_slice());
    let p = find_parts(pc.as_slice());
    if d.len() > p.len() {
        return None;
    }
    let mut k: usize = 0;
    while k < d.len()
        invariant
            0 <= k <= d@.len() <= p@.len(),
            dc@ == dir@,
            pc@ == path@,
            ranges(d@) == path_parts(dir@),
            ranges(p@) == path_parts(path@),
            within(ranges(d@), dir@.len() as int),
            within(ranges(p@), path@.len() as int),
            forall|i: int|
                0 <= i < k ==> dir@.subrange(
                    (#[trigger] path_parts(dir@)[i]).0,
                    path_parts(dir@)[i].1,
                ) == path@.subrange(path_parts(path@)[i].0, path_parts(path@)[i].1),
        decreases d@.len() - k,
    {
        proof {
            assert(ranges(d@)[k as int] == (d@[k as int].0 as int, d@[k as int].1 as int));
            assert(ranges(p@)[k as int] == (p@[k as int].0 as int, p@[k as int].1 as int));
        }
        let a = string_of(dc.as_slice(), d[k].0, d[k].1);
        let b = string_of(pc.as_slice(), p[k].0, p[k].1);
        if !str_eq(a.as_str(), b.as_str()) {
            return None;
        }
        k += 1;
    }
    if d.len() == p.len() {
        proof {
            text::lemma_empty_literal();
        }
        return Some(String::new());
    }
    let n: usize = d.len();
    let last: usize = p.len() - 1;
    proof {
        assert(ranges(p@)[n as int] == (p@[n as int].0 as int, p@[n as int].1 as int));
        assert(ranges(p@)[last as int] == (p@[last as int].0 as int, p@[last as int].1 as int));
    }
    Some(string_of(pc.as_slice(), p[n].0, p[last].1))
}

/// The program of a skill as it is called in a container.
pub open spec fn container_tool(
    s: SkillMeta,
    tool: Seq<char>,
    p: PathConfig,
    workspace: Seq<char>,
) -> Seq<char> {
    let root = p.container_root@ + "/"@;
    if text::starts_with(tool, "tools/"@) || text::starts_with(tool, "skills/"@) {
        root + tool
    } else if s.status@ == "builtin"@ {
        root + p.global_skills_mount@ + "/"@ + s.category@ + "/"@ + s.key@ + "/"@ + tool
    } else {
        match rest_below(workspace, s.skill_dir@) {
            Some(rel) => root + rel + "/"@ + tool,
            None => root + p.skills_dir@ + "/"@ + s.key@ + "/"@ + tool,
        }
    }
}

/// The program of a skill as the agent calls it.
pub open spec fn tool_of(
    s: SkillMeta,
    in_container: bool,
    p: PathConfig,
    workspace: Seq<char>,
) -> Option<Seq<char>> {
    if in_container {
        match s.tool {
            Some(t) => Some(container_tool(s, t@, p, workspace)),
            None => None,
        }
    } else {
        message::opt_text(s.host_tool_path)
    }
}

/// The program of a skill as it is called in a container.
pub fn container_tool_path(s: &SkillMeta, tool: &str, p: &PathConfig, workspace: &str) -> (r: String)
    ensures
        r@ == container_tool(*s, tool@, *p, workspace@),
{
    let mut r = p.container_root.clone();
    r.push_str("/");
    if str_starts_with(tool, "tools/") || str_starts_with(tool, "skills/") {
        r.push_str(tool);
        return r;
    }
    if str_eq(s.status.as_str(), "builtin") {
        r.push_str(p.global_skills_mount.as_str());
        r.push_str("/");
        r.push_str(s.category.as_str());
        r.push_str("/");
        r.push_str(s.key.as_str());
        r.push_str("/");
        r.push_str(tool);
        return r;
    }
    match path_below(workspace, s.skill_dir.as_str()) {
        Some(rel) => {
            r.push_str(rel.as_str());
            r.push_str("/");
            r.push_str(tool);
        },
        None => {
            r.push_str(p.skills_dir.as_str());
            r.push_str("/");
            r.push_str(s.key.as_str());
            r.push_str("/");
            r.push_str(tool);
        },
    }
    r
}

/// What the agent is told of a skill.
pub fn skill_content(s: &SkillMeta, in_container: bool, p: &PathConfig, workspace: &str) -> (r:
    SkillContent)
    ensures
        r.name@ == s.name@,
        r.description@ == s.description@,
        r.content@ == s.content@,
        r.category@ == s.category@,
        text::texts(r.triggers@) == text::texts(s.triggers@),
        message::opt_text(r.tool_path) == tool_of(*s, in_container, *p, workspace@),
        r.risk_level@ == s.risk_level@,
        text::texts(r.requires_capabilities@) == text::texts(s.requires_capabilities@),
        !r.matched,
{
    let tool_path = if in_container {
        match &s.tool {
            Some(t) => Some(container_tool_path(s, t.as_str(), p, workspace)),
            None => None,
        }
    } else {
        message::clone_opt(&s.host_tool_path)
    };
    SkillContent {
        name: s.name.clone(),
        description: s.description.clone(),
        content: s.content.clone(),
        category: s.category.clone(),
        triggers: clone_texts(&s.triggers),
        tool_path,
        risk_level: s.risk_level.clone(),
        requires_capabilities: clone_texts(&s.requires_capabilities),
        matched: false,
    }
}

/// Something that the agent can do.
#[derive(Debug)]
pub struct Capability {
    pub key: String,
    pub name: String,
    pub description: String,
    pub category: String,
    pub status: String,
    pub tags: Vec<String>,
    pub creator: Option<String>,
}

/// What the agent is told of a capability.
pub open spec fn capability_facts(c: Capability) -> Map<Seq<char>, Seq<char>> {
    let base = Map::<Seq<char>, Seq<char>>::empty().insert("key"@, c.key@).insert(
        "name"@,
        c.name@,
    ).insert("description"@, c.description@).insert("category"@, c.category@).insert(
        "status"@,
        c.status@,
    );
    let tagged = if c.tags@.len() > 0 {
        base.insert("tags"@, text::join(text::texts(c.tags@), ", "@))
    } else {
        base
    };
    match c.creator {
        Some(who) => tagged.insert("creator"@, who@),
        None => tagged,
    }
}

/// What the agent is told of a capability.
pub fn capability_table(c: &Capability) -> (r: TextTable)
    ensures
        r@ == capability_facts(*c),
{
    let mut t = TextTable::new();
    t.insert("key".to_owned(), c.key.clone());
    t.insert("name".to_owned(), c.name.clone());
    t.insert("description".to_owned(), c.description.clone());
    t.insert("category".to_owned(), c.category.clone());
    t.insert("status".to_owned(), c.status.clone());
    if c.tags.len() > 0 {
        t.insert("tags".to_owned(), str_join(&c.tags, ", "));
    }
    if let Some(who) = &c.creator {
        t.insert("creator".to_owned(), who.clone());
    }
    t
}

// ---------------------------------------------------------------------------
// Shares and history
// ---------------------------------------------------------------------------

/// Whether nothing was said in a session that the memory does not hold.
pub open spec fn is_first_turn(s: SessionView) -> bool {
    s.messages.len() == s.last_consolidated
}

/// How the context window is shared out for a request, given its text in
/// small letters.
pub open spec fn shares_of(lowered: Seq<char>, first: bool) -> ContextBudgetPlan {
    if first {
        helpers::first_turn(helpers::budget_of(lowered))
    } else {
        helpers::budget_of(lowered)
    }
}

/// How the context window is shared out for a request to a session.
pub fn share_out(user_message: &str, session: &Session) -> (r: ContextBudgetPlan)
    ensures
        r == shares_of(text::lowercased(user_message@), is_first_turn(session@)),
{
    let plan = compute_context_budget_plan(user_message);
    proof {
        assert(session@.messages.len() == session.messages@.len());
        helpers::law_shares_are_bounded(text::lowercased(user_message@), 0);
    }
    if session.messages.len() == session.last_consolidated {
        first_turn_budget(plan)
    } else {
        plan
    }
}

/// What was said in a session, without repetitions one after the other.
pub fn gather_history(session: &Session) -> (r: Vec<Message>)
    requires
        session@.last_consolidated <= session@.messages.len(),
    ensures
        message::views(r@) == history::deduped(session@.history(0), Seq::empty()),
{
    let raw = session.get_history(0);
    dedupe_history(&raw)
}

/// Whether the last `n` of some messages are those that fit: as many as the
/// budget allows, but at least one.
pub open spec fn fits(costs: Seq<usize>, budget: int, n: int) -> bool {
    &&& 0 <= n <= costs.len()
    &&& n == 0 <==> costs.len() == 0 || budget == 0
    &&& n > 1 ==> history::sum_last(costs, n) <= budget
    &&& 0 < n < costs.len() ==> history::sum_last(costs, n + 1) > budget
}

/// How many messages fit is determined by what they cost.
pub proof fn law_fit_is_unique(costs: Seq<usize>, budget: int, n: int, m: int)
    requires
        fits(costs, budget, n),
        fits(costs, budget, m),
    ensures
        n == m,
{
    if n < m {
        lemma_sum_grows(costs, n + 1, m);
    }
    if m < n {
        lemma_sum_grows(costs, m + 1, n);
    }
}

proof fn lemma_sum_grows(costs: Seq<usize>, a: int, b: int)
    requires
        0 <= a <= b <= costs.len(),
    ensures
        history::sum_last(costs, a) <= history::sum_last(costs, b),
    decreases b - a,
{
    if a < b {
        lemma_sum_grows(costs, a, b - 1);
    }
}

/// The history that is handed to the model: the end of what was said, as much
/// as the budget allows, without tool results that nobody asked for. `costs`
/// is what each message takes of the budget.
pub fn fit_history(
    deduped: &Vec<Message>,
    costs: &Vec<usize>,
    context_window_tokens: usize,
    plan: ContextBudgetPlan,
) -> (r: Vec<Message>)
    requires
        costs@.len() == deduped@.len(),
        context_window_tokens * plan.history_ratio <= usize::MAX,
    ensures
        exists|n: int|
            #[trigger] fits(
                costs@,
                helpers::history_tokens(
                    context_window_tokens as int,
                    plan.history_ratio as int,
                ),
                n,
            ) && message::views(r@) == history::paired(
                message::views(deduped@).skip(deduped@.len() - n),
                Set::empty(),
            ),
{
    let budget: usize = history_budget(context_window_tokens, plan);
    let trimmed = trim_history_by_token_budget(deduped, costs, budget);
    proof {
        assert(fits(
            costs@,
            helpers::history_tokens(context_window_tokens as int, plan.history_ratio as int),
            trimmed@.len() as int,
        ));
    }
    enforce_tool_call_pairing(&trimmed)
}

// ---------------------------------------------------------------------------
// The messages
// ---------------------------------------------------------------------------

/// What was gathered for a request.
pub struct Gathered {
    pub capabilities: Vec<TextTable>,
    pub skills: Vec<SkillContent>,
    pub pinned_cases: String,
    pub similar_cases: String,
    pub memory: String,
}

/// What is kept of cases that resemble a request.
pub fn choose_cases(pinned: &str, similar: &str, enable_memory: bool, plan: ContextBudgetPlan) -> (r: (
    String,
    String,
))
    ensures
        r.0@ == (if enable_memory {
            pinned@
        } else {
            Seq::empty()
        }),
        r.1@ == (if enable_memory {
            helpers::similar_cases(similar@, plan.max_cases_chars as nat)
        } else {
            Seq::empty()
        }),
{
    if enable_memory {
        (pinned.to_owned(), optimize_similar_cases(similar, plan.max_cases_chars))
    } else {
        proof {
            text::lemma_empty_literal();
        }
        (String::new(), String::new())
    }
}

/// What of the memory matters for a request.
pub fn choose_memory(raw: &str, user_message: &str) -> (r: String)
    ensures
        r@ == (if raw@.len() == 0 {
            raw@
        } else {
            memory_filter::filtered(raw@, user_message@)
        }),
{
    if raw.is_empty() {
        raw.to_owned()
    } else {
        filter_memory_by_relevance(raw, user_message)
    }
}

/// The text, unless it is empty.
fn unless_empty(t: &str) -> (r: Option<&str>)
    ensures
        r == (if t@.len() > 0 {
            Some(t)
        } else {
            None::<&str>
        }),
{
    if t.is_empty() {
        None
    } else {
        Some(t)
    }
}

/// Whether inputs of a prompt hold what was gathered for a request.
pub open spec fn inputs_of(i: PromptInputs, g: Gathered, req: RequestContext) -> bool {
    &&& i.mode == PromptMode::Full
    &&& i.capabilities == (if g.capabilities@.len() > 0 {
        Some(&g.capabilities)
    } else {
        None
    })
    &&& i.skill_contents == (if g.skills@.len() > 0 {
        Some(&g.skills)
    } else {
        None
    })
    &&& text::opt_str(i.pinned_cases) == some_unless_empty(g.pinned_cases@)
    &&& text::opt_str(i.similar_cases) == some_unless_empty(g.similar_cases@)
    &&& text::opt_str(i.memory_content) == some_unless_empty(g.memory@)
    &&& text::opt_str(i.channel) == Some(req.channel@)
    &&& text::opt_str(i.chat_id) == Some(req.chat_id@)
    &&& text::opt_str(i.user_id) == Some(req.user_id@)
    &&& text::opt_str(i.workspace_id) == Some(req.workspace_id@)
}

/// A text, unless it is empty.
pub open spec fn some_unless_empty(t: Seq<char>) -> Option<Seq<char>> {
    if t.len() > 0 {
        Some(t)
    } else {
        None
    }
}

/// The message that makes the agent count its rounds anew.
pub open spec fn reset_marker() -> MessageView {
    MessageView { reset_iterations: true, ..message::plain("system"@, Seq::empty()) }
}

/// The messages of a request to the model.
pub open spec fn request_messages(
    src: PromptSources,
    inputs: PromptInputs,
    shown_workspace: Seq<char>,
    h: Seq<MessageView>,
    user_message: Seq<char>,
    images: Seq<Seq<char>>,
) -> Seq<MessageView> {
    context::leading_messages(
        context::system_parts(src, inputs, shown_workspace),
        context::user_entries(src, inputs),
        context::system_entries(inputs),
        h,
        user_message,
    ).push(
        if images.len() == 0 {
            message::plain("user"@, user_message)
        } else {
            context::image_request(user_message, images)
        },
    ).push(reset_marker())
}

/// Whether the prompt texts that a request needs are there.
pub open spec fn can_prepare(src: PromptSources) -> bool {
    &&& src.store.top("identity"@) is Some
    &&& src.store.top("main_execution_baseline"@) is Some
    &&& src.store.top("guidelines"@) is Some
}

/// The messages with which the agent starts on a request: the prompt, the
/// history, the request, and a mark that makes it count its rounds anew.
pub fn prepare_prompt(
    builder: &ContextBuilder,
    src: &PromptSources,
    gathered: &Gathered,
    req: &RequestContext,
    history: &Vec<Message>,
    user_message: &str,
) -> (r: Vec<Message>)
    requires
        can_prepare(*src),
    ensures
        exists|inputs: PromptInputs|
            inputs_of(inputs, *gathered, *req) && message::views(r@)
                == #[trigger] request_messages(
                *src,
                inputs,
                builder.shown_workspace(),
                message::views(history@),
                user_message@,
                text::texts(req.image_data_uris@),
            ),
{
    let inputs = PromptInputs {
        mode: PromptMode::Full,
        capabilities: if gathered.capabilities.len() > 0 {
            Some(&gathered.capabilities)
        } else {
            None
        },
        skill_contents: if gathered.skills.len() > 0 {
            Some(&gathered.skills)
        } else {
            None
        },
        pinned_cases: unless_empty(gathered.pinned_cases.as_str()),
        similar_cases: unless_empty(gathered.similar_cases.as_str()),
        memory_content: unless_empty(gathered.memory.as_str()),
        channel: Some(req.channel.as_str()),
        chat_id: Some(req.chat_id.as_str()),
        user_id: Some(req.user_id.as_str()),
        workspace_id: Some(req.workspace_id.as_str()),
    };
    let planned = builder.plan_prompt_context(&inputs, src);
    let mut messages = if req.image_data_uris.len() == 0 {
        builder.assemble_messages(&planned, history, user_message)
    } else {
        builder.assemble_messages_multimodal(&planned, history, user_message, &req.image_data_uris)
    };
    let mut marker = Message::with_content("system", Content::Text(String::new()));
    marker.reset_iterations = true;
    let ghost before = messages@;
    messages.push(marker);
    proof {
        text::lemma_empty_literal();
        message::lemma_views_push(before, marker);
        assert(marker@ == reset_marker());
        assert(text::texts(req.image_data_uris@).len() == req.image_data_uris@.len());
        assert(inputs_of(inputs, *gathered, *req));
        assert(message::views(messages@) == request_messages(
            *src,
            inputs,
            builder.shown_workspace(),
            message::views(history@),
            user_message@,
            text::texts(req.image_data_uris@),
        ));
    }
    messages
}

// ---------------------------------------------------------------------------
// Laws
// ---------------------------------------------------------------------------

/// The messages with which the agent starts end with the request, its images
/// and all, and the mark; in front of the request stands the history as it is.
pub proof fn law_request_is_at_the_end(
    src: PromptSources,
    inputs: PromptInputs,
    shown_workspace: Seq<char>,
    h: Seq<MessageView>,
    user_message: Seq<char>,
    images: Seq<Seq<char>>,
)
    ensures
        ({
            let ms = request_messages(src, inputs, shown_workspace, h, user_message, images);
            let n = ms.len();
            let q = ms[n - 2];
            &&& n >= h.len() + 3
            &&& ms[0].role == Some("system"@)
            &&& ms.last().reset_iterations
            &&& ms.subrange(n - 2 - h.len(), n - 2) == h
            &&& q.role == Some("user"@)
            &&& images.len() == 0 ==> q.content == ContentView::Text(user_message)
            &&& images.len() > 0 ==> q.content is Blocks && q.content->Blocks_0.len()
                == images.len() + 1 && q.content->Blocks_0[0] == ContentBlockView::Text(
                user_message,
            ) && forall|k: int|
                0 <= k < images.len() ==> #[trigger] q.content->Blocks_0[k + 1]
                    == ContentBlockView::ImageUrl(images[k])
        }),
{
    let ms = request_messages(src, inputs, shown_workspace, h, user_message, images);
    let n = ms.len();
    assert(ms.subrange(n - 2 - h.len(), n - 2) =~= h);
}

/// What was gathered for a request reaches the model: the memory and the cases
/// stand in the message with the context, and the prompt names every skill
/// and the user.
pub proof fn law_gathered_reaches_the_model(
    src: PromptSources,
    inputs: PromptInputs,
    g: Gathered,
    req: RequestContext,
    shown_workspace: Seq<char>,
    h: Seq<MessageView>,
    user_message: Seq<char>,
    images: Seq<Seq<char>>,
)
    requires
        inputs_of(inputs, g, req),
    ensures
        ({
            let ms = request_messages(src, inputs, shown_workspace, h, user_message, images);
            &&& g.memory@.len() > 0 ==> ms[1].content is Text && text::contains(
                ms[1].content->Text_0,
                g.memory@,
            )
            &&& forall|k: int|
                0 <= k < g.skills@.len() ==> context::is_told(
                    context::system_parts(src, inputs, shown_workspace),
                    (#[trigger] g.skills@[k]).name@,
                )
            &&& context::tells_once(
                context::system_entries(inputs),
                "User Identity"@,
                req.user_id@,
            )
            &&& context::tells_once(
                context::system_entries(inputs),
                "Conversation Identity"@,
                req.chat_id@,
            )
            &&& context::says(g.pinned_cases@) ==> context::quotes_once(
                context::user_entries(src, inputs),
                "Pinned Cases"@,
                g.pinned_cases@,
            )
            &&& context::says(g.similar_cases@) ==> context::quotes_once(
                context::user_entries(src, inputs),
                "Similar Cases"@,
                g.similar_cases@,
            )
        }),
{
    if g.memory@.len() > 0 {
        context::law_memory_reaches_the_model(
            src,
            inputs,
            shown_workspace,
            h,
            user_message,
            g.memory@,
        );
        let lead = context::leading_messages(
            context::system_parts(src, inputs, shown_workspace),
            context::user_entries(src, inputs),
            context::system_entries(inputs),
            h,
            user_message,
        );
        assert(request_messages(src, inputs, shown_workspace, h, user_message, images)[1]
            == lead[1]);
    }
    assert forall|k: int| 0 <= k < g.skills@.len() implies context::is_told(
        context::system_parts(src, inputs, shown_workspace),
        (#[trigger] g.skills@[k]).name@,
    ) by {
        context::law_skills_are_told(src, inputs, shown_workspace, k);
    }
    context::law_request_is_identified(inputs);
    if context::says(g.pinned_cases@) {
        context::law_cases_are_told(src, inputs, g.pinned_cases@);
    }
    if context::says(g.similar_cases@) {
        context::law_cases_are_told(src, inputs, g.similar_cases@);
    }
}

/// What the agent is told of a capability is what is known of it.
pub proof fn law_capability_is_described(c: Capability)
    ensures
        capability_facts(c)["name"@] == c.name@,
        capability_facts(c)["description"@] == c.description@,
        capability_facts(c)["category"@] == c.category@,
        capability_facts(c)["status"@] == c.status@,
        capability_facts(c)["key"@] == c.key@,
        c.creator matches Some(w) ==> capability_facts(c)["creator"@] == w@,
{
    reveal_strlit("name");
    reveal_strlit("description");
    reveal_strlit("category");
    reveal_strlit("status");
    reveal_strlit("key");
    reveal_strlit("creator");
    reveal_strlit("tags");
    assert("name"@[0] != "tags"@[0]);
    assert("name"@.len() == 4 && "description"@.len() == 11 && "category"@.len() == 8
        && "status"@.len() == 6 && "key"@.len() == 3 && "creator"@.len() == 7 && "tags"@.len()
        == 4);
}

/// In a container the program of a skill lies below its root and is called by
/// its name; outside it is called where it lies on the host.
pub proof fn law_programs_are_found(
    s: SkillMeta,
    tool: Seq<char>,
    p: PathConfig,
    workspace: Seq<char>,
)
    requires
        message::opt_text(s.tool) == Some(tool),
    ensures
        tool_of(s, true, p, workspace) is Some,
        text::starts_with(tool_of(s, true, p, workspace)->0, p.container_root@ + "/"@),
        text::ends_with(tool_of(s, true, p, workspace)->0, tool),
        tool_of(s, false, p, workspace) == message::opt_text(s.host_tool_path),
        s.status@ == "builtin"@ && !text::starts_with(tool, "tools/"@) && !text::starts_with(
            tool,
            "skills/"@,
        ) ==> text::contains(tool_of(s, true, p, workspace)->0, p.global_skills_mount@)
            && text::contains(tool_of(s, true, p, workspace)->0, s.key@),
{
    let t = tool_of(s, true, p, workspace)->0;
    let root = p.container_root@ + "/"@;
    assert(t.subrange(0, root.len() as int) =~= root);
    assert(t.subrange(t.len() - tool.len(), t.len() as int) =~= tool);
    if s.status@ == "builtin"@ && !text::starts_with(tool, "tools/"@) && !text::starts_with(
        tool,
        "skills/"@,
    ) {
        assert(text::contains(t, p.global_skills_mount@)) by {
            let b = t.skip((root.len() + p.global_skills_mount@.len()) as int);
            assert(t =~= root + p.global_skills_mount@ + b);
            text::lemma_contains_part(root, p.global_skills_mount@, b);
        }
        let a = root + p.global_skills_mount@ + "/"@ + s.category@ + "/"@;
        let b = "/"@ + tool;
        assert(t =~= a + s.key@ + b);
        text::lemma_contains_part(a, s.key@, b);
    }
}

proof fn lemma_part_end_in_front(dir: Seq<char>, s: Seq<char>, i: int)
    requires
        0 <= i <= dir.len() < s.len(),
        s.take(dir.len() as int) == dir,
        s[dir.len() as int] == '/',
    ensures
        part_end(s, i) == part_end(dir, i),
        i <= part_end(dir, i) <= dir.len(),
    decreases dir.len() - i,
{
    if i < dir.len() {
        assert(s.take(dir.len() as int)[i] == s[i]);
        if s[i] != '/' {
            lemma_part_end_in_front(dir, s, i + 1);
        }
    }
}

proof fn lemma_parts_in_front(dir: Seq<char>, s: Seq<char>, i: int)
    requires
        0 <= i <= dir.len() < s.len(),
        s.take(dir.len() as int) == dir,
        s[dir.len() as int] == '/',
    ensures
        parts_from(s, i) == parts_from(dir, i) + parts_from(s, dir.len() as int + 1),
        forall|k: int|
            0 <= k < parts_from(dir, i).len() ==> 0 <= (#[trigger] parts_from(dir, i)[k]).0
                <= parts_from(dir, i)[k].1 <= dir.len(),
    decreases dir.len() + 1 - i,
{
    lemma_part_end_in_front(dir, s, i);
    let j = part_end(dir, i);
    let behind = parts_from(s, dir.len() as int + 1);
    if i < dir.len() {
        assert(s.take(dir.len() as int)[i] == s[i]);
        if j < dir.len() {
            lemma_parts_in_front(dir, s, j + 1);
        } else {
            assert(parts_from(dir, j + 1).len() == 0);
        }
        assert(parts_from(s, i) =~= parts_from(dir, i) + behind);
    } else {
        assert(parts_from(s, i) =~= behind);
        assert(parts_from(dir, i) + behind =~= behind);
    }
}

/// What stands below a directory on the way to a file that lies in it is the
/// name of the file.
pub proof fn law_name_is_what_lies_below(dir: Seq<char>, name: Seq<char>)
    requires
        dir.len() > 0,
        name.len() > 0,
        name != seq!['.'],
        forall|i: int| 0 <= i < name.len() ==> #[trigger] name[i] != '/',
    ensures
        rest_below(dir, dir + seq!['/'] + name) == Some(name),
{
    let s = dir + seq!['/'] + name;
    let n = dir.len() as int;
    assert(s.take(n) =~= dir);
    lemma_parts_in_front(dir, s, 0);
    lemma_part_end_of_name(s, n + 1);
    let last = (n + 1, s.len() as int);
    assert(name.len() == 1 ==> name[0] != '.') by {
        if name.len() == 1 && name[0] == '.' {
            assert(name =~= seq!['.']);
        }
    }
    assert(s[n + 1] == name[0]);
    assert(parts_from(s, s.len() as int + 1).len() == 0);
    assert(parts_from(s, n + 1) =~= seq![last]);
    let d = path_parts(dir);
    let p = path_parts(s);
    assert(s[0] == dir[0]);
    assert(p =~= d.push(last));
    assert forall|k: int| 0 <= k < d.len() implies dir.subrange((#[trigger] d[k]).0, d[k].1)
        == s.subrange(p[k].0, p[k].1) by {
        assert(p[k] == d[k]);
        assert(dir.subrange(d[k].0, d[k].1) =~= s.subrange(d[k].0, d[k].1));
    }
    assert(s.subrange(n + 1, s.len() as int) =~= name);
}

proof fn lemma_part_end_of_name(s: Seq<char>, i: int)
    requires
        0 <= i <= s.len(),
        forall|k: int| i <= k < s.len() ==> #[trigger] s[k] != '/',
    ensures
        part_end(s, i) == s.len(),
    decreases s.len() - i,
{
    if i < s.len() {
        lemma_part_end_of_name(s, i + 1);
    }
}

} // verus!

//! What comes back from a dispatch of subtasks, and what the agent does next.

use crate::agent::runtime::DecisionEvent;
use crate::json;
use crate::json::{parse, Json, JsonView};
use crate::message;
use crate::text;
use crate::text::{
    chars_of, decimal, decimal_usize, find_at, has_text, parse_u64, str_ellipsis, str_eq,
    str_join, str_replace, str_trim, str_trim_end, string_of,
};
use vstd::prelude::*;

verus! {

/// Begins the part of a tool output that is meant for the agent alone.
pub const DISPATCH_SUMMARY_START: &'static str = "[[TYCLAW_DISPATCH_SUMMARY]]";

/// Ends the part of a tool output that is meant for the agent alone.
pub const DISPATCH_SUMMARY_END: &'static str = "[[/TYCLAW_DISPATCH_SUMMARY]]";

/// What a dispatch of subtasks came to.
#[derive(Debug)]
pub struct DispatchStructuredSummary {
    pub plan_id: String,
    pub succeeded: usize,
    pub failed: usize,
    pub skipped: usize,
    pub has_conflicts: bool,
    pub wall_time_ms: u64,
    pub nodes: Vec<DispatchNodeSummary>,
}

/// What one subtask came to.
#[derive(Debug)]
pub struct DispatchNodeSummary {
    pub node_id: String,
    pub node_status: String,
    pub declared_result_status: String,
    pub verified_after_last_edit: Option<bool>,
    pub ended_with_unverified_changes: bool,
    pub tools_used_count: usize,
    pub detail_path: String,
}

/// What one subtask came to, as mathematical data.
pub struct NodeView {
    pub node_id: Seq<char>,
    pub node_status: Seq<char>,
    pub declared_result_status: Seq<char>,
    pub verified_after_last_edit: Option<bool>,
    pub ended_with_unverified_changes: bool,
    pub tools_used_count: nat,
    pub detail_path: Seq<char>,
}

/// What a dispatch came to, as mathematical data.
pub struct DispatchView {
    pub plan_id: Seq<char>,
    pub succeeded: nat,
    pub failed: nat,
    pub skipped: nat,
    pub has_conflicts: bool,
    pub wall_time_ms: nat,
    pub nodes: Seq<NodeView>,
}

impl View for DispatchNodeSummary {
    type V = NodeView;

    open spec fn view(&self) -> NodeView {
        NodeView {
            node_id: self.node_id@,
            node_status: self.node_status@,
            declared_result_status: self.declared_result_status@,
            verified_after_last_edit: self.verified_after_last_edit,
            ended_with_unverified_changes: self.ended_with_unverified_changes,
            tools_used_count: self.tools_used_count as nat,
            detail_path: self.detail_path@,
        }
    }
}

/// A list of subtask summaries as mathematical data.
pub open spec fn nodes_view(s: Seq<DispatchNodeSummary>) -> Seq<NodeView> {
    Seq::new(s.len(), |i: int| s[i]@)
}

impl View for DispatchStructuredSummary {
    type V = DispatchView;

    open spec fn view(&self) -> DispatchView {
        DispatchView {
            plan_id: self.plan_id@,
            succeeded: self.succeeded as nat,
            failed: self.failed as nat,
            skipped: self.skipped as nat,
            has_conflicts: self.has_conflicts,
            wall_time_ms: self.wall_time_ms as nat,
            nodes: nodes_view(self.nodes@),
        }
    }
}

// ---------------------------------------------------------------------------
// Reading the summary
// ---------------------------------------------------------------------------

/// A field of a record: the member of that name of an object, or what stands
/// at that place of a list.
pub open spec fn field(v: JsonView, key: Seq<char>, place: int) -> Option<JsonView> {
    match v {
        JsonView::List(l) => if 0 <= place < l.len() {
            Some(l[place])
        } else {
            None
        },
        _ => v.get(key),
    }
}

/// The field where it is a string.
pub open spec fn text_in(f: Option<JsonView>) -> Option<Seq<char>> {
    match f {
        Some(JsonView::Text(t)) => Some(t),
        _ => None,
    }
}

/// The field where it is a number that is not above `max`.
pub open spec fn nat_in(f: Option<JsonView>, max: nat) -> Option<nat> {
    match f {
        Some(JsonView::Number(n)) => match text::number(n) {
            Some(x) => if x <= max {
                Some(x)
            } else {
                None
            },
            None => None,
        },
        _ => None,
    }
}

/// The field where it is a truth value.
pub open spec fn bool_in(f: Option<JsonView>) -> Option<bool> {
    match f {
        Some(JsonView::Bool(b)) => Some(b),
        _ => None,
    }
}

/// The field as an optional truth value: missing and null are nothing, and
/// anything else than a truth value is not readable.
pub open spec fn opt_bool_in(f: Option<JsonView>) -> Option<Option<bool>> {
    match f {
        None => Some(None),
        Some(JsonView::Null) => Some(None),
        Some(JsonView::Bool(b)) => Some(Some(b)),
        _ => None,
    }
}

/// Whether a record that is written as a list has that many fields.
pub open spec fn has_places(v: JsonView, least: int, most: int) -> bool {
    v matches JsonView::List(l) ==> least <= l.len() <= most
}

/// The summary of one subtask in a JSON object, or in a list of its fields in
/// their order; nothing where a field is missing or of another type. Of a
/// field that an object names twice, the parsed value holds the later one.
pub open spec fn read_node(v: JsonView) -> Option<NodeView> {
    let id = text_in(field(v, "node_id"@, 0));
    let status = text_in(field(v, "node_status"@, 1));
    let declared = text_in(field(v, "declared_result_status"@, 2));
    let verified = opt_bool_in(field(v, "verified_after_last_edit"@, 3));
    let unverified = bool_in(field(v, "ended_with_unverified_changes"@, 4));
    let tools = nat_in(field(v, "tools_used_count"@, 5), usize::MAX as nat);
    let path = text_in(field(v, "detail_path"@, 6));
    if has_places(v, 7, 7) && id is Some && status is Some && declared is Some && verified is Some
        && unverified is Some && tools is Some && path is Some {
        Some(
            NodeView {
                node_id: id->0,
                node_status: status->0,
                declared_result_status: declared->0,
                verified_after_last_edit: verified->0,
                ended_with_unverified_changes: unverified->0,
                tools_used_count: tools->0,
                detail_path: path->0,
            },
        )
    } else {
        None
    }
}

/// The summaries in a JSON list; nothing where one is not readable.
pub open spec fn read_nodes(s: Seq<JsonView>) -> Option<Seq<NodeView>>
    decreases s.len(),
{
    if s.len() == 0 {
        Some(Seq::empty())
    } else {
        match (read_nodes(s.drop_last()), read_node(s.last())) {
            (Some(rest), Some(n)) => Some(rest.push(n)),
            _ => None,
        }
    }
}

/// The list of subtask summaries; a missing list is an empty one.
pub open spec fn nodes_in(f: Option<JsonView>) -> Option<Seq<NodeView>> {
    match f {
        None => Some(Seq::empty()),
        Some(JsonView::List(l)) => read_nodes(l),
        _ => None,
    }
}

/// The summary of a dispatch in a JSON object, or in a list of its fields in
/// their order, the last of which may be missing; nothing where another field
/// is missing or one is of another type. Of a field that an object names
/// twice, the parsed value holds the later one.
pub open spec fn read_summary(v: JsonView) -> Option<DispatchView> {
    let plan = text_in(field(v, "plan_id"@, 0));
    let succeeded = nat_in(field(v, "succeeded"@, 1), usize::MAX as nat);
    let failed = nat_in(field(v, "failed"@, 2), usize::MAX as nat);
    let skipped = nat_in(field(v, "skipped"@, 3), usize::MAX as nat);
    let conflicts = bool_in(field(v, "has_conflicts"@, 4));
    let wall = nat_in(field(v, "wall_time_ms"@, 5), u64::MAX as nat);
    let nodes = nodes_in(field(v, "nodes"@, 6));
    if has_places(v, 6, 7) && plan is Some && succeeded is Some && failed is Some && skipped is Some
        && conflicts is Some && wall is Some && nodes is Some {
        Some(
            DispatchView {
                plan_id: plan->0,
                succeeded: succeeded->0,
                failed: failed->0,
                skipped: skipped->0,
                has_conflicts: conflicts->0,
                wall_time_ms: wall->0,
                nodes: nodes->0,
            },
        )
    } else {
        None
    }
}

/// An optional value as mathematical data.
spec fn opt_view(f: Option<&Json>) -> Option<JsonView> {
    match f {
        Some(j) => Some(j@),
        None => None,
    }
}

fn find_field<'a>(v: &'a Json, key: &str, place: usize) -> (r: Option<&'a Json>)
    ensures
        opt_view(r) == field(v@, key@, place as int),
{
    match v {
        Json::List(l) => {
            proof {
                json::lemma_list_view(l@);
            }
            if place < l.len() {
                Some(&l[place])
            } else {
                None
            }
        },
        _ => v.get(key),
    }
}

fn string_field(v: &Json, key: &str, place: usize) -> (r: Option<String>)
    ensures
        message::opt_text(r) == text_in(field(v@, key@, place as int)),
{
    match find_field(v, key, place) {
        Some(Json::Text(t)) => Some(t.clone()),
        _ => None,
    }
}

fn u64_field(v: &Json, key: &str, place: usize) -> (r: Option<u64>)
    ensures
        nat_in(field(v@, key@, place as int), u64::MAX as nat) == (match r {
            Some(n) => Some(n as nat),
            None => None::<nat>,
        }),
{
    match find_field(v, key, place) {
        Some(Json::Number(n)) => parse_u64(n.as_str()),
        _ => None,
    }
}

fn usize_field(v: &Json, key: &str, place: usize) -> (r: Option<usize>)
    ensures
        nat_in(field(v@, key@, place as int), usize::MAX as nat) == (match r {
            Some(n) => Some(n as nat),
            None => None::<nat>,
        }),
{
    match u64_field(v, key, place) {
        Some(n) => if n <= usize::MAX as u64 {
            Some(n as usize)
        } else {
            None
        },
        None => None,
    }
}

fn bool_field(v: &Json, key: &str, place: usize) -> (r: Option<bool>)
    ensures
        r == bool_in(field(v@, key@, place as int)),
{
    match find_field(v, key, place) {
        Some(Json::Bool(b)) => Some(*b),
        _ => None,
    }
}

fn opt_bool_field(v: &Json, key: &str, place: usize) -> (r: Option<Option<bool>>)
    ensures
        r == opt_bool_in(field(v@, key@, place as int)),
{
    match find_field(v, key, place) {
        None => Some(None),
        Some(Json::Null) => Some(None),
        Some(Json::Bool(b)) => Some(Some(*b)),
        _ => None,
    }
}

fn fits_places(v: &Json, least: usize, most: usize) -> (r: bool)
    ensures
        r == has_places(v@, least as int, most as int),
{
    match v {
        Json::List(l) => {
            proof {
                json::lemma_list_view(l@);
            }
            least <= l.len() && l.len() <= most
        },
        _ => true,
    }
}

/// The summary of one subtask in a JSON value.
pub fn node_from_json(v: &Json) -> (r: Option<DispatchNodeSummary>)
    ensures
        read_node(v@) == (match r {
            Some(n) => Some(n@),
            None => None::<NodeView>,
        }),
{
    if !fits_places(v, 7, 7) {
        return None;
    }
    let id = string_field(v, "node_id", 0);
    let status = string_field(v, "node_status", 1);
    let declared = string_field(v, "declared_result_status", 2);
    let verified = opt_bool_field(v, "verified_after_last_edit", 3);
    let unverified = bool_field(v, "ended_with_unverified_changes", 4);
    let tools = usize_field(v, "tools_used_count", 5);
    let path = string_field(v, "detail_path", 6);
    match (id, status, declared, verified, unverified, tools, path) {
        (
            Some(node_id),
            Some(node_status),
            Some(declared_result_status),
            Some(verified_after_last_edit),
            Some(ended_with_unverified_changes),
            Some(tools_used_count),
            Some(detail_path),
        ) => Some(
            DispatchNodeSummary {
                node_id,
                node_status,
                declared_result_status,
                verified_after_last_edit,
                ended_with_unverified_changes,
                tools_used_count,
                detail_path,
            },
        ),
        _ => None,
    }
}

fn nodes_from_json(l: &Vec<Json>) -> (r: Option<Vec<DispatchNodeSummary>>)
    ensures
        read_nodes(json::list_view(l@)) == (match r {
            Some(n) => Some(nodes_view(n@)),
            None => None::<Seq<NodeView>>,
        }),
{
    let mut out: Vec<DispatchNodeSummary> = Vec::new();
    let mut ok = true;
    let mut i: usize = 0;
    proof {
        assert(json::list_view(l@.take(0)) =~= Seq::empty());
        assert(nodes_view(out@) =~= Seq::empty());
    }
    while i < l.len()
        invariant
            0 <= i <= l@.len(),
            read_nodes(json::list_view(l@.take(i as int))) == (if ok {
                Some(nodes_view(out@))
            } else {
                None::<Seq<NodeView>>
            }),
        decreases l@.len() - i,
    {
        let ghost before = out@;
        proof {
            assert(l@.take(i + 1) =~= l@.take(i as int).push(l@[i as int]));
            json::lemma_list_push(l@.take(i as int), l@[i as int]);
            let a = json::list_view(l@.take(i + 1));
            assert(a.drop_last() =~= json::list_view(l@.take(i as int)));
        }
        match node_from_json(&l[i]) {
            Some(n) => {
                out.push(n);
                proof {
                    assert(nodes_view(out@) =~= nodes_view(before).push(n@));
                }
            },
            None => {
                ok = false;
            },
        }
        i += 1;
    }
    proof {
        assert(l@.take(i as int) =~= l@);
    }
    if ok {
        Some(out)
    } else {
        None
    }
}

/// The summary of a dispatch in a JSON value.
pub fn summary_from_json(v: &Json) -> (r: Option<DispatchStructuredSummary>)
    ensures
        read_summary(v@) == (match r {
            Some(s) => Some(s@),
            None => None::<DispatchView>,
        }),
{
    if !fits_places(v, 6, 7) {
        return None;
    }
    let plan = string_field(v, "plan_id", 0);
    let succeeded = usize_field(v, "succeeded", 1);
    let failed = usize_field(v, "failed", 2);
    let skipped = usize_field(v, "skipped", 3);
    let conflicts = bool_field(v, "has_conflicts", 4);
    let wall = u64_field(v, "wall_time_ms", 5);
    let nodes = match find_field(v, "nodes", 6) {
        None => {
            let empty: Vec<DispatchNodeSummary> = Vec::new();
            proof {
                assert(nodes_view(empty@) =~= Seq::empty());
            }
            Some(empty)
        },
        Some(Json::List(l)) => nodes_from_json(l),
        _ => None,
    };
    match (plan, succeeded, failed, skipped, conflicts, wall, nodes) {
        (
            Some(plan_id),
            Some(succeeded),
            Some(failed),
            Some(skipped),
            Some(has_conflicts),
            Some(wall_time_ms),
            Some(nodes),
        ) => Some(
            DispatchStructuredSummary {
                plan_id,
                succeeded,
                failed,
                skipped,
                has_conflicts,
                wall_time_ms,
                nodes,
            },
        ),
        _ => None,
    }
}

/// Where the hidden part of an output stands: where it begins and where it
/// ends. Both marks have to be there, the first one first.
pub open spec fn hidden_part(output: Seq<char>) -> Option<(int, int)> {
    match (
        text::find_from(output, DISPATCH_SUMMARY_START@, 0),
        text::find_from(output, DISPATCH_SUMMARY_END@, 0),
    ) {
        (Some(a), Some(b)) => if b < a {
            None
        } else {
            Some((a, b))
        },
        _ => None,
    }
}

/// An output without its hidden part.
pub open spec fn visible(output: Seq<char>) -> Seq<char> {
    match hidden_part(output) {
        Some((a, b)) => {
            let front = text::trim_end(output.take(a));
            let back = text::trim(output.skip(b + DISPATCH_SUMMARY_END@.len()));
            if back.len() == 0 {
                front
            } else if front.len() == 0 {
                back
            } else {
                front + "\n\n"@ + back
            }
        },
        None => output,
    }
}

/// The JSON text in the hidden part of an output.
pub open spec fn hidden_json(output: Seq<char>) -> Option<Seq<char>> {
    match hidden_part(output) {
        Some((a, b)) => Some(
            text::trim(output.subrange(a + DISPATCH_SUMMARY_START@.len(), b)),
        ),
        None => None,
    }
}

proof fn lemma_marks_apart(output: Seq<char>, a: int, b: int)
    requires
        text::occurs_at(output, DISPATCH_SUMMARY_START@, a),
        text::occurs_at(output, DISPATCH_SUMMARY_END@, b),
        a <= b,
    ensures
        a + DISPATCH_SUMMARY_START@.len() <= b,
{
    reveal_strlit("[[TYCLAW_DISPATCH_SUMMARY]]");
    reveal_strlit("[[/TYCLAW_DISPATCH_SUMMARY]]");
    let s = DISPATCH_SUMMARY_START@;
    let e = DISPATCH_SUMMARY_END@;
    if b < a + s.len() {
        let d = b - a;
        assert(output.subrange(a, a + s.len())[d] == output[b]);
        assert(output.subrange(b, b + e.len())[0] == output[b]);
        assert(s[d] == '[');
        assert(d == 0 || d == 1);
        assert(output.subrange(a, a + s.len())[2 + d - d] == output[a + 2]);
        assert(output.subrange(b, b + e.len())[2 - d] == output[a + 2]);
        assert(s[2] == 'T');
        assert(e[1] == '[');
        assert(e[2] == '/');
    }
}

/// Splits an output into what is to be seen and the JSON text that is not.
pub fn split_dispatch_output(output: &str) -> (r: (String, Option<String>))
    ensures
        r.0@ == visible(output@),
        message::opt_text(r.1) == hidden_json(output@),
{
    let oc = chars_of(output);
    let n: usize = oc.len();
    let sc = chars_of(DISPATCH_SUMMARY_START);
    let ec = chars_of(DISPATCH_SUMMARY_END);
    let a = match find_at(oc.as_slice(), sc.as_slice(), 0) {
        Some(a) => a,
        None => {
            return (output.to_owned(), None);
        },
    };
    let b = match find_at(oc.as_slice(), ec.as_slice(), 0) {
        Some(b) => b,
        None => {
            return (output.to_owned(), None);
        },
    };
    if b < a {
        return (output.to_owned(), None);
    }
    proof {
        text::lemma_find_from(output@, DISPATCH_SUMMARY_START@, 0);
        text::lemma_find_from(output@, DISPATCH_SUMMARY_END@, 0);
        lemma_marks_apart(output@, a as int, b as int);
    }
    let hidden = string_of(oc.as_slice(), a + sc.len(), b);
    let json_text = str_trim(hidden.as_str());
    let front = string_of(oc.as_slice(), 0, a);
    let back = string_of(oc.as_slice(), b + ec.len(), n);
    proof {
        assert(front@ =~= output@.take(a as int));
        assert(back@ =~= output@.skip(b + DISPATCH_SUMMARY_END@.len()));
    }
    let mut clean = str_trim_end(front.as_str());
    let suffix = str_trim(back.as_str());
    if !suffix.as_str().is_empty() {
        if !clean.as_str().is_empty() {
            clean.push_str("\n\n");
        }
        clean.push_str(suffix.as_str());
    }
    proof {
        assert(clean@ =~= visible(output@));
    }
    (clean, Some(json_text))
}

/// The summary in the hidden part of an output, given what it parses to.
pub open spec fn summary_in(parsed: Option<JsonView>) -> Option<DispatchView> {
    match parsed {
        Some(v) => read_summary(v),
        None => None,
    }
}

/// The summary in the hidden part of an output.
pub open spec fn summary_of_output(output: Seq<char>) -> Option<DispatchView> {
    match hidden_json(output) {
        Some(t) => summary_in(json::parsed(t)),
        None => None,
    }
}

/// An optional summary as mathematical data.
pub open spec fn opt_summary_view(s: Option<DispatchStructuredSummary>) -> Option<DispatchView> {
    match s {
        Some(s) => Some(s@),
        None => None,
    }
}

/// Splits an output into what is to be seen and the summary that is not. A
/// hidden part that cannot be read is taken out all the same.
pub fn extract_dispatch_summary(output: &str) -> (r: (String, Option<DispatchStructuredSummary>))
    ensures
        r.0@ == visible(output@),
        opt_summary_view(r.1) == summary_of_output(output@),
{
    let (clean, hidden) = split_dispatch_output(output);
    let summary = match hidden {
        Some(t) => match parse(t.as_str()) {
            Some(v) => summary_from_json(&v),
            None => None,
        },
        None => None,
    };
    (clean, summary)
}

/// An output without the mark that begins a hidden part is shown as it is.
pub proof fn law_plain_output_is_shown_whole(output: Seq<char>)
    requires
        !text::contains(output, DISPATCH_SUMMARY_START@),
    ensures
        visible(output) == output,
        hidden_json(output) is None,
{
    text::lemma_contains_find(output, DISPATCH_SUMMARY_START@);
}

// ---------------------------------------------------------------------------
// Following up
// ---------------------------------------------------------------------------

/// What is remembered of a dispatch until the agent decides what follows.
#[derive(Debug)]
pub struct PendingDispatchObservation {
    pub origin_iteration: usize,
    pub statuses: Vec<String>,
    pub summary_preview: String,
}

/// The status of a subtask: the one that it declared, else that of its run.
pub open spec fn effective_status(n: NodeView) -> Seq<char> {
    if n.declared_result_status != "unknown"@ {
        n.declared_result_status
    } else {
        n.node_status
    }
}

/// The statuses of the subtasks, each once, in the order in which they come.
pub open spec fn statuses_of(nodes: Seq<NodeView>) -> Seq<Seq<char>>
    decreases nodes.len(),
{
    if nodes.len() == 0 {
        Seq::empty()
    } else {
        let rest = statuses_of(nodes.drop_last());
        let s = effective_status(nodes.last());
        if s.len() == 0 || rest.contains(s) {
            rest
        } else {
            rest.push(s)
        }
    }
}

/// The statuses of the subtasks, each once.
pub fn extract_dispatch_statuses(summary: &DispatchStructuredSummary) -> (r: Vec<String>)
    ensures
        text::texts(r@) == statuses_of(summary@.nodes),
{
    let ghost nv = summary@.nodes;
    let mut statuses: Vec<String> = Vec::new();
    let mut i: usize = 0;
    proof {
        assert(text::texts(statuses@) =~= statuses_of(nv.take(0)));
    }
    while i < summary.nodes.len()
        invariant
            0 <= i <= summary.nodes@.len(),
            nv == summary@.nodes,
            text::texts(statuses@) == statuses_of(nv.take(i as int)),
        decreases summary.nodes@.len() - i,
    {
        let ghost before = statuses@;
        let node = &summary.nodes[i];
        proof {
            let t = nv.take(i + 1);
            assert(t.drop_last() =~= nv.take(i as int));
            assert(t.last() == node@);
        }
        let status = if !str_eq(node.declared_result_status.as_str(), "unknown") {
            node.declared_result_status.as_str()
        } else {
            node.node_status.as_str()
        };
        if !status.is_empty() && !has_text(&statuses, status) {
            let s = status.to_owned();
            statuses.push(s);
            proof {
                assert(text::texts(statuses@) =~= text::texts(before).push(s@));
            }
        }
        i += 1;
    }
    proof {
        assert(nv.take(i as int) =~= nv);
    }
    statuses
}

/// No status is listed twice, and none is empty.
pub proof fn law_statuses_are_distinct(nodes: Seq<NodeView>)
    ensures
        statuses_of(nodes).no_duplicates(),
        forall|i: int| 0 <= i < statuses_of(nodes).len() ==> (#[trigger] statuses_of(nodes)[i]).len() > 0,
    decreases nodes.len(),
{
    if nodes.len() > 0 {
        law_statuses_are_distinct(nodes.drop_last());
    }
}

/// A text on one line and of at most 160 bytes, with dots where it was cut.
pub open spec fn preview(s: Seq<char>) -> Seq<char> {
    text::ellipsized(text::trim(text::replace_all(s, "\n"@, " "@)), 160)
}

/// A text on one line and of at most 160 bytes, with dots where it was cut.
pub fn build_decision_preview(s: &str) -> (r: String)
    ensures
        r@ == preview(s@),
{
    proof {
        reveal_strlit("\n");
    }
    let single = str_replace(s, "\n", " ");
    let trimmed = str_trim(single.as_str());
    str_ellipsis(trimmed.as_str(), 160)
}

/// A truth value in words.
pub open spec fn bool_text(b: bool) -> Seq<char> {
    if b {
        "true"@
    } else {
        "false"@
    }
}

/// A truth value in words.
pub fn bool_str(b: bool) -> (r: &'static str)
    ensures
        r@ == bool_text(b),
{
    if b {
        "true"
    } else {
        "false"
    }
}

/// An optional truth value in words.
pub open spec fn opt_bool_text(b: Option<bool>) -> Seq<char> {
    match b {
        Some(true) => "Some(true)"@,
        Some(false) => "Some(false)"@,
        None => "None"@,
    }
}

/// One subtask in a preview.
pub open spec fn node_text(n: NodeView) -> Seq<char> {
    n.node_id + ":"@ + n.node_status + ":"@ + n.declared_result_status + " verified="@
        + opt_bool_text(n.verified_after_last_edit) + " unverified="@ + bool_text(
        n.ended_with_unverified_changes,
    ) + " tools="@ + text::dec(n.tools_used_count) + " path="@ + n.detail_path
}

/// The first subtasks of a dispatch in a preview, at most three.
pub open spec fn node_texts(nodes: Seq<NodeView>) -> Seq<Seq<char>> {
    Seq::new(
        if nodes.len() < 3 {
            nodes.len()
        } else {
            3
        },
        |i: int| node_text(nodes[i]),
    )
}

/// The counts of a dispatch in a preview.
pub open spec fn head_text(s: DispatchView) -> Seq<char> {
    "plan="@ + s.plan_id + " ok="@ + text::dec(s.succeeded) + " failed="@ + text::dec(s.failed)
        + " skipped="@ + text::dec(s.skipped) + " conflicts="@ + bool_text(s.has_conflicts)
        + " wall="@ + text::dec(s.wall_time_ms) + "ms"@
}

/// A dispatch on one line; the visible result where no subtask is reported.
pub open spec fn dispatch_preview(s: DispatchView, result: Seq<char>) -> Seq<char> {
    if s.nodes.len() == 0 {
        preview(result)
    } else {
        preview(head_text(s) + " ; "@ + text::join(node_texts(s.nodes), " | "@))
    }
}

fn describe_node(n: &DispatchNodeSummary) -> (r: String)
    ensures
        r@ == node_text(n@),
{
    let tools = decimal_usize(n.tools_used_count);
    let mut r = n.node_id.clone();
    r.push_str(":");
    r.push_str(n.node_status.as_str());
    r.push_str(":");
    r.push_str(n.declared_result_status.as_str());
    r.push_str(" verified=");
    match n.verified_after_last_edit {
        Some(true) => r.push_str("Some(true)"),
        Some(false) => r.push_str("Some(false)"),
        None => r.push_str("None"),
    }
    r.push_str(" unverified=");
    r.push_str(bool_str(n.ended_with_unverified_changes));
    r.push_str(" tools=");
    r.push_str(tools.as_str());
    r.push_str(" path=");
    r.push_str(n.detail_path.as_str());
    r
}

/// A dispatch on one line.
pub fn build_dispatch_summary_preview(summary: &DispatchStructuredSummary, fallback: &str) -> (r:
    String)
    ensures
        r@ == dispatch_preview(summary@, fallback@),
{
    if summary.nodes.len() == 0 {
        return build_decision_preview(fallback);
    }
    let succeeded = decimal_usize(summary.succeeded);
    let failed = decimal_usize(summary.failed);
    let skipped = decimal_usize(summary.skipped);
    let wall = decimal(summary.wall_time_ms as u128);
    let mut head = "plan=".to_owned();
    head.push_str(summary.plan_id.as_str());
    head.push_str(" ok=");
    head.push_str(succeeded.as_str());
    head.push_str(" failed=");
    head.push_str(failed.as_str());
    head.push_str(" skipped=");
    head.push_str(skipped.as_str());
    head.push_str(" conflicts=");
    head.push_str(bool_str(summary.has_conflicts));
    head.push_str(" wall=");
    head.push_str(wall.as_str());
    head.push_str("ms");
    let ghost nv = summary@.nodes;
    let take: usize = if summary.nodes.len() < 3 {
        summary.nodes.len()
    } else {
        3
    };
    let mut parts: Vec<String> = Vec::new();
    let mut i: usize = 0;
    while i < take
        invariant
            0 <= i <= take <= summary.nodes@.len(),
            nv == summary@.nodes,
            parts@.len() == i,
            forall|k: int| 0 <= k < i ==> (#[trigger] parts@[k])@ == node_text(nv[k]),
        decreases take - i,
    {
        parts.push(describe_node(&summary.nodes[i]));
        i += 1;
    }
    proof {
        assert(text::texts(parts@) =~= node_texts(nv));
    }
    let nodes = str_join(&parts, " | ");
    head.push_str(" ; ");
    head.push_str(nodes.as_str());
    build_decision_preview(head.as_str())
}

/// What is to be remembered of a dispatch: nothing where no status is known.
pub fn observe_dispatch_result(
    iteration: usize,
    summary: &DispatchStructuredSummary,
    result: &str,
) -> (r: Option<PendingDispatchObservation>)
    ensures
        r is None <==> statuses_of(summary@.nodes).len() == 0,
        r matches Some(o) ==> o.origin_iteration == iteration && text::texts(o.statuses@)
            == statuses_of(summary@.nodes) && o.summary_preview@ == dispatch_preview(
            summary@,
            result@,
        ),
{
    let statuses = extract_dispatch_statuses(summary);
    proof {
        assert(statuses@.len() == text::texts(statuses@).len());
    }
    if statuses.len() == 0 {
        return None;
    }
    Some(
        PendingDispatchObservation {
            origin_iteration: iteration,
            statuses,
            summary_preview: build_dispatch_summary_preview(summary, result),
        },
    )
}

/// The tools by which the output of subtasks is looked at.
pub open spec fn inspects(name: Seq<char>) -> bool {
    ||| name == "read_file"@
    ||| name == "glob"@
    ||| name == "list_dir"@
    ||| name == "grep_search"@
}

/// The tools by which the agent does the work itself.
pub open spec fn takes_over(name: Seq<char>) -> bool {
    ||| name == "exec"@
    ||| name == "write_file"@
    ||| name == "edit_file"@
    ||| name == "apply_patch"@
    ||| name == "delete_file"@
    ||| name == "move_file"@
    ||| name == "copy_file"@
    ||| name == "mkdir"@
    ||| name == "send_file"@
}

/// Whether the output of subtasks is looked at by this tool.
pub fn is_dispatch_inspection_tool(tool_name: &str) -> (r: bool)
    ensures
        r == inspects(tool_name@),
{
    str_eq(tool_name, "read_file") || str_eq(tool_name, "glob") || str_eq(tool_name, "list_dir")
        || str_eq(tool_name, "grep_search")
}

/// Whether the agent does the work itself by this tool.
pub fn is_takeover_tool(tool_name: &str) -> (r: bool)
    ensures
        r == takes_over(tool_name@),
{
    str_eq(tool_name, "exec") || str_eq(tool_name, "write_file") || str_eq(tool_name, "edit_file")
        || str_eq(tool_name, "apply_patch") || str_eq(tool_name, "delete_file") || str_eq(
        tool_name,
        "move_file",
    ) || str_eq(tool_name, "copy_file") || str_eq(tool_name, "mkdir") || str_eq(
        tool_name,
        "send_file",
    )
}

/// What follows a dispatch, and why, by the tools that the agent calls next.
pub open spec fn followup(tools: Seq<Seq<char>>) -> (Seq<char>, Seq<char>) {
    let list = if tools.len() == 0 {
        "(none)"@
    } else {
        text::join(tools, ","@)
    };
    if tools.contains("dispatch_subtasks"@) {
        (
            "redispatch"@,
            "requested another dispatch_subtasks round ("@ + list + ")"@,
        )
    } else if forall|i: int| 0 <= i < tools.len() ==> inspects(#[trigger] tools[i]) {
        (
            "inspect_subtask_output"@,
            "inspecting subtask artifacts with tools: "@ + list,
        )
    } else if exists|i: int| 0 <= i < tools.len() && takes_over(#[trigger] tools[i]) {
        (
            "take_over_execution"@,
            "main agent resumed execution with tools: "@ + list,
        )
    } else {
        ("continue_with_tools"@, "continued with post-dispatch tools: "@ + list)
    }
}

/// What follows a dispatch, and why, by the tools that the agent calls next.
pub fn classify_post_dispatch_tool_decision(next_tools: &Vec<String>) -> (r: (
    &'static str,
    String,
))
    ensures
        (r.0@, r.1@) == followup(text::texts(next_tools@)),
{
    let ghost tv = text::texts(next_tools@);
    let list = if next_tools.len() == 0 {
        "(none)".to_owned()
    } else {
        str_join(next_tools, ",")
    };
    let mut all_inspect = true;
    let mut any_takeover = false;
    let mut i: usize = 0;
    while i < next_tools.len()
        invariant
            0 <= i <= next_tools@.len(),
            tv == text::texts(next_tools@),
            all_inspect ==> forall|k: int| 0 <= k < i ==> inspects(#[trigger] tv[k]),
            !all_inspect ==> exists|k: int| 0 <= k < tv.len() && !inspects(#[trigger] tv[k]),
            any_takeover ==> exists|k: int| 0 <= k < tv.len() && takes_over(#[trigger] tv[k]),
            !any_takeover ==> forall|k: int| 0 <= k < i ==> !takes_over(#[trigger] tv[k]),
        decreases next_tools@.len() - i,
    {
        proof {
            assert(tv[i as int] == next_tools@[i as int]@);
        }
        if !is_dispatch_inspection_tool(next_tools[i].as_str()) {
            all_inspect = false;
        }
        if is_takeover_tool(next_tools[i].as_str()) {
            any_takeover = true;
        }
        i += 1;
    }
    if has_text(next_tools, "dispatch_subtasks") {
        let mut reason = "requested another dispatch_subtasks round (".to_owned();
        reason.push_str(list.as_str());
        reason.push_str(")");
        ("redispatch", reason)
    } else if all_inspect {
        let mut reason = "inspecting subtask artifacts with tools: ".to_owned();
        reason.push_str(list.as_str());
        ("inspect_subtask_output", reason)
    } else if any_takeover {
        let mut reason = "main agent resumed execution with tools: ".to_owned();
        reason.push_str(list.as_str());
        ("take_over_execution", reason)
    } else {
        let mut reason = "continued with post-dispatch tools: ".to_owned();
        reason.push_str(list.as_str());
        ("continue_with_tools", reason)
    }
}

/// Which agent an event is of.
pub open spec fn scope(is_sub_agent: bool) -> Seq<char> {
    if is_sub_agent {
        "sub"@
    } else {
        "main"@
    }
}

/// Adds the event that says what followed a dispatch.
pub fn record_dispatch_followup_decision(
    decision_events: &mut Vec<DecisionEvent>,
    iteration: usize,
    is_sub_agent: bool,
    observation: PendingDispatchObservation,
    decision: &str,
    reason: String,
    next_tools: Vec<String>,
)
    ensures
        final(decision_events)@.len() == old(decision_events)@.len() + 1,
        final(decision_events)@.drop_last() == old(decision_events)@,
        ({
            let e = final(decision_events)@.last();
            &&& e.iteration == iteration
            &&& e.agent_scope@ == scope(is_sub_agent)
            &&& e.decision@ == decision@
            &&& e.reason@ == reason@
            &&& e.dispatch_origin_iteration == Some(observation.origin_iteration)
            &&& text::texts(e.dispatch_statuses@) == text::texts(observation.statuses@)
            &&& text::texts(e.next_tools@) == text::texts(next_tools@)
        }),
{
    let event = DecisionEvent {
        iteration,
        agent_scope: if is_sub_agent {
            "sub".to_owned()
        } else {
            "main".to_owned()
        },
        decision: decision.to_owned(),
        reason,
        dispatch_origin_iteration: Some(observation.origin_iteration),
        dispatch_statuses: observation.statuses,
        next_tools,
    };
    let ghost before = decision_events@;
    decision_events.push(event);
    proof {
        assert(decision_events@.drop_last() =~= before);
    }
}

/// What stands between the marks of an output is the hidden part, and what
/// stands around them is shown.
pub proof fn law_hidden_part_is_taken_out(a: Seq<char>, j: Seq<char>, b: Seq<char>)
    requires
        ({
            let s = a + DISPATCH_SUMMARY_START@ + j + DISPATCH_SUMMARY_END@ + b;
            &&& forall|i: int|
                0 <= i < a.len() ==> !#[trigger] text::occurs_at(s, DISPATCH_SUMMARY_START@, i)
            &&& forall|i: int|
                0 <= i < a.len() + DISPATCH_SUMMARY_START@.len() + j.len()
                    ==> !#[trigger] text::occurs_at(s, DISPATCH_SUMMARY_END@, i)
        }),
    ensures
        ({
            let s = a + DISPATCH_SUMMARY_START@ + j + DISPATCH_SUMMARY_END@ + b;
            &&& hidden_json(s) == Some(text::trim(j))
            &&& text::trim(b).len() == 0 ==> visible(s) == text::trim_end(a)
            &&& text::trim_end(a).len() == 0 ==> visible(s) == text::trim(b)
            &&& text::trim(b).len() > 0 && text::trim_end(a).len() > 0 ==> {
                &&& text::starts_with(visible(s), text::trim_end(a))
                &&& text::ends_with(visible(s), text::trim(b))
                &&& visible(s).len() == text::trim_end(a).len() + 2 + text::trim(b).len()
            }
        }),
{
    reveal_strlit("\n\n");
    let s = a + DISPATCH_SUMMARY_START@ + j + DISPATCH_SUMMARY_END@ + b;
    let k = a.len() as int;
    let n = k + DISPATCH_SUMMARY_START@.len();
    let e = n + j.len();
    assert(s.subrange(k, n) =~= DISPATCH_SUMMARY_START@);
    assert(s.subrange(e, e + DISPATCH_SUMMARY_END@.len()) =~= DISPATCH_SUMMARY_END@);
    assert(text::occurs_at(s, DISPATCH_SUMMARY_START@, k));
    assert(text::occurs_at(s, DISPATCH_SUMMARY_END@, e));
    text::lemma_found_first(s, DISPATCH_SUMMARY_START@, 0, k);
    text::lemma_found_first(s, DISPATCH_SUMMARY_END@, 0, e);
    assert(s.take(k) =~= a);
    assert(s.subrange(n, e) =~= j);
    assert(s.skip(e + DISPATCH_SUMMARY_END@.len()) =~= b);
    let front = text::trim_end(a);
    let back = text::trim(b);
    if front.len() > 0 && back.len() > 0 {
        let v = front + "\n\n"@ + back;
        assert(v.subrange(0, front.len() as int) =~= front);
        assert(v.subrange(v.len() - back.len(), v.len() as int) =~= back);
    }
}

/// A summary that is read has the fields of the object that it is read from.
pub proof fn law_summary_is_read_from_its_fields(m: Seq<(Seq<char>, JsonView)>)
    ensures
        ({
            let v = JsonView::Object(m);
            read_summary(v) matches Some(d) ==> {
                &&& v.get("plan_id"@) == Some(JsonView::Text(d.plan_id))
                &&& v.get("succeeded"@) matches Some(JsonView::Number(n)) && text::number(n) == Some(
                    d.succeeded,
                )
                &&& v.get("failed"@) matches Some(JsonView::Number(n)) && text::number(n) == Some(
                    d.failed,
                )
                &&& v.get("skipped"@) matches Some(JsonView::Number(n)) && text::number(n) == Some(
                    d.skipped,
                )
                &&& v.get("has_conflicts"@) == Some(JsonView::Bool(d.has_conflicts))
                &&& v.get("wall_time_ms"@) matches Some(JsonView::Number(n)) && text::number(n)
                    == Some(d.wall_time_ms)
                &&& v.get("nodes"@) is None ==> d.nodes.len() == 0
                &&& v.get("nodes"@) matches Some(JsonView::List(l)) ==> d.nodes.len() == l.len()
            }
        }),
        ({
            let v = JsonView::Object(m);
            read_node(v) matches Some(d) ==> {
                &&& v.get("node_id"@) == Some(JsonView::Text(d.node_id))
                &&& v.get("node_status"@) == Some(JsonView::Text(d.node_status))
                &&& v.get("declared_result_status"@) == Some(
                    JsonView::Text(d.declared_result_status),
                )
                &&& v.get("verified_after_last_edit"@) matches Some(JsonView::Bool(b))
                    ==> d.verified_after_last_edit == Some(b)
                &&& v.get("verified_after_last_edit"@) is None ==> d.verified_after_last_edit is None
                &&& v.get("ended_with_unverified_changes"@) == Some(
                    JsonView::Bool(d.ended_with_unverified_changes),
                )
                &&& v.get("tools_used_count"@) matches Some(JsonView::Number(n)) && text::number(n)
                    == Some(d.tools_used_count)
                &&& v.get("detail_path"@) == Some(JsonView::Text(d.detail_path))
            }
        }),
{
    let v = JsonView::Object(m);
    if let Some(JsonView::List(l)) = v.get("nodes"@) {
        if read_nodes(l) is Some {
            law_subtasks_are_read_in_order(l);
        }
    }
}

/// The summaries of a list are read one for one, in their order.
pub proof fn law_subtasks_are_read_in_order(l: Seq<JsonView>)
    requires
        read_nodes(l) is Some,
    ensures
        read_nodes(l)->0.len() == l.len(),
        forall|i: int| 0 <= i < l.len() ==> read_node(#[trigger] l[i]) == Some(read_nodes(l)->0[i]),
    decreases l.len(),
{
    if l.len() > 0 {
        let p = l.drop_last();
        law_subtasks_are_read_in_order(p);
        assert forall|i: int| 0 <= i < l.len() implies read_node(#[trigger] l[i]) == Some(
            read_nodes(l)->0[i],
        ) by {
            if i < p.len() {
                assert(p[i] == l[i]);
            }
        }
    }
}

/// Every subtask has its status listed: the one that it declared, and where it
/// declared none, that of its run. Nothing else is listed.
pub proof fn law_every_status_is_listed(nodes: Seq<NodeView>, i: int)
    requires
        0 <= i < nodes.len(),
    ensures
        nodes[i].declared_result_status != "unknown"@ && nodes[i].declared_result_status.len() > 0
            ==> statuses_of(nodes).contains(nodes[i].declared_result_status),
        nodes[i].declared_result_status == "unknown"@ && nodes[i].node_status.len() > 0
            ==> statuses_of(nodes).contains(nodes[i].node_status),
    decreases nodes.len(),
{
    let p = nodes.drop_last();
    let old_ones = statuses_of(p);
    let s = if nodes[i].declared_result_status != "unknown"@ {
        nodes[i].declared_result_status
    } else {
        nodes[i].node_status
    };
    if i < p.len() {
        law_every_status_is_listed(p, i);
        assert(p[i] == nodes[i]);
        if old_ones.contains(s) {
            let k = choose|k: int| 0 <= k < old_ones.len() && old_ones[k] == s;
            assert(statuses_of(nodes)[k] == s);
        }
    } else if s.len() > 0 && !old_ones.contains(s) {
        assert(statuses_of(nodes)[old_ones.len() as int] == s);
    }
}

/// The description of a subtask tells what it is called, how it ended and
/// where its details are, and that of a dispatch tells its plan and counts.
pub proof fn law_dispatch_is_described(n: NodeView, s: DispatchView)
    ensures
        text::starts_with(node_text(n), n.node_id),
        text::contains(node_text(n), n.node_status),
        text::contains(node_text(n), n.declared_result_status),
        text::ends_with(node_text(n), n.detail_path),
        text::contains(node_text(n), text::dec(n.tools_used_count)),
        text::contains(head_text(s), s.plan_id),
        text::contains(head_text(s), text::dec(s.succeeded)),
        text::contains(head_text(s), text::dec(s.failed)),
        text::contains(head_text(s), text::dec(s.skipped)),
        text::contains(head_text(s), text::dec(s.wall_time_ms)),
{
    assert(text::starts_with(node_text(n), n.node_id)) by {
        let t = node_text(n);
        assert(t.subrange(0, n.node_id.len() as int) =~= n.node_id);
    }
    assert(text::ends_with(node_text(n), n.detail_path)) by {
        let t = node_text(n);
        assert(t.subrange(t.len() - n.detail_path.len(), t.len() as int) =~= n.detail_path);
    }
    assert(text::contains(node_text(n), n.node_status)) by {
        let a = n.node_id + ":"@;
        let b = node_text(n).skip((a.len() + n.node_status.len()) as int);
        assert(node_text(n) =~= a + n.node_status + b);
        text::lemma_contains_part(a, n.node_status, b);
    }
    assert(text::contains(node_text(n), n.declared_result_status)) by {
        let a = n.node_id + ":"@ + n.node_status + ":"@;
        let b = node_text(n).skip((a.len() + n.declared_result_status.len()) as int);
        assert(node_text(n) =~= a + n.declared_result_status + b);
        text::lemma_contains_part(a, n.declared_result_status, b);
    }
    assert(text::contains(node_text(n), text::dec(n.tools_used_count))) by {
        let d = text::dec(n.tools_used_count);
        let b = " path="@ + n.detail_path;
        let a = node_text(n).take(node_text(n).len() - b.len() - d.len());
        assert(node_text(n) =~= a + d + b);
        text::lemma_contains_part(a, d, b);
    }
    lemma_head_text(s);
}

proof fn lemma_head_text(s: DispatchView)
    ensures
        text::contains(head_text(s), s.plan_id),
        text::contains(head_text(s), text::dec(s.succeeded)),
        text::contains(head_text(s), text::dec(s.failed)),
        text::contains(head_text(s), text::dec(s.skipped)),
        text::contains(head_text(s), text::dec(s.wall_time_ms)),
{
    let h = head_text(s);
    let a = "plan="@;
    assert(text::contains(h, s.plan_id)) by {
        let b = h.skip((a.len() + s.plan_id.len()) as int);
        assert(h =~= a + s.plan_id + b);
        text::lemma_contains_part(a, s.plan_id, b);
    }
    let a1 = a + s.plan_id + " ok="@;
    assert(text::contains(h, text::dec(s.succeeded))) by {
        let d = text::dec(s.succeeded);
        let b = h.skip((a1.len() + d.len()) as int);
        assert(h =~= a1 + d + b);
        text::lemma_contains_part(a1, d, b);
    }
    let a2 = a1 + text::dec(s.succeeded) + " failed="@;
    assert(text::contains(h, text::dec(s.failed))) by {
        let d = text::dec(s.failed);
        let b = h.skip((a2.len() + d.len()) as int);
        assert(h =~= a2 + d + b);
        text::lemma_contains_part(a2, d, b);
    }
    let a3 = a2 + text::dec(s.failed) + " skipped="@;
    assert(text::contains(h, text::dec(s.skipped))) by {
        let d = text::dec(s.skipped);
        let b = h.skip((a3.len() + d.len()) as int);
        assert(h =~= a3 + d + b);
        text::lemma_contains_part(a3, d, b);
    }
    assert(text::contains(h, text::dec(s.wall_time_ms))) by {
        let d = text::dec(s.wall_time_ms);
        let b = "ms"@;
        let f = h.take(h.len() - b.len() - d.len());
        assert(h =~= f + d + b);
        text::lemma_contains_part(f, d, b);
    }
}

/// What follows a dispatch is told by the tools that are called next, and the
/// reason names every one of them.
pub proof fn law_followup_names_the_tools(tools: Seq<Seq<char>>, i: int)
    requires
        0 <= i < tools.len(),
    ensures
        text::contains(followup(tools).1, tools[i]),
        tools[i] == "dispatch_subtasks"@ ==> followup(tools).0 == "redispatch"@,
        !tools.contains("dispatch_subtasks"@) && (tools[i] == "exec"@ || tools[i] == "write_file"@
            || tools[i] == "edit_file"@) ==> followup(tools).0 == "take_over_execution"@,
        (forall|k: int|
            0 <= k < tools.len() ==> #[trigger] tools[k] == "read_file"@ || tools[k] == "glob"@
                || tools[k] == "list_dir"@ || tools[k] == "grep_search"@) ==> followup(tools).0
            == "inspect_subtask_output"@,
{
    reveal_strlit("dispatch_subtasks");
    reveal_strlit("read_file");
    reveal_strlit("glob");
    reveal_strlit("list_dir");
    reveal_strlit("grep_search");
    reveal_strlit("exec");
    reveal_strlit("write_file");
    reveal_strlit("edit_file");
    assert("dispatch_subtasks"@.len() == 17 && "read_file"@.len() == 9 && "glob"@.len() == 4
        && "list_dir"@.len() == 8 && "grep_search"@.len() == 11 && "exec"@.len() == 4
        && "write_file"@.len() == 10 && "edit_file"@.len() == 9);
    assert("glob"@[0] != "exec"@[0] && "read_file"@[0] != "edit_file"@[0]);
    let list = text::join(tools, ","@);
    text::law_joined_text_holds_every_part(tools, ","@, i);
    let r = followup(tools).1;
    let none = Seq::<char>::empty();
    assert(text::contains(r, list)) by {
        let a = "requested another dispatch_subtasks round ("@;
        let b = "inspecting subtask artifacts with tools: "@;
        let c = "main agent resumed execution with tools: "@;
        let d = "continued with post-dispatch tools: "@;
        text::lemma_contains_part(a, list, ")"@);
        assert(b + list =~= b + list + none);
        text::lemma_contains_part(b, list, none);
        assert(c + list =~= c + list + none);
        text::lemma_contains_part(c, list, none);
        assert(d + list =~= d + list + none);
        text::lemma_contains_part(d, list, none);
    }
    text::lemma_contains_within(r, list, tools[i]);
    if tools[i] == "exec"@ || tools[i] == "write_file"@ || tools[i] == "edit_file"@ {
        assert(takes_over(tools[i]));
        assert(!inspects(tools[i]));
    }
}

} // verus!

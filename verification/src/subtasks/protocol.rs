//! Plans: tasks, what each waits for, and when a plan can be run.

use crate::agent::runtime::{DecisionEvent, RunDiagnosticsSummary, ToolExecutionEvent};
use crate::json;
use crate::json::hexadecimal;
use crate::message::Message;
use crate::seqs;
use crate::text::str_eq;
use vstd::prelude::*;

verus! {

/// A plan: tasks and what each of them waits for.
#[derive(Debug)]
pub struct TaskPlan {
    pub id: String,
    pub nodes: Vec<TaskNode>,
    /// Pairs `(from, to)`: `to` runs only when `from` is done.
    pub edges: Vec<(String, String)>,
    pub failure_policy: FailurePolicy,
    pub metadata: PlanMetadata,
}

/// One task of a plan.
#[derive(Debug)]
pub struct TaskNode {
    pub id: String,
    /// What kind of task this is; routing goes by it.
    pub node_type: String,
    pub prompt: String,
    pub dependencies: Vec<String>,
    pub model_override: Option<String>,
    pub timeout_ms: Option<u64>,
    pub max_retries: Option<u32>,
    pub acceptance_criteria: Option<String>,
}

/// What happens to the rest of a plan when a task fails.
#[derive(Debug, Clone, Copy, PartialEq, Eq, Structural)]
pub enum FailurePolicy {
    /// Nothing more is started.
    FailFast,
    /// What does not depend on the failed task still runs.
    BestEffort,
}

impl Default for FailurePolicy {
    fn default() -> (r: Self)
        ensures
            r == FailurePolicy::FailFast,
    {
        FailurePolicy::FailFast
    }
}

/// Where a plan comes from.
#[derive(Debug)]
pub struct PlanMetadata {
    pub source_prompt: String,
    pub planner_model: String,
}

impl Default for PlanMetadata {
    fn default() -> (r: Self)
        ensures
            r.source_prompt@ == Seq::<char>::empty(),
            r.planner_model@ == Seq::<char>::empty(),
    {
        PlanMetadata { source_prompt: String::new(), planner_model: String::new() }
    }
}

/// How far a task has come.
#[derive(Debug, Clone, Copy, PartialEq, Eq, Structural)]
pub enum NodeStatus {
    Pending,
    Running,
    Success,
    Failed,
    Skipped,
}

/// What is kept of one task that was run or left out.
#[derive(Debug)]
pub struct ExecutionRecord {
    pub node_id: String,
    pub model: String,
    pub input_tokens: u64,
    pub output_tokens: u64,
    pub duration_ms: u64,
    pub status: NodeStatus,
    pub output: Option<String>,
    pub error: Option<String>,
    pub retries: u32,
    pub messages: Option<Vec<Message>>,
    pub tools_used: Vec<String>,
    pub tool_events: Vec<ToolExecutionEvent>,
    pub decision_events: Vec<DecisionEvent>,
    pub diagnostics_summary: Option<RunDiagnosticsSummary>,
    /// The skills that were used, each as JSON text.
    pub skills_used: Vec<String>,
}

/// What comes out of a whole plan.
#[derive(Debug)]
pub struct MergeReport {
    pub final_text: String,
    pub records: Vec<ExecutionRecord>,
    pub has_conflicts: bool,
    pub partial_failure: bool,
}

/// Why a plan cannot be run.
#[derive(Debug)]
pub enum PlanError {
    NoNodes,
    DuplicateId(String),
    UnknownEdgeNode(String),
    UnknownDependency { node: String, dependency: String },
    Cycle,
}

/// Why a plan cannot be run, as mathematical data.
pub enum PlanFault {
    NoNodes,
    DuplicateId(Seq<char>),
    UnknownEdgeNode(Seq<char>),
    UnknownDependency(Seq<char>, Seq<char>),
    Cycle,
}

impl View for PlanError {
    type V = PlanFault;

    open spec fn view(&self) -> PlanFault {
        match self {
            PlanError::NoNodes => PlanFault::NoNodes,
            PlanError::DuplicateId(id) => PlanFault::DuplicateId(id@),
            PlanError::UnknownEdgeNode(id) => PlanFault::UnknownEdgeNode(id@),
            PlanError::UnknownDependency { node, dependency } => PlanFault::UnknownDependency(
                node@,
                dependency@,
            ),
            PlanError::Cycle => PlanFault::Cycle,
        }
    }
}

impl PlanError {
    /// The fault in words.
    pub fn message(&self) -> (r: String)
        ensures
            r@ == (match self@ {
                PlanFault::NoNodes => "TaskPlan has no nodes"@,
                PlanFault::DuplicateId(id) => "duplicate node id: "@ + id,
                PlanFault::UnknownEdgeNode(id) => "edge references unknown node: "@ + id,
                PlanFault::UnknownDependency(n, d) => "node "@ + n
                    + " references unknown dependency: "@ + d,
                PlanFault::Cycle => "TaskPlan contains a cycle"@,
            }),
    {
        let mut r = String::new();
        match self {
            PlanError::NoNodes => r.push_str("TaskPlan has no nodes"),
            PlanError::DuplicateId(id) => {
                r.push_str("duplicate node id: ");
                r.push_str(id.as_str());
            },
            PlanError::UnknownEdgeNode(id) => {
                r.push_str("edge references unknown node: ");
                r.push_str(id.as_str());
            },
            PlanError::UnknownDependency { node, dependency } => {
                r.push_str("node ");
                r.push_str(node.as_str());
                r.push_str(" references unknown dependency: ");
                r.push_str(dependency.as_str());
            },
            PlanError::Cycle => r.push_str("TaskPlan contains a cycle"),
        }
        r
    }
}

// ---------------------------------------------------------------------------
// What makes a plan sound
// ---------------------------------------------------------------------------

/// Whether a node of the plan has this id.
pub open spec fn known(p: TaskPlan, id: Seq<char>) -> bool {
    exists|i: int| 0 <= i < p.nodes@.len() && (#[trigger] p.nodes@[i]).id@ == id
}

/// Whether the node at index `i` has the id of a node before it.
pub open spec fn repeats_id(p: TaskPlan, i: int) -> bool {
    exists|j: int| 0 <= j < i && (#[trigger] p.nodes@[j]).id@ == p.nodes@[i].id@
}

/// Whether an end of the edge at index `k` is no node.
pub open spec fn loose_edge(p: TaskPlan, k: int) -> bool {
    !known(p, p.edges@[k].0@) || !known(p, p.edges@[k].1@)
}

/// Whether the dependency `d` of the node at index `i` is no node.
pub open spec fn loose_dependency(p: TaskPlan, i: int, d: int) -> bool {
    !known(p, p.nodes@[i].dependencies@[d]@)
}

/// The first dependency of the node at index `i` that is no node.
pub open spec fn first_loose(p: TaskPlan, i: int) -> Option<int> {
    seqs::first_from(
        |d: int| loose_dependency(p, i, d),
        0,
        p.nodes@[i].dependencies@.len() as int,
    )
}

/// Whether the node at index `j` waits for the node at index `i`.
pub open spec fn precedes(p: TaskPlan, i: int, j: int) -> bool {
    edge_between(p, i, j) || depends_on(p, i, j)
}

/// Whether an edge leads from the node at index `i` to that at index `j`.
pub open spec fn edge_between(p: TaskPlan, i: int, j: int) -> bool {
    exists|k: int|
        0 <= k < p.edges@.len() && (#[trigger] p.edges@[k]).0@ == p.nodes@[i].id@
            && p.edges@[k].1@ == p.nodes@[j].id@
}

/// Whether the node at index `j` names that at index `i` as a dependency.
pub open spec fn depends_on(p: TaskPlan, i: int, j: int) -> bool {
    exists|d: int|
        0 <= d < p.nodes@[j].dependencies@.len() && (#[trigger] p.nodes@[j].dependencies@[d])@
            == p.nodes@[i].id@
}

/// Whether `c` is a round of nodes each of which waits for the one before it,
/// and the first for the last.
pub open spec fn is_cycle(p: TaskPlan, c: Seq<int>) -> bool {
    &&& c.len() > 0
    &&& forall|k: int| 0 <= k < c.len() ==> 0 <= #[trigger] c[k] < p.nodes@.len()
    &&& forall|k: int| 0 <= k < c.len() - 1 ==> precedes(p, #[trigger] c[k], c[k + 1])
    &&& precedes(p, c.last(), c[0])
}

/// Whether some nodes wait for each other in a round.
pub open spec fn has_cycle(p: TaskPlan) -> bool {
    exists|c: Seq<int>| is_cycle(p, c)
}

/// Whether `rank` numbers the nodes so that each comes after all it waits for.
pub open spec fn is_rank(p: TaskPlan, rank: Seq<nat>) -> bool {
    &&& rank.len() == p.nodes@.len()
    &&& forall|i: int, j: int|
        0 <= i < p.nodes@.len() && 0 <= j < p.nodes@.len() && #[trigger] precedes(p, i, j)
            ==> rank[i] < rank[j]
}

/// What is wrong with a plan: the first of its faults, in the order in which
/// they are looked for.
pub open spec fn fault(p: TaskPlan) -> Option<PlanFault> {
    let n = p.nodes@.len() as int;
    let duplicate = seqs::first_from(|i: int| repeats_id(p, i), 0, n);
    let edge = seqs::first_from(|k: int| loose_edge(p, k), 0, p.edges@.len() as int);
    let node = seqs::first_from(|i: int| first_loose(p, i) is Some, 0, n);
    if n == 0 {
        Some(PlanFault::NoNodes)
    } else if duplicate is Some {
        Some(PlanFault::DuplicateId(p.nodes@[duplicate->0].id@))
    } else if edge is Some {
        if !known(p, p.edges@[edge->0].0@) {
            Some(PlanFault::UnknownEdgeNode(p.edges@[edge->0].0@))
        } else {
            Some(PlanFault::UnknownEdgeNode(p.edges@[edge->0].1@))
        }
    } else if node is Some {
        Some(
            PlanFault::UnknownDependency(
                p.nodes@[node->0].id@,
                p.nodes@[node->0].dependencies@[first_loose(p, node->0)->0]@,
            ),
        )
    } else if has_cycle(p) {
        Some(PlanFault::Cycle)
    } else {
        None
    }
}

/// Whether the ids are distinct and every edge and dependency names a node.
pub open spec fn linked(p: TaskPlan) -> bool {
    &&& forall|i: int| 0 <= i < p.nodes@.len() ==> !#[trigger] repeats_id(p, i)
    &&& forall|k: int| 0 <= k < p.edges@.len() ==> !#[trigger] loose_edge(p, k)
    &&& forall|i: int, d: int|
        0 <= i < p.nodes@.len() && 0 <= d < p.nodes@[i].dependencies@.len()
            ==> !#[trigger] loose_dependency(p, i, d)
}

proof fn lemma_fault_links(p: TaskPlan)
    requires
        fault(p) is None || fault(p) == Some(PlanFault::Cycle),
    ensures
        linked(p),
{
    let n = p.nodes@.len() as int;
    seqs::lemma_first_from(|i: int| repeats_id(p, i), 0, n);
    seqs::lemma_first_from(|k: int| loose_edge(p, k), 0, p.edges@.len() as int);
    seqs::lemma_first_from(|i: int| first_loose(p, i) is Some, 0, n);
    let f = |i: int| repeats_id(p, i);
    let g = |k: int| loose_edge(p, k);
    let h = |i: int| first_loose(p, i) is Some;
    assert forall|i: int| 0 <= i < n implies !#[trigger] repeats_id(p, i) by {
        assert(!f(i));
    }
    assert forall|k: int| 0 <= k < p.edges@.len() implies !#[trigger] loose_edge(p, k) by {
        assert(!g(k));
    }
    assert forall|i: int, d: int|
        0 <= i < n && 0 <= d
            < p.nodes@[i].dependencies@.len() implies !#[trigger] loose_dependency(p, i, d) by {
        assert(!h(i));
        let q = |d: int| loose_dependency(p, i, d);
        seqs::lemma_first_from(q, 0, p.nodes@[i].dependencies@.len() as int);
        assert(!q(d));
    }
}

/// A plan whose nodes can be numbered has no cycle.
pub proof fn law_ranked_plan_has_no_cycle(p: TaskPlan, rank: Seq<nat>)
    requires
        is_rank(p, rank),
    ensures
        !has_cycle(p),
{
    if has_cycle(p) {
        let c = choose|c: Seq<int>| is_cycle(p, c);
        lemma_rank_along(p, rank, c, c.len() - 1);
        assert(precedes(p, c.last(), c[0]));
    }
}

proof fn lemma_rank_along(p: TaskPlan, rank: Seq<nat>, c: Seq<int>, k: int)
    requires
        is_rank(p, rank),
        is_cycle(p, c),
        0 <= k < c.len(),
    ensures
        rank[c[0]] <= rank[c[k]],
    decreases k,
{
    if k > 0 {
        lemma_rank_along(p, rank, c, k - 1);
        assert(precedes(p, c[k - 1], c[k - 1 + 1]));
    }
}

// ---------------------------------------------------------------------------
// Finding a cycle
// ---------------------------------------------------------------------------

/// Whether every node that is not done waits for a node that is not done.
spec fn all_stuck(p: TaskPlan, done: Seq<bool>) -> bool {
    &&& done.len() == p.nodes@.len()
    &&& forall|j: int| 0 <= j < done.len() && !#[trigger] done[j] ==> has_open_predecessor(p, done, j)
}

spec fn has_open_predecessor(p: TaskPlan, done: Seq<bool>, j: int) -> bool {
    exists|i: int| 0 <= i < done.len() && !done[i] && #[trigger] precedes(p, i, j)
}

/// A walk from `start` against the direction of the edges.
spec fn walk_back(p: TaskPlan, done: Seq<bool>, start: int, k: nat) -> int
    decreases k,
{
    if k == 0 {
        start
    } else {
        let at = walk_back(p, done, start, (k - 1) as nat);
        choose|i: int| 0 <= i < done.len() && !done[i] && #[trigger] precedes(p, i, at)
    }
}

proof fn lemma_walk_back(p: TaskPlan, done: Seq<bool>, start: int, k: nat)
    requires
        all_stuck(p, done),
        0 <= start < done.len(),
        !done[start],
    ensures
        0 <= walk_back(p, done, start, k) < done.len(),
        !done[walk_back(p, done, start, k)],
        k > 0 ==> precedes(
            p,
            walk_back(p, done, start, k),
            walk_back(p, done, start, (k - 1) as nat),
        ),
    decreases k,
{
    if k > 0 {
        lemma_walk_back(p, done, start, (k - 1) as nat);
        let at = walk_back(p, done, start, (k - 1) as nat);
        assert(has_open_predecessor(p, done, at));
    }
}

/// A sequence that is longer than the range of its values holds a value twice.
proof fn lemma_pigeonhole(w: Seq<int>, n: nat)
    requires
        forall|k: int| 0 <= k < w.len() ==> 0 <= #[trigger] w[k] < n,
        w.len() > n,
    ensures
        exists|a: int, b: int| 0 <= a < b < w.len() && #[trigger] w[a] == #[trigger] w[b],
{
    if !(exists|a: int, b: int| 0 <= a < b < w.len() && #[trigger] w[a] == #[trigger] w[b]) {
        assert(w.no_duplicates()) by {
            assert forall|a: int, b: int|
                0 <= a < w.len() && 0 <= b < w.len() && a != b implies w[a] != w[b] by {
                if a < b {
                } else {
                    assert(w[b] != w[a]);
                }
            }
        }
        w.unique_seq_to_set();
        let all = vstd::set_lib::set_int_range(0, n as int);
        vstd::set_lib::lemma_int_range(0, n as int);
        assert(w.to_set().subset_of(all));
        vstd::set_lib::lemma_len_subset(w.to_set(), all);
    }
}

/// Where every node that is not done waits for another such node, there is a
/// cycle.
proof fn lemma_stuck_has_cycle(p: TaskPlan, done: Seq<bool>, start: int)
    requires
        all_stuck(p, done),
        0 <= start < done.len(),
        !done[start],
    ensures
        has_cycle(p),
{
    let n = done.len();
    let w = Seq::new(n + 1, |k: int| walk_back(p, done, start, k as nat));
    assert forall|k: int| 0 <= k < w.len() implies 0 <= #[trigger] w[k] < n by {
        lemma_walk_back(p, done, start, k as nat);
    }
    lemma_pigeonhole(w, n);
    let (a, b) = choose|a: int, b: int|
        0 <= a < b < w.len() && #[trigger] w[a] == #[trigger] w[b];
    let c = Seq::new((b - a) as nat, |k: int| w[b - k]);
    assert forall|k: int| 0 <= k < c.len() - 1 implies precedes(p, #[trigger] c[k], c[k + 1]) by {
        lemma_walk_back(p, done, start, (b - k) as nat);
        assert(w[b - k - 1] == c[k + 1]);
    }
    lemma_walk_back(p, done, start, (a + 1) as nat);
    assert(c.last() == w[a + 1]);
    assert(c[0] == w[a]);
    assert forall|k: int| 0 <= k < c.len() implies 0 <= #[trigger] c[k] < p.nodes@.len() by {
        assert(0 <= w[b - k] < n);
    }
    assert(is_cycle(p, c));
}

/// How many entries are false.
spec fn open_count(done: Seq<bool>) -> nat
    decreases done.len(),
{
    if done.len() == 0 {
        0
    } else {
        open_count(done.drop_last()) + (if done.last() {
            0nat
        } else {
            1
        })
    }
}

proof fn lemma_open_count_update(done: Seq<bool>, i: int)
    requires
        0 <= i < done.len(),
        !done[i],
    ensures
        open_count(done.update(i, true)) == open_count(done) - 1,
    decreases done.len(),
{
    let u = done.update(i, true);
    if i == done.len() - 1 {
        assert(u.drop_last() =~= done.drop_last());
    } else {
        assert(u.drop_last() =~= done.drop_last().update(i, true));
        lemma_open_count_update(done.drop_last(), i);
    }
}

/// A node that is not done and waits for no node that is not done; `pairs`
/// holds what waits for what.
fn find_ready(pairs: &Vec<(usize, usize)>, done: &Vec<bool>) -> (r: Option<usize>)
    requires
        forall|q: int|
            0 <= q < pairs@.len() ==> (#[trigger] pairs@[q]).0 < done@.len() && pairs@[q].1
                < done@.len(),
    ensures
        r matches Some(j) ==> j < done@.len() && !done@[j as int] && forall|q: int|
            0 <= q < pairs@.len() && (#[trigger] pairs@[q]).1 == j ==> done@[pairs@[q].0 as int],
        r is None ==> forall|j: int|
            0 <= j < done@.len() && !#[trigger] done@[j] ==> exists|q: int|
                0 <= q < pairs@.len() && (#[trigger] pairs@[q]).1 == j
                    && !done@[pairs@[q].0 as int],
{
    let mut j: usize = 0;
    while j < done.len()
        invariant
            0 <= j <= done@.len(),
            forall|q: int|
                0 <= q < pairs@.len() ==> (#[trigger] pairs@[q]).0 < done@.len() && pairs@[q].1
                    < done@.len(),
            forall|i: int|
                0 <= i < j && !#[trigger] done@[i] ==> exists|q: int|
                    0 <= q < pairs@.len() && (#[trigger] pairs@[q]).1 == i
                        && !done@[pairs@[q].0 as int],
        decreases done@.len() - j,
    {
        if !done[j] {
            let mut free = true;
            let mut q: usize = 0;
            while q < pairs.len()
                invariant
                    0 <= q <= pairs@.len(),
                    j < done@.len(),
                    forall|q: int|
                        0 <= q < pairs@.len() ==> (#[trigger] pairs@[q]).0 < done@.len()
                            && pairs@[q].1 < done@.len(),
                    free ==> forall|k: int|
                        0 <= k < q && (#[trigger] pairs@[k]).1 == j ==> done@[pairs@[k].0 as int],
                    !free ==> exists|k: int|
                        0 <= k < pairs@.len() && (#[trigger] pairs@[k]).1 == j
                            && !done@[pairs@[k].0 as int],
                decreases pairs@.len() - q,
            {
                if pairs[q].1 == j && !done[pairs[q].0] {
                    free = false;
                }
                q += 1;
            }
            if free {
                return Some(j);
            }
        }
        j += 1;
    }
    None
}

/// The name of a plan that is made at that time, in nanoseconds.
pub fn plan_id(nanos: u128) -> (r: String)
    ensures
        r@ == "plan-"@ + json::hex(nanos as nat),
{
    let mut r = "plan-".to_owned();
    r.push_str(hexadecimal(nanos).as_str());
    r
}

impl TaskPlan {
    /// The index of the first node with this id.
    pub fn index_of(&self, id: &str) -> (r: Option<usize>)
        ensures
            r matches Some(i) ==> i < self.nodes@.len() && self.nodes@[i as int].id@ == id@,
            r is None <==> !known(*self, id@),
    {
        let mut i: usize = 0;
        while i < self.nodes.len()
            invariant
                0 <= i <= self.nodes@.len(),
                forall|j: int| 0 <= j < i ==> (#[trigger] self.nodes@[j]).id@ != id@,
            decreases self.nodes@.len() - i,
        {
            if str_eq(self.nodes[i].id.as_str(), id) {
                return Some(i);
            }
            i += 1;
        }
        None
    }

    /// Whether a node has the id of a node before it; the first such node.
    fn find_duplicate(&self) -> (r: Option<usize>)
        ensures
            seqs::first_from(|i: int| repeats_id(*self, i), 0, self.nodes@.len() as int) == (
            match r {
                Some(i) => Some(i as int),
                None => None::<int>,
            }),
            r matches Some(i) ==> i < self.nodes@.len(),
    {
        let ghost f = |i: int| repeats_id(*self, i);
        let mut i: usize = 0;
        while i < self.nodes.len()
            invariant
                0 <= i <= self.nodes@.len(),
                f == (|i: int| repeats_id(*self, i)),
                forall|j: int| 0 <= j < i ==> !#[trigger] f(j),
            decreases self.nodes@.len() - i,
        {
            let mut j: usize = 0;
            while j < i
                invariant
                    0 <= j <= i < self.nodes@.len(),
                    f == (|i: int| repeats_id(*self, i)),
                    forall|j: int| 0 <= j < i ==> !#[trigger] f(j),
                    forall|k: int|
                        0 <= k < j ==> (#[trigger] self.nodes@[k]).id@ != self.nodes@[i as int].id@,
                decreases i - j,
            {
                if str_eq(self.nodes[j].id.as_str(), self.nodes[i].id.as_str()) {
                    proof {
                        assert(f(i as int));
                        seqs::lemma_first_skip(f, 0, i as int, self.nodes@.len() as int);
                    }
                    return Some(i);
                }
                j += 1;
            }
            proof {
                assert(!f(i as int));
            }
            i += 1;
        }
        proof {
            seqs::lemma_first_skip(f, 0, i as int, self.nodes@.len() as int);
        }
        None
    }

    /// The first edge of which an end is no node.
    fn find_loose_edge(&self) -> (r: Option<usize>)
        ensures
            seqs::first_from(|k: int| loose_edge(*self, k), 0, self.edges@.len() as int) == (
            match r {
                Some(k) => Some(k as int),
                None => None::<int>,
            }),
            r matches Some(k) ==> k < self.edges@.len(),
    {
        let ghost f = |k: int| loose_edge(*self, k);
        let mut k: usize = 0;
        while k < self.edges.len()
            invariant
                0 <= k <= self.edges@.len(),
                f == (|k: int| loose_edge(*self, k)),
                forall|j: int| 0 <= j < k ==> !#[trigger] f(j),
            decreases self.edges@.len() - k,
        {
            let loose = self.index_of(self.edges[k].0.as_str()).is_none() || self.index_of(
                self.edges[k].1.as_str(),
            ).is_none();
            proof {
                assert(f(k as int) == loose);
            }
            if loose {
                proof {
                    seqs::lemma_first_skip(f, 0, k as int, self.edges@.len() as int);
                }
                return Some(k);
            }
            k += 1;
        }
        proof {
            seqs::lemma_first_skip(f, 0, k as int, self.edges@.len() as int);
        }
        None
    }

    /// The first dependency of the node at index `i` that is no node.
    fn find_loose_dependency(&self, i: usize) -> (r: Option<usize>)
        requires
            i < self.nodes@.len(),
        ensures
            first_loose(*self, i as int) == (match r {
                Some(d) => Some(d as int),
                None => None::<int>,
            }),
            r matches Some(d) ==> d < self.nodes@[i as int].dependencies@.len(),
    {
        let ghost f = |d: int| loose_dependency(*self, i as int, d);
        let deps = &self.nodes[i].dependencies;
        let mut d: usize = 0;
        while d < deps.len()
            invariant
                0 <= d <= deps@.len(),
                i < self.nodes@.len(),
                *deps == self.nodes@[i as int].dependencies,
                f == (|d: int| loose_dependency(*self, i as int, d)),
                forall|j: int| 0 <= j < d ==> !#[trigger] f(j),
            decreases deps@.len() - d,
        {
            let loose = self.index_of(deps[d].as_str()).is_none();
            proof {
                assert(f(d as int) == loose);
            }
            if loose {
                proof {
                    seqs::lemma_first_skip(f, 0, d as int, deps@.len() as int);
                }
                return Some(d);
            }
            d += 1;
        }
        proof {
            seqs::lemma_first_skip(f, 0, d as int, deps@.len() as int);
        }
        None
    }

    /// What waits for what, by index: `(i, j)` where `j` waits for `i`.
    fn precedence_pairs(&self) -> (r: Vec<(usize, usize)>)
        requires
            linked(*self),
        ensures
            forall|q: int|
                0 <= q < r@.len() ==> (#[trigger] r@[q]).0 < self.nodes@.len() && r@[q].1
                    < self.nodes@.len() && precedes(*self, r@[q].0 as int, r@[q].1 as int),
            forall|i: int, j: int|
                0 <= i < self.nodes@.len() && 0 <= j < self.nodes@.len() && #[trigger] precedes(
                    *self,
                    i,
                    j,
                ) ==> exists|q: int|
                    0 <= q < r@.len() && (#[trigger] r@[q]).0 == i && r@[q].1 == j,
    {
        let ghost n = self.nodes@.len();
        let mut r: Vec<(usize, usize)> = Vec::new();
        let mut k: usize = 0;
        while k < self.edges.len()
            invariant
                0 <= k <= self.edges@.len(),
                n == self.nodes@.len(),
                linked(*self),
                forall|q: int|
                    0 <= q < r@.len() ==> (#[trigger] r@[q]).0 < n && r@[q].1 < n && precedes(
                        *self,
                        r@[q].0 as int,
                        r@[q].1 as int,
                    ),
                forall|e: int| 0 <= e < k ==> #[trigger] edge_listed(*self, r@, e),
            decreases self.edges@.len() - k,
        {
            let from = self.index_of(self.edges[k].0.as_str());
            let to = self.index_of(self.edges[k].1.as_str());
            proof {
                assert(!loose_edge(*self, k as int));
            }
            if let (Some(i), Some(j)) = (from, to) {
                let ghost before = r@;
                r.push((i, j));
                proof {
                    assert(edge_between(*self, i as int, j as int));
                    assert forall|e: int| 0 <= e < k + 1 implies #[trigger] edge_listed(
                        *self,
                        r@,
                        e,
                    ) by {
                        if e < k {
                            assert(edge_listed(*self, before, e));
                            lemma_edge_listed_push(*self, before, (i, j), e);
                        } else {
                            assert(r@[before.len() as int] == (i, j));
                        }
                    }
                }
            }
            k += 1;
        }
        let mut j: usize = 0;
        while j < self.nodes.len()
            invariant
                0 <= j <= self.nodes@.len(),
                n == self.nodes@.len(),
                linked(*self),
                forall|q: int|
                    0 <= q < r@.len() ==> (#[trigger] r@[q]).0 < n && r@[q].1 < n && precedes(
                        *self,
                        r@[q].0 as int,
                        r@[q].1 as int,
                    ),
                forall|e: int| 0 <= e < self.edges@.len() ==> #[trigger] edge_listed(*self, r@, e),
                forall|m: int, d: int|
                    0 <= m < j && 0 <= d < self.nodes@[m].dependencies@.len()
                        ==> #[trigger] dependency_listed(*self, r@, m, d),
            decreases self.nodes@.len() - j,
        {
            let deps = &self.nodes[j].dependencies;
            let mut d: usize = 0;
            while d < deps.len()
                invariant
                    0 <= d <= deps@.len(),
                    j < self.nodes@.len(),
                    *deps == self.nodes@[j as int].dependencies,
                    n == self.nodes@.len(),
                    linked(*self),
                    forall|q: int|
                        0 <= q < r@.len() ==> (#[trigger] r@[q]).0 < n && r@[q].1 < n && precedes(
                            *self,
                            r@[q].0 as int,
                            r@[q].1 as int,
                        ),
                    forall|e: int|
                        0 <= e < self.edges@.len() ==> #[trigger] edge_listed(*self, r@, e),
                    forall|m: int, d: int|
                        0 <= m < j && 0 <= d < self.nodes@[m].dependencies@.len()
                            ==> #[trigger] dependency_listed(*self, r@, m, d),
                    forall|e: int|
                        0 <= e < d ==> #[trigger] dependency_listed(*self, r@, j as int, e),
                decreases deps@.len() - d,
            {
                proof {
                    assert(!loose_dependency(*self, j as int, d as int));
                }
                if let Some(i) = self.index_of(deps[d].as_str()) {
                    let ghost before = r@;
                    r.push((i, j));
                    proof {
                        assert(depends_on(*self, i as int, j as int));
                        assert forall|e: int| 0 <= e < self.edges@.len() implies
                            #[trigger] edge_listed(*self, r@, e) by {
                            assert(edge_listed(*self, before, e));
                            lemma_edge_listed_push(*self, before, (i, j), e);
                        }
                        assert forall|m: int, e: int|
                            0 <= m < j && 0 <= e < self.nodes@[m].dependencies@.len() implies
                            #[trigger] dependency_listed(*self, r@, m, e) by {
                            assert(dependency_listed(*self, before, m, e));
                            lemma_dependency_listed_push(*self, before, (i, j), m, e);
                        }
                        assert forall|e: int| 0 <= e < d + 1 implies
                            #[trigger] dependency_listed(*self, r@, j as int, e) by {
                            if e < d {
                                assert(dependency_listed(*self, before, j as int, e));
                                lemma_dependency_listed_push(*self, before, (i, j), j as int, e);
                            } else {
                                assert(r@[before.len() as int] == (i, j));
                            }
                        }
                    }
                }
                d += 1;
            }
            j += 1;
        }
        proof {
            assert forall|i: int, j: int|
                0 <= i < n && 0 <= j < n && #[trigger] precedes(*self, i, j) implies exists|q: int|
                0 <= q < r@.len() && (#[trigger] r@[q]).0 == i && r@[q].1 == j by {
                if edge_between(*self, i, j) {
                    let e = choose|e: int|
                        0 <= e < self.edges@.len() && (#[trigger] self.edges@[e]).0@
                            == self.nodes@[i].id@ && self.edges@[e].1@ == self.nodes@[j].id@;
                    assert(edge_listed(*self, r@, e));
                    let q = choose|q: int|
                        0 <= q < r@.len() && (#[trigger] r@[q]).0 < n && r@[q].1 < n
                            && self.nodes@[r@[q].0 as int].id@ == self.edges@[e].0@
                            && self.nodes@[r@[q].1 as int].id@ == self.edges@[e].1@;
                    lemma_ids_distinct(*self, r@[q].0 as int, i);
                    lemma_ids_distinct(*self, r@[q].1 as int, j);
                } else {
                    let d = choose|d: int|
                        0 <= d < self.nodes@[j].dependencies@.len()
                            && (#[trigger] self.nodes@[j].dependencies@[d])@ == self.nodes@[i].id@;
                    assert(dependency_listed(*self, r@, j, d));
                    let q = choose|q: int|
                        0 <= q < r@.len() && (#[trigger] r@[q]).0 < n && r@[q].1 == j
                            && self.nodes@[r@[q].0 as int].id@
                            == self.nodes@[j].dependencies@[d]@;
                    lemma_ids_distinct(*self, r@[q].0 as int, i);
                }
            }
        }
        r
    }

    /// Looks for tasks that wait for each other in a round, by taking away,
    /// again and again, a task that waits for none that is left.
    fn check_cycle(&self) -> (r: Result<(), PlanError>)
        requires
            linked(*self),
        ensures
            r is Ok <==> !has_cycle(*self),
            r is Ok ==> exists|rank: Seq<nat>| is_rank(*self, rank),
            r matches Err(e) ==> e is Cycle,
    {
        let pairs = self.precedence_pairs();
        let n: usize = self.nodes.len();
        let mut done: Vec<bool> = Vec::new();
        let mut i: usize = 0;
        while i < n
            invariant
                0 <= i <= n,
                done@.len() == i,
                forall|k: int| 0 <= k < i ==> !#[trigger] done@[k],
            decreases n - i,
        {
            done.push(false);
            i += 1;
        }
        let ghost mut rank: Seq<nat> = Seq::new(n as nat, |k: int| 0nat);
        let ghost mut count: nat = 0;
        loop
            invariant
                n == self.nodes@.len() == done@.len() == rank.len(),
                forall|q: int|
                    0 <= q < pairs@.len() ==> (#[trigger] pairs@[q]).0 < n && pairs@[q].1 < n
                        && precedes(*self, pairs@[q].0 as int, pairs@[q].1 as int),
                forall|i: int, j: int|
                    0 <= i < n && 0 <= j < n && #[trigger] precedes(*self, i, j) ==> exists|q: int|
                        0 <= q < pairs@.len() && (#[trigger] pairs@[q]).0 == i && pairs@[q].1 == j,
                forall|k: int| 0 <= k < n && #[trigger] done@[k] ==> rank[k] < count,
                forall|i: int, j: int|
                    0 <= i < n && 0 <= j < n && #[trigger] precedes(*self, i, j) && done@[j]
                        ==> done@[i] && rank[i] < rank[j],
            decreases open_count(done@),
        {
            match find_ready(&pairs, &done) {
                Some(j) => {
                    proof {
                        lemma_open_count_update(done@, j as int);
                        rank = rank.update(j as int, count);
                        count = count + 1;
                    }
                    done.set(j, true);
                    proof {
                        assert forall|a: int, b: int|
                            0 <= a < n && 0 <= b < n && #[trigger] precedes(*self, a, b)
                                && done@[b] implies done@[a] && rank[a] < rank[b] by {
                            let q = choose|q: int|
                                0 <= q < pairs@.len() && (#[trigger] pairs@[q]).0 == a
                                    && pairs@[q].1 == b;
                            assert(pairs@[q].1 == b);
                        }
                    }
                },
                None => {
                    let mut k: usize = 0;
                    while k < n
                        invariant
                            0 <= k <= n,
                            n == self.nodes@.len() == done@.len(),
                            all_stuck(*self, done@),
                            forall|m: int| 0 <= m < k ==> #[trigger] done@[m],
                        decreases n - k,
                    {
                        if !done[k] {
                            proof {
                                lemma_stuck_has_cycle(*self, done@, k as int);
                            }
                            return Err(PlanError::Cycle);
                        }
                        k += 1;
                    }
                    proof {
                        assert(is_rank(*self, rank));
                        law_ranked_plan_has_no_cycle(*self, rank);
                    }
                    return Ok(());
                },
            }
        }
    }

    /// Whether the plan can be run: it has nodes, their ids are distinct,
    /// every edge and dependency names a node, and no nodes wait for each
    /// other in a round.
    pub fn validate(&self) -> (r: Result<(), PlanError>)
        ensures
            fault(*self) == (match r {
                Ok(_) => None::<PlanFault>,
                Err(e) => Some(e@),
            }),
            r is Ok ==> exists|rank: Seq<nat>| is_rank(*self, rank),
    {
        if self.nodes.len() == 0 {
            return Err(PlanError::NoNodes);
        }
        if let Some(i) = self.find_duplicate() {
            return Err(PlanError::DuplicateId(self.nodes[i].id.clone()));
        }
        if let Some(k) = self.find_loose_edge() {
            if self.index_of(self.edges[k].0.as_str()).is_none() {
                return Err(PlanError::UnknownEdgeNode(self.edges[k].0.clone()));
            }
            return Err(PlanError::UnknownEdgeNode(self.edges[k].1.clone()));
        }
        let ghost h = |i: int| first_loose(*self, i) is Some;
        let mut i: usize = 0;
        while i < self.nodes.len()
            invariant
                0 <= i <= self.nodes@.len(),
                h == (|i: int| first_loose(*self, i) is Some),
                forall|j: int| 0 <= j < i ==> !#[trigger] h(j),
                self.nodes@.len() > 0,
                seqs::first_from(|i: int| repeats_id(*self, i), 0, self.nodes@.len() as int) is None,
                seqs::first_from(|k: int| loose_edge(*self, k), 0, self.edges@.len() as int) is None,
            decreases self.nodes@.len() - i,
        {
            if let Some(d) = self.find_loose_dependency(i) {
                proof {
                    assert(h(i as int));
                    seqs::lemma_first_skip(h, 0, i as int, self.nodes@.len() as int);
                }
                return Err(
                    PlanError::UnknownDependency {
                        node: self.nodes[i].id.clone(),
                        dependency: self.nodes[i].dependencies[d].clone(),
                    },
                );
            }
            proof {
                assert(!h(i as int));
            }
            i += 1;
        }
        proof {
            seqs::lemma_first_skip(h, 0, i as int, self.nodes@.len() as int);
            lemma_fault_links(*self);
        }
        self.check_cycle()
    }

    /// The plan of a single task, for a request that could not be planned.
    /// `id` names the plan.
    pub fn single_node_fallback(id: String, prompt: String) -> (r: TaskPlan)
        ensures
            r.id@ == id@,
            r.nodes@.len() == 1,
            r.nodes@[0].id@ == "fallback"@,
            r.nodes@[0].node_type@ == "general"@,
            r.nodes@[0].prompt@ == prompt@,
            r.nodes@[0].dependencies@.len() == 0,
            r.nodes@[0].model_override is None,
            r.nodes@[0].timeout_ms is None,
            r.nodes@[0].max_retries is None,
            r.nodes@[0].acceptance_criteria is None,
            r.edges@.len() == 0,
            r.failure_policy == FailurePolicy::FailFast,
            r.metadata.source_prompt@.len() == 0,
            r.metadata.planner_model@.len() == 0,
            fault(r) is None,
    {
        let node = TaskNode {
            id: "fallback".to_owned(),
            node_type: "general".to_owned(),
            prompt,
            dependencies: Vec::new(),
            model_override: None,
            timeout_ms: None,
            max_retries: None,
            acceptance_criteria: None,
        };
        let mut nodes: Vec<TaskNode> = Vec::new();
        nodes.push(node);
        let plan = TaskPlan {
            id,
            nodes,
            edges: Vec::new(),
            failure_policy: FailurePolicy::FailFast,
            metadata: PlanMetadata::default(),
        };
        proof {
            let f = |i: int| repeats_id(plan, i);
            let g = |k: int| loose_edge(plan, k);
            let h = |i: int| first_loose(plan, i) is Some;
            seqs::lemma_first_from(f, 0, 1);
            seqs::lemma_first_from(g, 0, 0);
            seqs::lemma_first_from(h, 0, 1);
            let rank: Seq<nat> = seq![0nat];
            assert(is_rank(plan, rank));
            law_ranked_plan_has_no_cycle(plan, rank);
        }
        plan
    }
}

spec fn edge_listed(p: TaskPlan, r: Seq<(usize, usize)>, e: int) -> bool {
    exists|q: int|
        0 <= q < r.len() && (#[trigger] r[q]).0 < p.nodes@.len() && r[q].1 < p.nodes@.len()
            && p.nodes@[r[q].0 as int].id@ == p.edges@[e].0@ && p.nodes@[r[q].1 as int].id@
            == p.edges@[e].1@
}

spec fn dependency_listed(p: TaskPlan, r: Seq<(usize, usize)>, j: int, d: int) -> bool {
    exists|q: int|
        0 <= q < r.len() && (#[trigger] r[q]).0 < p.nodes@.len() && r[q].1 == j
            && p.nodes@[r[q].0 as int].id@ == p.nodes@[j].dependencies@[d]@
}

proof fn lemma_edge_listed_push(p: TaskPlan, r: Seq<(usize, usize)>, x: (usize, usize), e: int)
    requires
        edge_listed(p, r, e),
    ensures
        edge_listed(p, r.push(x), e),
{
    let q = choose|q: int|
        0 <= q < r.len() && (#[trigger] r[q]).0 < p.nodes@.len() && r[q].1 < p.nodes@.len()
            && p.nodes@[r[q].0 as int].id@ == p.edges@[e].0@ && p.nodes@[r[q].1 as int].id@
            == p.edges@[e].1@;
    assert(r.push(x)[q] == r[q]);
}

proof fn lemma_dependency_listed_push(
    p: TaskPlan,
    r: Seq<(usize, usize)>,
    x: (usize, usize),
    j: int,
    d: int,
)
    requires
        dependency_listed(p, r, j, d),
    ensures
        dependency_listed(p, r.push(x), j, d),
{
    let q = choose|q: int|
        0 <= q < r.len() && (#[trigger] r[q]).0 < p.nodes@.len() && r[q].1 == j
            && p.nodes@[r[q].0 as int].id@ == p.nodes@[j].dependencies@[d]@;
    assert(r.push(x)[q] == r[q]);
}

proof fn lemma_ids_distinct(p: TaskPlan, a: int, b: int)
    requires
        linked(p),
        0 <= a < p.nodes@.len(),
        0 <= b < p.nodes@.len(),
        p.nodes@[a].id@ == p.nodes@[b].id@,
    ensures
        a == b,
{
    if a < b {
        assert(repeats_id(p, b));
    } else if b < a {
        assert(repeats_id(p, a));
    }
}

/// The ids of a plan without faults are distinct, and every edge and
/// dependency names a node.
pub proof fn law_sound_plan_is_linked(p: TaskPlan)
    requires
        fault(p) is None,
    ensures
        linked(p),
        !has_cycle(p),
{
    lemma_fault_links(p);
}

/// A plan is accepted whose ids are distinct, whose edges and dependencies
/// name its nodes, and whose nodes can be put in an order.
pub proof fn law_sound_plans_are_accepted(p: TaskPlan, rank: Seq<nat>)
    requires
        p.nodes@.len() > 0,
        forall|i: int, j: int|
            0 <= i < j < p.nodes@.len() ==> (#[trigger] p.nodes@[i]).id@ != (
            #[trigger] p.nodes@[j]).id@,
        forall|k: int|
            0 <= k < p.edges@.len() ==> (exists|i: int|
                0 <= i < p.nodes@.len() && (#[trigger] p.nodes@[i]).id@ == (
                #[trigger] p.edges@[k]).0@) && (exists|i: int|
                0 <= i < p.nodes@.len() && (#[trigger] p.nodes@[i]).id@ == p.edges@[k].1@),
        forall|j: int, d: int|
            0 <= j < p.nodes@.len() && 0 <= d < p.nodes@[j].dependencies@.len() ==> (exists|i: int|
                0 <= i < p.nodes@.len() && (#[trigger] p.nodes@[i]).id@ == (
                #[trigger] p.nodes@[j].dependencies@[d])@),
        is_rank(p, rank),
    ensures
        fault(p) is None,
{
    let n = p.nodes@.len() as int;
    law_ranked_plan_has_no_cycle(p, rank);
    let f = |i: int| repeats_id(p, i);
    let g = |k: int| loose_edge(p, k);
    let h = |i: int| first_loose(p, i) is Some;
    seqs::lemma_first_from(f, 0, n);
    seqs::lemma_first_from(g, 0, p.edges@.len() as int);
    seqs::lemma_first_from(h, 0, n);
    if let Some(i) = seqs::first_from(f, 0, n) {
        assert(f(i));
        let j = choose|j: int| 0 <= j < i && (#[trigger] p.nodes@[j]).id@ == p.nodes@[i].id@;
        assert(p.nodes@[j].id@ != p.nodes@[i].id@);
    }
    if let Some(k) = seqs::first_from(g, 0, p.edges@.len() as int) {
        assert(g(k));
        assert(p.edges@[k].0@ == p.edges@[k].0@);
        assert(known(p, p.edges@[k].0@));
        assert(known(p, p.edges@[k].1@));
    }
    if let Some(i) = seqs::first_from(h, 0, n) {
        assert(h(i));
        let q = |d: int| loose_dependency(p, i, d);
        let len = p.nodes@[i].dependencies@.len() as int;
        seqs::lemma_first_from(q, 0, len);
        let d = seqs::first_from(q, 0, len)->0;
        assert(q(d));
        assert(p.nodes@[i].dependencies@[d]@ == p.nodes@[i].dependencies@[d]@);
        assert(known(p, p.nodes@[i].dependencies@[d]@));
    }
}

/// A plan is refused in which an id occurs twice, an edge or a dependency
/// names no node, or a node waits for itself.
pub proof fn law_faulty_plans_are_refused(p: TaskPlan, i: int, j: int)
    ensures
        p.nodes@.len() == 0 ==> fault(p) == Some(PlanFault::NoNodes),
        0 <= i < j < p.nodes@.len() && p.nodes@[i].id@ == p.nodes@[j].id@ ==> fault(p) is Some,
        0 <= i < p.edges@.len() && (forall|k: int|
            0 <= k < p.nodes@.len() ==> (#[trigger] p.nodes@[k]).id@ != p.edges@[i].0@) ==> fault(
            p,
        ) is Some,
        0 <= i < p.edges@.len() && (forall|k: int|
            0 <= k < p.nodes@.len() ==> (#[trigger] p.nodes@[k]).id@ != p.edges@[i].1@) ==> fault(
            p,
        ) is Some,
        0 <= i < p.nodes@.len() && 0 <= j < p.nodes@[i].dependencies@.len() && (forall|k: int|
            0 <= k < p.nodes@.len() ==> (#[trigger] p.nodes@[k]).id@
                != p.nodes@[i].dependencies@[j]@) ==> fault(p) is Some,
        0 <= i < p.nodes@.len() && 0 <= j < p.nodes@[i].dependencies@.len()
            && p.nodes@[i].dependencies@[j]@ == p.nodes@[i].id@ ==> fault(p) is Some,
        0 <= i < p.nodes@.len() && 0 <= j < p.edges@.len() && p.edges@[j].0@ == p.nodes@[i].id@
            && p.edges@[j].1@ == p.nodes@[i].id@ ==> fault(p) is Some,
{
    if fault(p) is None {
        lemma_fault_links(p);
        if 0 <= i < j < p.nodes@.len() && p.nodes@[i].id@ == p.nodes@[j].id@ {
            assert(repeats_id(p, j));
        }
        if 0 <= i < p.edges@.len() {
            assert(!loose_edge(p, i));
        }
        if 0 <= i < p.nodes@.len() && 0 <= j < p.nodes@[i].dependencies@.len() {
            assert(!loose_dependency(p, i, j));
            if p.nodes@[i].dependencies@[j]@ == p.nodes@[i].id@ {
                assert(depends_on(p, i, i));
                assert(is_cycle(p, seq![i]));
            }
        }
        if 0 <= i < p.nodes@.len() && 0 <= j < p.edges@.len() && p.edges@[j].0@ == p.nodes@[i].id@
            && p.edges@[j].1@ == p.nodes@[i].id@ {
            assert(edge_between(p, i, i));
            assert(is_cycle(p, seq![i]));
        }
    }
}

} // verus!

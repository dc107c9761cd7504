//! Running a plan: which tasks are started when, and what is recorded.

use crate::message;
use crate::seqs;
use crate::subtasks::protocol;
use crate::subtasks::protocol::{ExecutionRecord, FailurePolicy, NodeStatus, TaskPlan};
use crate::text::str_eq;
use vstd::prelude::*;

verus! {

/// How many tasks run at once unless something else is asked for.
pub const DEFAULT_MAX_CONCURRENCY: usize = 4;

/// How long a task may take unless something else is asked for, in milliseconds.
pub const DEFAULT_TIMEOUT_MS: u64 = 120_000;

/// Runs plans by means of an executor for single tasks.
pub struct DagScheduler<E> {
    executor: E,
    max_concurrency: usize,
    default_timeout_ms: u64,
}

impl<E> DagScheduler<E> {
    /// What runs the single tasks.
    pub closed spec fn spec_executor(self) -> E {
        self.executor
    }

    /// How many tasks run at once.
    pub closed spec fn concurrency(self) -> usize {
        self.max_concurrency
    }

    /// How long a task may take that says nothing itself.
    pub closed spec fn default_timeout(self) -> u64 {
        self.default_timeout_ms
    }

    /// A scheduler; limits that are not given are the usual ones.
    pub fn new(
        executor: E,
        max_concurrency: Option<usize>,
        default_timeout_ms: Option<u64>,
    ) -> (r: Self)
        ensures
            r.spec_executor() == executor,
            r.concurrency() == (match max_concurrency {
                Some(m) => m,
                None => DEFAULT_MAX_CONCURRENCY,
            }),
            r.default_timeout() == (match default_timeout_ms {
                Some(t) => t,
                None => DEFAULT_TIMEOUT_MS,
            }),
    {
        DagScheduler {
            executor,
            max_concurrency: match max_concurrency {
                Some(m) => m,
                None => DEFAULT_MAX_CONCURRENCY,
            },
            default_timeout_ms: match default_timeout_ms {
                Some(t) => t,
                None => DEFAULT_TIMEOUT_MS,
            },
        }
    }

    /// What runs the single tasks.
    pub fn executor(&self) -> (r: &E)
        ensures
            *r == self.spec_executor(),
    {
        &self.executor
    }

    /// How many tasks run at once.
    pub fn max_concurrency(&self) -> (r: usize)
        ensures
            r == self.concurrency(),
    {
        self.max_concurrency
    }

    /// How long the task at index `i` may take, in milliseconds.
    pub fn timeout_ms(&self, plan: &TaskPlan, i: usize) -> (r: u64)
        requires
            i < plan.nodes@.len(),
        ensures
            r == (match plan.nodes@[i as int].timeout_ms {
                Some(t) => t,
                None => self.default_timeout(),
            }),
    {
        match plan.nodes[i].timeout_ms {
            Some(t) => t,
            None => self.default_timeout_ms,
        }
    }
}

// ---------------------------------------------------------------------------
// The state of a plan that is being run
// ---------------------------------------------------------------------------

/// Whether the node at index `i` stands for its id: no later one has it.
pub open spec fn live(p: TaskPlan, i: int) -> bool {
    &&& 0 <= i < p.nodes@.len()
    &&& forall|m: int| i < m < p.nodes@.len() ==> (#[trigger] p.nodes@[m]).id@ != p.nodes@[i].id@
}

/// Whether an edge leads from `id` to the node at index `i`.
pub open spec fn edge_from(p: TaskPlan, i: int, id: Seq<char>) -> bool {
    exists|k: int|
        0 <= k < p.edges@.len() && (#[trigger] p.edges@[k]).1@ == p.nodes@[i].id@
            && p.edges@[k].0@ == id
}

/// Whether the node at index `m` names `id` as a dependency.
pub open spec fn names(p: TaskPlan, m: int, id: Seq<char>) -> bool {
    exists|d: int|
        0 <= d < p.nodes@[m].dependencies@.len() && (#[trigger] p.nodes@[m].dependencies@[d])@ == id
}

/// Whether a node with the id of that at index `i` names `id` as a dependency.
pub open spec fn named_by(p: TaskPlan, i: int, id: Seq<char>) -> bool {
    exists|m: int|
        0 <= m < p.nodes@.len() && (#[trigger] p.nodes@[m]).id@ == p.nodes@[i].id@ && names(
            p,
            m,
            id,
        )
}

/// Whether the node at index `i` waits for `id`.
pub open spec fn needs(p: TaskPlan, i: int, id: Seq<char>) -> bool {
    edge_from(p, i, id) || named_by(p, i, id)
}

/// The index of the node that stands for `id`.
pub open spec fn stands_for(p: TaskPlan, m: int, id: Seq<char>) -> bool {
    live(p, m) && p.nodes@[m].id@ == id
}

/// Whether the node that stands for `id` has one of the statuses in `f`.
pub open spec fn id_has(
    p: TaskPlan,
    st: Seq<NodeStatus>,
    id: Seq<char>,
    f: spec_fn(NodeStatus) -> bool,
) -> bool {
    exists|m: int| #[trigger] stands_for(p, m, id) && f(st[m])
}

/// Whether a status is that of a task that succeeded.
pub open spec fn is_success(s: NodeStatus) -> bool {
    s == NodeStatus::Success
}

/// Whether a status is that of a task whose dependents cannot run.
pub open spec fn is_lost(s: NodeStatus) -> bool {
    s == NodeStatus::Failed || s == NodeStatus::Skipped
}

/// Whether a status is one that does not change any more.
pub open spec fn is_final(s: NodeStatus) -> bool {
    s == NodeStatus::Success || s == NodeStatus::Failed || s == NodeStatus::Skipped
}

/// Whether everything that the node at index `i` waits for succeeded.
pub open spec fn ready(p: TaskPlan, st: Seq<NodeStatus>, i: int) -> bool {
    forall|id: Seq<char>|
        #[trigger] needs(p, i, id) ==> id_has(p, st, id, |s: NodeStatus| is_success(s))
}

/// Whether something that the node at index `i` waits for failed or was left
/// out.
pub open spec fn blocked(p: TaskPlan, st: Seq<NodeStatus>, i: int) -> bool {
    exists|id: Seq<char>|
        #[trigger] needs(p, i, id) && id_has(p, st, id, |s: NodeStatus| is_lost(s))
}

/// Whether a node has this status.
pub open spec fn some_live(p: TaskPlan, st: Seq<NodeStatus>, s: NodeStatus) -> bool {
    exists|i: int| #[trigger] live(p, i) && st[i] == s
}

/// Whether the node at index `i` has not been started or left out.
pub open spec fn waiting(p: TaskPlan, st: Seq<NodeStatus>, i: int) -> bool {
    live(p, i) && st[i] == NodeStatus::Pending
}

/// Whether all is done.
pub open spec fn finished(p: TaskPlan, st: Seq<NodeStatus>) -> bool {
    !some_live(p, st, NodeStatus::Pending) && !some_live(p, st, NodeStatus::Running)
}

/// Whether a failure stops the plan.
pub open spec fn aborts(p: TaskPlan, st: Seq<NodeStatus>) -> bool {
    p.failure_policy == FailurePolicy::FailFast && some_live(p, st, NodeStatus::Failed)
}

/// Whether the node at index `i` is left out in this round.
pub open spec fn skips(p: TaskPlan, st: Seq<NodeStatus>, i: int) -> bool {
    waiting(p, st, i) && p.failure_policy == FailurePolicy::BestEffort && blocked(p, st, i)
}

/// Whether the node at index `i` is started in this round.
pub open spec fn launches(p: TaskPlan, st: Seq<NodeStatus>, i: int) -> bool {
    waiting(p, st, i) && !skips(p, st, i) && ready(p, st, i)
}

/// What to do next.
#[derive(Debug)]
pub enum ScheduleAction {
    /// Nothing: every task has its record.
    Finished,
    /// Wait for the tasks that run, and start no more: a task failed.
    Abort,
    /// Start the tasks at these indexes.
    Launch(Vec<usize>),
    /// Wait for one of the tasks that run.
    Wait,
    /// Go on at once: tasks were left out, and others may wait for them.
    Again,
    /// Stop: nothing runs, and nothing can be started or left out.
    Stalled,
}

/// The state of a plan that is being run.
#[derive(Debug)]
pub struct Schedule {
    /// The status of each node, by its index in the plan.
    pub statuses: Vec<NodeStatus>,
    /// What each node put out, where it succeeded.
    pub outputs: Vec<Option<String>>,
    /// One record for each node that was run or left out, as they came.
    pub records: Vec<ExecutionRecord>,
    /// The index of the node that each record is of.
    pub recorded: Vec<usize>,
}

/// A record of a node that was left out.
pub open spec fn is_skip_record(r: ExecutionRecord, id: Seq<char>, why: Seq<char>) -> bool {
    &&& r.node_id@ == id
    &&& r.model@.len() == 0
    &&& r.input_tokens == 0
    &&& r.output_tokens == 0
    &&& r.duration_ms == 0
    &&& r.status == NodeStatus::Skipped
    &&& r.output is None
    &&& r.error is Some
    &&& r.error->0@ == why
    &&& r.retries == 0
    &&& r.messages is None
    &&& r.tools_used@.len() == 0
    &&& r.tool_events@.len() == 0
    &&& r.decision_events@.len() == 0
    &&& r.diagnostics_summary is None
    &&& r.skills_used@.len() == 0
}

/// Why a task is left out after a failure elsewhere.
pub open spec fn fail_fast_reason() -> Seq<char> {
    "skipped due to fail-fast"@
}

/// Why a task is left out whose dependency was not met.
pub open spec fn upstream_reason() -> Seq<char> {
    "skipped: upstream dependency failed"@
}

fn empty_record(node_id: String, status: NodeStatus, error: String, duration_ms: u64) -> (r:
    ExecutionRecord)
    ensures
        r.node_id@ == node_id@,
        r.model@.len() == 0,
        r.input_tokens == 0,
        r.output_tokens == 0,
        r.duration_ms == duration_ms,
        r.status == status,
        r.output is None,
        r.error is Some,
        r.error->0@ == error@,
        r.retries == 0,
        r.messages is None,
        r.tools_used@.len() == 0,
        r.tool_events@.len() == 0,
        r.decision_events@.len() == 0,
        r.diagnostics_summary is None,
        r.skills_used@.len() == 0,
{
    ExecutionRecord {
        node_id,
        model: String::new(),
        input_tokens: 0,
        output_tokens: 0,
        duration_ms,
        status,
        output: None,
        error: Some(error),
        retries: 0,
        messages: None,
        tools_used: Vec::new(),
        tool_events: Vec::new(),
        decision_events: Vec::new(),
        diagnostics_summary: None,
        skills_used: Vec::new(),
    }
}

/// The record of a task that took too long.
pub fn timeout_record(node_id: &str, timeout_ms: u64) -> (r: ExecutionRecord)
    ensures
        r.node_id@ == node_id@,
        r.duration_ms == timeout_ms,
        r.status == NodeStatus::Failed,
        r.error is Some,
        r.error->0@ == "timeout"@,
        r.output is None,
        r.model@.len() == 0,
        r.input_tokens == 0,
        r.output_tokens == 0,
        r.retries == 0,
        r.messages is None,
        r.tools_used@.len() == 0,
        r.tool_events@.len() == 0,
        r.decision_events@.len() == 0,
        r.diagnostics_summary is None,
        r.skills_used@.len() == 0,
{
    empty_record(node_id.to_owned(), NodeStatus::Failed, "timeout".to_owned(), timeout_ms)
}

impl Schedule {
    /// What holds of the state at all times.
    pub open spec fn wf(self, p: TaskPlan) -> bool {
        &&& self.statuses@.len() == p.nodes@.len()
        &&& self.outputs@.len() == p.nodes@.len()
        &&& self.records@.len() == self.recorded@.len()
        &&& forall|a: int, b: int|
            0 <= a < b < self.recorded@.len() ==> #[trigger] self.recorded@[a]
                != #[trigger] self.recorded@[b]
        &&& forall|k: int|
            0 <= k < self.recorded@.len() ==> {
                &&& live(p, #[trigger] self.recorded@[k] as int)
                &&& is_final(self.statuses@[self.recorded@[k] as int])
                &&& self.records@[k].status == self.statuses@[self.recorded@[k] as int]
            }
        &&& forall|i: int|
            #[trigger] live(p, i) && is_final(self.statuses@[i]) ==> self.recorded@.contains(
                i as usize,
            )
        &&& forall|i: int|
            0 <= i < p.nodes@.len() && !#[trigger] live(p, i) ==> self.statuses@[i]
                == NodeStatus::Pending
        &&& forall|i: int|
            0 <= i < p.nodes@.len() && (#[trigger] self.outputs@[i]) is Some ==> self.statuses@[i]
                == NodeStatus::Success
        &&& p.failure_policy == FailurePolicy::FailFast && some_live(
            p,
            self.statuses@,
            NodeStatus::Skipped,
        ) ==> some_live(p, self.statuses@, NodeStatus::Failed)
    }

    /// The state before anything has been started.
    pub fn new(plan: &TaskPlan) -> (r: Schedule)
        ensures
            r.wf(*plan),
            r.records@.len() == 0,
            forall|i: int|
                0 <= i < plan.nodes@.len() ==> #[trigger] r.statuses@[i] == NodeStatus::Pending,
    {
        let mut statuses: Vec<NodeStatus> = Vec::new();
        let mut outputs: Vec<Option<String>> = Vec::new();
        let mut i: usize = 0;
        while i < plan.nodes.len()
            invariant
                0 <= i <= plan.nodes@.len(),
                statuses@.len() == i,
                outputs@.len() == i,
                forall|k: int| 0 <= k < i ==> #[trigger] statuses@[k] == NodeStatus::Pending,
                forall|k: int| 0 <= k < i ==> (#[trigger] outputs@[k]) is None,
            decreases plan.nodes@.len() - i,
        {
            statuses.push(NodeStatus::Pending);
            outputs.push(None);
            i += 1;
        }
        Schedule { statuses, outputs, records: Vec::new(), recorded: Vec::new() }
    }

    /// The index of the node that stands for `id`.
    fn resolve(plan: &TaskPlan, id: &str) -> (r: Option<usize>)
        ensures
            r matches Some(m) ==> stands_for(*plan, m as int, id@),
            r is None ==> forall|m: int| !stands_for(*plan, m, id@),
    {
        let mut i: usize = plan.nodes.len();
        while i > 0
            invariant
                0 <= i <= plan.nodes@.len(),
                forall|m: int|
                    i <= m < plan.nodes@.len() ==> (#[trigger] plan.nodes@[m]).id@ != id@,
            decreases i,
        {
            i -= 1;
            if str_eq(plan.nodes[i].id.as_str(), id) {
                return Some(i);
            }
        }
        None
    }

    fn is_live(plan: &TaskPlan, i: usize) -> (r: bool)
        requires
            i < plan.nodes@.len(),
        ensures
            r == live(*plan, i as int),
    {
        match Self::resolve(plan, plan.nodes[i].id.as_str()) {
            Some(m) => m == i,
            None => {
                proof {
                    Self::lemma_some_stands_for(*plan, i as int);
                }
                false
            },
        }
    }

    proof fn lemma_some_stands_for(p: TaskPlan, i: int)
        requires
            0 <= i < p.nodes@.len(),
        ensures
            exists|m: int| stands_for(p, m, p.nodes@[i].id@),
        decreases p.nodes@.len() - i,
    {
        if live(p, i) {
            assert(stands_for(p, i, p.nodes@[i].id@));
        } else {
            let m = choose|m: int|
                i < m < p.nodes@.len() && (#[trigger] p.nodes@[m]).id@ == p.nodes@[i].id@;
            Self::lemma_some_stands_for(p, m);
        }
    }

    proof fn lemma_stands_for_unique(p: TaskPlan, a: int, b: int, id: Seq<char>)
        requires
            stands_for(p, a, id),
            stands_for(p, b, id),
        ensures
            a == b,
    {
        if a < b {
            assert(p.nodes@[b].id@ != p.nodes@[a].id@);
        } else if b < a {
            assert(p.nodes@[a].id@ != p.nodes@[b].id@);
        }
    }

    /// The status of the node that stands for `id`.
    fn status_of(&self, plan: &TaskPlan, id: &str) -> (r: Option<NodeStatus>)
        requires
            self.statuses@.len() == plan.nodes@.len(),
        ensures
            id_has(*plan, self.statuses@, id@, |s: NodeStatus| is_success(s)) <==> (r matches Some(s)
                && is_success(s)),
            id_has(*plan, self.statuses@, id@, |s: NodeStatus| is_lost(s)) <==> (r matches Some(s)
                && is_lost(s)),
    {
        match Self::resolve(plan, id) {
            Some(m) => {
                proof {
                    assert forall|k: int| stands_for(*plan, k, id@) implies k == m by {
                        Self::lemma_stands_for_unique(*plan, k, m as int, id@);
                    }
                }
                Some(self.statuses[m])
            },
            None => None,
        }
    }

    /// Looks at everything that the node at index `i` waits for: whether all
    /// of it succeeded, and whether some of it failed or was left out.
    fn look_upstream(&self, plan: &TaskPlan, i: usize) -> (r: (bool, bool))
        requires
            self.statuses@.len() == plan.nodes@.len(),
            i < plan.nodes@.len(),
        ensures
            r.0 == ready(*plan, self.statuses@, i as int),
            r.1 == blocked(*plan, self.statuses@, i as int),
    {
        let ghost p = *plan;
        let ghost st = self.statuses@;
        let mut all_ok = true;
        let mut any_lost = false;
        let mut k: usize = 0;
        while k < plan.edges.len()
            invariant
                0 <= k <= plan.edges@.len(),
                i < plan.nodes@.len(),
                p == *plan,
                st == self.statuses@,
                st.len() == plan.nodes@.len(),
                all_ok ==> forall|e: int|
                    0 <= e < k && (#[trigger] p.edges@[e]).1@ == p.nodes@[i as int].id@ ==> id_has(
                        p,
                        st,
                        p.edges@[e].0@,
                        |s: NodeStatus| is_success(s),
                    ),
                !all_ok ==> !ready(p, st, i as int),
                any_lost ==> blocked(p, st, i as int),
                !any_lost ==> forall|e: int|
                    0 <= e < k && (#[trigger] p.edges@[e]).1@ == p.nodes@[i as int].id@ ==> !id_has(
                        p,
                        st,
                        p.edges@[e].0@,
                        |s: NodeStatus| is_lost(s),
                    ),
            decreases plan.edges@.len() - k,
        {
            if str_eq(plan.edges[k].1.as_str(), plan.nodes[i].id.as_str()) {
                let s = self.status_of(plan, plan.edges[k].0.as_str());
                proof {
                    assert(needs(p, i as int, p.edges@[k as int].0@));
                }
                match s {
                    Some(NodeStatus::Success) => {},
                    Some(NodeStatus::Failed) | Some(NodeStatus::Skipped) => {
                        all_ok = false;
                        any_lost = true;
                    },
                    _ => {
                        all_ok = false;
                    },
                }
            }
            k += 1;
        }
        let mut m: usize = 0;
        while m < plan.nodes.len()
            invariant
                0 <= m <= plan.nodes@.len(),
                i < plan.nodes@.len(),
                p == *plan,
                st == self.statuses@,
                st.len() == plan.nodes@.len(),
                all_ok ==> forall|e: int|
                    0 <= e < p.edges@.len() && (#[trigger] p.edges@[e]).1@
                        == p.nodes@[i as int].id@ ==> id_has(
                        p,
                        st,
                        p.edges@[e].0@,
                        |s: NodeStatus| is_success(s),
                    ),
                all_ok ==> forall|a: int, d: int|
                    0 <= a < m && p.nodes@[a].id@ == p.nodes@[i as int].id@ && 0 <= d
                        < p.nodes@[a].dependencies@.len() ==> id_has(
                        p,
                        st,
                        (#[trigger] p.nodes@[a].dependencies@[d])@,
                        |s: NodeStatus| is_success(s),
                    ),
                !all_ok ==> !ready(p, st, i as int),
                any_lost ==> blocked(p, st, i as int),
                !any_lost ==> forall|e: int|
                    0 <= e < p.edges@.len() && (#[trigger] p.edges@[e]).1@
                        == p.nodes@[i as int].id@ ==> !id_has(
                        p,
                        st,
                        p.edges@[e].0@,
                        |s: NodeStatus| is_lost(s),
                    ),
                !any_lost ==> forall|a: int, d: int|
                    0 <= a < m && p.nodes@[a].id@ == p.nodes@[i as int].id@ && 0 <= d
                        < p.nodes@[a].dependencies@.len() ==> !id_has(
                        p,
                        st,
                        (#[trigger] p.nodes@[a].dependencies@[d])@,
                        |s: NodeStatus| is_lost(s),
                    ),
            decreases plan.nodes@.len() - m,
        {
            if str_eq(plan.nodes[m].id.as_str(), plan.nodes[i].id.as_str()) {
                let deps = &plan.nodes[m].dependencies;
                let mut d: usize = 0;
                while d < deps.len()
                    invariant
                        0 <= d <= deps@.len(),
                        m < plan.nodes@.len(),
                        i < plan.nodes@.len(),
                        *deps == plan.nodes@[m as int].dependencies,
                        p.nodes@[m as int].id@ == p.nodes@[i as int].id@,
                        p == *plan,
                        st == self.statuses@,
                        st.len() == plan.nodes@.len(),
                        all_ok ==> forall|e: int|
                            0 <= e < p.edges@.len() && (#[trigger] p.edges@[e]).1@
                                == p.nodes@[i as int].id@ ==> id_has(
                                p,
                                st,
                                p.edges@[e].0@,
                                |s: NodeStatus| is_success(s),
                            ),
                        all_ok ==> forall|a: int, d: int|
                            0 <= a < m && p.nodes@[a].id@ == p.nodes@[i as int].id@ && 0 <= d
                                < p.nodes@[a].dependencies@.len() ==> id_has(
                                p,
                                st,
                                (#[trigger] p.nodes@[a].dependencies@[d])@,
                                |s: NodeStatus| is_success(s),
                            ),
                        all_ok ==> forall|b: int|
                            0 <= b < d ==> id_has(
                                p,
                                st,
                                (#[trigger] p.nodes@[m as int].dependencies@[b])@,
                                |s: NodeStatus| is_success(s),
                            ),
                        !all_ok ==> !ready(p, st, i as int),
                        any_lost ==> blocked(p, st, i as int),
                        !any_lost ==> forall|e: int|
                            0 <= e < p.edges@.len() && (#[trigger] p.edges@[e]).1@
                                == p.nodes@[i as int].id@ ==> !id_has(
                                p,
                                st,
                                p.edges@[e].0@,
                                |s: NodeStatus| is_lost(s),
                            ),
                        !any_lost ==> forall|a: int, d: int|
                            0 <= a < m && p.nodes@[a].id@ == p.nodes@[i as int].id@ && 0 <= d
                                < p.nodes@[a].dependencies@.len() ==> !id_has(
                                p,
                                st,
                                (#[trigger] p.nodes@[a].dependencies@[d])@,
                                |s: NodeStatus| is_lost(s),
                            ),
                        !any_lost ==> forall|b: int|
                            0 <= b < d ==> !id_has(
                                p,
                                st,
                                (#[trigger] p.nodes@[m as int].dependencies@[b])@,
                                |s: NodeStatus| is_lost(s),
                            ),
                    decreases deps@.len() - d,
                {
                    let s = self.status_of(plan, deps[d].as_str());
                    proof {
                        let id = p.nodes@[m as int].dependencies@[d as int]@;
                        assert(names(p, m as int, id));
                        assert(named_by(p, i as int, id));
                        assert(needs(p, i as int, id));
                    }
                    match s {
                        Some(NodeStatus::Success) => {},
                        Some(NodeStatus::Failed) | Some(NodeStatus::Skipped) => {
                            all_ok = false;
                            any_lost = true;
                        },
                        _ => {
                            all_ok = false;
                        },
                    }
                    d += 1;
                }
            }
            m += 1;
        }
        proof {
            assert forall|id: Seq<char>| #[trigger] needs(p, i as int, id) implies (all_ok
                ==> id_has(p, st, id, |s: NodeStatus| is_success(s))) && (!any_lost ==> !id_has(
                p,
                st,
                id,
                |s: NodeStatus| is_lost(s),
            )) by {
                if edge_from(p, i as int, id) {
                    let e = choose|e: int|
                        0 <= e < p.edges@.len() && (#[trigger] p.edges@[e]).1@
                            == p.nodes@[i as int].id@ && p.edges@[e].0@ == id;
                    assert(p.edges@[e].0@ == id);
                } else {
                    let a = choose|a: int|
                        0 <= a < p.nodes@.len() && (#[trigger] p.nodes@[a]).id@
                            == p.nodes@[i as int].id@ && names(p, a, id);
                    let d = choose|d: int|
                        0 <= d < p.nodes@[a].dependencies@.len()
                            && (#[trigger] p.nodes@[a].dependencies@[d])@ == id;
                    assert(p.nodes@[a].dependencies@[d]@ == id);
                }
            }
        }
        (all_ok, any_lost)
    }

    /// Whether a node that stands for its id has this status.
    fn any_status(&self, plan: &TaskPlan, s: NodeStatus) -> (r: bool)
        requires
            self.statuses@.len() == plan.nodes@.len(),
        ensures
            r == some_live(*plan, self.statuses@, s),
    {
        let mut i: usize = 0;
        while i < plan.nodes.len()
            invariant
                0 <= i <= plan.nodes@.len(),
                self.statuses@.len() == plan.nodes@.len(),
                forall|k: int|
                    0 <= k < i ==> !(#[trigger] live(*plan, k) && self.statuses@[k] == s),
            decreases plan.nodes@.len() - i,
        {
            if self.statuses[i] == s && Self::is_live(plan, i) {
                return true;
            }
            i += 1;
        }
        false
    }
}

// ---------------------------------------------------------------------------
// One round
// ---------------------------------------------------------------------------

/// Whether `after` is `before` with the nodes in `skip` left out and the
/// nodes in `run` started.
pub open spec fn marked(
    before: Seq<NodeStatus>,
    after: Seq<NodeStatus>,
    skip: spec_fn(int) -> bool,
    run: spec_fn(int) -> bool,
) -> bool {
    &&& after.len() == before.len()
    &&& forall|i: int|
        0 <= i < before.len() ==> #[trigger] after[i] == (if skip(i) {
            NodeStatus::Skipped
        } else if run(i) {
            NodeStatus::Running
        } else {
            before[i]
        })
}

/// Whether `after` has, behind the records of `before`, one for each node in
/// `skipped`, in that order.
pub open spec fn records_skipped(
    p: TaskPlan,
    before: Schedule,
    after: Schedule,
    skipped: Seq<int>,
    why: Seq<char>,
) -> bool {
    let old_len = before.recorded@.len();
    &&& after.records@.len() == before.records@.len() + skipped.len()
    &&& after.recorded@.len() == old_len + skipped.len()
    &&& after.records@.take(before.records@.len() as int) == before.records@
    &&& after.recorded@.take(old_len as int) == before.recorded@
    &&& forall|k: int|
        0 <= k < skipped.len() ==> {
            &&& #[trigger] after.recorded@[old_len + k] == skipped[k]
            &&& is_skip_record(
                after.records@[before.records@.len() + k],
                p.nodes@[skipped[k]].id@,
                why,
            )
        }
}

/// Whether the values of `v` are those of `s`.
pub open spec fn same_indexes(v: Seq<usize>, s: Seq<int>) -> bool {
    &&& v.len() == s.len()
    &&& forall|k: int| 0 <= k < v.len() ==> #[trigger] v[k] == s[k]
}

/// What one round of the scheduler does: nothing where all is done; after a
/// failure that stops the plan, the rest is left out; else what cannot run is
/// left out and what can run is started.
pub open spec fn round(
    p: TaskPlan,
    before: Schedule,
    after: Schedule,
    in_flight: bool,
    action: ScheduleAction,
) -> bool {
    let st = before.statuses@;
    let n = p.nodes@.len() as int;
    let go = seqs::indexes(|i: int| launches(p, st, i), n);
    let out = seqs::indexes(|i: int| skips(p, st, i), n);
    &&& after.outputs@ == before.outputs@
    &&& if finished(p, st) {
        &&& action is Finished
        &&& after.statuses@ == st
        &&& after.records@ == before.records@
        &&& after.recorded@ == before.recorded@
    } else if aborts(p, st) {
        &&& action is Abort
        &&& marked(st, after.statuses@, |i: int| waiting(p, st, i), |i: int| false)
        &&& records_skipped(
            p,
            before,
            after,
            seqs::indexes(|i: int| waiting(p, st, i), n),
            fail_fast_reason(),
        )
    } else {
        &&& marked(
            st,
            after.statuses@,
            |i: int| skips(p, st, i),
            |i: int| launches(p, st, i),
        )
        &&& records_skipped(p, before, after, out, upstream_reason())
        &&& if go.len() > 0 {
            action matches ScheduleAction::Launch(v) && same_indexes(v@, go)
        } else if in_flight {
            action is Wait
        } else if out.len() > 0 {
            action is Again
        } else {
            action is Stalled
        }
    }
}

proof fn lemma_round_wf(
    p: TaskPlan,
    before: Schedule,
    after: Schedule,
    skip: spec_fn(int) -> bool,
    run: spec_fn(int) -> bool,
    why: Seq<char>,
)
    requires
        before.wf(p),
        forall|i: int| #[trigger] skip(i) ==> waiting(p, before.statuses@, i),
        forall|i: int| #[trigger] run(i) ==> waiting(p, before.statuses@, i),
        after.outputs@ == before.outputs@,
        marked(before.statuses@, after.statuses@, skip, run),
        records_skipped(p, before, after, seqs::indexes(skip, p.nodes@.len() as int), why),
        p.failure_policy == FailurePolicy::FailFast && (exists|i: int| #[trigger] skip(i))
            ==> some_live(p, before.statuses@, NodeStatus::Failed),
    ensures
        after.wf(p),
{
    let n = p.nodes@.len() as int;
    let skipped = seqs::indexes(skip, n);
    let old_len = before.recorded@.len() as int;
    seqs::lemma_indexes(skip, n);
    assert forall|k: int| 0 <= k < after.recorded@.len() implies {
        &&& live(p, #[trigger] after.recorded@[k] as int)
        &&& is_final(after.statuses@[after.recorded@[k] as int])
        &&& after.records@[k].status == after.statuses@[after.recorded@[k] as int]
    } by {
        if k < old_len {
            assert(after.recorded@.take(old_len)[k] == before.recorded@[k]);
            assert(after.records@.take(old_len)[k] == before.records@[k]);
            let i = before.recorded@[k] as int;
            assert(!skip(i) && !run(i));
        } else {
            assert(after.recorded@[old_len + (k - old_len)] == skipped[k - old_len]);
            assert(skip(skipped[k - old_len]));
        }
    }
    assert forall|a: int, b: int| 0 <= a < b < after.recorded@.len() implies
        #[trigger] after.recorded@[a] != #[trigger] after.recorded@[b] by {
        if b < old_len {
            assert(after.recorded@.take(old_len)[a] == before.recorded@[a]);
            assert(after.recorded@.take(old_len)[b] == before.recorded@[b]);
        } else {
            assert(after.recorded@[old_len + (b - old_len)] == skipped[b - old_len]);
            assert(skip(skipped[b - old_len]));
            if a < old_len {
                assert(after.recorded@.take(old_len)[a] == before.recorded@[a]);
                assert(is_final(before.statuses@[before.recorded@[a] as int]));
            } else {
                assert(after.recorded@[old_len + (a - old_len)] == skipped[a - old_len]);
            }
        }
    }
    assert forall|i: int| #[trigger] live(p, i) && is_final(
        after.statuses@[i],
    ) implies after.recorded@.contains(i as usize) by {
        if skip(i) {
            let k = choose|k: int| 0 <= k < skipped.len() && skipped[k] == i;
            assert(after.recorded@[old_len + k] == skipped[k]);
        } else {
            assert(is_final(before.statuses@[i]));
            let k = choose|k: int|
                0 <= k < before.recorded@.len() && before.recorded@[k] == i as usize;
            assert(after.recorded@.take(old_len)[k] == before.recorded@[k]);
        }
    }
    assert forall|i: int| 0 <= i < n && !#[trigger] live(p, i) implies after.statuses@[i]
        == NodeStatus::Pending by {
        assert(!skip(i) && !run(i));
    }
    assert forall|i: int| 0 <= i < n && (#[trigger] after.outputs@[i]) is Some implies
        after.statuses@[i] == NodeStatus::Success by {
        assert(before.outputs@[i] is Some);
        assert(!skip(i) && !run(i));
    }
    if p.failure_policy == FailurePolicy::FailFast && some_live(
        p,
        after.statuses@,
        NodeStatus::Skipped,
    ) {
        let i = choose|i: int| #[trigger] live(p, i) && after.statuses@[i] == NodeStatus::Skipped;
        if !skip(i) {
            assert(before.statuses@[i] == NodeStatus::Skipped);
        }
        assert(some_live(p, before.statuses@, NodeStatus::Failed));
        let f = choose|f: int| #[trigger] live(p, f) && before.statuses@[f] == NodeStatus::Failed;
        assert(!skip(f) && !run(f));
        assert(after.statuses@[f] == NodeStatus::Failed);
    }
}

impl Schedule {
    /// Leaves out the nodes in `skip` and starts the others in `run`; the
    /// indexes of those started come back.
    fn apply(&mut self, plan: &TaskPlan, skip: &Vec<bool>, run: &Vec<bool>, why: &str) -> (r: Vec<
        usize,
    >)
        requires
            old(self).statuses@.len() == plan.nodes@.len(),
            old(self).records@.len() == old(self).recorded@.len(),
            skip@.len() == plan.nodes@.len(),
            run@.len() == plan.nodes@.len(),
        ensures
            final(self).outputs@ == old(self).outputs@,
            marked(
                old(self).statuses@,
                final(self).statuses@,
                |i: int| skip@[i],
                |i: int| run@[i],
            ),
            records_skipped(
                *plan,
                *old(self),
                *final(self),
                seqs::indexes(|i: int| skip@[i], plan.nodes@.len() as int),
                why@,
            ),
            same_indexes(
                r@,
                seqs::indexes(|i: int| run@[i] && !skip@[i], plan.nodes@.len() as int),
            ),
    {
        let ghost before = *self;
        let ghost n = plan.nodes@.len();
        let ghost f = |i: int| skip@[i];
        let ghost g = |i: int| run@[i] && !skip@[i];
        let mut launch: Vec<usize> = Vec::new();
        let mut i: usize = 0;
        proof {
            assert(self.records@.take(before.records@.len() as int) =~= before.records@);
            assert(self.recorded@.take(before.recorded@.len() as int) =~= before.recorded@);
        }
        while i < plan.nodes.len()
            invariant
                0 <= i <= plan.nodes@.len(),
                n == plan.nodes@.len(),
                self.statuses@.len() == n,
                before.statuses@.len() == n,
                before.records@.len() == before.recorded@.len(),
                skip@.len() == n,
                run@.len() == n,
                f == (|i: int| skip@[i]),
                g == (|i: int| run@[i] && !skip@[i]),
                self.outputs@ == before.outputs@,
                forall|k: int|
                    0 <= k < i ==> #[trigger] self.statuses@[k] == (if skip@[k] {
                        NodeStatus::Skipped
                    } else if run@[k] {
                        NodeStatus::Running
                    } else {
                        before.statuses@[k]
                    }),
                forall|k: int| i <= k < n ==> #[trigger] self.statuses@[k] == before.statuses@[k],
                records_skipped(*plan, before, *self, seqs::indexes(f, i as int), why@),
                same_indexes(launch@, seqs::indexes(g, i as int)),
            decreases plan.nodes@.len() - i,
        {
            let ghost prev = *self;
            proof {
                assert(f(i as int) == skip@[i as int]);
                assert(g(i as int) == (run@[i as int] && !skip@[i as int]));
            }
            if skip[i] {
                self.statuses.set(i, NodeStatus::Skipped);
                let rec = empty_record(
                    plan.nodes[i].id.clone(),
                    NodeStatus::Skipped,
                    why.to_owned(),
                    0,
                );
                self.records.push(rec);
                self.recorded.push(i);
                proof {
                    let a = seqs::indexes(f, i as int);
                    let b = seqs::indexes(f, i + 1);
                    assert(b == a.push(i as int));
                    assert(self.records@.take(before.records@.len() as int) =~= prev.records@.take(
                        before.records@.len() as int,
                    ));
                    assert(self.recorded@.take(before.recorded@.len() as int)
                        =~= prev.recorded@.take(before.recorded@.len() as int));
                    assert forall|k: int| 0 <= k < b.len() implies {
                        &&& #[trigger] self.recorded@[before.recorded@.len() + k] == b[k]
                        &&& is_skip_record(
                            self.records@[before.records@.len() + k],
                            plan.nodes@[b[k]].id@,
                            why@,
                        )
                    } by {
                        if k < a.len() {
                            assert(prev.recorded@[before.recorded@.len() + k] == a[k]);
                            assert(self.records@[before.records@.len() + k]
                                == prev.records@[before.records@.len() + k]);
                        }
                    }
                }
            } else if run[i] {
                self.statuses.set(i, NodeStatus::Running);
                launch.push(i);
            }
            i += 1;
        }
        launch
    }

    /// One round: what to do next, and what changes with it. `in_flight` says
    /// whether a task that was started has not been reported yet.
    pub fn step(&mut self, plan: &TaskPlan, in_flight: bool) -> (r: ScheduleAction)
        requires
            old(self).wf(*plan),
        ensures
            final(self).wf(*plan),
            round(*plan, *old(self), *final(self), in_flight, r),
    {
        let ghost before = *self;
        let ghost p = *plan;
        let ghost st = self.statuses@;
        let ghost n = plan.nodes@.len() as int;
        if !self.any_status(plan, NodeStatus::Pending) && !self.any_status(
            plan,
            NodeStatus::Running,
        ) {
            return ScheduleAction::Finished;
        }
        let fail_fast = match plan.failure_policy {
            FailurePolicy::FailFast => true,
            FailurePolicy::BestEffort => false,
        };
        let abort = fail_fast && self.any_status(plan, NodeStatus::Failed);
        let mut skip: Vec<bool> = Vec::new();
        let mut run: Vec<bool> = Vec::new();
        let mut i: usize = 0;
        while i < plan.nodes.len()
            invariant
                0 <= i <= plan.nodes@.len(),
                self.wf(p),
                p == *plan,
                st == self.statuses@,
                fail_fast == (p.failure_policy == FailurePolicy::FailFast),
                skip@.len() == i,
                run@.len() == i,
                forall|k: int|
                    0 <= k < i ==> #[trigger] skip@[k] == (if abort {
                        waiting(p, st, k)
                    } else {
                        skips(p, st, k)
                    }),
                forall|k: int|
                    0 <= k < i ==> #[trigger] run@[k] == (!abort && launches(p, st, k)),
            decreases plan.nodes@.len() - i,
        {
            let waits = self.statuses[i] == NodeStatus::Pending && Self::is_live(plan, i);
            if !waits {
                skip.push(false);
                run.push(false);
            } else if abort {
                skip.push(true);
                run.push(false);
            } else {
                let (all_ok, any_lost) = self.look_upstream(plan, i);
                let s = any_lost && !fail_fast;
                skip.push(s);
                run.push(!s && all_ok);
            }
            i += 1;
        }
        let ghost f = |i: int| skip@[i];
        let ghost g = |i: int| run@[i] && !skip@[i];
        if abort {
            let _ = self.apply(plan, &skip, &run, "skipped due to fail-fast");
            proof {
                let w = |i: int| waiting(p, st, i);
                assert forall|k: int| 0 <= k < n implies #[trigger] f(k) == w(k) by {
                    assert(skip@[k] == waiting(p, st, k));
                }
                seqs::lemma_indexes_ext(f, w, n);
                assert(marked(st, self.statuses@, w, |i: int| false)) by {
                    assert forall|k: int| 0 <= k < n implies #[trigger] self.statuses@[k] == (if w(
                        k,
                    ) {
                        NodeStatus::Skipped
                    } else {
                        st[k]
                    }) by {
                        assert(f(k) == w(k));
                        assert(!run@[k]);
                    }
                }
                lemma_round_wf(p, before, *self, w, |i: int| false, fail_fast_reason());
            }
            return ScheduleAction::Abort;
        }
        let known: usize = self.records.len();
        let launch = self.apply(plan, &skip, &run, "skipped: upstream dependency failed");
        proof {
            let sk = |i: int| skips(p, st, i);
            let la = |i: int| launches(p, st, i);
            assert forall|k: int| 0 <= k < n implies #[trigger] f(k) == sk(k) by {
                assert(skip@[k] == skips(p, st, k));
            }
            assert forall|k: int| 0 <= k < n implies #[trigger] g(k) == la(k) by {
                assert(skip@[k] == skips(p, st, k));
                assert(run@[k] == launches(p, st, k));
            }
            seqs::lemma_indexes_ext(f, sk, n);
            seqs::lemma_indexes_ext(g, la, n);
            assert(marked(st, self.statuses@, sk, la)) by {
                assert forall|k: int| 0 <= k < n implies #[trigger] self.statuses@[k] == (if sk(k) {
                    NodeStatus::Skipped
                } else if la(k) {
                    NodeStatus::Running
                } else {
                    st[k]
                }) by {
                    assert(f(k) == sk(k));
                    assert(run@[k] == launches(p, st, k));
                }
            }
            lemma_round_wf(p, before, *self, sk, la, upstream_reason());
        }
        if launch.len() > 0 {
            ScheduleAction::Launch(launch)
        } else if in_flight {
            ScheduleAction::Wait
        } else if self.records.len() > known {
            ScheduleAction::Again
        } else {
            ScheduleAction::Stalled
        }
    }

    /// Takes the record of a task that was running.
    pub fn complete(&mut self, plan: &TaskPlan, i: usize, record: ExecutionRecord)
        requires
            old(self).wf(*plan),
            i < plan.nodes@.len(),
            old(self).statuses@[i as int] == NodeStatus::Running,
            record.status == NodeStatus::Success || record.status == NodeStatus::Failed,
        ensures
            final(self).wf(*plan),
            final(self).statuses@ == old(self).statuses@.update(i as int, record.status),
            final(self).records@ == old(self).records@.push(record),
            final(self).recorded@ == old(self).recorded@.push(i),
            final(self).outputs@.len() == old(self).outputs@.len(),
            forall|k: int|
                0 <= k < plan.nodes@.len() && k != i ==> #[trigger] final(self).outputs@[k] == old(
                    self,
                ).outputs@[k],
            message::opt_text(final(self).outputs@[i as int]) == (if record.status == NodeStatus::Success {
                message::opt_text(record.output)
            } else {
                None
            }),
    {
        let ghost before = *self;
        let ghost p = *plan;
        proof {
            assert(live(p, i as int));
            assert(!self.recorded@.contains(i));
            assert(self.outputs@[i as int] is None);
        }
        self.statuses.set(i, record.status);
        if record.status == NodeStatus::Success {
            if let Some(out) = &record.output {
                self.outputs.set(i, Some(out.clone()));
            }
        }
        self.records.push(record);
        self.recorded.push(i);
        proof {
            assert forall|k: int| 0 <= k < self.recorded@.len() implies {
                &&& live(p, #[trigger] self.recorded@[k] as int)
                &&& is_final(self.statuses@[self.recorded@[k] as int])
                &&& self.records@[k].status == self.statuses@[self.recorded@[k] as int]
            } by {
                if k < before.recorded@.len() {
                    assert(self.recorded@[k] == before.recorded@[k]);
                    assert(self.records@[k] == before.records@[k]);
                }
            }
            assert forall|a: int, b: int| 0 <= a < b < self.recorded@.len() implies
                #[trigger] self.recorded@[a] != #[trigger] self.recorded@[b] by {
                assert(self.recorded@[a] == before.recorded@[a]);
                if b < before.recorded@.len() {
                    assert(self.recorded@[b] == before.recorded@[b]);
                } else {
                    assert(before.recorded@.contains(before.recorded@[a]));
                }
            }
            assert forall|k: int| #[trigger] live(p, k) && is_final(self.statuses@[k]) implies
                self.recorded@.contains(k as usize) by {
                if k == i {
                    assert(self.recorded@[before.recorded@.len() as int] == i);
                } else {
                    let m = choose|m: int|
                        0 <= m < before.recorded@.len() && before.recorded@[m] == k as usize;
                    assert(self.recorded@[m] == before.recorded@[m]);
                }
            }
            if p.failure_policy == FailurePolicy::FailFast && some_live(
                p,
                self.statuses@,
                NodeStatus::Skipped,
            ) {
                let k = choose|k: int|
                    #[trigger] live(p, k) && self.statuses@[k] == NodeStatus::Skipped;
                assert(before.statuses@[k] == NodeStatus::Skipped);
                let f = choose|f: int|
                    #[trigger] live(p, f) && before.statuses@[f] == NodeStatus::Failed;
                assert(self.statuses@[f] == NodeStatus::Failed);
            }
        }
    }

    /// What the dependencies of the node at index `i` put out, as far as it is
    /// there: pairs of id and output, in the order of the dependencies.
    pub fn upstream(&self, plan: &TaskPlan, i: usize) -> (r: Vec<(String, String)>)
        requires
            self.wf(*plan),
            i < plan.nodes@.len(),
        ensures
            pairs_view(r@) == upstream_of(
                *plan,
                self.outputs@,
                plan.nodes@[i as int].dependencies@,
            ),
    {
        let deps = &plan.nodes[i].dependencies;
        let mut r: Vec<(String, String)> = Vec::new();
        let mut d: usize = 0;
        proof {
            assert(pairs_view(r@) =~= Seq::empty());
        }
        while d < deps.len()
            invariant
                0 <= d <= deps@.len(),
                self.wf(*plan),
                pairs_view(r@) == upstream_of(*plan, self.outputs@, deps@.take(d as int)),
            decreases deps@.len() - d,
        {
            let ghost t = deps@.take(d + 1);
            proof {
                assert(t.drop_last() =~= deps@.take(d as int));
                assert(t.last() == deps@[d as int]);
            }
            let ghost before = r@;
            if let Some(m) = Self::resolve(plan, deps[d].as_str()) {
                proof {
                    assert forall|k: int| stands_for(*plan, k, deps@[d as int]@) implies k == m by {
                        Self::lemma_stands_for_unique(*plan, k, m as int, deps@[d as int]@);
                    }
                }
                if let Some(out) = &self.outputs[m] {
                    r.push((deps[d].clone(), out.clone()));
                    proof {
                        assert(pairs_view(r@) =~= pairs_view(before).push(
                            (deps@[d as int]@, out@),
                        ));
                    }
                }
            }
            d += 1;
        }
        proof {
            assert(deps@.take(d as int) =~= deps@);
        }
        r
    }
}

/// Pairs of strings as mathematical data.
pub open spec fn pairs_view(v: Seq<(String, String)>) -> Seq<(Seq<char>, Seq<char>)> {
    Seq::new(v.len(), |i: int| (v[i].0@, v[i].1@))
}

/// What the node that stands for `id` put out.
pub open spec fn output_of(p: TaskPlan, outputs: Seq<Option<String>>, id: Seq<char>) -> Option<
    Seq<char>,
> {
    if exists|m: int| stands_for(p, m, id) {
        message::opt_text(outputs[choose|m: int| stands_for(p, m, id)])
    } else {
        None
    }
}

/// What the nodes with these ids put out, as far as it is there.
pub open spec fn upstream_of(
    p: TaskPlan,
    outputs: Seq<Option<String>>,
    deps: Seq<String>,
) -> Seq<(Seq<char>, Seq<char>)>
    decreases deps.len(),
{
    if deps.len() == 0 {
        Seq::empty()
    } else {
        let rest = upstream_of(p, outputs, deps.drop_last());
        match output_of(p, outputs, deps.last()@) {
            Some(out) => rest.push((deps.last()@, out)),
            None => rest,
        }
    }
}

// ---------------------------------------------------------------------------
// Laws
// ---------------------------------------------------------------------------

/// A task is started only when everything that it waits for has succeeded.
pub proof fn law_started_after_dependencies(
    p: TaskPlan,
    before: Schedule,
    after: Schedule,
    in_flight: bool,
    started: Vec<usize>,
    k: int,
)
    requires
        before.wf(p),
        round(p, before, after, in_flight, ScheduleAction::Launch(started)),
        0 <= k < started@.len(),
    ensures
        waiting(p, before.statuses@, started@[k] as int),
        ready(p, before.statuses@, started@[k] as int),
        after.statuses@[started@[k] as int] == NodeStatus::Running,
{
    let st = before.statuses@;
    let f = |i: int| launches(p, st, i);
    seqs::lemma_indexes(f, p.nodes@.len() as int);
    let go = seqs::indexes(f, p.nodes@.len() as int);
    assert(started@[k] == go[k]);
    assert(f(go[k]));
    assert(after.statuses@[go[k]] == NodeStatus::Running);
}

/// A round starts or leaves out tasks that were waiting, and touches no other:
/// no task is started twice, and a status that is final stays.
pub proof fn law_round_touches_only_waiting(
    p: TaskPlan,
    before: Schedule,
    after: Schedule,
    in_flight: bool,
    action: ScheduleAction,
    i: int,
)
    requires
        before.wf(p),
        round(p, before, after, in_flight, action),
        0 <= i < p.nodes@.len(),
    ensures
        after.statuses@[i] == before.statuses@[i] || (before.statuses@[i] == NodeStatus::Pending
            && (after.statuses@[i] == NodeStatus::Running || after.statuses@[i]
            == NodeStatus::Skipped)),
{
}

/// When all is done, every node that stands for its id has exactly one record.
pub proof fn law_finished_means_recorded(p: TaskPlan, s: Schedule, i: int)
    requires
        s.wf(p),
        finished(p, s.statuses@),
        live(p, i),
    ensures
        s.recorded@.contains(i as usize),
        forall|a: int, b: int|
            0 <= a < s.recorded@.len() && 0 <= b < s.recorded@.len() && s.recorded@[a] == i
                && s.recorded@[b] == i ==> a == b,
{
    assert(s.statuses@[i] != NodeStatus::Pending && s.statuses@[i] != NodeStatus::Running);
}

/// In a plan with distinct ids every node stands for its id.
pub proof fn law_linked_plan_is_live(p: TaskPlan, i: int)
    requires
        protocol::linked(p),
        0 <= i < p.nodes@.len(),
    ensures
        live(p, i),
{
    assert forall|m: int| i < m < p.nodes@.len() implies (#[trigger] p.nodes@[m]).id@
        != p.nodes@[i].id@ by {
        if p.nodes@[m].id@ == p.nodes@[i].id@ {
            assert(protocol::repeats_id(p, m));
        }
    }
}

proof fn lemma_least_waiting(p: TaskPlan, st: Seq<NodeStatus>, rank: Seq<nat>, i: int)
    requires
        protocol::linked(p),
        protocol::is_rank(p, rank),
        st.len() == p.nodes@.len(),
        0 <= i < st.len(),
        st[i] == NodeStatus::Pending,
        !some_live(p, st, NodeStatus::Running),
    ensures
        exists|k: int| #[trigger] can_move(p, st, k),
    decreases rank[i],
{
    if !ready(p, st, i) && !blocked(p, st, i) {
        let id = choose|id: Seq<char>|
            #[trigger] needs(p, i, id) && !id_has(p, st, id, |s: NodeStatus| is_success(s));
        let m = lemma_needs_precedes(p, i, id);
        law_linked_plan_is_live(p, m);
        assert(stands_for(p, m, id));
        assert(!is_success(st[m]));
        assert(!is_lost(st[m])) by {
            if is_lost(st[m]) {
                assert(id_has(p, st, id, |s: NodeStatus| is_lost(s)));
                assert(blocked(p, st, i));
            }
        }
        assert(st[m] != NodeStatus::Running);
        lemma_least_waiting(p, st, rank, m);
    } else {
        assert(can_move(p, st, i));
    }
}

/// Whether a round does something about the node at index `k`.
spec fn can_move(p: TaskPlan, st: Seq<NodeStatus>, k: int) -> bool {
    &&& 0 <= k < st.len()
    &&& st[k] == NodeStatus::Pending
    &&& ready(p, st, k) || blocked(p, st, k)
}

proof fn lemma_needs_precedes(p: TaskPlan, i: int, id: Seq<char>) -> (m: int)
    requires
        protocol::linked(p),
        0 <= i < p.nodes@.len(),
        needs(p, i, id),
    ensures
        0 <= m < p.nodes@.len(),
        p.nodes@[m].id@ == id,
        protocol::precedes(p, m, i),
{
    if edge_from(p, i, id) {
        let k = choose|k: int|
            0 <= k < p.edges@.len() && (#[trigger] p.edges@[k]).1@ == p.nodes@[i].id@
                && p.edges@[k].0@ == id;
        assert(!protocol::loose_edge(p, k));
        let m = choose|m: int| 0 <= m < p.nodes@.len() && (#[trigger] p.nodes@[m]).id@ == id;
        assert(protocol::edge_between(p, m, i));
        m
    } else {
        let a = choose|a: int|
            0 <= a < p.nodes@.len() && (#[trigger] p.nodes@[a]).id@ == p.nodes@[i].id@ && names(
                p,
                a,
                id,
            );
        if a < i {
            assert(protocol::repeats_id(p, i));
        } else if i < a {
            assert(protocol::repeats_id(p, a));
        }
        let d = choose|d: int|
            0 <= d < p.nodes@[i].dependencies@.len() && (#[trigger] p.nodes@[i].dependencies@[d])@
                == id;
        assert(!protocol::loose_dependency(p, i, d));
        let m = choose|m: int| 0 <= m < p.nodes@.len() && (#[trigger] p.nodes@[m]).id@ == id;
        assert(protocol::depends_on(p, m, i));
        m
    }
}

/// A sound plan does not stall: as long as it is not done, a round starts a
/// task, leaves one out, or waits for one that runs.
pub proof fn law_sound_plan_does_not_stall(
    p: TaskPlan,
    rank: Seq<nat>,
    before: Schedule,
    after: Schedule,
    in_flight: bool,
)
    requires
        protocol::linked(p),
        protocol::is_rank(p, rank),
        before.wf(p),
        !some_live(p, before.statuses@, NodeStatus::Running),
    ensures
        !round(p, before, after, in_flight, ScheduleAction::Stalled),
{
    if round(p, before, after, in_flight, ScheduleAction::Stalled) {
        let st = before.statuses@;
        let n = p.nodes@.len() as int;
        let i = choose|i: int| #[trigger] live(p, i) && st[i] == NodeStatus::Pending;
        lemma_least_waiting(p, st, rank, i);
        let k = choose|k: int| #[trigger] can_move(p, st, k);
        law_linked_plan_is_live(p, k);
        let la = |i: int| launches(p, st, i);
        let sk = |i: int| skips(p, st, i);
        seqs::lemma_indexes(la, n);
        seqs::lemma_indexes(sk, n);
        if launches(p, st, k) {
            assert(la(k));
            assert(seqs::indexes(la, n).contains(k));
        } else if skips(p, st, k) {
            assert(sk(k));
            assert(seqs::indexes(sk, n).contains(k));
        } else {
            assert(blocked(p, st, k));
            let id = choose|id: Seq<char>|
                #[trigger] needs(p, k, id) && id_has(p, st, id, |s: NodeStatus| is_lost(s));
            let m = choose|m: int| #[trigger] stands_for(p, m, id) && is_lost(st[m]);
            assert(live(p, m));
            assert(some_live(p, st, NodeStatus::Failed) || some_live(p, st, NodeStatus::Skipped));
            assert(aborts(p, st));
        }
    }
}

/// After a failure that stops the plan nothing waits any more: once the tasks
/// that run have their records, every node has one.
pub proof fn law_abort_leaves_nothing_waiting(
    p: TaskPlan,
    before: Schedule,
    after: Schedule,
    in_flight: bool,
    i: int,
)
    requires
        before.wf(p),
        after.wf(p),
        round(p, before, after, in_flight, ScheduleAction::Abort),
        live(p, i),
    ensures
        after.statuses@[i] == NodeStatus::Running || after.recorded@.contains(i as usize),
{
    assert(after.statuses@[i] != NodeStatus::Pending) by {
        if before.statuses@[i] == NodeStatus::Pending {
            assert(waiting(p, before.statuses@, i));
            assert(after.statuses@[i] == NodeStatus::Skipped);
        }
    }
}

/// A round after which to go on at once has left a task out: there cannot be
/// more such rounds than nodes.
pub proof fn law_again_makes_progress(
    p: TaskPlan,
    before: Schedule,
    after: Schedule,
    in_flight: bool,
)
    requires
        before.wf(p),
        round(p, before, after, in_flight, ScheduleAction::Again),
    ensures
        after.records@.len() > before.records@.len(),
        exists|i: int|
            #[trigger] waiting(p, before.statuses@, i) && after.statuses@[i] == NodeStatus::Skipped,
{
    let st = before.statuses@;
    let sk = |i: int| skips(p, st, i);
    let out = seqs::indexes(sk, p.nodes@.len() as int);
    seqs::lemma_indexes(sk, p.nodes@.len() as int);
    assert(sk(out[0]));
    assert(waiting(p, st, out[0]));
    assert(after.statuses@[out[0]] == NodeStatus::Skipped);
}

/// Whether the node at index `m` has to be done before that at index `i`: an
/// edge leads from it, or it is named as a dependency.
pub open spec fn comes_first(p: TaskPlan, m: int, i: int) -> bool {
    ||| exists|k: int|
        0 <= k < p.edges@.len() && (#[trigger] p.edges@[k]).0@ == p.nodes@[m].id@
            && p.edges@[k].1@ == p.nodes@[i].id@
    ||| exists|d: int|
        0 <= d < p.nodes@[i].dependencies@.len() && (#[trigger] p.nodes@[i].dependencies@[d])@
            == p.nodes@[m].id@
}

proof fn lemma_comes_first(p: TaskPlan, m: int, i: int)
    requires
        protocol::linked(p),
        0 <= i < p.nodes@.len(),
        0 <= m < p.nodes@.len(),
        comes_first(p, m, i),
    ensures
        needs(p, i, p.nodes@[m].id@),
        stands_for(p, m, p.nodes@[m].id@),
{
    let id = p.nodes@[m].id@;
    law_linked_plan_is_live(p, m);
    if exists|k: int|
        0 <= k < p.edges@.len() && (#[trigger] p.edges@[k]).0@ == id && p.edges@[k].1@
            == p.nodes@[i].id@ {
        assert(edge_from(p, i, id));
    } else {
        let d = choose|d: int|
            0 <= d < p.nodes@[i].dependencies@.len() && (
            #[trigger] p.nodes@[i].dependencies@[d])@ == id;
        assert(names(p, i, id));
        assert(named_by(p, i, id));
    }
}

proof fn lemma_one_stands(p: TaskPlan, m: int, k: int, id: Seq<char>)
    requires
        stands_for(p, m, id),
        stands_for(p, k, id),
    ensures
        m == k,
{
    if m < k {
        assert(p.nodes@[k].id@ != p.nodes@[m].id@);
    }
    if k < m {
        assert(p.nodes@[m].id@ != p.nodes@[k].id@);
    }
}

/// When a task is started, every task that has to be done before it has
/// succeeded.
pub proof fn law_started_tasks_have_what_they_need(
    p: TaskPlan,
    before: Schedule,
    after: Schedule,
    in_flight: bool,
    started: Vec<usize>,
    k: int,
    m: int,
)
    requires
        before.wf(p),
        protocol::linked(p),
        round(p, before, after, in_flight, ScheduleAction::Launch(started)),
        0 <= k < started@.len(),
        0 <= m < p.nodes@.len(),
        comes_first(p, m, started@[k] as int),
    ensures
        before.statuses@[m] == NodeStatus::Success,
{
    law_started_after_dependencies(p, before, after, in_flight, started, k);
    let i = started@[k] as int;
    let id = p.nodes@[m].id@;
    lemma_comes_first(p, m, i);
    let st = before.statuses@;
    let f = |s: NodeStatus| is_success(s);
    assert(id_has(p, st, id, f));
    let x = choose|x: int| #[trigger] stands_for(p, x, id) && f(st[x]);
    lemma_one_stands(p, m, x, id);
}

/// A task is started as soon as all that has to be done before it has
/// succeeded, unless a failure has stopped the plan.
pub proof fn law_ready_tasks_are_started(
    p: TaskPlan,
    before: Schedule,
    after: Schedule,
    in_flight: bool,
    action: ScheduleAction,
    i: int,
)
    requires
        before.wf(p),
        protocol::linked(p),
        round(p, before, after, in_flight, action),
        0 <= i < p.nodes@.len(),
        before.statuses@[i] == NodeStatus::Pending,
        forall|m: int|
            0 <= m < p.nodes@.len() && #[trigger] comes_first(p, m, i) ==> before.statuses@[m]
                == NodeStatus::Success,
        p.failure_policy == FailurePolicy::FailFast ==> forall|m: int|
            0 <= m < p.nodes@.len() ==> #[trigger] before.statuses@[m] != NodeStatus::Failed,
    ensures
        after.statuses@[i] == NodeStatus::Running,
        action matches ScheduleAction::Launch(v) && v@.contains(i as usize),
{
    let st = before.statuses@;
    let n = p.nodes@.len() as int;
    law_linked_plan_is_live(p, i);
    assert(waiting(p, st, i));
    assert(!aborts(p, st));
    let f = |s: NodeStatus| is_success(s);
    assert forall|id: Seq<char>| #[trigger] needs(p, i, id) implies id_has(p, st, id, f) by {
        lemma_need_is_a_node(p, i, id);
        let m = choose|m: int|
            0 <= m < p.nodes@.len() && #[trigger] comes_first(p, m, i) && p.nodes@[m].id@ == id;
        law_linked_plan_is_live(p, m);
        assert(stands_for(p, m, id));
        assert(f(st[m]));
    }
    assert(ready(p, st, i));
    assert(!blocked(p, st, i)) by {
        if blocked(p, st, i) {
            let g = |s: NodeStatus| is_lost(s);
            let id = choose|id: Seq<char>| #[trigger] needs(p, i, id) && id_has(p, st, id, g);
            let x = choose|x: int| #[trigger] stands_for(p, x, id) && g(st[x]);
            assert(id_has(p, st, id, f));
            let y = choose|y: int| #[trigger] stands_for(p, y, id) && f(st[y]);
            lemma_one_stands(p, x, y, id);
        }
    }
    let la = |i: int| launches(p, st, i);
    assert(la(i));
    seqs::lemma_indexes(la, n);
    let go = seqs::indexes(la, n);
    assert(go.contains(i));
    let k = choose|k: int| 0 <= k < go.len() && go[k] == i;
    let v = action->Launch_0;
    assert(v@[k] == go[k]);
}

proof fn lemma_need_is_a_node(p: TaskPlan, i: int, id: Seq<char>)
    requires
        protocol::linked(p),
        0 <= i < p.nodes@.len(),
        needs(p, i, id),
    ensures
        exists|m: int|
            0 <= m < p.nodes@.len() && #[trigger] comes_first(p, m, i) && p.nodes@[m].id@ == id,
{
    if edge_from(p, i, id) {
        let k = choose|k: int|
            0 <= k < p.edges@.len() && (#[trigger] p.edges@[k]).1@ == p.nodes@[i].id@
                && p.edges@[k].0@ == id;
        assert(!protocol::loose_edge(p, k));
        assert(protocol::known(p, id));
        let m = choose|m: int| 0 <= m < p.nodes@.len() && (#[trigger] p.nodes@[m]).id@ == id;
        assert(p.edges@[k].0@ == p.nodes@[m].id@);
        assert(comes_first(p, m, i));
    } else {
        let x = choose|x: int|
            0 <= x < p.nodes@.len() && (#[trigger] p.nodes@[x]).id@ == p.nodes@[i].id@ && names(
                p,
                x,
                id,
            );
        if x < i {
            assert(protocol::repeats_id(p, i));
        }
        if i < x {
            assert(protocol::repeats_id(p, x));
        }
        let d = choose|d: int|
            0 <= d < p.nodes@[i].dependencies@.len() && (
            #[trigger] p.nodes@[i].dependencies@[d])@ == id;
        assert(!protocol::loose_dependency(p, i, d));
        assert(protocol::known(p, id));
        let m = choose|m: int| 0 <= m < p.nodes@.len() && (#[trigger] p.nodes@[m]).id@ == id;
        assert(p.nodes@[i].dependencies@[d]@ == p.nodes@[m].id@);
        assert(comes_first(p, m, i));
    }
}

/// A plan that is to stop at the first failure stops: nothing is started any
/// more. In one that is to get as far as it can, what has to come after a
/// failure is left out.
pub proof fn law_failures_have_their_effect(
    p: TaskPlan,
    before: Schedule,
    after: Schedule,
    in_flight: bool,
    action: ScheduleAction,
    m: int,
    i: int,
)
    requires
        before.wf(p),
        protocol::linked(p),
        round(p, before, after, in_flight, action),
        0 <= m < p.nodes@.len(),
        0 <= i < p.nodes@.len(),
        before.statuses@[m] == NodeStatus::Failed,
        before.statuses@[i] == NodeStatus::Pending,
    ensures
        p.failure_policy == FailurePolicy::FailFast ==> action is Abort && after.statuses@[i]
            == NodeStatus::Skipped,
        p.failure_policy == FailurePolicy::BestEffort && comes_first(p, m, i)
            ==> after.statuses@[i] == NodeStatus::Skipped,
{
    let st = before.statuses@;
    law_linked_plan_is_live(p, m);
    law_linked_plan_is_live(p, i);
    assert(waiting(p, st, i));
    assert(some_live(p, st, NodeStatus::Failed));
    assert(some_live(p, st, NodeStatus::Pending));
    if comes_first(p, m, i) {
        lemma_comes_first(p, m, i);
        let g = |s: NodeStatus| is_lost(s);
        assert(g(st[m]));
        assert(id_has(p, st, p.nodes@[m].id@, g));
        assert(blocked(p, st, i));
    }
}

/// A task is handed what those put out that it names as its dependencies.
pub proof fn law_outputs_are_handed_on(
    p: TaskPlan,
    outputs: Seq<Option<String>>,
    deps: Seq<String>,
    d: int,
    m: int,
)
    requires
        protocol::linked(p),
        0 <= d < deps.len(),
        0 <= m < p.nodes@.len(),
        p.nodes@[m].id@ == deps[d]@,
        outputs[m] is Some,
    ensures
        upstream_of(p, outputs, deps).contains((deps[d]@, outputs[m]->0@)),
    decreases deps.len(),
{
    let id = deps[d]@;
    let x = (id, outputs[m]->0@);
    let r = upstream_of(p, outputs, deps);
    let t = deps.drop_last();
    if d == deps.len() - 1 {
        law_linked_plan_is_live(p, m);
        assert(stands_for(p, m, id));
        let y = choose|y: int| stands_for(p, y, id);
        lemma_one_stands(p, m, y, id);
        assert(r[r.len() - 1] == x);
    } else {
        law_outputs_are_handed_on(p, outputs, t, d, m);
        let b = upstream_of(p, outputs, t);
        let k = choose|k: int| 0 <= k < b.len() && b[k] == x;
        assert(r[k] == b[k]);
    }
}

} // verus!

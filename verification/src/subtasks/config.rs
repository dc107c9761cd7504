//! How subtasks are set up.

use crate::subtasks::protocol::FailurePolicy;
use crate::subtasks::scheduler::{DEFAULT_MAX_CONCURRENCY, DEFAULT_TIMEOUT_MS};
use crate::table::Table;
use vstd::prelude::*;

verus! {

/// How many rounds an agent that works on a subtask has.
pub const DEFAULT_SUB_AGENT_MAX_ITERATIONS: usize = 40;

/// Which model works on tasks of a kind.
#[derive(Debug)]
pub struct RoutingRuleConfig {
    pub node_type_pattern: String,
    pub target_model: String,
}

/// Where a model is reached and how it is asked. The temperature is kept by
/// whoever makes the request.
#[derive(Debug)]
pub struct ProviderConfig {
    pub endpoint: String,
    pub api_key: Option<String>,
    pub model: Option<String>,
    pub max_tokens: Option<u32>,
    pub thinking_enabled: bool,
    pub thinking_effort: String,
    pub thinking_budget_tokens: Option<u32>,
}

/// How subtasks are set up.
pub struct SubtasksConfig {
    pub enabled: bool,
    pub planner_model: Option<String>,
    pub planner_thinking_enabled: bool,
    pub planner_thinking_effort: String,
    /// The model that puts the results together; without one, rules do.
    pub reducer_model: Option<String>,
    pub max_concurrency: usize,
    pub failure_policy: FailurePolicy,
    pub default_timeout_ms: u64,
    pub routing_rules: Vec<RoutingRuleConfig>,
    pub sub_agent_max_iterations: usize,
    /// The model for tasks to which no rule applies.
    pub default_model: Option<String>,
    /// The models by name.
    pub providers: Table<ProviderConfig>,
}

impl Default for SubtasksConfig {
    fn default() -> (r: Self)
        ensures
            !r.enabled,
            r.planner_model is None,
            !r.planner_thinking_enabled,
            r.planner_thinking_effort@ == "high"@,
            r.reducer_model is None,
            r.max_concurrency == 4,
            r.failure_policy == FailurePolicy::FailFast,
            r.default_timeout_ms == 120_000,
            r.routing_rules@.len() == 0,
            r.sub_agent_max_iterations == 40,
            r.default_model is None,
            r.providers@ == Map::<Seq<char>, ProviderConfig>::empty(),
    {
        SubtasksConfig {
            enabled: false,
            planner_model: None,
            planner_thinking_enabled: false,
            planner_thinking_effort: "high".to_owned(),
            reducer_model: None,
            max_concurrency: DEFAULT_MAX_CONCURRENCY,
            failure_policy: FailurePolicy::default(),
            default_timeout_ms: DEFAULT_TIMEOUT_MS,
            routing_rules: Vec::new(),
            sub_agent_max_iterations: DEFAULT_SUB_AGENT_MAX_ITERATIONS,
            default_model: None,
            providers: Table::new(),
        }
    }
}

/// Which model works on what.
#[derive(Debug)]
pub struct RoutingPolicy {
    pub rules: Vec<RoutingRuleConfig>,
    pub default_model: String,
}

/// Rules as pairs of a pattern and a model.
pub open spec fn rules_view(rules: Seq<RoutingRuleConfig>) -> Seq<(Seq<char>, Seq<char>)> {
    Seq::new(rules.len(), |i: int| (rules[i].node_type_pattern@, rules[i].target_model@))
}

impl SubtasksConfig {
    /// Which model works on what; `fallback_model` where the configuration
    /// names none.
    pub fn to_routing_policy(&self, fallback_model: &str) -> (r: RoutingPolicy)
        ensures
            r.default_model@ == (match self.default_model {
                Some(m) => m@,
                None => fallback_model@,
            }),
            rules_view(r.rules@) == rules_view(self.routing_rules@),
    {
        let default_model = match &self.default_model {
            Some(m) => m.clone(),
            None => fallback_model.to_owned(),
        };
        let mut rules: Vec<RoutingRuleConfig> = Vec::new();
        let mut i: usize = 0;
        while i < self.routing_rules.len()
            invariant
                0 <= i <= self.routing_rules@.len(),
                rules@.len() == i,
                forall|k: int|
                    0 <= k < i ==> (#[trigger] rules@[k]).node_type_pattern@
                        == self.routing_rules@[k].node_type_pattern@ && rules@[k].target_model@
                        == self.routing_rules@[k].target_model@,
            decreases self.routing_rules@.len() - i,
        {
            rules.push(
                RoutingRuleConfig {
                    node_type_pattern: self.routing_rules[i].node_type_pattern.clone(),
                    target_model: self.routing_rules[i].target_model.clone(),
                },
            );
            i += 1;
        }
        proof {
            assert(rules_view(rules@) =~= rules_view(self.routing_rules@));
        }
        RoutingPolicy { rules, default_model }
    }
}

} // verus!

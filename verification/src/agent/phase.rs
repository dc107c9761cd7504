//! What the agent is told of its phase.

use crate::text;
use crate::text::{decimal_usize, str_eq};
use vstd::prelude::*;

verus! {

/// The phase that a model is told of.
#[derive(Debug, Clone, Copy, PartialEq, Eq, Structural)]
pub enum AgentPhase {
    Explore,
    Execute,
    Summarize,
}

/// What the state of the agent is brought up to before an iteration.
#[derive(Debug)]
pub struct PhaseUpdate {
    pub phase: AgentPhase,
    pub focus: String,
    pub plan: Vec<String>,
}

/// What a phase depends on.
#[derive(Debug, Clone, Copy)]
pub struct PhaseInputs {
    pub in_exploration: bool,
    pub exploration_iterations: usize,
    pub explore_max: usize,
    pub has_dispatch: bool,
    pub has_write: bool,
    pub dispatch_count: usize,
    pub write_count: usize,
}

/// Whether one of the last three tools was a dispatch.
pub open spec fn dispatched_of_late(tools: Seq<Seq<char>>) -> bool {
    exists|i: int| 0 <= i < tools.len() && i >= tools.len() - 3 && #[trigger] tools[i] == "dispatch_subtasks"@
}

/// The phase.
pub open spec fn phase_now(p: PhaseInputs, tools: Seq<Seq<char>>) -> AgentPhase {
    if p.in_exploration {
        AgentPhase::Explore
    } else if p.dispatch_count == 0 && p.write_count == 0 || dispatched_of_late(tools) {
        AgentPhase::Execute
    } else {
        AgentPhase::Summarize
    }
}

/// What to attend to while exploring.
pub open spec fn explore_guidance(p: PhaseInputs) -> Seq<char> {
    if p.exploration_iterations <= 1 {
        "Read the task requirements first. Extract key info (formulas, column names, rules) from user message before exploring."@
    } else if p.exploration_iterations <= p.explore_max / 2 {
        "Merge queries: inspect multiple sheets/files in ONE exec call. Don't explore one-by-one."@
    } else {
        "Exploration budget nearly exhausted. Start producing output NOW with information already gathered."@
    }
}

/// What to attend to.
pub open spec fn focus_now(p: PhaseInputs, tools: Seq<Seq<char>>) -> Seq<char> {
    if p.in_exploration {
        "Explore ("@ + text::dec(p.exploration_iterations as nat) + "/"@ + text::dec(
            p.explore_max as nat,
        ) + ")."@ + " "@ + explore_guidance(p) + (if p.has_dispatch {
            " If ≥2 files to create/modify, plan to use dispatch_subtasks."@
        } else {
            Seq::empty()
        })
    } else if p.dispatch_count == 0 && p.write_count == 0 {
        if p.has_dispatch {
            "Produce phase started. Use dispatch_subtasks for file creation. Set dependencies between subtasks correctly."@
        } else {
            "Produce phase started. Write files with write_file/edit_file. Don't over-verify — one comprehensive check is enough."@
        }
    } else if dispatched_of_late(tools) {
        "dispatch_subtasks returned ("@ + text::dec(p.dispatch_count as nat) + " calls so far, "@
            + text::dec(p.write_count as nat)
            + " writes). Review the results. If files created successfully, verify or finalize. If failed, analyze and retry with improved prompts."@
    } else {
        "Production mostly done ("@ + text::dec(p.dispatch_count as nat) + " dispatches, "@
            + text::dec(p.write_count as nat)
            + " writes). Finalize: verify outputs if not yet verified, then output final summary to complete the task."@
    }
}

/// The standing plan.
pub open spec fn plan_now(p: PhaseInputs) -> Seq<Seq<char>> {
    seq![
        "Reuse existing evidence before new tool calls."@,
        "If data seems large, aggregate in script instead of paging output."@,
    ] + (if p.has_dispatch {
        seq![
            "dispatch_subtasks: set dependencies when subtasks have input/output relationships. Default to serial if unsure."@,
        ]
    } else {
        Seq::empty()
    }) + (if p.has_write {
        seq!["Move to write_file/edit_file when logic is clear."@]
    } else {
        Seq::empty()
    })
}

fn has_recent_dispatch(tools: &Vec<String>) -> (r: bool)
    ensures
        r == dispatched_of_late(text::texts(tools@)),
{
    let ghost t = text::texts(tools@);
    let n: usize = tools.len();
    let mut i: usize = if n < 3 {
        0
    } else {
        n - 3
    };
    while i < n
        invariant
            i <= n == tools@.len(),
            i >= n - 3,
            t == text::texts(tools@),
            forall|k: int|
                0 <= k < i && k >= n - 3 ==> #[trigger] t[k] != "dispatch_subtasks"@,
        decreases n - i,
    {
        proof {
            assert(t[i as int] == tools@[i as int]@);
        }
        if str_eq(tools[i].as_str(), "dispatch_subtasks") {
            return true;
        }
        i += 1;
    }
    false
}

/// What the state of the agent is brought up to before an iteration.
pub fn sync_context_state_for_iteration(p: PhaseInputs, tools_used: &Vec<String>) -> (r: PhaseUpdate)
    ensures
        r.phase == phase_now(p, text::texts(tools_used@)),
        r.focus@ == focus_now(p, text::texts(tools_used@)),
        text::texts(r.plan@) == plan_now(p),
{
    let recent = has_recent_dispatch(tools_used);
    let dispatches = decimal_usize(p.dispatch_count);
    let writes = decimal_usize(p.write_count);
    let mut focus = String::new();
    let phase = if p.in_exploration {
        let done = decimal_usize(p.exploration_iterations);
        let max = decimal_usize(p.explore_max);
        focus.push_str("Explore (");
        focus.push_str(done.as_str());
        focus.push_str("/");
        focus.push_str(max.as_str());
        focus.push_str(").");
        focus.push_str(" ");
        focus.push_str(
            if p.exploration_iterations <= 1 {
                "Read the task requirements first. Extract key info (formulas, column names, rules) from user message before exploring."
            } else if p.exploration_iterations <= p.explore_max / 2 {
                "Merge queries: inspect multiple sheets/files in ONE exec call. Don't explore one-by-one."
            } else {
                "Exploration budget nearly exhausted. Start producing output NOW with information already gathered."
            },
        );
        if p.has_dispatch {
            focus.push_str(" If ≥2 files to create/modify, plan to use dispatch_subtasks.");
        }
        AgentPhase::Explore
    } else if p.dispatch_count == 0 && p.write_count == 0 {
        focus.push_str(
            if p.has_dispatch {
                "Produce phase started. Use dispatch_subtasks for file creation. Set dependencies between subtasks correctly."
            } else {
                "Produce phase started. Write files with write_file/edit_file. Don't over-verify — one comprehensive check is enough."
            },
        );
        AgentPhase::Execute
    } else if recent {
        focus.push_str("dispatch_subtasks returned (");
        focus.push_str(dispatches.as_str());
        focus.push_str(" calls so far, ");
        focus.push_str(writes.as_str());
        focus.push_str(
            " writes). Review the results. If files created successfully, verify or finalize. If failed, analyze and retry with improved prompts.",
        );
        AgentPhase::Execute
    } else {
        focus.push_str("Production mostly done (");
        focus.push_str(dispatches.as_str());
        focus.push_str(" dispatches, ");
        focus.push_str(writes.as_str());
        focus.push_str(
            " writes). Finalize: verify outputs if not yet verified, then output final summary to complete the task.",
        );
        AgentPhase::Summarize
    };
    proof {
        assert(focus@ =~= focus_now(p, text::texts(tools_used@)));
    }
    let mut plan: Vec<String> = Vec::new();
    plan.push("Reuse existing evidence before new tool calls.".to_owned());
    plan.push("If data seems large, aggregate in script instead of paging output.".to_owned());
    if p.has_dispatch {
        plan.push(
            "dispatch_subtasks: set dependencies when subtasks have input/output relationships. Default to serial if unsure.".to_owned(),
        );
    }
    if p.has_write {
        plan.push("Move to write_file/edit_file when logic is clear.".to_owned());
    }
    proof {
        assert(text::texts(plan@) =~= plan_now(p));
    }
    PhaseUpdate { phase, focus, plan }
}

/// Whether the agent goes over to producing after a round of tools: as soon as
/// one of them produced something.
pub fn explore_phase_after_tools(has_production: bool) -> (r: bool)
    ensures
        r == has_production,
{
    has_production
}

/// The phase follows the work: exploring comes first, then producing until
/// something was written or handed out, and then the end; while a dispatch is
/// fresh, the work goes on.
pub proof fn law_phase_follows_the_work(p: PhaseInputs, tools: Seq<Seq<char>>, i: int)
    ensures
        p.in_exploration <==> phase_now(p, tools) == AgentPhase::Explore,
        !p.in_exploration && p.dispatch_count == 0 && p.write_count == 0 ==> phase_now(p, tools)
            == AgentPhase::Execute,
        !p.in_exploration && 0 <= i < tools.len() && i + 3 >= tools.len() && tools[i]
            == "dispatch_subtasks"@ ==> phase_now(p, tools) == AgentPhase::Execute,
        !p.in_exploration && (p.dispatch_count > 0 || p.write_count > 0) && !tools.contains(
            "dispatch_subtasks"@,
        ) ==> phase_now(p, tools) == AgentPhase::Summarize,
{
    if dispatched_of_late(tools) {
        let k = choose|k: int|
            0 <= k < tools.len() && k >= tools.len() - 3 && #[trigger] tools[k]
                == "dispatch_subtasks"@;
        assert(tools.contains(tools[k]));
    }
}

/// What to attend to tells how much of the exploration is used up, and
/// afterwards how much was handed out and written.
pub proof fn law_focus_tells_the_counts(p: PhaseInputs, tools: Seq<Seq<char>>)
    ensures
        p.in_exploration ==> text::contains(
            focus_now(p, tools),
            text::dec(p.exploration_iterations as nat),
        ) && text::contains(focus_now(p, tools), text::dec(p.explore_max as nat)),
        !p.in_exploration && (p.dispatch_count > 0 || p.write_count > 0) ==> text::contains(
            focus_now(p, tools),
            text::dec(p.dispatch_count as nat),
        ) && text::contains(focus_now(p, tools), text::dec(p.write_count as nat)),
{
    let f = focus_now(p, tools);
    if p.in_exploration {
        let d = text::dec(p.exploration_iterations as nat);
        let e = text::dec(p.explore_max as nat);
        assert(text::contains(f, d)) by {
            let a = "Explore ("@;
            let b = f.skip((a.len() + d.len()) as int);
            assert(f =~= a + d + b);
            text::lemma_contains_part(a, d, b);
        }
        let a = "Explore ("@ + d + "/"@;
        let b = f.skip((a.len() + e.len()) as int);
        assert(f =~= a + e + b);
        text::lemma_contains_part(a, e, b);
    } else if p.dispatch_count > 0 || p.write_count > 0 {
        let d = text::dec(p.dispatch_count as nat);
        let e = text::dec(p.write_count as nat);
        let (h, m) = if dispatched_of_late(tools) {
            ("dispatch_subtasks returned ("@, " calls so far, "@)
        } else {
            ("Production mostly done ("@, " dispatches, "@)
        };
        assert(text::contains(f, d)) by {
            let b = f.skip((h.len() + d.len()) as int);
            assert(f =~= h + d + b);
            text::lemma_contains_part(h, d, b);
        }
        let a = h + d + m;
        let b = f.skip((a.len() + e.len()) as int);
        assert(f =~= a + e + b);
        text::lemma_contains_part(a, e, b);
    }
}

/// The plan speaks of subtasks and of writing where the agent has the tools
/// for them, and only there.
pub proof fn law_plan_fits_the_tools(p: PhaseInputs)
    ensures
        plan_now(p).len() == 2 + (if p.has_dispatch {
            1int
        } else {
            0
        }) + (if p.has_write {
            1int
        } else {
            0
        }),
        p.has_write ==> plan_now(p).last() == "Move to write_file/edit_file when logic is clear."@,
{
}

} // verus!

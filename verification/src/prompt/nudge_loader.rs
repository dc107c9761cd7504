//! The texts by which the agent is nudged.

use crate::prompt::prompt_store;
use crate::prompt::prompt_store::{get_nudge, try_get, PromptStore};
use crate::text;
use crate::text::{decimal_usize, str_replace};
use vstd::prelude::*;

verus! {

/// Fills the store with the prompt texts of a file, where it holds none yet.
pub fn init(store: &mut PromptStore, content: &str) -> (r: bool)
    ensures
        r <==> prompt_store::blocks_of(content@) is Some,
        final(store).path_vars == old(store).path_vars,
        old(store).prompts is Some || !r ==> final(store).prompts == old(store).prompts,
        old(store).prompts is None && r ==> final(store).prompts is Some
            && prompt_store::holds_blocks(
            final(store).prompts->0,
            prompt_store::blocks_of(content@)->0,
        ),
{
    prompt_store::init(store, content)
}

/// Asks for a plan.
pub fn plan_required(store: &PromptStore) -> (r: String)
    requires
        store.nudge("plan_required"@) is Some,
    ensures
        store.nudge("plan_required"@) == Some(r@),
{
    get_nudge(store, "plan_required")
}

/// Answers a command that is refused because the agent explored for too long.
pub fn explore_hard_block(store: &PromptStore) -> (r: String)
    requires
        store.nudge("explore_hard_block"@) is Some,
    ensures
        store.nudge("explore_hard_block"@) == Some(r@),
{
    get_nudge(store, "explore_hard_block")
}

/// Asks an agent that only runs commands to produce something.
pub fn idle_spin(store: &PromptStore) -> (r: String)
    requires
        store.nudge("idle_spin"@) is Some,
    ensures
        store.nudge("idle_spin"@) == Some(r@),
{
    get_nudge(store, "idle_spin")
}

/// Asks for another call after one with wrong parameters.
pub fn param_error_retry(store: &PromptStore) -> (r: String)
    requires
        store.nudge("param_error_retry"@) is Some,
    ensures
        store.nudge("param_error_retry"@) == Some(r@),
{
    get_nudge(store, "param_error_retry")
}

/// Asks for the work that was only promised.
pub fn empty_promise_retry(store: &PromptStore) -> (r: String)
    requires
        store.nudge("empty_promise_retry"@) is Some,
    ensures
        store.nudge("empty_promise_retry"@) == Some(r@),
{
    get_nudge(store, "empty_promise_retry")
}

/// What stands in front of the long-term memory; empty where it is not set.
pub fn memory_guard(store: &PromptStore) -> (r: String)
    ensures
        r@ == (match store.top("memory_guard"@) {
            Some(t) => t,
            None => Seq::empty(),
        }),
{
    match try_get(store, "memory_guard") {
        Some(t) => t,
        None => String::new(),
    }
}

/// The warning that the budget for exploration runs out.
pub open spec fn budget_warning(template: Seq<char>, current: nat, max: nat) -> Seq<char> {
    text::replace_all(
        text::replace_all(template, "{current}"@, text::dec(current)),
        "{max}"@,
        text::dec(max),
    )
}

/// Warns that the budget for exploration runs out.
pub fn explore_budget_warning(store: &PromptStore, current: usize, max: usize) -> (r: String)
    requires
        store.nudge("explore_budget_warning"@) is Some,
    ensures
        r@ == budget_warning(
            store.nudge("explore_budget_warning"@)->0,
            current as nat,
            max as nat,
        ),
{
    proof {
        reveal_strlit("{current}");
        reveal_strlit("{max}");
    }
    let template = get_nudge(store, "explore_budget_warning");
    let current_text = decimal_usize(current);
    let max_text = decimal_usize(max);
    let t = str_replace(template.as_str(), "{current}", current_text.as_str());
    str_replace(t.as_str(), "{max}", max_text.as_str())
}

/// The warning tells how much of the budget is used and how much there is.
pub proof fn law_warning_tells_the_budget(a: Seq<char>, b: Seq<char>, current: nat, max: nat)
    requires
        forall|i: int| 0 <= i < a.len() ==> #[trigger] a[i] != '{',
        forall|i: int| 0 <= i < b.len() ==> #[trigger] b[i] != '{',
    ensures
        budget_warning(a + "{current}"@ + b + "{max}"@, current, max) == a + text::dec(current) + b
            + text::dec(max),
{
    reveal_strlit("{current}");
    reveal_strlit("{max}");
    let c = "{current}"@;
    let m = "{max}"@;
    let none = Seq::<char>::empty();
    let d = text::dec(current);
    let t = a + c + b + m;
    let tail = b + m;
    assert(c.len() == 9 && c[0] == '{' && c[1] == 'c' && m.len() == 5 && m[0] == '{' && m[1] == 'm');
    assert(t =~= a + c + tail);
    assert forall|i: int| 0 <= i < a.len() implies !#[trigger] text::occurs_at(a + c + tail, c, i) by {
        if text::occurs_at(a + c + tail, c, i) {
            assert((a + c + tail).subrange(i, i + c.len())[0] == a[i]);
        }
    }
    assert(!text::contains(tail, c)) by {
        if text::contains(tail, c) {
            let i = choose|i: int| text::occurs_at(tail, c, i);
            assert(tail.subrange(i, i + c.len())[0] == tail[i]);
            if i < b.len() {
                assert(tail[i] == b[i]);
            }
        }
    }
    text::law_parts_are_replaced(a, c, tail, d);
    let front = a + d + b;
    let u = a + d + tail;
    assert(u =~= front + m + none);
    assert forall|i: int| 0 <= i < front.len() implies !#[trigger] text::occurs_at(
        front + m + none,
        m,
        i,
    ) by {
        if text::occurs_at(front + m + none, m, i) {
            assert((front + m + none).subrange(i, i + m.len())[0] == front[i]);
            lemma_decimals_are_digits(current);
            if i < a.len() {
                assert(front[i] == a[i]);
            } else if i < a.len() + d.len() {
                assert(front[i] == d[i - a.len()]);
            } else {
                assert(front[i] == b[i - a.len() - d.len()]);
            }
        }
    }
    text::law_parts_are_replaced(front, m, none, text::dec(max));
    assert(!text::contains(none, m)) by {
        text::lemma_contains_find(none, m);
        text::lemma_find_from(none, m, 0);
    }
    assert(front + text::dec(max) + none =~= a + d + b + text::dec(max));
}

proof fn lemma_decimals_are_digits(n: nat)
    ensures
        forall|i: int| 0 <= i < text::dec(n).len() ==> #[trigger] text::dec(n)[i] != '{',
    decreases n,
{
    if n >= 10 {
        lemma_decimals_are_digits(n / 10);
        let p = text::dec(n / 10);
        assert forall|i: int| 0 <= i < text::dec(n).len() implies #[trigger] text::dec(n)[i]
            != '{' by {
            if i < p.len() {
                assert(text::dec(n)[i] == p[i]);
            }
        }
    }
}

} // verus!

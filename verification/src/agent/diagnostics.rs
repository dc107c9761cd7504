//! Counts over the tool executions of a run.

use crate::agent::runtime::{RunDiagnosticsSummary, ToolExecutionEvent};
use crate::seqs;
use crate::text::str_eq;
use vstd::prelude::*;

verus! {

/// The tools that change files.
pub open spec fn mutating(name: Seq<char>) -> bool {
    ||| name == "write_file"@
    ||| name == "edit_file"@
    ||| name == "apply_patch"@
    ||| name == "delete_file"@
    ||| name == "move_file"@
    ||| name == "copy_file"@
    ||| name == "mkdir"@
}

/// The tools by which an edit can be checked.
pub open spec fn verifying(name: Seq<char>) -> bool {
    ||| name == "read_file"@
    ||| name == "list_dir"@
    ||| name == "grep_search"@
    ||| name == "glob"@
    ||| name == "exec"@
}

/// Whether the tool changes files.
pub fn is_mutating_tool(tool_name: &str) -> (r: bool)
    ensures
        r == mutating(tool_name@),
{
    str_eq(tool_name, "write_file") || str_eq(tool_name, "edit_file") || str_eq(
        tool_name,
        "apply_patch",
    ) || str_eq(tool_name, "delete_file") || str_eq(tool_name, "move_file") || str_eq(
        tool_name,
        "copy_file",
    ) || str_eq(tool_name, "mkdir")
}

/// Whether the tool can check an edit.
pub fn is_verification_tool(tool_name: &str) -> (r: bool)
    ensures
        r == verifying(tool_name@),
{
    str_eq(tool_name, "read_file") || str_eq(tool_name, "list_dir") || str_eq(
        tool_name,
        "grep_search",
    ) || str_eq(tool_name, "glob") || str_eq(tool_name, "exec")
}

/// Whether a status says that the call itself went wrong.
pub open spec fn error_status(status: Seq<char>) -> bool {
    status == "error"@ || status == "invalid_params"@ || status == "unknown_tool"@
}

/// Whether a status says that the call was not allowed.
pub open spec fn denied_status(status: Seq<char>) -> bool {
    status == "denied"@ || status == "blocked"@
}

/// The index of the last event that changed files.
pub open spec fn last_edit(events: Seq<ToolExecutionEvent>) -> Option<int>
    decreases events.len(),
{
    if events.len() == 0 {
        None
    } else if mutating(events.last().tool_name@) {
        Some(events.len() - 1)
    } else {
        last_edit(events.drop_last())
    }
}

/// Whether an event checked an edit with success.
pub open spec fn is_check(e: ToolExecutionEvent) -> bool {
    verifying(e.tool_name@) && e.status@ == "ok"@
}

/// Whether the last edit was checked; nothing where nothing was edited.
pub open spec fn verified_after_edit(events: Seq<ToolExecutionEvent>) -> Option<bool> {
    match last_edit(events) {
        Some(i) => Some(exists|k: int| i < k < events.len() && is_check(#[trigger] events[k])),
        None => None,
    }
}

/// The counts over a list of events.
pub open spec fn summary_of(events: Seq<ToolExecutionEvent>, s: RunDiagnosticsSummary) -> bool {
    &&& s.total_tool_calls == events.len()
    &&& s.exec_count == seqs::count(events, |e: ToolExecutionEvent| e.tool_name@ == "exec"@)
    &&& s.dedicated_tool_count == seqs::count(
        events,
        |e: ToolExecutionEvent| e.tool_name@ != "exec"@,
    )
    &&& s.error_tool_count == seqs::count(events, |e: ToolExecutionEvent| error_status(e.status@))
    &&& s.denied_tool_count == seqs::count(events, |e: ToolExecutionEvent| denied_status(e.status@))
    &&& s.sandbox_tool_count == seqs::count(
        events,
        |e: ToolExecutionEvent| e.route@ == "sandbox"@,
    )
    &&& s.host_tool_count == seqs::count(events, |e: ToolExecutionEvent| e.route@ == "host"@)
    &&& s.verified_after_last_edit == verified_after_edit(events)
    &&& s.ended_with_unverified_changes == (verified_after_edit(events) == Some(false))
}

/// The counts over the tool executions of a run.
pub fn build_run_diagnostics_summary(events: &Vec<ToolExecutionEvent>) -> (r: RunDiagnosticsSummary)
    ensures
        summary_of(events@, r),
{
    let mut s = RunDiagnosticsSummary {
        total_tool_calls: 0,
        exec_count: 0,
        dedicated_tool_count: 0,
        error_tool_count: 0,
        denied_tool_count: 0,
        sandbox_tool_count: 0,
        host_tool_count: 0,
        verified_after_last_edit: None,
        ended_with_unverified_changes: false,
    };
    let mut i: usize = 0;
    while i < events.len()
        invariant
            0 <= i <= events@.len(),
            summary_of(events@.take(i as int), s),
        decreases events@.len() - i,
    {
        let ghost before = events@.take(i as int);
        let ghost after = events@.take(i + 1);
        proof {
            assert(after.drop_last() =~= before);
            assert(after.last() == events@[i as int]);
            seqs::lemma_count_bound(before, |e: ToolExecutionEvent| e.tool_name@ == "exec"@);
            seqs::lemma_count_bound(before, |e: ToolExecutionEvent| e.tool_name@ != "exec"@);
            seqs::lemma_count_bound(before, |e: ToolExecutionEvent| error_status(e.status@));
            seqs::lemma_count_bound(before, |e: ToolExecutionEvent| denied_status(e.status@));
            seqs::lemma_count_bound(before, |e: ToolExecutionEvent| e.route@ == "sandbox"@);
            seqs::lemma_count_bound(before, |e: ToolExecutionEvent| e.route@ == "host"@);
        }
        let e = &events[i];
        s.total_tool_calls = s.total_tool_calls + 1;
        if str_eq(e.tool_name.as_str(), "exec") {
            s.exec_count = s.exec_count + 1;
        } else {
            s.dedicated_tool_count = s.dedicated_tool_count + 1;
        }
        let status = e.status.as_str();
        if str_eq(status, "error") || str_eq(status, "invalid_params") || str_eq(
            status,
            "unknown_tool",
        ) {
            s.error_tool_count = s.error_tool_count + 1;
        }
        if str_eq(status, "denied") || str_eq(status, "blocked") {
            s.denied_tool_count = s.denied_tool_count + 1;
        }
        if str_eq(e.route.as_str(), "sandbox") {
            s.sandbox_tool_count = s.sandbox_tool_count + 1;
        }
        if str_eq(e.route.as_str(), "host") {
            s.host_tool_count = s.host_tool_count + 1;
        }
        let checks = is_verification_tool(e.tool_name.as_str()) && str_eq(status, "ok");
        let ghost checked_before = s.verified_after_last_edit;
        if is_mutating_tool(e.tool_name.as_str()) {
            s.verified_after_last_edit = Some(false);
        } else {
            if let Some(v) = s.verified_after_last_edit {
                s.verified_after_last_edit = Some(v || checks);
            }
        }
        s.ended_with_unverified_changes = match s.verified_after_last_edit {
            Some(v) => !v,
            None => false,
        };
        proof {
            lemma_last_edit_range(before);
            if mutating(after.last().tool_name@) {
                assert(verified_after_edit(after) == Some(false));
            } else if let Some(k0) = last_edit(before) {
                if checks {
                    assert(is_check(after[i as int]));
                }
                if checked_before == Some(true) {
                    let k = choose|k: int|
                        k0 < k < before.len() && is_check(#[trigger] before[k]);
                    assert(after[k] == before[k]);
                }
                assert forall|k: int| k0 < k < after.len() && is_check(#[trigger] after[k]) implies (
                checks || checked_before == Some(true)) by {
                    if k < i {
                        assert(after[k] == before[k]);
                    }
                }
            }
        }
        i += 1;
    }
    proof {
        assert(events@.take(i as int) =~= events@);
    }
    s
}

proof fn lemma_last_edit_range(events: Seq<ToolExecutionEvent>)
    ensures
        last_edit(events) matches Some(i) ==> 0 <= i < events.len(),
    decreases events.len(),
{
    if events.len() > 0 {
        lemma_last_edit_range(events.drop_last());
    }
}

/// Every execution is either an `exec` or a dedicated tool.
pub proof fn law_exec_and_dedicated_add_up(
    events: Seq<ToolExecutionEvent>,
    s: RunDiagnosticsSummary,
)
    requires
        summary_of(events, s),
    ensures
        s.exec_count + s.dedicated_tool_count == s.total_tool_calls,
{
    seqs::lemma_count_complement(
        events,
        |e: ToolExecutionEvent| e.tool_name@ == "exec"@,
        |e: ToolExecutionEvent| e.tool_name@ != "exec"@,
    );
}

/// A run ends with unverified changes exactly when it edited and nothing
/// after the last edit checked it.
pub proof fn law_unverified_changes(events: Seq<ToolExecutionEvent>, s: RunDiagnosticsSummary)
    requires
        summary_of(events, s),
    ensures
        s.ended_with_unverified_changes <==> (last_edit(events) matches Some(i) && forall|k: int|
            i < k < events.len() ==> !is_check(#[trigger] events[k])),
{
}

/// Another execution adds one to the counts that it belongs to, and to no
/// other.
pub proof fn law_execution_is_counted(
    events: Seq<ToolExecutionEvent>,
    e: ToolExecutionEvent,
    before: RunDiagnosticsSummary,
    after: RunDiagnosticsSummary,
)
    requires
        summary_of(events, before),
        summary_of(events.push(e), after),
    ensures
        after.total_tool_calls == before.total_tool_calls + 1,
        after.exec_count == before.exec_count + (if e.tool_name@ == "exec"@ {
            1int
        } else {
            0
        }),
        after.error_tool_count == before.error_tool_count + (if e.status@ == "error"@ || e.status@
            == "invalid_params"@ || e.status@ == "unknown_tool"@ {
            1int
        } else {
            0
        }),
        after.denied_tool_count == before.denied_tool_count + (if e.status@ == "denied"@
            || e.status@ == "blocked"@ {
            1int
        } else {
            0
        }),
        after.sandbox_tool_count == before.sandbox_tool_count + (if e.route@ == "sandbox"@ {
            1int
        } else {
            0
        }),
        after.host_tool_count == before.host_tool_count + (if e.route@ == "host"@ {
            1int
        } else {
            0
        }),
{
    assert(events.push(e).drop_last() =~= events);
}

/// A run that writes a file last has changes that nothing has checked, until
/// it reads or runs something with success.
pub proof fn law_edit_waits_for_a_check(
    events: Seq<ToolExecutionEvent>,
    edit: ToolExecutionEvent,
    check: ToolExecutionEvent,
    before: RunDiagnosticsSummary,
    after: RunDiagnosticsSummary,
)
    requires
        edit.tool_name@ == "write_file"@ || edit.tool_name@ == "edit_file"@ || edit.tool_name@
            == "apply_patch"@,
        check.tool_name@ == "read_file"@ || check.tool_name@ == "exec"@,
        check.status@ == "ok"@,
        summary_of(events.push(edit), before),
        summary_of(events.push(edit).push(check), after),
    ensures
        before.ended_with_unverified_changes,
        before.verified_after_last_edit == Some(false),
        !after.ended_with_unverified_changes,
        after.verified_after_last_edit == Some(true),
{
    let a = events.push(edit);
    let b = a.push(check);
    assert(a.last() == edit);
    assert(b.last() == check);
    assert(b.drop_last() =~= a);
    reveal_strlit("read_file");
    reveal_strlit("exec");
    reveal_strlit("write_file");
    reveal_strlit("edit_file");
    reveal_strlit("apply_patch");
    reveal_strlit("delete_file");
    reveal_strlit("move_file");
    reveal_strlit("copy_file");
    reveal_strlit("mkdir");
    assert("read_file"@.len() == 9 && "exec"@.len() == 4 && "write_file"@.len() == 10
        && "edit_file"@.len() == 9 && "apply_patch"@.len() == 11 && "delete_file"@.len() == 11
        && "move_file"@.len() == 9 && "copy_file"@.len() == 9 && "mkdir"@.len() == 5);
    assert("read_file"@[0] == 'r' && "edit_file"@[0] == 'e' && "move_file"@[0] == 'm'
        && "copy_file"@[0] == 'c');
    assert(!mutating(check.tool_name@));
    assert(last_edit(a) == Some(a.len() - 1));
    assert(last_edit(b) == Some(a.len() - 1));
    assert(is_check(b[b.len() - 1]));
}

} // verus!

//! Clearing workspaces that nobody uses any more.

use crate::control::workspace;
use crate::control::workspace::{join_path, WorkspaceManager};
use crate::message;
use crate::message::{Message, MessageView};
use crate::orchestration::handler::{cache_scope, AuditEntry};
use crate::orchestration::session_manager::{ActiveView, SessionManager, SessionsView};
use crate::text;
use vstd::prelude::*;

verus! {

/// Whether one of some files was changed within that many seconds. The age of
/// each is given in nanoseconds, where it is known.
pub fn has_recent_file_activity(ages: &Vec<Option<u128>>, threshold_secs: u64) -> (r: bool)
    ensures
        r == exists|i: int|
            0 <= i < ages@.len() && (#[trigger] ages@[i]) is Some && ages@[i]->0 < threshold_secs
                * 1_000_000_000,
{
    let threshold: u128 = threshold_secs as u128 * 1_000_000_000;
    let mut i: usize = 0;
    while i < ages.len()
        invariant
            0 <= i <= ages@.len(),
            threshold == threshold_secs * 1_000_000_000,
            forall|k: int|
                0 <= k < i ==> (#[trigger] ages@[k]) is None || ages@[k]->0 >= threshold,
        decreases ages@.len() - i,
    {
        if let Some(age) = ages[i] {
            if age < threshold {
                assert(ages@[i as int] is Some);
                return true;
            }
        }
        i += 1;
    }
    false
}

/// What becomes of a workspace that seemed idle.
pub enum Reaping {
    /// Something is still at work there.
    Spared,
    /// It is cleared, once these messages were merged into the memory.
    Cleared { to_merge: Vec<Message> },
}

/// What of a session is to be merged into the memory.
pub open spec fn unmerged(
    all: SessionsView,
    key: Seq<char>,
    enable_memory: bool,
) -> Seq<MessageView> {
    if enable_memory && all.cache.contains_key(key) {
        let s = all.cache[key].session;
        s.messages.skip(s.last_consolidated as int)
    } else {
        Seq::empty()
    }
}

/// Decides on a workspace that seems idle: where files were changed of late it
/// counts as used, else its session is taken out of use.
pub fn reap(
    sessions: &mut SessionManager,
    workspace_key: &str,
    recent_activity: bool,
    enable_memory: bool,
    tick: u64,
) -> (r: Reaping)
    requires
        old(sessions)@.cache.contains_key(workspace_key@)
            ==> old(sessions)@.cache[workspace_key@].session.last_consolidated
            <= old(sessions)@.cache[workspace_key@].session.messages.len(),
    ensures
        recent_activity ==> r is Spared && final(sessions)@ == old(sessions)@.changed(
            workspace_key@,
            (ActiveView { last_access: tick, ..old(sessions)@.cache[workspace_key@] }),
        ),
        !recent_activity ==> r is Cleared && message::views(r->to_merge@) == unmerged(
            old(sessions)@,
            workspace_key@,
            enable_memory,
        ) && final(sessions)@ == (SessionsView {
            cache: old(sessions)@.cache.remove(workspace_key@),
            ..old(sessions)@
        }),
{
    if recent_activity {
        sessions.touch(workspace_key, tick);
        return Reaping::Spared;
    }
    let mut to_merge: Vec<Message> = Vec::new();
    let ghost want = unmerged(sessions@, workspace_key@, enable_memory);
    if let Some(session) = sessions.evict(workspace_key) {
        if enable_memory {
            let n: usize = session.messages.len();
            let start: usize = session.last_consolidated;
            let mut i: usize = start;
            while i < n
                invariant
                    start <= i <= n,
                    n == session.messages@.len(),
                    to_merge@.len() == i - start,
                    forall|k: int|
                        0 <= k < i - start ==> (#[trigger] to_merge@[k])@
                            == session.messages@[start + k]@,
                decreases n - i,
            {
                to_merge.push(session.messages[i].clone());
                i += 1;
            }
        }
    }
    proof {
        assert(message::views(to_merge@) =~= want);
    }
    Reaping::Cleared { to_merge }
}

/// What is removed when a workspace is cleared.
pub struct Clearing {
    pub history_file: String,
    /// The directories that are emptied.
    pub dirs: Vec<String>,
    pub container: String,
    /// The scope under which the model keeps what it was sent.
    pub cache_scope: String,
    pub audit: AuditEntry,
}

/// What is removed when a workspace is cleared.
pub fn plan_clearing(workspaces: &WorkspaceManager, workspace_key: &str) -> (r: Clearing)
    ensures
        r.history_file@ == workspace::below(
            workspaces@.dir(workspace_key@),
            workspaces@.paths.history_file@,
        ),
        text::texts(r.dirs@) == seq![
            workspace::below(workspace::below(workspaces@.dir(workspace_key@), "work"@), "tmp"@),
            workspace::below(
                workspace::below(workspaces@.dir(workspace_key@), "work"@),
                "dispatches"@,
            ),
            workspace::below(
                workspace::below(workspaces@.dir(workspace_key@), "work"@),
                "attachments"@,
            ),
        ],
        r.container@ == "tyclaw-"@ + workspace_key@,
        r.cache_scope@ == "session:"@ + workspace_key@,
        r.audit.workspace_key@ == workspace_key@,
        r.audit.session_id@ == "reaper"@,
        r.audit.user_id@ == "system"@,
        r.audit.user_name@ == "system"@,
        r.audit.channel@ == "reaper"@,
        r.audit.request@ == "workspace idle timeout"@,
        r.audit.tool_calls@.len() == 0,
        r.audit.skills_used@.len() == 0,
        message::opt_text(r.audit.final_response) == Some("consolidated and cleaned"@),
        r.audit.token_usage is None,
{
    let work = workspaces.work_dir(workspace_key);
    let mut dirs: Vec<String> = Vec::new();
    dirs.push(join_path(work.as_str(), "tmp"));
    dirs.push(join_path(work.as_str(), "dispatches"));
    dirs.push(join_path(work.as_str(), "attachments"));
    proof {
        assert(text::texts(dirs@) =~= seq![
            workspace::below(work@, "tmp"@),
            workspace::below(work@, "dispatches"@),
            workspace::below(work@, "attachments"@),
        ]);
    }
    let mut container = "tyclaw-".to_owned();
    container.push_str(workspace_key);
    Clearing {
        history_file: workspaces.history_path(workspace_key),
        dirs,
        container,
        cache_scope: cache_scope(workspace_key),
        audit: AuditEntry {
            workspace_key: workspace_key.to_owned(),
            session_id: "reaper".to_owned(),
            user_id: "system".to_owned(),
            user_name: "system".to_owned(),
            channel: "reaper".to_owned(),
            request: "workspace idle timeout".to_owned(),
            tool_calls: Vec::new(),
            skills_used: Vec::new(),
            final_response: Some("consolidated and cleaned".to_owned()),
            token_usage: None,
        },
    }
}

/// What a session that goes out of use has said since it was last merged into
/// the memory is handed on, in its order, where there is a memory.
pub proof fn law_unmerged_messages_are_handed_on(all: SessionsView, key: Seq<char>, i: int)
    requires
        all.cache.contains_key(key),
        all.cache[key].session.last_consolidated <= i < all.cache[key].session.messages.len(),
    ensures
        ({
            let s = all.cache[key].session;
            let n = s.last_consolidated as int;
            &&& unmerged(all, key, true).len() == s.messages.len() - n
            &&& unmerged(all, key, true)[i - n] == s.messages[i]
            &&& unmerged(all, key, false).len() == 0
        }),
{
}

} // verus!

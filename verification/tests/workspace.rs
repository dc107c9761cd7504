use tyclaw::control::workspace::{
    bucket_name, join_path, workspace_path, FoundBucket, FoundEntry, PathConfig, RequestIdentity, WorkspaceConfig,
    WorkspaceKeyStrategy, WorkspaceManager,
};
use tyclaw::json::Json;
use tyclaw::table::TextTable;

#[test]
fn test_bucket_name_deterministic() {
    let b1 = bucket_name("0307663902380");
    let b2 = bucket_name("0307663902380");
    assert_eq!(b1, b2);
    assert_eq!(b1.len(), 2);
}

#[test]
fn test_bucket_name_different_keys() {
    let b = bucket_name("test_key");
    assert_eq!(b.len(), 2);
    assert!(u8::from_str_radix(&b, 16).is_ok());
}

#[test]
fn buckets_are_the_start_of_the_digest() {
    // The digests start with 900150983c and d41d8cd98f.
    assert_eq!(bucket_name("abc"), "90");
    assert_eq!(bucket_name(""), "d4");
}

#[test]
fn test_workspace_path() {
    let path = workspace_path("/data", "0307663902380");
    let bucket = bucket_name("0307663902380");
    assert_eq!(path, format!("/data/works/{}/0307663902380", bucket));
}

#[test]
fn test_strategy_user_id() {
    let strategy = WorkspaceKeyStrategy::UserId;
    let identity = RequestIdentity {
        user_id: "staff123",
        channel: "dingtalk_group",
        chat_id: "conv:staff123",
        conversation_id: Some("cidXXX"),
    };
    assert_eq!(strategy.resolve(&identity), "staff123");
}

#[test]
fn test_strategy_conversation_group() {
    let strategy = WorkspaceKeyStrategy::Conversation;
    let identity = RequestIdentity {
        user_id: "staff123",
        channel: "dingtalk_group",
        chat_id: "cidXXX:staff123",
        conversation_id: Some("cidXXX"),
    };
    assert_eq!(strategy.resolve(&identity), "cidXXX");
}

#[test]
fn test_strategy_conversation_private() {
    let strategy = WorkspaceKeyStrategy::Conversation;
    let identity = RequestIdentity {
        user_id: "staff123",
        channel: "dingtalk_private",
        chat_id: "staff123",
        conversation_id: None,
    };
    assert_eq!(strategy.resolve(&identity), "staff123");
}

#[test]
fn test_strategy_conversation_cli() {
    let strategy = WorkspaceKeyStrategy::Conversation;
    let identity = RequestIdentity {
        user_id: "cli_user",
        channel: "cli",
        chat_id: "direct",
        conversation_id: None,
    };
    assert_eq!(strategy.resolve(&identity), "cli_user");
}

#[test]
fn a_conversation_shares_a_workspace() {
    let strategy = WorkspaceKeyStrategy::Conversation;
    let a = RequestIdentity {
        user_id: "a",
        channel: "dingtalk_group",
        chat_id: "cid:a",
        conversation_id: Some("cid"),
    };
    let b = RequestIdentity {
        user_id: "b",
        channel: "dingtalk_group",
        chat_id: "cid:b",
        conversation_id: Some("cid"),
    };
    assert_eq!(strategy.resolve(&a), strategy.resolve(&b));
}

#[test]
fn test_workspace_manager_dirs() {
    let root = "/tmp/tyclaw-root";
    let mgr = WorkspaceManager::new(root, WorkspaceKeyStrategy::UserId, None);
    let key = "staff123";
    let bucket = bucket_name(key);
    let dir = format!("{root}/works/{bucket}/{key}");

    assert_eq!(mgr.workspace_dir(key), dir);
    assert_eq!(mgr.memory_dir(key), format!("{dir}/memory"));
    assert_eq!(mgr.work_dir(key), format!("{dir}/work"));
    assert_eq!(mgr.history_path(key), format!("{dir}/history.jsonl"));
    assert_eq!(mgr.timer_path(key), format!("{dir}/timer_jobs.json"));
}

#[test]
fn test_ensure_workspace_creates_dirs() {
    let mgr = WorkspaceManager::new("/tmp/tyclaw-root", WorkspaceKeyStrategy::UserId, None);
    let dirs = mgr.ensure_workspace("testuser");
    let ws = mgr.workspace_dir("testuser");
    assert!(dirs.contains(&format!("{ws}/memory")));
    assert!(dirs.contains(&format!("{ws}/skills")));
    assert!(dirs.contains(&format!("{ws}/cases")));
    assert!(dirs.contains(&format!("{ws}/work/tmp")));
    assert!(dirs.contains(&format!("{ws}/work/attachments")));
    assert!(dirs.contains(&format!("{ws}/work/dispatches")));
}

#[test]
fn test_global_dirs() {
    let mgr = WorkspaceManager::new("/data", WorkspaceKeyStrategy::UserId, None);
    assert_eq!(mgr.global_skills_dir(), "/data/skills");
    assert_eq!(mgr.global_cases_dir(), "/data/cases");
    assert_eq!(mgr.audit_dir(), "/data/audit");
}

#[test]
fn test_user_role_default() {
    let mut mgr = WorkspaceManager::new("/tmp", WorkspaceKeyStrategy::UserId, None);
    let role = mgr.get_user_role("ws1", "unknown_user");
    assert_eq!(role, "member");
}

#[test]
fn test_set_user_role() {
    let mut mgr = WorkspaceManager::new("/tmp", WorkspaceKeyStrategy::UserId, None);
    mgr.set_user_role("ws1", "alice", "admin");
    assert_eq!(mgr.get_user_role("ws1", "alice"), "admin");
    assert_eq!(mgr.get_user_role("ws2", "alice"), "member");
}

#[test]
fn test_load_workspace_config() {
    let mut members = TextTable::new();
    members.insert("alice".into(), "admin".into());
    let cfg = vec![(
        "prod".to_string(),
        WorkspaceConfig {
            name: Some("Production".into()),
            builtin_capabilities: Some(vec!["code-analysis".into()]),
            members: Some(members),
            default_role: Some("guest".into()),
            extra: vec![("note".to_string(), Json::Text("critical".into()))],
        },
    )];

    let mut mgr = WorkspaceManager::new("/tmp", WorkspaceKeyStrategy::UserId, Some(cfg));
    let ws = mgr.get_workspace("prod");
    assert_eq!(ws.name, "Production");
    assert_eq!(ws.default_role, "guest");
    assert_eq!(ws.builtin_capabilities, vec!["code-analysis"]);
    assert_eq!(ws.members.get("alice"), Some("admin"));
    assert_eq!(
        ws.config.iter().find(|(k, _)| k == "note").map(|(_, v)| v),
        Some(&Json::Text("critical".into()))
    );
}

#[test]
fn works_can_lie_elsewhere() {
    let mut mgr = WorkspaceManager::new("/data", WorkspaceKeyStrategy::UserId, None);
    mgr.set_works_dir("/mnt/old");
    assert_eq!(mgr.works_dir(), "/mnt/old");
    assert!(mgr.workspace_dir("k").starts_with("/mnt/old/"));
    assert_eq!(mgr.root(), "/data");
    assert_eq!(join_path("/a/", "b"), "/a/b");
    assert_eq!(join_path("/a", "/b"), "/b");
    assert_eq!(join_path("", "b"), "b");
}

#[test]
fn paths_are_named_in_prompts() {
    let vars = PathConfig::default().to_prompt_vars();
    assert!(vars.iter().any(|(_, v)| v == "skills"));
    assert!(vars.iter().any(|(_, v)| v == "work/attachments"));
}

/// What a directory of workspaces holds once these paths were made.
fn found(works: &str, paths: &[String]) -> Vec<FoundBucket> {
    let mut buckets: Vec<(String, FoundBucket)> = Vec::new();
    for path in paths {
        let inside = path.strip_prefix(&format!("{works}/")).expect("below the directory");
        let mut parts = inside.split('/');
        let bucket = parts.next().expect("a bucket");
        let key = parts.next().expect("a key");
        if !buckets.iter().any(|(b, _)| b == bucket) {
            buckets.push((bucket.to_string(), FoundBucket { is_dir: true, entries: vec![] }));
        }
        let (_, b) = buckets.iter_mut().find(|(b, _)| b == bucket).expect("the bucket");
        if !b.entries.iter().any(|e| e.name == key) {
            b.entries.push(FoundEntry { name: key.to_string(), is_dir: true });
        }
    }
    buckets.into_iter().map(|(_, b)| b).collect()
}

#[test]
fn test_list_workspace_keys() {
    let mgr = WorkspaceManager::new("/tmp/tyclaw-root", WorkspaceKeyStrategy::UserId, None);
    let mut paths = mgr.ensure_workspace("alice");
    paths.extend(mgr.ensure_workspace("bob"));

    let mut keys = WorkspaceManager::list_workspace_keys(&found(mgr.works_dir(), &paths));
    keys.sort();
    assert_eq!(keys, vec!["alice", "bob"]);
}

#[test]
fn files_are_no_workspaces() {
    let entries = vec![
        FoundEntry { name: "a".into(), is_dir: true },
        FoundEntry { name: "file".into(), is_dir: false },
    ];
    let stray = vec![FoundEntry { name: "b".into(), is_dir: true }];
    let buckets = vec![
        FoundBucket { is_dir: true, entries },
        FoundBucket { is_dir: false, entries: stray },
    ];
    assert_eq!(WorkspaceManager::list_workspace_keys(&buckets), vec!["a".to_string()]);
}

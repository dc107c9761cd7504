//! Workspaces: the directories in which the agent works, and who may do what
//! there. A workspace is known by a key; its directory is
//! `{works}/{bucket}/{key}`.

use crate::json;
use crate::json::{clone_members, hex_of_byte, Json, JsonView};
use crate::order;
use crate::table::{Table, TextTable};
use crate::text;
use crate::text::{clone_texts, str_contains, str_ends_with, str_eq, str_starts_with};
use vstd::prelude::*;

verus! {

// ---------------------------------------------------------------------------
// Paths
// ---------------------------------------------------------------------------

/// The path of a file or directory below another; an absolute name stands for
/// itself.
pub open spec fn below(base: Seq<char>, name: Seq<char>) -> Seq<char> {
    if text::starts_with(name, "/"@) {
        name
    } else if base.len() == 0 || text::ends_with(base, "/"@) {
        base + name
    } else {
        base + "/"@ + name
    }
}

/// The path of a file or directory below another.
pub fn join_path(base: &str, name: &str) -> (r: String)
    ensures
        r@ == below(base@, name@),
{
    if str_starts_with(name, "/") {
        return name.to_owned();
    }
    let mut r = base.to_owned();
    if !base.is_empty() && !str_ends_with(base, "/") {
        r.push_str("/");
    }
    r.push_str(name);
    r
}

/// The names of the directories that are used. The first three speak of a
/// container; the others are relative to the directory of a workspace.
#[derive(Debug)]
pub struct PathConfig {
    /// Where the directory of the workspace is mounted.
    pub container_root: String,
    /// Where commands are run.
    pub container_workdir: String,
    /// Where the shared skills are mounted.
    pub global_skills_mount: String,
    pub skills_dir: String,
    pub memory_dir: String,
    pub cases_dir: String,
    pub attachments_dir: String,
    pub tmp_dir: String,
    pub dispatches_dir: String,
    pub history_file: String,
    pub timer_file: String,
}

impl Default for PathConfig {
    fn default() -> (r: Self)
        ensures
            r.container_root@ == "/workspace"@,
            r.container_workdir@ == "/workspace"@,
            r.global_skills_mount@ == "skills"@,
            r.skills_dir@ == "skills"@,
            r.memory_dir@ == "memory"@,
            r.cases_dir@ == "cases"@,
            r.attachments_dir@ == "work/attachments"@,
            r.tmp_dir@ == "work/tmp"@,
            r.dispatches_dir@ == "work/dispatches"@,
            r.history_file@ == "history.jsonl"@,
            r.timer_file@ == "timer_jobs.json"@,
    {
        PathConfig {
            container_root: "/workspace".to_owned(),
            container_workdir: "/workspace".to_owned(),
            global_skills_mount: "skills".to_owned(),
            skills_dir: "skills".to_owned(),
            memory_dir: "memory".to_owned(),
            cases_dir: "cases".to_owned(),
            attachments_dir: "work/attachments".to_owned(),
            tmp_dir: "work/tmp".to_owned(),
            dispatches_dir: "work/dispatches".to_owned(),
            history_file: "history.jsonl".to_owned(),
            timer_file: "timer_jobs.json".to_owned(),
        }
    }
}

/// The variables of the prompt texts.
pub open spec fn prompt_vars(p: PathConfig) -> Seq<(Seq<char>, Seq<char>)> {
    seq![
        ("CONTAINER_ROOT"@, p.container_root@),
        ("SKILLS_DIR"@, p.skills_dir@),
        ("MEMORY_DIR"@, p.memory_dir@),
        ("CASES_DIR"@, p.cases_dir@),
        ("ATTACHMENTS_DIR"@, p.attachments_dir@),
        ("TMP_DIR"@, p.tmp_dir@),
        ("DISPATCHES_DIR"@, p.dispatches_dir@),
        ("GLOBAL_SKILLS_DIR"@, p.global_skills_mount@),
        ("GLOBAL_SKILLS_PATH"@, p.container_root@ + "/"@ + p.global_skills_mount@),
    ]
}

impl PathConfig {
    /// The variables of the prompt texts, each with its name.
    pub fn to_prompt_vars(&self) -> (r: Vec<(String, String)>)
        ensures
            order::keyed(r@) == prompt_vars(*self),
    {
        let mut skills_path = self.container_root.clone();
        skills_path.push_str("/");
        skills_path.push_str(self.global_skills_mount.as_str());
        let mut vars: Vec<(String, String)> = Vec::new();
        vars.push(("CONTAINER_ROOT".to_owned(), self.container_root.clone()));
        vars.push(("SKILLS_DIR".to_owned(), self.skills_dir.clone()));
        vars.push(("MEMORY_DIR".to_owned(), self.memory_dir.clone()));
        vars.push(("CASES_DIR".to_owned(), self.cases_dir.clone()));
        vars.push(("ATTACHMENTS_DIR".to_owned(), self.attachments_dir.clone()));
        vars.push(("TMP_DIR".to_owned(), self.tmp_dir.clone()));
        vars.push(("DISPATCHES_DIR".to_owned(), self.dispatches_dir.clone()));
        vars.push(("GLOBAL_SKILLS_DIR".to_owned(), self.global_skills_mount.clone()));
        vars.push(("GLOBAL_SKILLS_PATH".to_owned(), skills_path));
        proof {
            assert(order::keyed(vars@) =~= prompt_vars(*self));
        }
        vars
    }
}

// ---------------------------------------------------------------------------
// Keys
// ---------------------------------------------------------------------------

/// By what a workspace is known.
#[derive(Debug, Clone, Copy, PartialEq, Eq, Structural)]
pub enum WorkspaceKeyStrategy {
    /// By the user: everybody has one.
    UserId,
    /// By the conversation: a group has one, and so has everybody in private.
    Conversation,
}

impl Default for WorkspaceKeyStrategy {
    fn default() -> (r: Self)
        ensures
            r == WorkspaceKeyStrategy::UserId,
    {
        WorkspaceKeyStrategy::UserId
    }
}

/// Who asks, and where.
pub struct RequestIdentity<'a> {
    pub user_id: &'a str,
    pub channel: &'a str,
    pub chat_id: &'a str,
    /// The conversation; a private one may have none.
    pub conversation_id: Option<&'a str>,
}

/// Whether the request is made in private.
pub open spec fn is_private(channel: Seq<char>) -> bool {
    text::contains(channel, "private"@) || channel == "cli"@
}

impl WorkspaceKeyStrategy {
    /// The key of the workspace to which a request belongs.
    pub open spec fn key_of(self, id: RequestIdentity) -> Seq<char> {
        if self == WorkspaceKeyStrategy::UserId || is_private(id.channel@) {
            id.user_id@
        } else {
            match id.conversation_id {
                Some(c) => if c@.len() > 0 {
                    c@
                } else {
                    id.chat_id@
                },
                None => id.chat_id@,
            }
        }
    }

    /// The key of the workspace to which a request belongs.
    pub fn resolve(&self, identity: &RequestIdentity) -> (r: String)
        ensures
            r@ == self.key_of(*identity),
    {
        match self {
            WorkspaceKeyStrategy::UserId => identity.user_id.to_owned(),
            WorkspaceKeyStrategy::Conversation => {
                if str_contains(identity.channel, "private") || str_eq(identity.channel, "cli") {
                    return identity.user_id.to_owned();
                }
                match identity.conversation_id {
                    Some(c) => if c.is_empty() {
                        identity.chat_id.to_owned()
                    } else {
                        c.to_owned()
                    },
                    None => identity.chat_id.to_owned(),
                }
            },
        }
    }
}

/// Everybody in a group conversation shares a workspace, and in private nobody
/// shares one with another user.
pub proof fn law_conversation_is_shared(a: RequestIdentity, b: RequestIdentity)
    requires
        a.channel@ == b.channel@,
        a.conversation_id == b.conversation_id,
    ensures
        !is_private(a.channel@) && a.conversation_id is Some && a.conversation_id->0@.len() > 0
            ==> WorkspaceKeyStrategy::Conversation.key_of(a)
            == WorkspaceKeyStrategy::Conversation.key_of(b),
        is_private(a.channel@) && a.user_id@ != b.user_id@
            ==> WorkspaceKeyStrategy::Conversation.key_of(a)
            != WorkspaceKeyStrategy::Conversation.key_of(b),
        a.user_id@ != b.user_id@ ==> WorkspaceKeyStrategy::UserId.key_of(a)
            != WorkspaceKeyStrategy::UserId.key_of(b),
{
}

// ---------------------------------------------------------------------------
// Directories
// ---------------------------------------------------------------------------

/// The MD5 digest of a text in UTF-8.
pub uninterp spec fn md5_of(key: Seq<char>) -> Seq<u8>;

/// `Md5::digest` of the `md-5` crate on the bytes of a text. The contract names
/// the digest and says that it has sixteen bytes.
#[verifier::external_body]
fn md5_digest(key: &str) -> (r: Vec<u8>)
    ensures
        r@ == md5_of(key@),
        r@.len() == 16,
{
    <md5::Md5 as md5::Digest>::digest(key.as_bytes()).to_vec()
}

/// The name of the bucket with that digest.
pub open spec fn bucket_of(digest: Seq<u8>) -> Seq<char> {
    json::hex_byte(digest[0])
}

/// The name of the bucket of a workspace: the first byte of the digest of its
/// key, in two hexadecimal digits.
pub fn bucket_name(workspace_key: &str) -> (r: String)
    ensures
        r@ == bucket_of(md5_of(workspace_key@)),
        r@.len() == 2,
{
    let digest = md5_digest(workspace_key);
    hex_of_byte(digest[0])
}

/// The directory of a workspace, given its bucket.
pub open spec fn dir_in(works: Seq<char>, bucket: Seq<char>, key: Seq<char>) -> Seq<char> {
    below(below(works, bucket), key)
}

/// The directory of a workspace.
pub open spec fn workspace_dir_of(works: Seq<char>, key: Seq<char>) -> Seq<char> {
    dir_in(works, bucket_of(md5_of(key)), key)
}

/// The directory of a workspace, given its bucket.
pub fn workspace_dir_in(works_base: &str, bucket: &str, workspace_key: &str) -> (r: String)
    ensures
        r@ == dir_in(works_base@, bucket@, workspace_key@),
{
    let b = join_path(works_base, bucket);
    join_path(b.as_str(), workspace_key)
}

/// The directory of a workspace below the directory of all of them.
pub fn workspace_path_in(works_base: &str, workspace_key: &str) -> (r: String)
    ensures
        r@ == workspace_dir_of(works_base@, workspace_key@),
{
    let bucket = bucket_name(workspace_key);
    workspace_dir_in(works_base, bucket.as_str(), workspace_key)
}

/// The directory of a workspace below the root.
pub fn workspace_path(root: &str, workspace_key: &str) -> (r: String)
    ensures
        r@ == workspace_dir_of(below(root@, "works"@), workspace_key@),
{
    let works = join_path(root, "works");
    workspace_path_in(works.as_str(), workspace_key)
}

/// Workspaces with different keys have different directories, as long as a
/// key is no absolute path, a bucket is two characters that are no slash, and
/// the directory of all workspaces is the same.
pub proof fn law_directories_differ(
    works: Seq<char>,
    bucket_a: Seq<char>,
    a: Seq<char>,
    bucket_b: Seq<char>,
    b: Seq<char>,
)
    requires
        a != b,
        bucket_a.len() == 2,
        bucket_b.len() == 2,
        bucket_a[0] != '/' && bucket_a[1] != '/',
        bucket_b[0] != '/' && bucket_b[1] != '/',
        !text::starts_with(a, "/"@),
        !text::starts_with(b, "/"@),
    ensures
        dir_in(works, bucket_a, a) != dir_in(works, bucket_b, b),
{
    reveal_strlit("/");
    let slash = "/"@;
    assert(slash =~= seq!['/']);
    assert(!text::starts_with(bucket_a, slash)) by {
        if text::starts_with(bucket_a, slash) {
            assert(bucket_a.subrange(0, 1)[0] == '/');
        }
    }
    assert(!text::starts_with(bucket_b, slash)) by {
        if text::starts_with(bucket_b, slash) {
            assert(bucket_b.subrange(0, 1)[0] == '/');
        }
    }
    let base_a = below(works, bucket_a);
    let base_b = below(works, bucket_b);
    assert(!text::ends_with(base_a, slash)) by {
        if text::ends_with(base_a, slash) {
            assert(base_a.subrange(base_a.len() - 1, base_a.len() as int)[0] == base_a.last());
            assert(base_a.last() == bucket_a[1]);
        }
    }
    assert(!text::ends_with(base_b, slash)) by {
        if text::ends_with(base_b, slash) {
            assert(base_b.subrange(base_b.len() - 1, base_b.len() as int)[0] == base_b.last());
            assert(base_b.last() == bucket_b[1]);
        }
    }
    let n = base_a.len();
    assert(base_b.len() == n);
    let da = dir_in(works, bucket_a, a);
    let db = dir_in(works, bucket_b, b);
    assert(da == base_a + slash + a);
    assert(db == base_b + slash + b);
    if da == db {
        assert(da.skip(n as int + 1) =~= a);
        assert(db.skip(n as int + 1) =~= b);
    }
}

// ---------------------------------------------------------------------------
// Workspaces
// ---------------------------------------------------------------------------

/// A workspace: what it can do and who belongs to it.
#[derive(Debug)]
pub struct Workspace {
    pub workspace_id: String,
    pub name: String,
    pub builtin_capabilities: Vec<String>,
    /// The role of each member.
    pub members: TextTable,
    /// The role of everybody else.
    pub default_role: String,
    pub config: Vec<(String, Json)>,
}

/// What a workspace stands for.
#[verifier::ext_equal]
pub struct WorkspaceView {
    pub workspace_id: Seq<char>,
    pub name: Seq<char>,
    pub builtin_capabilities: Seq<Seq<char>>,
    pub members: Map<Seq<char>, Seq<char>>,
    pub default_role: Seq<char>,
    pub config: Seq<(Seq<char>, JsonView)>,
}

impl View for Workspace {
    type V = WorkspaceView;

    open spec fn view(&self) -> WorkspaceView {
        WorkspaceView {
            workspace_id: self.workspace_id@,
            name: self.name@,
            builtin_capabilities: text::texts(self.builtin_capabilities@),
            members: self.members@,
            default_role: self.default_role@,
            config: json::members_view(self.config@),
        }
    }
}

/// A workspace of which nothing but its name is known.
pub open spec fn fresh(id: Seq<char>, name: Seq<char>) -> WorkspaceView {
    WorkspaceView {
        workspace_id: id,
        name,
        builtin_capabilities: seq!["skill-creator"@, "video-analyzer"@, "ltv-analysis"@],
        members: Map::empty(),
        default_role: "member"@,
        config: Seq::empty(),
    }
}

impl WorkspaceView {
    /// The role of a user.
    pub open spec fn role_of(self, user: Seq<char>) -> Seq<char> {
        if self.members.contains_key(user) {
            self.members[user]
        } else {
            self.default_role
        }
    }
}

impl Workspace {
    /// A workspace without members, in which everybody has the role `member`.
    pub fn new(workspace_id: &str, name: &str) -> (r: Self)
        ensures
            r@ == fresh(workspace_id@, name@),
    {
        let mut caps: Vec<String> = Vec::new();
        caps.push("skill-creator".to_owned());
        caps.push("video-analyzer".to_owned());
        caps.push("ltv-analysis".to_owned());
        let r = Workspace {
            workspace_id: workspace_id.to_owned(),
            name: name.to_owned(),
            builtin_capabilities: caps,
            members: TextTable::new(),
            default_role: "member".to_owned(),
            config: Vec::new(),
        };
        proof {
            assert(r@ =~= fresh(workspace_id@, name@));
        }
        r
    }

    /// A copy of the workspace.
    pub fn duplicate(&self) -> (r: Self)
        ensures
            r@ == self@,
    {
        Workspace {
            workspace_id: self.workspace_id.clone(),
            name: self.name.clone(),
            builtin_capabilities: clone_texts(&self.builtin_capabilities),
            members: self.members.duplicate(),
            default_role: self.default_role.clone(),
            config: clone_members(&self.config),
        }
    }

    /// The role of a user.
    pub fn role(&self, user_id: &str) -> (r: String)
        ensures
            r@ == self@.role_of(user_id@),
    {
        match self.members.get(user_id) {
            Some(role) => role.to_owned(),
            None => self.default_role.clone(),
        }
    }
}

/// A workspace as the configuration describes it. What is not given is as in
/// a new workspace; a name that is not given is the identifier.
#[derive(Debug)]
pub struct WorkspaceConfig {
    pub name: Option<String>,
    pub builtin_capabilities: Option<Vec<String>>,
    pub members: Option<TextTable>,
    pub default_role: Option<String>,
    pub extra: Vec<(String, Json)>,
}

/// The workspace that a configuration describes.
pub open spec fn configured(id: Seq<char>, c: WorkspaceConfig) -> WorkspaceView {
    let blank = fresh(
        id,
        match c.name {
            Some(n) => n@,
            None => id,
        },
    );
    WorkspaceView {
        builtin_capabilities: match c.builtin_capabilities {
            Some(caps) => text::texts(caps@),
            None => blank.builtin_capabilities,
        },
        members: match c.members {
            Some(m) => m@,
            None => blank.members,
        },
        default_role: match c.default_role {
            Some(r) => r@,
            None => blank.default_role,
        },
        config: json::members_view(c.extra@),
        ..blank
    }
}

/// The workspaces that the entries of a configuration describe; of two entries
/// with one identifier the later counts.
pub open spec fn configured_all(
    s: Seq<(String, WorkspaceConfig)>,
) -> Map<Seq<char>, WorkspaceView>
    decreases s.len(),
{
    if s.len() == 0 {
        Map::empty()
    } else {
        configured_all(s.drop_last()).insert(s.last().0@, configured(s.last().0@, s.last().1))
    }
}

/// The workspaces with which a manager starts.
pub open spec fn initial(
    config: Option<Vec<(String, WorkspaceConfig)>>,
) -> Map<Seq<char>, WorkspaceView> {
    match config {
        Some(c) => if c@.len() > 0 {
            configured_all(c@)
        } else {
            Map::empty().insert("default"@, fresh("default"@, "Default"@))
        },
        None => Map::empty().insert("default"@, fresh("default"@, "Default"@)),
    }
}

/// The workspaces with one of that identifier among them.
pub open spec fn with_workspace(
    all: Map<Seq<char>, WorkspaceView>,
    id: Seq<char>,
) -> Map<Seq<char>, WorkspaceView> {
    if all.contains_key(id) {
        all
    } else {
        all.insert(id, fresh(id, id))
    }
}

/// The workspaces after a role was given to a user.
pub open spec fn with_role(
    all: Map<Seq<char>, WorkspaceView>,
    id: Seq<char>,
    user: Seq<char>,
    role: Seq<char>,
) -> Map<Seq<char>, WorkspaceView> {
    let w = with_workspace(all, id)[id];
    all.insert(id, (WorkspaceView { members: w.members.insert(user, role), ..w }))
}

/// The views of the workspaces of a table.
pub open spec fn all_views(t: Map<Seq<char>, Workspace>) -> Map<Seq<char>, WorkspaceView> {
    t.map_values(|w: Workspace| w@)
}

/// A configured workspace.
fn configure(id: &str, c: WorkspaceConfig) -> (r: Workspace)
    ensures
        r@ == configured(id@, c),
{
    let mut w = match &c.name {
        Some(n) => Workspace::new(id, n.as_str()),
        None => Workspace::new(id, id),
    };
    if let Some(caps) = c.builtin_capabilities {
        w.builtin_capabilities = caps;
    }
    if let Some(members) = c.members {
        w.members = members;
    }
    if let Some(role) = c.default_role {
        w.default_role = role;
    }
    w.config = c.extra;
    w
}

// ---------------------------------------------------------------------------
// The manager
// ---------------------------------------------------------------------------

/// Knows the workspaces, where they lie and by what they are known.
pub struct WorkspaceManager {
    root: String,
    works_dir: String,
    key_strategy: WorkspaceKeyStrategy,
    workspaces: Table<Workspace>,
    paths: PathConfig,
}

/// What a manager stands for.
pub struct ManagerView {
    pub root: Seq<char>,
    /// The directory of all workspaces.
    pub works_dir: Seq<char>,
    pub key_strategy: WorkspaceKeyStrategy,
    pub workspaces: Map<Seq<char>, WorkspaceView>,
    pub paths: PathConfig,
}

impl View for WorkspaceManager {
    type V = ManagerView;

    closed spec fn view(&self) -> ManagerView {
        ManagerView {
            root: self.root@,
            works_dir: self.works_dir@,
            key_strategy: self.key_strategy,
            workspaces: all_views(self.workspaces@),
            paths: self.paths,
        }
    }
}

impl ManagerView {
    /// The directory of a workspace.
    pub open spec fn dir(self, key: Seq<char>) -> Seq<char> {
        workspace_dir_of(self.works_dir, key)
    }
}

impl WorkspaceManager {
    /// A manager with the usual directories.
    pub fn new(
        root: &str,
        key_strategy: WorkspaceKeyStrategy,
        workspaces_config: Option<Vec<(String, WorkspaceConfig)>>,
    ) -> (r: Self)
        ensures
            r@.root == root@,
            r@.works_dir == below(root@, "works"@),
            r@.key_strategy == key_strategy,
            r@.workspaces == initial(workspaces_config),
            r@.paths.skills_dir@ == "skills"@,
            r@.paths.memory_dir@ == "memory"@,
            r@.paths.cases_dir@ == "cases"@,
            r@.paths.attachments_dir@ == "work/attachments"@,
            r@.paths.tmp_dir@ == "work/tmp"@,
            r@.paths.dispatches_dir@ == "work/dispatches"@,
            r@.paths.history_file@ == "history.jsonl"@,
            r@.paths.timer_file@ == "timer_jobs.json"@,
            r@.paths.container_root@ == "/workspace"@,
            r@.paths.container_workdir@ == "/workspace"@,
            r@.paths.global_skills_mount@ == "skills"@,
    {
        Self::with_path_config(root, key_strategy, workspaces_config, PathConfig::default())
    }

    /// A manager with the directories of the configuration.
    pub fn with_path_config(
        root: &str,
        key_strategy: WorkspaceKeyStrategy,
        workspaces_config: Option<Vec<(String, WorkspaceConfig)>>,
        paths: PathConfig,
    ) -> (r: Self)
        ensures
            r@.root == root@,
            r@.works_dir == below(root@, "works"@),
            r@.key_strategy == key_strategy,
            r@.workspaces == initial(workspaces_config),
            r@.paths == paths,
    {
        let workspaces = Self::init_from_config(workspaces_config);
        WorkspaceManager {
            root: root.to_owned(),
            works_dir: join_path(root, "works"),
            key_strategy,
            workspaces,
            paths,
        }
    }

    /// The workspaces of a configuration; without one, a default workspace.
    fn init_from_config(config: Option<Vec<(String, WorkspaceConfig)>>) -> (r: Table<Workspace>)
        ensures
            all_views(r@) == initial(config),
    {
        let mut table: Table<Workspace> = Table::new();
        let mut rest: Vec<(String, WorkspaceConfig)> = match config {
            Some(c) => c,
            None => Vec::new(),
        };
        if rest.len() == 0 {
            table.insert("default".to_owned(), Workspace::new("default", "Default"));
            proof {
                assert(all_views(table@) =~= initial(config));
            }
            return table;
        }
        let ghost all = rest@;
        let ghost mut i: int = 0;
        proof {
            assert(all_views(table@) =~= configured_all(all.take(0)));
            assert(rest@ =~= all.skip(0));
        }
        while rest.len() > 0
            invariant
                0 <= i <= all.len(),
                rest@ == all.skip(i),
                all_views(table@) == configured_all(all.take(i)),
            decreases rest@.len(),
        {
            let ghost before = table@;
            let (id, cfg) = rest.remove(0);
            let w = configure(id.as_str(), cfg);
            let ghost wv = w@;
            let ghost idv = id@;
            table.insert(id, w);
            proof {
                assert(rest@ =~= all.skip(i + 1));
                assert(all.take(i + 1).drop_last() =~= all.take(i));
                assert(all.take(i + 1).last() == all[i]);
                assert(all_views(table@) =~= all_views(before).insert(idv, wv));
                i = i + 1;
            }
        }
        proof {
            assert(all.take(i) =~= all);
        }
        table
    }

    /// The configured directories.
    pub fn path_config(&self) -> (r: &PathConfig)
        ensures
            *r == self@.paths,
    {
        &self.paths
    }

    /// Puts the workspaces below another directory.
    pub fn set_works_dir(&mut self, path: &str)
        ensures
            final(self)@ == (ManagerView { works_dir: path@, ..old(self)@ }),
    {
        self.works_dir = path.to_owned();
    }

    /// The directory of all workspaces.
    pub fn works_dir(&self) -> (r: &str)
        ensures
            r@ == self@.works_dir,
    {
        self.works_dir.as_str()
    }

    /// By what workspaces are known.
    pub fn key_strategy(&self) -> (r: &WorkspaceKeyStrategy)
        ensures
            *r == self@.key_strategy,
    {
        &self.key_strategy
    }

    /// The key of the workspace to which a request belongs.
    pub fn resolve_key(&self, identity: &RequestIdentity) -> (r: String)
        ensures
            r@ == self@.key_strategy.key_of(*identity),
    {
        self.key_strategy.resolve(identity)
    }

    /// Sees to it that there is a workspace of that identifier.
    fn ensure_known(&mut self, workspace_id: &str)
        ensures
            final(self)@ == (ManagerView {
                workspaces: with_workspace(old(self)@.workspaces, workspace_id@),
                ..old(self)@
            }),
    {
        let known = match self.workspaces.get(workspace_id) {
            Some(_) => true,
            None => false,
        };
        if !known {
            let ghost before = self.workspaces@;
            let w = Workspace::new(workspace_id, workspace_id);
            let ghost wv = w@;
            self.workspaces.insert(workspace_id.to_owned(), w);
            proof {
                assert(all_views(self.workspaces@) =~= all_views(before).insert(
                    workspace_id@,
                    wv,
                ));
            }
        }
    }

    /// A copy of a workspace; one that is not known is created.
    pub fn get_workspace(&mut self, workspace_id: &str) -> (r: Workspace)
        ensures
            final(self)@ == (ManagerView {
                workspaces: with_workspace(old(self)@.workspaces, workspace_id@),
                ..old(self)@
            }),
            r@ == final(self)@.workspaces[workspace_id@],
    {
        self.ensure_known(workspace_id);
        assert(self@.workspaces.contains_key(workspace_id@));
        match self.workspaces.get(workspace_id) {
            Some(w) => w.duplicate(),
            None => Workspace::new(workspace_id, workspace_id),
        }
    }

    /// The role of a user in a workspace.
    pub fn get_user_role(&mut self, workspace_id: &str, user_id: &str) -> (r: String)
        ensures
            final(self)@ == (ManagerView {
                workspaces: with_workspace(old(self)@.workspaces, workspace_id@),
                ..old(self)@
            }),
            r@ == final(self)@.workspaces[workspace_id@].role_of(user_id@),
    {
        let w = self.get_workspace(workspace_id);
        w.role(user_id)
    }

    /// Gives a user a role in a workspace.
    pub fn set_user_role(&mut self, workspace_id: &str, user_id: &str, role: &str)
        ensures
            final(self)@ == (ManagerView {
                workspaces: with_role(old(self)@.workspaces, workspace_id@, user_id@, role@),
                ..old(self)@
            }),
    {
        let mut w = match self.workspaces.remove(workspace_id) {
            Some(w) => w,
            None => Workspace::new(workspace_id, workspace_id),
        };
        w.members.insert(user_id.to_owned(), role.to_owned());
        let ghost wv = w@;
        self.workspaces.insert(workspace_id.to_owned(), w);
        proof {
            assert(all_views(self.workspaces@) =~= with_role(
                old(self)@.workspaces,
                workspace_id@,
                user_id@,
                role@,
            ));
        }
    }

    /// The directory below which everything lies.
    pub fn root(&self) -> (r: &str)
        ensures
            r@ == self@.root,
    {
        self.root.as_str()
    }

    /// The directory of the configuration.
    pub fn config_dir(&self) -> (r: String)
        ensures
            r@ == below(self@.root, "config"@),
    {
        join_path(self.root.as_str(), "config")
    }

    /// The directory of the shared skills.
    pub fn global_skills_dir(&self) -> (r: String)
        ensures
            r@ == below(self@.root, "skills"@),
    {
        join_path(self.root.as_str(), "skills")
    }

    /// The directory of the shared cases.
    pub fn global_cases_dir(&self) -> (r: String)
        ensures
            r@ == below(self@.root, "cases"@),
    {
        join_path(self.root.as_str(), "cases")
    }

    /// The directory of the audit records.
    pub fn audit_dir(&self) -> (r: String)
        ensures
            r@ == below(self@.root, "audit"@),
    {
        join_path(self.root.as_str(), "audit")
    }

    /// The directory of the logs.
    pub fn logs_dir(&self) -> (r: String)
        ensures
            r@ == below(self@.root, "logs"@),
    {
        join_path(self.root.as_str(), "logs")
    }

    /// The directory of a workspace.
    pub fn workspace_dir(&self, workspace_key: &str) -> (r: String)
        ensures
            r@ == self@.dir(workspace_key@),
    {
        workspace_path_in(self.works_dir.as_str(), workspace_key)
    }

    fn within(&self, workspace_key: &str, name: &str) -> (r: String)
        ensures
            r@ == below(self@.dir(workspace_key@), name@),
    {
        let dir = self.workspace_dir(workspace_key);
        join_path(dir.as_str(), name)
    }

    /// The directory of what is remembered in a workspace.
    pub fn memory_dir(&self, workspace_key: &str) -> (r: String)
        ensures
            r@ == below(self@.dir(workspace_key@), self@.paths.memory_dir@),
    {
        self.within(workspace_key, self.paths.memory_dir.as_str())
    }

    /// The directory of the skills of a workspace.
    pub fn workspace_skills_dir(&self, workspace_key: &str) -> (r: String)
        ensures
            r@ == below(self@.dir(workspace_key@), self@.paths.skills_dir@),
    {
        self.within(workspace_key, self.paths.skills_dir.as_str())
    }

    /// The directory of the cases of a workspace.
    pub fn workspace_cases_dir(&self, workspace_key: &str) -> (r: String)
        ensures
            r@ == below(self@.dir(workspace_key@), self@.paths.cases_dir@),
    {
        self.within(workspace_key, self.paths.cases_dir.as_str())
    }

    /// The file of the conversation of a workspace.
    pub fn history_path(&self, workspace_key: &str) -> (r: String)
        ensures
            r@ == below(self@.dir(workspace_key@), self@.paths.history_file@),
    {
        self.within(workspace_key, self.paths.history_file.as_str())
    }

    /// The file of the timers of a workspace.
    pub fn timer_path(&self, workspace_key: &str) -> (r: String)
        ensures
            r@ == below(self@.dir(workspace_key@), self@.paths.timer_file@),
    {
        self.within(workspace_key, self.paths.timer_file.as_str())
    }

    /// The directory of the attachments of a workspace.
    pub fn attachments_dir(&self, workspace_key: &str) -> (r: String)
        ensures
            r@ == below(self@.dir(workspace_key@), self@.paths.attachments_dir@),
    {
        self.within(workspace_key, self.paths.attachments_dir.as_str())
    }

    /// The directory of the temporary files of a workspace.
    pub fn tmp_dir(&self, workspace_key: &str) -> (r: String)
        ensures
            r@ == below(self@.dir(workspace_key@), self@.paths.tmp_dir@),
    {
        self.within(workspace_key, self.paths.tmp_dir.as_str())
    }

    /// The directory of the subtasks of a workspace.
    pub fn dispatches_dir(&self, workspace_key: &str) -> (r: String)
        ensures
            r@ == below(self@.dir(workspace_key@), self@.paths.dispatches_dir@),
    {
        self.within(workspace_key, self.paths.dispatches_dir.as_str())
    }

    /// The directory in which work is done.
    pub fn work_dir(&self, workspace_key: &str) -> (r: String)
        ensures
            r@ == below(self@.dir(workspace_key@), "work"@),
    {
        self.within(workspace_key, "work")
    }

    /// The directories that a workspace must have.
    pub fn ensure_workspace(&self, workspace_key: &str) -> (r: Vec<String>)
        ensures
            text::texts(r@) == seq![
                below(self@.dir(workspace_key@), self@.paths.memory_dir@),
                below(self@.dir(workspace_key@), self@.paths.skills_dir@),
                below(self@.dir(workspace_key@), self@.paths.cases_dir@),
                below(self@.dir(workspace_key@), self@.paths.tmp_dir@),
                below(self@.dir(workspace_key@), self@.paths.attachments_dir@),
                below(self@.dir(workspace_key@), self@.paths.dispatches_dir@),
            ],
    {
        let mut dirs: Vec<String> = Vec::new();
        dirs.push(self.memory_dir(workspace_key));
        dirs.push(self.workspace_skills_dir(workspace_key));
        dirs.push(self.workspace_cases_dir(workspace_key));
        dirs.push(self.tmp_dir(workspace_key));
        dirs.push(self.attachments_dir(workspace_key));
        dirs.push(self.dispatches_dir(workspace_key));
        proof {
            assert(text::texts(dirs@) =~= seq![
                below(self@.dir(workspace_key@), self@.paths.memory_dir@),
                below(self@.dir(workspace_key@), self@.paths.skills_dir@),
                below(self@.dir(workspace_key@), self@.paths.cases_dir@),
                below(self@.dir(workspace_key@), self@.paths.tmp_dir@),
                below(self@.dir(workspace_key@), self@.paths.attachments_dir@),
                below(self@.dir(workspace_key@), self@.paths.dispatches_dir@),
            ]);
        }
        dirs
    }
}

// ---------------------------------------------------------------------------
// The workspaces that are there
// ---------------------------------------------------------------------------

/// Something that was found in a directory.
#[derive(Debug)]
pub struct FoundEntry {
    pub name: String,
    pub is_dir: bool,
}

/// Something that was found in the directory of the workspaces, with what is in
/// it.
#[derive(Debug)]
pub struct FoundBucket {
    pub is_dir: bool,
    pub entries: Vec<FoundEntry>,
}

/// The names of the directories among some entries.
pub open spec fn dir_names(entries: Seq<FoundEntry>) -> Seq<Seq<char>>
    decreases entries.len(),
{
    if entries.len() == 0 {
        Seq::empty()
    } else {
        let rest = dir_names(entries.drop_last());
        if entries.last().is_dir {
            rest.push(entries.last().name@)
        } else {
            rest
        }
    }
}

/// The keys of the workspaces in some buckets.
pub open spec fn keys_in(buckets: Seq<FoundBucket>) -> Seq<Seq<char>>
    decreases buckets.len(),
{
    if buckets.len() == 0 {
        Seq::empty()
    } else {
        let rest = keys_in(buckets.drop_last());
        if buckets.last().is_dir {
            rest + dir_names(buckets.last().entries@)
        } else {
            rest
        }
    }
}

impl WorkspaceManager {
    /// The keys of the workspaces that are there, given what was found in the
    /// directory of the workspaces.
    pub fn list_workspace_keys(found: &Vec<FoundBucket>) -> (r: Vec<String>)
        ensures
            text::texts(r@) == keys_in(found@),
    {
        let mut keys: Vec<String> = Vec::new();
        let mut i: usize = 0;
        proof {
            assert(found@.take(0) =~= Seq::empty());
            assert(text::texts(keys@) =~= Seq::empty());
        }
        while i < found.len()
            invariant
                0 <= i <= found@.len(),
                text::texts(keys@) == keys_in(found@.take(i as int)),
            decreases found@.len() - i,
        {
            let ghost t = found@.take(i + 1);
            proof {
                assert(t.drop_last() =~= found@.take(i as int));
                assert(t.last() == found@[i as int]);
            }
            if found[i].is_dir {
                push_dir_names(&mut keys, &found[i].entries);
            }
            i += 1;
        }
        proof {
            assert(found@.take(i as int) =~= found@);
        }
        keys
    }
}

fn push_dir_names(keys: &mut Vec<String>, entries: &Vec<FoundEntry>)
    ensures
        text::texts(final(keys)@) == text::texts(old(keys)@) + dir_names(entries@),
{
    let ghost before = text::texts(keys@);
    let mut k: usize = 0;
    proof {
        assert(entries@.take(0) =~= Seq::empty());
        assert(before + dir_names(entries@.take(0)) =~= before);
    }
    while k < entries.len()
        invariant
            0 <= k <= entries@.len(),
            text::texts(keys@) == before + dir_names(entries@.take(k as int)),
        decreases entries@.len() - k,
    {
        let ghost t = entries@.take(k + 1);
        let ghost known = keys@;
        proof {
            assert(t.drop_last() =~= entries@.take(k as int));
            assert(t.last() == entries@[k as int]);
        }
        if entries[k].is_dir {
            keys.push(entries[k].name.clone());
            proof {
                assert(text::texts(keys@) =~= text::texts(known).push(entries@[k as int].name@));
                assert(text::texts(keys@) =~= before + dir_names(t));
            }
        }
        k += 1;
    }
    proof {
        assert(entries@.take(k as int) =~= entries@);
    }
}

proof fn lemma_dir_names(entries: Seq<FoundEntry>, key: Seq<char>)
    ensures
        dir_names(entries).contains(key) <==> exists|k: int|
            0 <= k < entries.len() && (#[trigger] entries[k]).is_dir && entries[k].name@ == key,
    decreases entries.len(),
{
    if entries.len() > 0 {
        let rest = entries.drop_last();
        lemma_dir_names(rest, key);
        let all = dir_names(entries);
        let less = dir_names(rest);
        if all.contains(key) {
            let j = choose|j: int| 0 <= j < all.len() && all[j] == key;
            if j < less.len() {
                assert(less[j] == key);
                let k = choose|k: int|
                    0 <= k < rest.len() && (#[trigger] rest[k]).is_dir && rest[k].name@ == key;
                assert(entries[k] == rest[k]);
            } else {
                assert(entries[entries.len() - 1].name@ == key);
            }
        }
        if exists|k: int|
            0 <= k < entries.len() && (#[trigger] entries[k]).is_dir && entries[k].name@ == key {
            let k = choose|k: int|
                0 <= k < entries.len() && (#[trigger] entries[k]).is_dir && entries[k].name@ == key;
            if k < rest.len() {
                assert(rest[k] == entries[k]);
                let j = choose|j: int| 0 <= j < less.len() && less[j] == key;
                assert(all[j] == key);
            } else {
                assert(all.last() == key);
            }
        }
    }
}

/// Whether a directory of that name stands in the bucket at index `b`.
pub open spec fn holds_dir(buckets: Seq<FoundBucket>, b: int, key: Seq<char>) -> bool {
    0 <= b < buckets.len() && buckets[b].is_dir && dir_names(buckets[b].entries@).contains(key)
}

/// The keys that are listed are the names of the directories in the buckets:
/// all of them, and no others.
pub proof fn law_keys_are_directories(buckets: Seq<FoundBucket>, key: Seq<char>)
    ensures
        keys_in(buckets).contains(key) <==> exists|b: int| #[trigger] holds_dir(buckets, b, key),
        forall|b: int| #[trigger]
            holds_dir(buckets, b, key) ==> exists|k: int|
                0 <= k < buckets[b].entries@.len() && (#[trigger] buckets[b].entries@[k]).is_dir
                    && buckets[b].entries@[k].name@ == key,
    decreases buckets.len(),
{
    assert forall|b: int| #[trigger] holds_dir(buckets, b, key) implies exists|k: int|
        0 <= k < buckets[b].entries@.len() && (#[trigger] buckets[b].entries@[k]).is_dir
            && buckets[b].entries@[k].name@ == key by {
        lemma_dir_names(buckets[b].entries@, key);
    }
    if buckets.len() > 0 {
        let rest = buckets.drop_last();
        let last = buckets.last();
        law_keys_are_directories(rest, key);
        let all = keys_in(buckets);
        let less = keys_in(rest);
        let more = dir_names(last.entries@);
        if all.contains(key) {
            let j = choose|j: int| 0 <= j < all.len() && all[j] == key;
            if j < less.len() {
                assert(less[j] == key);
                let b = choose|b: int| #[trigger] holds_dir(rest, b, key);
                assert(holds_dir(buckets, b, key));
            } else {
                assert(more[j - less.len()] == key);
                assert(holds_dir(buckets, buckets.len() - 1, key));
            }
        }
        if exists|b: int| #[trigger] holds_dir(buckets, b, key) {
            let b = choose|b: int| #[trigger] holds_dir(buckets, b, key);
            if b < rest.len() {
                assert(holds_dir(rest, b, key));
                let j = choose|j: int| 0 <= j < less.len() && less[j] == key;
                assert(all[j] == key);
            } else {
                let j = choose|j: int| 0 <= j < more.len() && more[j] == key;
                assert(all[less.len() + j] == key);
            }
        }
    }
}

/// The role that was given is the role that is read, and no other role, in
/// this workspace or another, has changed.
pub proof fn law_role_is_read_back(
    all: Map<Seq<char>, WorkspaceView>,
    id: Seq<char>,
    user: Seq<char>,
    role: Seq<char>,
)
    ensures
        with_role(all, id, user, role)[id].role_of(user) == role,
        forall|other: Seq<char>|
            other != user ==> #[trigger] with_role(all, id, user, role)[id].role_of(other)
                == with_workspace(all, id)[id].role_of(other),
        forall|other: Seq<char>|
            other != id && all.contains_key(other) ==> #[trigger] with_role(
                all,
                id,
                user,
                role,
            )[other] == all[other],
{
}

/// In private a user has one workspace, whatever the chat; in a group without
/// a conversation id everybody in a chat shares one, and chats have their own.
pub proof fn law_chats_have_their_workspaces(a: RequestIdentity, b: RequestIdentity)
    requires
        a.channel@ == b.channel@,
    ensures
        is_private(a.channel@) && a.user_id@ == b.user_id@
            ==> WorkspaceKeyStrategy::Conversation.key_of(a)
            == WorkspaceKeyStrategy::Conversation.key_of(b),
        a.user_id@ == b.user_id@ ==> WorkspaceKeyStrategy::UserId.key_of(a)
            == WorkspaceKeyStrategy::UserId.key_of(b),
        !is_private(a.channel@) && a.conversation_id is None && b.conversation_id is None ==> (
        WorkspaceKeyStrategy::Conversation.key_of(a) == WorkspaceKeyStrategy::Conversation.key_of(b)
            <==> a.chat_id@ == b.chat_id@),
        !is_private(a.channel@) && a.conversation_id is Some && b.conversation_id is Some
            && a.conversation_id->0@.len() > 0 && b.conversation_id->0@.len() > 0 ==> (
        WorkspaceKeyStrategy::Conversation.key_of(a) == WorkspaceKeyStrategy::Conversation.key_of(b)
            <==> a.conversation_id->0@ == b.conversation_id->0@),
{
}

/// A relative name that is put below a path follows the path, with one slash
/// between the two.
pub proof fn law_name_follows_its_path(base: Seq<char>, name: Seq<char>)
    requires
        name.len() > 0,
        name[0] != '/',
        base.len() > 0,
        base.last() != '/',
    ensures
        below(base, name) == base + seq!['/'] + name,
{
    reveal_strlit("/");
    let slash = "/"@;
    assert(slash.len() == 1 && slash[0] == '/');
    assert(!text::starts_with(name, slash)) by {
        if text::starts_with(name, slash) {
            assert(name.subrange(0, 1)[0] == name[0]);
        }
    }
    assert(!text::ends_with(base, slash)) by {
        if text::ends_with(base, slash) {
            assert(base.subrange(base.len() - 1, base.len() as int)[0] == base.last());
        }
    }
    assert(slash =~= seq!['/']);
    assert(below(base, name) == base + slash + name);
}

/// A workspace lies in the directory of the workspaces, in its bucket, under
/// its key.
pub proof fn law_workspace_lies_in_its_bucket(works: Seq<char>, bucket: Seq<char>, key: Seq<char>)
    requires
        works.len() > 0,
        works.last() != '/',
        bucket.len() > 0,
        bucket[0] != '/',
        bucket.last() != '/',
        key.len() > 0,
        key[0] != '/',
    ensures
        dir_in(works, bucket, key) == works + seq!['/'] + bucket + seq!['/'] + key,
{
    law_name_follows_its_path(works, bucket);
    let b = below(works, bucket);
    assert(b.last() == bucket.last());
    law_name_follows_its_path(b, key);
}

/// The workspaces of a configuration are there, each with the members and the
/// role for others that it gives.
pub proof fn law_configured_workspaces_are_there(
    s: Seq<(String, WorkspaceConfig)>,
    i: int,
    user: Seq<char>,
)
    requires
        0 <= i < s.len(),
        forall|j: int| i < j < s.len() ==> (#[trigger] s[j]).0@ != s[i].0@,
    ensures
        configured_all(s).contains_key(s[i].0@),
        ({
            let w = configured_all(s)[s[i].0@];
            let c = s[i].1;
            &&& w.workspace_id == s[i].0@
            &&& c.name matches Some(n) ==> w.name == n@
            &&& c.members matches Some(m) ==> m@.contains_key(user) ==> w.role_of(user) == m@[user]
            &&& c.members is None && c.default_role is Some ==> w.role_of(user)
                == c.default_role->0@
            &&& c.builtin_capabilities matches Some(caps) ==> w.builtin_capabilities
                == text::texts(caps@)
        }),
    decreases s.len(),
{
    let p = s.drop_last();
    if i < s.len() - 1 {
        assert(s[s.len() - 1].0@ != s[i].0@);
        assert(p[i] == s[i]);
        assert forall|j: int| i < j < p.len() implies (#[trigger] p[j]).0@ != p[i].0@ by {
            assert(p[j] == s[j]);
        }
        law_configured_workspaces_are_there(p, i, user);
    }
}

/// There is a workspace to start with: the ones that are configured, and else
/// the one for everybody, which takes everybody as a member.
pub proof fn law_there_is_a_workspace(config: Option<Vec<(String, WorkspaceConfig)>>, user: Seq<char>)
    ensures
        config is None ==> initial(config).contains_key("default"@) && initial(
            config,
        )["default"@].role_of(user) == "member"@,
        config is Some && config->0@.len() > 0 ==> initial(config).contains_key(
            config->0@.last().0@,
        ),
{
    if config is Some && config->0@.len() > 0 {
        let c = config->0@;
        law_configured_workspaces_are_there(c, c.len() - 1, user);
    }
}

/// The variables of the prompt texts stand for the directories of the same
/// names.
pub proof fn law_variables_name_the_directories(p: PathConfig)
    ensures
        prompt_vars(p).contains(("CONTAINER_ROOT"@, p.container_root@)),
        prompt_vars(p).contains(("SKILLS_DIR"@, p.skills_dir@)),
        prompt_vars(p).contains(("MEMORY_DIR"@, p.memory_dir@)),
        prompt_vars(p).contains(("CASES_DIR"@, p.cases_dir@)),
        prompt_vars(p).contains(("ATTACHMENTS_DIR"@, p.attachments_dir@)),
        prompt_vars(p).contains(("TMP_DIR"@, p.tmp_dir@)),
        prompt_vars(p).contains(("DISPATCHES_DIR"@, p.dispatches_dir@)),
        prompt_vars(p).contains(("GLOBAL_SKILLS_DIR"@, p.global_skills_mount@)),
{
    let v = prompt_vars(p);
    assert(v[0] == ("CONTAINER_ROOT"@, p.container_root@));
    assert(v[1] == ("SKILLS_DIR"@, p.skills_dir@));
    assert(v[2] == ("MEMORY_DIR"@, p.memory_dir@));
    assert(v[3] == ("CASES_DIR"@, p.cases_dir@));
    assert(v[4] == ("ATTACHMENTS_DIR"@, p.attachments_dir@));
    assert(v[5] == ("TMP_DIR"@, p.tmp_dir@));
    assert(v[6] == ("DISPATCHES_DIR"@, p.dispatches_dir@));
    assert(v[7] == ("GLOBAL_SKILLS_DIR"@, p.global_skills_mount@));
}

} // verus!

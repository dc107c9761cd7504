//! Setting up the orchestrator.

use crate::control::workspace;
use crate::control::workspace::{join_path, WorkspaceConfig, WorkspaceKeyStrategy};
use crate::orchestration::types::OrchestratorFeatures;
use crate::subtasks::config::SubtasksConfig;
use crate::text;
use vstd::prelude::*;

verus! {

/// A tool that the agent can call.
#[derive(Debug)]
pub enum ToolKind {
    ReadFile,
    WriteFile,
    EditFile,
    DeleteFile,
    ApplyPatch,
    ListDir,
    GrepSearch,
    Glob,
    CopyFile,
    MoveFile,
    Mkdir,
    Exec,
    AskUser,
    SendFile,
    Timer,
    WebSearch,
    WebFetch,
    DispatchSubtasks,
    /// One that the program adds.
    Other(String),
}

/// The tools that the agent can call.
#[derive(Debug)]
pub struct ToolRegistry {
    pub tools: Vec<ToolKind>,
}

/// The tools that work on files and run commands.
pub open spec fn core_tools() -> Seq<ToolKind> {
    seq![
        ToolKind::ReadFile,
        ToolKind::WriteFile,
        ToolKind::EditFile,
        ToolKind::DeleteFile,
        ToolKind::ApplyPatch,
        ToolKind::ListDir,
        ToolKind::GrepSearch,
        ToolKind::Glob,
        ToolKind::CopyFile,
        ToolKind::MoveFile,
        ToolKind::Mkdir,
        ToolKind::Exec,
    ]
}

impl ToolRegistry {
    /// No tools.
    pub fn new() -> (r: Self)
        ensures
            r.tools@.len() == 0,
    {
        ToolRegistry { tools: Vec::new() }
    }

    /// Adds a tool.
    pub fn register(&mut self, tool: ToolKind)
        ensures
            final(self).tools@ == old(self).tools@.push(tool),
    {
        self.tools.push(tool);
    }
}

/// Adds the tools that work on files and run commands.
pub fn register_core_tools(tools: &mut ToolRegistry)
    ensures
        final(tools).tools@ == old(tools).tools@ + core_tools(),
{
    let ghost before = tools.tools@;
    tools.register(ToolKind::ReadFile);
    tools.register(ToolKind::WriteFile);
    tools.register(ToolKind::EditFile);
    tools.register(ToolKind::DeleteFile);
    tools.register(ToolKind::ApplyPatch);
    tools.register(ToolKind::ListDir);
    tools.register(ToolKind::GrepSearch);
    tools.register(ToolKind::Glob);
    tools.register(ToolKind::CopyFile);
    tools.register(ToolKind::MoveFile);
    tools.register(ToolKind::Mkdir);
    tools.register(ToolKind::Exec);
    proof {
        assert(tools.tools@ =~= before + core_tools());
    }
}

/// The tools of an agent that may ask the user.
pub fn default_tool_registry() -> (r: ToolRegistry)
    ensures
        r.tools@ == core_tools().push(ToolKind::AskUser),
{
    let mut r = ToolRegistry::new();
    register_core_tools(&mut r);
    r.register(ToolKind::AskUser);
    proof {
        assert(r.tools@ =~= core_tools().push(ToolKind::AskUser));
    }
    r
}

/// The tools that every agent of the orchestrator gets.
pub open spec fn surface_tools(timer: bool, subtasks: bool) -> Seq<ToolKind> {
    seq![ToolKind::SendFile] + (if timer {
        seq![ToolKind::Timer]
    } else {
        Seq::empty()
    }) + seq![ToolKind::WebSearch, ToolKind::WebFetch] + (if subtasks {
        seq![ToolKind::DispatchSubtasks]
    } else {
        Seq::empty()
    })
}

/// Adds the tools that every agent of the orchestrator gets.
fn build_tool_surface_registry(tools: ToolRegistry, timer: bool, subtasks: bool) -> (r: ToolRegistry)
    ensures
        r.tools@ == tools.tools@ + surface_tools(timer, subtasks),
{
    let ghost before = tools.tools@;
    let mut r = tools;
    r.register(ToolKind::SendFile);
    if timer {
        r.register(ToolKind::Timer);
    }
    r.register(ToolKind::WebSearch);
    r.register(ToolKind::WebFetch);
    if subtasks {
        r.register(ToolKind::DispatchSubtasks);
    }
    proof {
        assert(r.tools@ =~= before + surface_tools(timer, subtasks));
    }
    r
}

/// Which controls are switched on.
#[derive(Debug, Clone, Copy, PartialEq, Eq, Structural)]
pub struct ControlFlags {
    pub rbac: bool,
    pub rate_limit: bool,
    pub audit: bool,
}

/// What the orchestrator is to be.
pub struct OrchestratorBuilder {
    pub workspace: String,
    pub model: Option<String>,
    pub max_iterations: Option<usize>,
    pub context_window_tokens: Option<usize>,
    pub write_snapshot: bool,
    pub workspaces_config: Option<Vec<(String, WorkspaceConfig)>>,
    pub tools_for_loop: Option<ToolRegistry>,
    /// The tools that the model is told of, where they are not those that it
    /// can call.
    pub tool_defs_registry: Option<ToolRegistry>,
    pub features: OrchestratorFeatures,
    pub subtasks_config: Option<SubtasksConfig>,
    pub has_timer: bool,
    pub control: Option<ControlFlags>,
    pub workspace_key_strategy: WorkspaceKeyStrategy,
}

/// What the orchestrator is.
pub struct OrchestratorPlan {
    pub workspace: String,
    pub model: String,
    pub max_iterations: Option<usize>,
    pub context_window_tokens: usize,
    pub write_snapshot: bool,
    pub features: OrchestratorFeatures,
    /// The tools that the agent can call.
    pub runtime_tools: ToolRegistry,
    /// The tools that the model is told of, where they are not the same.
    pub definition_tools: Option<ToolRegistry>,
    pub workspace_key_strategy: WorkspaceKeyStrategy,
    pub workspaces_config: Option<Vec<(String, WorkspaceConfig)>>,
}

/// What is switched on: the controls decide on what they know of, the program
/// on the memory.
pub open spec fn features_of(f: OrchestratorFeatures, c: ControlFlags) -> OrchestratorFeatures {
    OrchestratorFeatures {
        enable_rbac: c.rbac,
        enable_rate_limit: c.rate_limit,
        enable_audit: c.audit,
        enable_memory: f.enable_memory,
    }
}

impl OrchestratorBuilder {
    /// An orchestrator of which nothing but its directory is known.
    pub fn new(workspace: &str) -> (r: Self)
        ensures
            r.workspace@ == workspace@,
            r.model is None,
            r.max_iterations is None,
            r.context_window_tokens is None,
            !r.write_snapshot,
            r.workspaces_config is None,
            r.tools_for_loop is None,
            r.tool_defs_registry is None,
            r.features.enable_audit && r.features.enable_memory && r.features.enable_rbac
                && r.features.enable_rate_limit,
            r.subtasks_config is None,
            !r.has_timer,
            r.control is None,
            r.workspace_key_strategy == WorkspaceKeyStrategy::UserId,
    {
        OrchestratorBuilder {
            workspace: workspace.to_owned(),
            model: None,
            max_iterations: None,
            context_window_tokens: None,
            write_snapshot: false,
            workspaces_config: None,
            tools_for_loop: None,
            tool_defs_registry: None,
            features: OrchestratorFeatures::default(),
            subtasks_config: None,
            has_timer: false,
            control: None,
            workspace_key_strategy: WorkspaceKeyStrategy::default(),
        }
    }

    /// Says by what workspaces are known.
    pub fn with_workspace_key_strategy(self, strategy: WorkspaceKeyStrategy) -> (r: Self)
        ensures
            r == (OrchestratorBuilder { workspace_key_strategy: strategy, ..self }),
    {
        OrchestratorBuilder { workspace_key_strategy: strategy, ..self }
    }

    /// Names the model.
    pub fn with_model(self, model: String) -> (r: Self)
        ensures
            r == (OrchestratorBuilder { model: Some(model), ..self }),
    {
        OrchestratorBuilder { model: Some(model), ..self }
    }

    /// Names the model, or none.
    pub fn with_model_opt(self, model: Option<String>) -> (r: Self)
        ensures
            r == (OrchestratorBuilder { model, ..self }),
    {
        OrchestratorBuilder { model, ..self }
    }

    /// Limits the rounds of the agent.
    pub fn with_max_iterations(self, max_iterations: usize) -> (r: Self)
        ensures
            r == (OrchestratorBuilder { max_iterations: Some(max_iterations), ..self }),
    {
        OrchestratorBuilder { max_iterations: Some(max_iterations), ..self }
    }

    /// Limits the rounds of the agent, or not.
    pub fn with_max_iterations_opt(self, max_iterations: Option<usize>) -> (r: Self)
        ensures
            r == (OrchestratorBuilder { max_iterations, ..self }),
    {
        OrchestratorBuilder { max_iterations, ..self }
    }

    /// Says how much the model can take in.
    pub fn with_context_window_tokens(self, context_window_tokens: usize) -> (r: Self)
        ensures
            r == (OrchestratorBuilder {
                context_window_tokens: Some(context_window_tokens),
                ..self
            }),
    {
        OrchestratorBuilder { context_window_tokens: Some(context_window_tokens), ..self }
    }

    /// Says how much the model can take in, or not.
    pub fn with_context_window_tokens_opt(self, context_window_tokens: Option<usize>) -> (r: Self)
        ensures
            r == (OrchestratorBuilder { context_window_tokens, ..self }),
    {
        OrchestratorBuilder { context_window_tokens, ..self }
    }

    /// Says whether requests to the model are written down.
    pub fn with_write_snapshot(self, write_snapshot: bool) -> (r: Self)
        ensures
            r == (OrchestratorBuilder { write_snapshot, ..self }),
    {
        OrchestratorBuilder { write_snapshot, ..self }
    }

    /// Describes the workspaces.
    pub fn with_workspaces_config(self, cfg: Vec<(String, WorkspaceConfig)>) -> (r: Self)
        ensures
            r == (OrchestratorBuilder { workspaces_config: Some(cfg), ..self }),
    {
        OrchestratorBuilder { workspaces_config: Some(cfg), ..self }
    }

    /// Describes the workspaces, or not.
    pub fn with_workspaces_config_opt(self, cfg: Option<Vec<(String, WorkspaceConfig)>>) -> (r: Self)
        ensures
            r == (OrchestratorBuilder { workspaces_config: cfg, ..self }),
    {
        OrchestratorBuilder { workspaces_config: cfg, ..self }
    }

    /// Sets the tools that the agent can call.
    pub fn with_runtime_tools(self, tools: ToolRegistry) -> (r: Self)
        ensures
            r == (OrchestratorBuilder { tools_for_loop: Some(tools), ..self }),
    {
        OrchestratorBuilder { tools_for_loop: Some(tools), ..self }
    }

    /// Sets the tools that the agent can call and that the model is told of.
    pub fn with_tools(self, tools: ToolRegistry) -> (r: Self)
        ensures
            r == (OrchestratorBuilder {
                tools_for_loop: Some(tools),
                tool_defs_registry: None,
                ..self
            }),
    {
        OrchestratorBuilder { tools_for_loop: Some(tools), tool_defs_registry: None, ..self }
    }

    /// Sets the tools that the model is told of.
    pub fn with_tool_definitions(self, tools: ToolRegistry) -> (r: Self)
        ensures
            r == (OrchestratorBuilder { tool_defs_registry: Some(tools), ..self }),
    {
        OrchestratorBuilder { tool_defs_registry: Some(tools), ..self }
    }

    /// Sets the tools that the agent can call, and others that the model is
    /// told of.
    pub fn with_tool_registries(self, runtime_tools: ToolRegistry, definition_tools: ToolRegistry) -> (r:
        Self)
        ensures
            r == (OrchestratorBuilder {
                tools_for_loop: Some(runtime_tools),
                tool_defs_registry: Some(definition_tools),
                ..self
            }),
    {
        OrchestratorBuilder {
            tools_for_loop: Some(runtime_tools),
            tool_defs_registry: Some(definition_tools),
            ..self
        }
    }

    /// Switches features on and off.
    pub fn with_features(self, features: OrchestratorFeatures) -> (r: Self)
        ensures
            r == (OrchestratorBuilder { features, ..self }),
    {
        OrchestratorBuilder { features, ..self }
    }

    /// Switches the records on or off.
    pub fn enable_audit(self, enabled: bool) -> (r: Self)
        ensures
            r == (OrchestratorBuilder {
                features: OrchestratorFeatures { enable_audit: enabled, ..self.features },
                ..self
            }),
    {
        let features = OrchestratorFeatures { enable_audit: enabled, ..self.features };
        OrchestratorBuilder { features, ..self }
    }

    /// Switches the memory on or off.
    pub fn enable_memory(self, enabled: bool) -> (r: Self)
        ensures
            r == (OrchestratorBuilder {
                features: OrchestratorFeatures { enable_memory: enabled, ..self.features },
                ..self
            }),
    {
        let features = OrchestratorFeatures { enable_memory: enabled, ..self.features };
        OrchestratorBuilder { features, ..self }
    }

    /// Switches roles on or off.
    pub fn enable_rbac(self, enabled: bool) -> (r: Self)
        ensures
            r == (OrchestratorBuilder {
                features: OrchestratorFeatures { enable_rbac: enabled, ..self.features },
                ..self
            }),
    {
        let features = OrchestratorFeatures { enable_rbac: enabled, ..self.features };
        OrchestratorBuilder { features, ..self }
    }

    /// Switches the limit on requests on or off.
    pub fn enable_rate_limit(self, enabled: bool) -> (r: Self)
        ensures
            r == (OrchestratorBuilder {
                features: OrchestratorFeatures { enable_rate_limit: enabled, ..self.features },
                ..self
            }),
    {
        let features = OrchestratorFeatures { enable_rate_limit: enabled, ..self.features };
        OrchestratorBuilder { features, ..self }
    }

    /// Sets up subtasks.
    pub fn with_subtasks(self, config: SubtasksConfig) -> (r: Self)
        ensures
            r == (OrchestratorBuilder { subtasks_config: Some(config), ..self }),
    {
        OrchestratorBuilder { subtasks_config: Some(config), ..self }
    }

    /// Adds a timer.
    pub fn with_timer(self) -> (r: Self)
        ensures
            r == (OrchestratorBuilder { has_timer: true, ..self }),
    {
        OrchestratorBuilder { has_timer: true, ..self }
    }

    /// Says which controls are switched on.
    pub fn with_control(self, control: ControlFlags) -> (r: Self)
        ensures
            r == (OrchestratorBuilder { control: Some(control), ..self }),
    {
        OrchestratorBuilder { control: Some(control), ..self }
    }

    /// The orchestrator that was described. What was left open is taken from
    /// the arguments.
    pub fn build(self, default_model: &str, default_window: usize, default_control: ControlFlags) -> (r:
        OrchestratorPlan)
        ensures
            r.workspace == self.workspace,
            r.model@ == (match self.model {
                Some(m) => m@,
                None => default_model@,
            }),
            r.max_iterations == self.max_iterations,
            r.context_window_tokens == (match self.context_window_tokens {
                Some(w) => w,
                None => default_window,
            }),
            r.write_snapshot == self.write_snapshot,
            r.features == features_of(
                self.features,
                match self.control {
                    Some(c) => c,
                    None => default_control,
                },
            ),
            r.runtime_tools.tools@ == (match self.tools_for_loop {
                Some(t) => t.tools@,
                None => core_tools().push(ToolKind::AskUser),
            }) + surface_tools(
                self.has_timer,
                self.subtasks_config is Some && self.subtasks_config->0.enabled,
            ),
            match self.tool_defs_registry {
                Some(d) => r.definition_tools matches Some(t) && t.tools@ == d.tools@
                    + surface_tools(
                    self.has_timer,
                    self.subtasks_config is Some && self.subtasks_config->0.enabled,
                ),
                None => r.definition_tools is None,
            },
            r.workspace_key_strategy == self.workspace_key_strategy,
            r.workspaces_config == self.workspaces_config,
    {
        let control = match self.control {
            Some(c) => c,
            None => default_control,
        };
        let subtasks = match &self.subtasks_config {
            Some(c) => c.enabled,
            None => false,
        };
        let base = match self.tools_for_loop {
            Some(t) => t,
            None => default_tool_registry(),
        };
        let runtime_tools = build_tool_surface_registry(base, self.has_timer, subtasks);
        let definition_tools = match self.tool_defs_registry {
            Some(t) => Some(build_tool_surface_registry(t, self.has_timer, subtasks)),
            None => None,
        };
        OrchestratorPlan {
            workspace: self.workspace,
            model: match self.model {
                Some(m) => m,
                None => default_model.to_owned(),
            },
            max_iterations: self.max_iterations,
            context_window_tokens: match self.context_window_tokens {
                Some(w) => w,
                None => default_window,
            },
            write_snapshot: self.write_snapshot,
            features: OrchestratorFeatures {
                enable_rbac: control.rbac,
                enable_rate_limit: control.rate_limit,
                enable_audit: control.audit,
                enable_memory: self.features.enable_memory,
            },
            runtime_tools,
            definition_tools,
            workspace_key_strategy: self.workspace_key_strategy,
            workspaces_config: self.workspaces_config,
        }
    }
}

/// The directories below the root that are removed at the start.
pub fn stale_dirs(root: &str) -> (r: Vec<String>)
    ensures
        text::texts(r@) == seq![
            workspace::below(root@, "dispatches"@),
            workspace::below(workspace::below(root@, "tmp"@), "attachments"@),
        ],
{
    let mut r: Vec<String> = Vec::new();
    r.push(join_path(root, "dispatches"));
    let tmp = join_path(root, "tmp");
    r.push(join_path(tmp.as_str(), "attachments"));
    proof {
        assert(text::texts(r@) =~= seq![
            workspace::below(root@, "dispatches"@),
            workspace::below(workspace::below(root@, "tmp"@), "attachments"@),
        ]);
    }
    r
}

/// Every agent can read, change and find files, run commands, send files and
/// search the web; it has a timer and subtasks where they are wanted, and only
/// there.
pub proof fn law_agents_have_their_tools(timer: bool, subtasks: bool)
    ensures
        core_tools().contains(ToolKind::ReadFile),
        core_tools().contains(ToolKind::WriteFile),
        core_tools().contains(ToolKind::EditFile),
        core_tools().contains(ToolKind::GrepSearch),
        core_tools().contains(ToolKind::Exec),
        core_tools().no_duplicates(),
        surface_tools(timer, subtasks).contains(ToolKind::SendFile),
        surface_tools(timer, subtasks).contains(ToolKind::WebSearch),
        surface_tools(timer, subtasks).contains(ToolKind::WebFetch),
        surface_tools(timer, subtasks).contains(ToolKind::Timer) <==> timer,
        surface_tools(timer, subtasks).contains(ToolKind::DispatchSubtasks) <==> subtasks,
{
    let c = core_tools();
    assert(c[0] == ToolKind::ReadFile && c[1] == ToolKind::WriteFile && c[2]
        == ToolKind::EditFile && c[6] == ToolKind::GrepSearch && c[11] == ToolKind::Exec);
    let s = surface_tools(timer, subtasks);
    let k: int = if timer {
        2
    } else {
        1
    };
    assert(s[0] == ToolKind::SendFile);
    assert(s[k] == ToolKind::WebSearch);
    assert(s[k + 1] == ToolKind::WebFetch);
    if timer {
        assert(s[1] == ToolKind::Timer);
    }
    if subtasks {
        assert(s[k + 2] == ToolKind::DispatchSubtasks);
    }
}

/// What is controlled elsewhere is taken from there, and the memory is left
/// as it was.
pub proof fn law_control_decides_its_features(f: OrchestratorFeatures, c: ControlFlags)
    ensures
        features_of(f, c).enable_memory == f.enable_memory,
        features_of(f, c).enable_rbac == c.rbac,
        features_of(f, c).enable_rate_limit == c.rate_limit,
        features_of(f, c).enable_audit == c.audit,
{
}

} // verus!

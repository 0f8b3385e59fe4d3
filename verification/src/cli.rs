//! The command-line argument shapes of the `plugin`, `render` and `schema`
//! commands, as plain values. Paths are held as strings.

use vstd::prelude::*;

verus! {

/// Arguments for `zenith plugin`.
#[derive(Debug)]
pub struct PluginArgs {
    pub command: PluginSub,
}

/// Subcommands of `zenith plugin`.
#[derive(Debug)]
pub enum PluginSub {
    /// Install the skill for the given agents (auto-detects when none are named).
    Install(PluginInstallArgs),
    /// Remove a previously installed skill for the given agents.
    Uninstall(PluginUninstallArgs),
    /// Show where the Zenith skill is installed, per agent and scope.
    List,
}

/// Installation scope for `zenith plugin`.
#[derive(Debug, Clone, Copy, PartialEq, Eq)]
pub enum ScopeArg {
    /// Install for the current user.
    User,
    /// Install into the current project.
    Project,
}

/// Per-agent selection flags, shared by install and uninstall. With no flag
/// set, the command auto-detects which agents are present; `all` selects
/// every supported agent.
#[derive(Debug, Clone, Copy)]
pub struct AgentFlags {
    pub claude: bool,
    pub codex: bool,
    pub opencode: bool,
    pub cursor: bool,
    pub windsurf: bool,
    pub aider: bool,
    pub zed: bool,
    pub gemini: bool,
    pub copilot: bool,
    /// `--continue`.
    pub continue_dev: bool,
    pub kiro: bool,
    pub antigravity: bool,
    pub all: bool,
}

/// Arguments for `zenith plugin install`.
#[derive(Debug)]
pub struct PluginInstallArgs {
    pub agents: AgentFlags,
    /// Install for the user (default) or the current project.
    pub scope: ScopeArg,
    /// Overwrite existing files whose content differs.
    pub force: bool,
    /// Show what would be written without touching the filesystem.
    pub dry_run: bool,
}

/// Arguments for `zenith plugin uninstall`.
#[derive(Debug)]
pub struct PluginUninstallArgs {
    pub agents: AgentFlags,
    /// Uninstall from the user (default) or the current project.
    pub scope: ScopeArg,
    /// Show what would be removed without touching the filesystem.
    pub dry_run: bool,
}

/// Arguments for `zenith render`. At least one of `scene`, `png`, `pdf` or
/// `all_pages` is needed.
#[derive(Debug)]
pub struct RenderArgs {
    /// Path to the `.zen` document.
    pub path: String,
    /// Write the compiled scene display-list JSON to this path.
    pub scene: Option<String>,
    /// Write the rendered PNG to this path.
    pub png: Option<String>,
    /// Write a vector PDF to this path.
    pub pdf: Option<String>,
    /// 1-based page number to render (default 1).
    pub page: usize,
    /// Render every page to `<DIR>/page-<N>.png` instead of a single page.
    pub all_pages: Option<String>,
    /// Two facing pages rendered side by side, e.g. `10-11`.
    pub spread: Option<String>,
    /// Spread gutter in pixels, overriding the document's.
    pub gutter: Option<u32>,
    /// Verify each image asset's bytes against its declared `sha256`.
    pub locked: bool,
    /// Emit machine-readable JSON to stdout.
    pub json: bool,
    /// Codes to suppress (`--allow`, repeatable).
    pub allow: Vec<String>,
    /// Codes forced to Warning (`--warn`, repeatable).
    pub warn: Vec<String>,
    /// Codes elevated to Error (`--deny`, repeatable).
    pub deny: Vec<String>,
}

/// Arguments for `zenith schema`.
#[derive(Debug)]
pub struct SchemaArgs {
    pub command: Option<SchemaSub>,
    /// Emit machine-readable JSON instead of human-readable text.
    pub json: bool,
}

/// Subcommands of `zenith schema`.
#[derive(Debug)]
pub enum SchemaSub {
    /// List all authorable node kinds with their one-line summaries.
    Nodes,
    /// Show the summary and recognized attributes for one node kind.
    Node { kind: String },
    /// List all transaction ops with their one-line summaries.
    Ops,
    /// Show the summary, JSON fields and an example for one transaction op.
    Op { name: String },
    /// Show the recognized attributes for a `page` declaration.
    Page,
    /// Show the recognized attributes for an `asset` declaration.
    Asset,
    /// Show the recognized attributes for the document root.
    Document,
}

} // verus!

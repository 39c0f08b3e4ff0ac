//! Per-platform configuration, as each bundled `platform.toml` declares it.

use vstd::prelude::*;
use crate::json::JsonValue;

verus! {

/// Identity of a platform.
#[derive(Debug)]
pub struct Meta {
    /// Directory name of the platform.
    pub name: String,
    /// Human-readable name.
    pub display_name: String,
    /// Link to the harness's documentation, if any.
    pub documentation_url: Option<String>,
}

/// Where the skill is installed.
#[derive(Debug)]
pub struct SkillConfig {
    /// Install path, relative to the project root.
    pub install_path: String,
}

/// Which snippet body goes into which file.
#[derive(Debug)]
pub struct SnippetConfig {
    /// File the snippet is written into.
    pub target_file: String,
    /// Which body to write.
    pub body: SnippetBody,
}

/// The snippet bodies shipped.
#[derive(Debug, Clone, Copy, PartialEq, Eq, Structural)]
pub enum SnippetBody {
    /// The `AGENTS.md` body.
    AgentsMd,
    /// The `.cursorrules` body.
    CursorRules,
}

/// The format of a hook configuration file.
#[derive(Debug, Clone, Copy, PartialEq, Eq, Structural)]
pub enum HookConfigFormat {
    /// JSON.
    Json,
    /// TOML.
    Toml,
}

/// Hook settings of a platform.
#[derive(Debug)]
pub struct HooksConfig {
    /// Path of the hook configuration file.
    pub config_path: String,
    /// Its format.
    pub config_format: HookConfigFormat,
    /// Template of the envelope a hook answers with.
    pub envelope: JsonValue,
    /// Template of the hook configuration entry.
    pub config: JsonValue,
}

/// A platform's whole configuration.
#[derive(Debug)]
pub struct Platform {
    /// Identity.
    pub meta: Meta,
    /// Skill install settings.
    pub skill: SkillConfig,
    /// Snippet settings.
    pub snippet: SnippetConfig,
    /// Hook settings, for platforms with hooks.
    pub hooks: Option<HooksConfig>,
}

} // verus!

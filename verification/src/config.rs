//! Resolved settings consumed by the synchronization core.
//!
//! The on-disk textual format is a collaborator's concern: the surrounding
//! binary parses it and hands over plain values. Resolution of the
//! workspace root from the project location is verified here.

use vstd::prelude::*;
use vstd::string::*;

use crate::util::expand_placeholders;
use crate::util::expand_spec;
use crate::util::project_slug;
use crate::util::project_slug_spec;

verus! {

/// The `workspace` section: an optional workspace-root template.
#[derive(Debug, Clone)]
pub struct WorkspaceSection {
    pub root: Option<String>,
}

impl Default for WorkspaceSection {
    /// No template configured: the built-in default root applies.
    fn default() -> (r: Self)
        ensures
            r.root is None,
    {
        WorkspaceSection { root: None }
    }
}

/// The role tag of a build directory. The tag only selects which
/// generated-artifact categories take part in an explicit sync invocation;
/// it implies no eviction or persistence behaviour.
#[derive(Debug, Clone, Copy, PartialEq, Eq, Structural)]
pub enum BuildDirType {
    Scratch,
    Cache,
}

impl Default for BuildDirType {
    fn default() -> (r: Self)
        ensures
            r == BuildDirType::Scratch,
    {
        BuildDirType::Scratch
    }
}

/// A relative path under the project root to mirror into the workspace,
/// with ordered filter pattern lists applied to the mirror.
#[derive(Debug, Clone)]
pub struct SourceSpec {
    pub path: String,
    pub include_patterns: Vec<String>,
    pub exclude_patterns: Vec<String>,
}

/// A relative path that exists only under the workspace root.
#[derive(Debug, Clone)]
pub struct BuildDirSpec {
    pub path: String,
    pub dir_type: BuildDirType,
}

/// What happens to pending workspace changes when an interactive shell
/// session ends.
#[derive(Debug, Clone, Copy, PartialEq, Eq, Structural)]
pub enum SyncOnExit {
    Ask,
    Auto,
    Never,
}

impl Default for SyncOnExit {
    fn default() -> (r: Self)
        ensures
            r == SyncOnExit::Ask,
    {
        SyncOnExit::Ask
    }
}

/// Synchronization policy: the shell-exit behaviour, and whether mirroring
/// removes destination entries absent from the source.
#[derive(Debug, Clone)]
pub struct SyncConfig {
    pub on_exit: SyncOnExit,
    pub delete: bool,
}

fn default_delete() -> (r: bool)
    ensures
        r,
{
    true
}

impl Default for SyncConfig {
    fn default() -> (r: Self)
        ensures
            r.on_exit == SyncOnExit::Ask,
            r.delete,
    {
        SyncConfig { on_exit: SyncOnExit::Ask, delete: default_delete() }
    }
}

/// Version-control integration switches; carried through unchanged.
#[derive(Debug, Clone)]
pub struct GitConfig {
    pub require_clean: bool,
    pub auto_stage_synced: bool,
}

impl Default for GitConfig {
    fn default() -> (r: Self)
        ensures
            !r.require_clean,
            !r.auto_stage_synced,
    {
        GitConfig { require_clean: false, auto_stage_synced: false }
    }
}

/// The raw settings as read from the configuration file.
#[derive(Debug, Clone)]
pub struct Config {
    pub workspace: WorkspaceSection,
    pub sources: Vec<SourceSpec>,
    pub build_dirs: Vec<BuildDirSpec>,
    pub sync: SyncConfig,
    pub git: GitConfig,
}

/// The default source list: the whole project, with version-control
/// metadata and the common build-output trees filtered out.
fn default_sources() -> (r: Vec<SourceSpec>)
    ensures
        r@.len() == 1,
        r@[0].path@ == "."@,
        r@[0].include_patterns@.len() == 0,
        r@[0].exclude_patterns@.len() == 4,
        r@[0].exclude_patterns@[0]@ == ".git/**"@,
        r@[0].exclude_patterns@[1]@ == "build/**"@,
        r@[0].exclude_patterns@[2]@ == "target/**"@,
        r@[0].exclude_patterns@[3]@ == "node_modules/**"@,
{
    let mut exclude_patterns: Vec<String> = Vec::new();
    exclude_patterns.push(String::from_str(".git/**"));
    exclude_patterns.push(String::from_str("build/**"));
    exclude_patterns.push(String::from_str("target/**"));
    exclude_patterns.push(String::from_str("node_modules/**"));
    let mut r: Vec<SourceSpec> = Vec::new();
    r.push(
        SourceSpec {
            path: String::from_str("."),
            include_patterns: Vec::new(),
            exclude_patterns,
        },
    );
    r
}

impl Default for Config {
    fn default() -> (r: Self)
        ensures
            r.workspace.root is None,
            r.sources@.len() == 1,
            r.sources@[0].path@ == "."@,
            r.build_dirs@.len() == 0,
            r.sync.on_exit == SyncOnExit::Ask,
            r.sync.delete,
            !r.git.require_clean,
            !r.git.auto_stage_synced,
    {
        Config {
            workspace: WorkspaceSection::default(),
            sources: default_sources(),
            build_dirs: Vec::new(),
            sync: SyncConfig::default(),
            git: GitConfig::default(),
        }
    }
}

/// Settings resolved against a concrete project location.
#[derive(Debug, Clone)]
pub struct ResolvedConfig {
    pub config_path: String,
    pub orig_root: String,
    pub workspace_root: String,
    pub project_slug: String,
    pub raw: Config,
}

impl ResolvedConfig {
    /// Both roots are absolute paths.
    pub open spec fn wf(&self) -> bool {
        &&& self.orig_root@.len() > 0
        &&& self.orig_root@[0] == '/'
        &&& self.workspace_root@.len() > 0
        &&& self.workspace_root@[0] == '/'
    }
}

impl Config {
    /// Resolves raw settings against the project location: derives the
    /// deterministic slug from the canonical project-root path, then the
    /// workspace root from the configured template — or the built-in
    /// default under `/dev/shm` — with its placeholders expanded. An
    /// identical project root therefore always yields an identical
    /// workspace root.
    pub fn resolve(
        self,
        config_path: String,
        orig_root: String,
        canonical_orig_root: &str,
        user: Option<&str>,
    ) -> (r: ResolvedConfig)
        ensures
            r.config_path@ == config_path@,
            r.orig_root@ == orig_root@,
            r.project_slug@ == project_slug_spec(canonical_orig_root@),
            ({
                let slug = project_slug_spec(canonical_orig_root@);
                let template = match self.workspace.root {
                    Some(t) => t@,
                    None => "/dev/shm/ramws-${USER}/"@ + slug,
                };
                match user {
                    None => r.workspace_root@ == expand_spec(template, slug, None),
                    Some(u) => r.workspace_root@ == expand_spec(template, slug, Some(u@)),
                }
            }),
            r.raw == self,
    {
        let slug = project_slug(canonical_orig_root);
        let template: String = match &self.workspace.root {
            Some(t) => t.clone(),
            None => String::from_str("/dev/shm/ramws-${USER}/").concat(slug.as_str()),
        };
        let workspace_root = expand_placeholders(template.as_str(), slug.as_str(), user);
        ResolvedConfig {
            config_path,
            orig_root,
            workspace_root,
            project_slug: slug,
            raw: self,
        }
    }
}

} // verus!

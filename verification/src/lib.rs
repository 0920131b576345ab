//! Verified core of a per-project RAM workspace orchestrator.
//!
//! The library models the synchronization engine that keeps an ephemeral,
//! ideally memory-backed working copy of a persistent project directory in
//! step with the original: mirror-invocation planning, change-itemization
//! classification, workspace lifecycle decisions, capacity/status
//! aggregation, and the staged write-back protocol. The surrounding binary
//! performs the actual filesystem work (running the external mirroring
//! process, querying the filesystem, prompting the operator) and feeds the
//! observed results back into these verified functions.

use vstd::prelude::*;

pub mod commands;
pub mod config;
pub mod model;
pub mod shell;
pub mod status;
pub mod syncer;
pub mod util;
pub mod workspace;

verus! {

/// Error taxonomy of the synchronization core.
///
/// `ConfigError`: unreadable or unparseable resolved settings.
/// `PathEscape`: a mapping resolves outside its expected root; always fatal
/// and checked ahead of any destructive mirror.
/// `MirrorFailed`: the external mirroring process exited unsuccessfully;
/// carries its diagnostic text.
/// `FilesystemError`: an OS-level create/remove/stat failure.
/// `CapacityQueryFailed`: non-fatal; degrades status fields only.
#[derive(Debug, Clone)]
pub enum SyncError {
    ConfigError(String),
    PathEscape { path: String, root: String },
    MirrorFailed(String),
    FilesystemError(String),
    CapacityQueryFailed,
}

} // verus!

//! The commands: `sync`, `install`, `uninstall`, and the version logic they share.

pub mod install;
pub mod sync;
pub mod uninstall;
pub mod version;

use vstd::prelude::*;
use crate::config::Workspace;
use crate::fsx;

verus! {

/// A command run: the loaded workspace that the commands act on.
#[derive(Debug)]
pub struct Session {
    /// The loaded project.
    pub workspace: Workspace,
}

/// What a lockfile is called.
pub const LOCKFILE: &'static str = "vendor-lock.json";

impl Session {
    /// A run on a workspace.
    pub fn new(workspace: Workspace) -> (r: Self)
        ensures
            r.workspace == workspace,
    {
        Session { workspace }
    }

    /// The lockfile path for a dependency folder.
    pub fn lockfile_path(windows: bool, folder: &str) -> (r: String)
        ensures
            r@ == fsx::appended(windows, folder@, LOCKFILE@),
    {
        fsx::append_part(windows, folder.to_owned(), LOCKFILE)
    }
}

/// An optional version for display; `undefined` where there is none.
pub fn display_version<'a>(version: Option<&'a str>) -> (r: &'a str)
    ensures
        r@ == match version {
            Some(version) => version@,
            None => "undefined"@,
        },
{
    match version {
        Some(version) => version,
        None => "undefined",
    }
}

/// Result of resolving what a dependency's version should be.
#[derive(Debug, Clone, PartialEq, Eq)]
pub struct VersionDecision {
    /// The version to install; empty when no release could be resolved.
    pub version: String,
    /// Whether anything needs to be written.
    pub needs_update: bool,
}

} // verus!

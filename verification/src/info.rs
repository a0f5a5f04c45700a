//! The repository information summary the `info` command reports.

use vstd::prelude::*;

use crate::namespace::Namespace;
use crate::path::AbsPath;

verus! {

/// A snapshot of the repository's state for reporting.
pub struct Info {
    /// The registered namespaces.
    pub namespaces: Vec<Namespace>,
    /// The repository root.
    pub repository_dir: AbsPath,
    /// Where the log file lives.
    pub log_dir: AbsPath,
}

impl Info {
    /// Assembles the summary from the repository's parts.
    pub fn gather(namespaces: Vec<Namespace>, repository_dir: AbsPath, log_dir: AbsPath) -> (r:
        Info)
        ensures
            r.namespaces == namespaces,
            r.repository_dir == repository_dir,
            r.log_dir == log_dir,
    {
        Info { namespaces, repository_dir, log_dir }
    }
}

} // verus!

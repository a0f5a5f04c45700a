//! A resolved add target: which namespace directory a path maps into.

use vstd::prelude::*;

use crate::path::AbsPath;

verus! {

/// The pairing of a namespace directory with the repository path a file is
/// stored under.
pub struct Target {
    pub namespace: AbsPath,
    pub repo_path: AbsPath,
}

impl Target {
    pub fn new(namespace: AbsPath, repo_path: AbsPath) -> (r: Target)
        ensures
            r.namespace == namespace,
            r.repo_path == repo_path,
    {
        Target { namespace, repo_path }
    }
}

} // verus!

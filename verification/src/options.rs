//! Option bags of the commands, as the engine sees them: plain values,
//! already parsed; the surrounding command-line layer fills them in.

use vstd::prelude::*;

use crate::path::AbsPath;

verus! {

/// Options of `cmd`: run a command inside the repository directory.
pub struct CmdOptions {
    pub command: String,
    pub args: Vec<String>,
}

/// Options of `deploy`.
pub struct DeployOptions {
    /// Print each copy as it is planned.
    pub verbose: bool,
}

/// Options of `info`.
pub struct InfoOptions {
    /// Emit the summary as structured output instead of text.
    pub json: bool,
}

/// Options of `init`.
pub struct InitOptions {
    /// Replace a repository already at the location.
    pub force: bool,
    /// Where to create the repository, overriding the default.
    pub dir: Option<AbsPath>,
}

/// Options of `list`.
pub struct ListOptions {
    /// Group files under their namespace.
    pub pretty: bool,
    /// Only show files of these namespaces; empty means all.
    pub filter: Vec<String>,
    /// Emit structured output instead of text.
    pub json: bool,
}

/// Options of `status`.
pub struct StatusOptions {}

} // verus!

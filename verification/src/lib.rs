//! Core engine of a dotfile manager: namespaces map a stored subtree of a
//! central repository to one or more target directories on the real
//! filesystem. This crate holds the verified logic: resolving which namespace
//! owns a path, mapping stored paths to target paths and back, building the
//! plugin trigger lookup, and planning a deploy (tree walk, extension-chained
//! plugin pipelines, fan-out to every target, failure aggregation).
//!
//! All filesystem access, process spawning and serialization live outside this
//! crate; its functions work on plain values (path component sequences,
//! strings, bytes) handed in by the caller.

pub mod add;
pub mod deploy;
pub mod info;
pub mod namespace;
pub mod options;
pub mod path;
pub mod plugin;
pub mod target;
pub mod text;
pub mod tree;

use vstd::prelude::*;

verus! {

/// Bound on directory nesting when walking a namespace's stored tree; deeper
/// structures are treated as corrupt (e.g. a symlink cycle) and rejected.
pub const MAX_WALK_DEPTH: usize = 20;

} // verus!

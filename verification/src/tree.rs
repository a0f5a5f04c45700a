//! A namespace's stored tree and the bounded walk over it.
//!
//! The caller mirrors the directory structure under a namespace's location
//! into an `FsTree` forest; the walk enumerates every regular file as a path
//! relative to the location, excluding the descriptor file, and is bounded
//! by a nesting guard: a structure nested deeper than the bound is treated
//! as corrupt (for instance a symlink cycle) and rejected outright, never
//! silently truncated.

use vstd::prelude::*;

use crate::namespace::Namespace;
use crate::namespace::descriptor_file_name;
use crate::namespace::is_descriptor_name;
use crate::path::AbsPath;
use crate::path::RelPath;
use crate::path::abs_views;
use crate::path::join;
use crate::path::rel_views;

verus! {

/// One node of a stored tree: a regular file or a directory with entries.
pub enum FsTree {
    File { name: String },
    Dir { name: String, entries: Vec<FsTree> },
}

/// Walking a stored forest with `depth` nesting levels left: the relative
/// paths of its files in order (directories descended in place), excluding
/// descriptor files; `None` when a directory lies deeper than the bound.
pub open spec fn walk_nodes_spec(nodes: Seq<FsTree>, depth: nat) -> Option<Seq<Seq<Seq<char>>>>
    decreases depth, nodes.len(),
{
    if nodes.len() == 0 {
        Some(seq![])
    } else {
        let first = match nodes[0] {
            FsTree::File { name } => {
                if name@ == descriptor_file_name() {
                    Some(seq![])
                } else {
                    Some(seq![seq![name@]])
                }
            },
            FsTree::Dir { name, entries } => {
                if depth == 0 {
                    None
                } else {
                    match walk_nodes_spec(entries@, (depth - 1) as nat) {
                        Some(subs) => Some(
                            subs.map_values(|r: Seq<Seq<char>>| seq![name@] + r),
                        ),
                        None => None,
                    }
                }
            },
        };
        match (first, walk_nodes_spec(nodes.drop_first(), depth)) {
            (Some(a), Some(b)) => Some(a + b),
            _ => None,
        }
    }
}

/// True when the forest nests within `depth` levels: every directory chain
/// fits under the guard.
pub open spec fn forest_fits(nodes: Seq<FsTree>, depth: nat) -> bool
    decreases depth, nodes.len(),
{
    if nodes.len() == 0 {
        true
    } else {
        let first_ok = match nodes[0] {
            FsTree::File { .. } => true,
            FsTree::Dir { entries, .. } => depth > 0 && forest_fits(
                entries@,
                (depth - 1) as nat,
            ),
        };
        first_ok && forest_fits(nodes.drop_first(), depth)
    }
}

/// The depth guard, exactly: the walk yields files precisely when the
/// structure nests within the bound, and fails precisely when some
/// directory lies deeper — an error, never a truncated listing.
pub proof fn lemma_depth_guard(nodes: Seq<FsTree>, depth: nat)
    ensures
        walk_nodes_spec(nodes, depth) is Some <==> forest_fits(nodes, depth),
    decreases depth, nodes.len(),
{
    if nodes.len() == 0 {
    } else {
        match nodes[0] {
            FsTree::File { .. } => {},
            FsTree::Dir { entries, .. } => {
                if depth > 0 {
                    lemma_depth_guard(entries@, (depth - 1) as nat);
                }
            },
        }
        lemma_depth_guard(nodes.drop_first(), depth);
    }
}

/// Every file the walk yields lies below the root: its relative path has at
/// least one component.
pub proof fn lemma_walk_files_nonempty(nodes: Seq<FsTree>, depth: nat)
    ensures
        walk_nodes_spec(nodes, depth) matches Some(fs) ==> forall|i: int|
            0 <= i < fs.len() ==> #[trigger] fs[i].len() >= 1,
    decreases depth, nodes.len(),
{
    if nodes.len() == 0 {
    } else {
        match nodes[0] {
            FsTree::File { .. } => {},
            FsTree::Dir { entries, .. } => {
                if depth > 0 {
                    lemma_walk_files_nonempty(entries@, (depth - 1) as nat);
                }
            },
        }
        lemma_walk_files_nonempty(nodes.drop_first(), depth);
    }
}

/// Walking a tree that is corrupt or deeper than the nesting guard fails.
#[derive(PartialEq, Eq, Structural, Clone, Copy, Debug)]
pub enum WalkError {
    DepthExceeded,
}

/// Prepends one directory component to a relative path.
fn prepend_component(name: &String, rel: &RelPath) -> (r: RelPath)
    ensures
        r@ == seq![name@] + rel@,
{
    let mut parts: Vec<String> = Vec::new();
    parts.push(name.clone());
    let n = rel.parts.len();
    for i in 0..n
        invariant
            n == rel.parts@.len(),
            parts@.len() == i + 1,
            parts@[0]@ == name@,
            forall|k: int| 0 <= k < i ==> parts@[k + 1]@ == rel@[k],
        decreases n - i,
    {
        parts.push(rel.parts[i].clone());
    }
    let r = RelPath { parts };
    proof {
        assert(r@ =~= seq![name@] + rel@);
    }
    r
}

/// Enumerates every regular file in the forest as a path relative to the
/// forest's root, in order, descending directories in place; descriptor
/// files are excluded. Fails when a directory nests deeper than `depth`
/// levels.
pub fn walk_nodes(nodes: &Vec<FsTree>, depth: usize) -> (r: Result<Vec<RelPath>, WalkError>)
    ensures
        match r {
            Ok(files) => walk_nodes_spec(nodes@, depth as nat) == Some(rel_views(files@)),
            Err(e) => walk_nodes_spec(nodes@, depth as nat) is None && e
                == WalkError::DepthExceeded,
        },
    decreases depth,
{
    let mut out: Vec<RelPath> = Vec::new();
    let n = nodes.len();
    proof {
        assert(nodes@.skip(0) =~= nodes@);
        match walk_nodes_spec(nodes@, depth as nat) {
            Some(r0) => {
                assert(rel_views(out@) + r0 =~= r0);
            },
            None => {},
        }
    }
    for k in 0..n
        invariant
            n == nodes@.len(),
            match walk_nodes_spec(nodes@.skip(k as int), depth as nat) {
                Some(rest) => walk_nodes_spec(nodes@, depth as nat) == Some(
                    rel_views(out@) + rest,
                ),
                None => walk_nodes_spec(nodes@, depth as nat) is None,
            },
        decreases n - k,
    {
        proof {
            assert(nodes@.skip(k as int)[0] == nodes@[k as int]);
            assert(nodes@.skip(k as int).drop_first() =~= nodes@.skip(k + 1));
        }
        match &nodes[k] {
            FsTree::File { name } => {
                if !is_descriptor_name(name) {
                    let mut parts: Vec<String> = Vec::new();
                    parts.push(name.clone());
                    let rel = RelPath { parts };
                    proof {
                        assert(rel@ =~= seq![name@]);
                        assert(rel_views(out@.push(rel)) =~= rel_views(out@) + seq![rel@]);
                        match walk_nodes_spec(nodes@.skip(k + 1), depth as nat) {
                            Some(r1) => {
                                assert(rel_views(out@) + (seq![seq![name@]] + r1) =~= (rel_views(
                                    out@,
                                ) + seq![rel@]) + r1);
                            },
                            None => {},
                        }
                    }
                    out.push(rel);
                } else {
                    proof {
                        match walk_nodes_spec(nodes@.skip(k + 1), depth as nat) {
                            Some(r1) => {
                                assert(Seq::<Seq<Seq<char>>>::empty() + r1 =~= r1);
                            },
                            None => {},
                        }
                    }
                }
            },
            FsTree::Dir { name, entries } => {
                if depth == 0 {
                    return Err(WalkError::DepthExceeded);
                }
                match walk_nodes(entries, depth - 1) {
                    Err(e) => {
                        return Err(e);
                    },
                    Ok(subs) => {
                        let ghost mapped = rel_views(subs@).map_values(
                            |r: Seq<Seq<char>>| seq![name@] + r,
                        );
                        let m = subs.len();
                        let ghost out_before = out@;
                        for t in 0..m
                            invariant
                                m == subs@.len(),
                                mapped == rel_views(subs@).map_values(
                                    |r: Seq<Seq<char>>| seq![name@] + r,
                                ),
                                out@.len() == out_before.len() + t,
                                rel_views(out@) =~= rel_views(out_before) + mapped.take(
                                    t as int,
                                ),
                            decreases m - t,
                        {
                            let rel = prepend_component(name, &subs[t]);
                            proof {
                                assert(mapped[t as int] == seq![name@] + rel_views(subs@)[
                                    t as int]);
                                assert(rel_views(subs@)[t as int] == subs@[t as int]@);
                                assert(rel_views(out@.push(rel)) =~= rel_views(out@) + seq![
                                    rel@,
                                ]);
                                assert(rel_views(out@) + seq![rel@] =~= rel_views(out_before)
                                    + mapped.take(t + 1));
                            }
                            out.push(rel);
                        }
                        proof {
                            assert(mapped.take(m as int) =~= mapped);
                            match walk_nodes_spec(nodes@.skip(k + 1), depth as nat) {
                                Some(r1) => {
                                    assert((rel_views(out_before) + mapped) + r1 =~= rel_views(
                                        out_before,
                                    ) + (mapped + r1));
                                },
                                None => {},
                            }
                        }
                    },
                }
            },
        }
    }
    proof {
        assert(nodes@.skip(n as int) =~= Seq::<FsTree>::empty());
        assert(rel_views(out@) + Seq::<Seq<Seq<char>>>::empty() =~= rel_views(out@));
    }
    Ok(out)
}

/// A namespace listing: each stored file shown at every one of its deployed
/// locations, file-major (all targets of one file, then the next file).
pub open spec fn listing_spec(targets: Seq<AbsPath>, rels: Seq<Seq<Seq<char>>>) -> Seq<
    Seq<Seq<char>>,
>
    decreases rels.len(),
{
    if rels.len() == 0 {
        seq![]
    } else {
        Seq::new(targets.len(), |t: int| targets[t]@ + rels[0]) + listing_spec(
            targets,
            rels.drop_first(),
        )
    }
}

impl Namespace {
    /// Enumerates the namespace's stored files, each mapped to every target
    /// location it deploys to. Fails when the stored tree nests deeper than
    /// the bound.
    pub fn files(&self, tree: &Vec<FsTree>, depth: usize) -> (r: Result<Vec<AbsPath>, WalkError>)
        ensures
            match r {
                Ok(fs) => walk_nodes_spec(tree@, depth as nat) matches Some(rels)
                    && abs_views(fs@) == listing_spec(self.targets@, rels),
                Err(e) => walk_nodes_spec(tree@, depth as nat) is None && e
                    == WalkError::DepthExceeded,
            },
    {
        let rels = match walk_nodes(tree, depth) {
            Err(e) => {
                return Err(e);
            },
            Ok(rels) => rels,
        };
        let ghost rv = rel_views(rels@);
        let mut out: Vec<AbsPath> = Vec::new();
        let n = rels.len();
        proof {
            assert(rv.skip(0) =~= rv);
            assert(abs_views(out@) + listing_spec(self.targets@, rv) =~= listing_spec(
                self.targets@,
                rv,
            ));
        }
        for k in 0..n
            invariant
                n == rels@.len(),
                rv == rel_views(rels@),
                listing_spec(self.targets@, rv) == abs_views(out@) + listing_spec(
                    self.targets@,
                    rv.skip(k as int),
                ),
            decreases n - k,
        {
            proof {
                assert(rv.skip(k as int)[0] == rv[k as int]);
                assert(rv.skip(k as int).drop_first() =~= rv.skip(k + 1));
                assert(rv[k as int] == rels@[k as int]@);
            }
            let ghost fanned = Seq::new(
                self.targets@.len(),
                |t: int| self.targets@[t]@ + rv[k as int],
            );
            let ghost out_before = out@;
            let tn = self.targets.len();
            for t in 0..tn
                invariant
                    tn == self.targets@.len(),
                    k < n == rels@.len(),
                    rv == rel_views(rels@),
                    rv[k as int] == rels@[k as int]@,
                    fanned == Seq::new(
                        self.targets@.len(),
                        |t2: int| self.targets@[t2]@ + rv[k as int],
                    ),
                    out@.len() == out_before.len() + t,
                    abs_views(out@) =~= abs_views(out_before) + fanned.take(t as int),
                decreases tn - t,
            {
                let dest = join(&self.targets[t], &rels[k]);
                proof {
                    assert(abs_views(out@.push(dest)) =~= abs_views(out@) + seq![dest@]);
                    assert(fanned[t as int] == self.targets@[t as int]@ + rv[k as int]);
                    assert(abs_views(out@) + seq![dest@] =~= abs_views(out_before) + fanned.take(
                        t + 1,
                    ));
                }
                out.push(dest);
            }
            proof {
                assert(fanned.take(tn as int) =~= fanned);
                let rest = listing_spec(self.targets@, rv.skip(k + 1));
                assert((abs_views(out_before) + fanned) + rest =~= abs_views(out_before) + (fanned
                    + rest));
            }
        }
        proof {
            assert(rv.skip(n as int) =~= Seq::<Seq<Seq<char>>>::empty());
            assert(abs_views(out@) + listing_spec(self.targets@, rv.skip(n as int)) =~= abs_views(
                out@,
            ));
        }
        Ok(out)
    }
}

} // verus!

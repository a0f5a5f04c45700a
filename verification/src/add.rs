//! Computing where an added file is stored.
//!
//! Adding a file means: resolve its namespace from its (canonicalized)
//! absolute path, strip the matched target root, and join the relative
//! suffix onto the namespace's storage location. The caller copies the bytes
//! afterwards. In a batch, a file that resolves to no namespace is recorded
//! and the rest of the batch proceeds; the aggregate is reported at the end.

use vstd::prelude::*;

use crate::namespace::Namespace;
use crate::namespace::ResolveError;
use crate::namespace::determine_namespace;
use crate::namespace::lemma_resolve_spec_ok;
use crate::namespace::resolve_spec;
use crate::namespace::resolvable;
use crate::path::AbsPath;
use crate::path::join;
use crate::path::strip_namespace;

verus! {

/// Options of the add operation: the file patterns to add, and whether to
/// only print what would be copied.
pub struct AddOptions {
    pub files: Vec<String>,
    pub mock: bool,
}

/// The stored destination the resolver assigns to `source`: the owning
/// namespace's location, extended with `source`'s suffix below the matched
/// target.
pub open spec fn add_destination(nss: Seq<Namespace>, source: Seq<Seq<char>>) -> Option<
    Seq<Seq<char>>,
> {
    match resolve_spec(nss, source) {
        Some(rjd) => Some(
            nss[rjd.0].location@ + source.subrange(rjd.2, source.len() as int),
        ),
        None => None,
    }
}

/// Computes the stored destination of one (canonicalized) source path.
/// Fails exactly when no ancestor of the source matches a registered
/// target. The prefix strip after a successful resolution can never fail:
/// the matched target is an ancestor of the source by construction.
pub fn compute_add_destination(namespaces: &Vec<Namespace>, source: &AbsPath) -> (r: Result<
    AbsPath,
    ResolveError,
>)
    ensures
        r is Ok <==> resolvable(namespaces@, source@),
        r matches Ok(dest) ==> add_destination(namespaces@, source@) == Some(dest@),
        r matches Err(e) ==> add_destination(namespaces@, source@) is None && e
            == ResolveError::HasNoNamespace,
{
    match determine_namespace(namespaces, source) {
        Err(e) => Err(e),
        Ok(res) => {
            proof {
                lemma_resolve_spec_ok(namespaces@, source@);
            }
            let ns = &namespaces[res.namespace_index];
            let target = &ns.targets[res.target_index];
            proof {
                assert(target@.len() == res.match_depth as int);
                assert(target@ =~= source@.subrange(0, target@.len() as int));
            }
            match strip_namespace(target, source) {
                Some(rel) => {
                    let dest = join(&ns.location, &rel);
                    proof {
                        assert(rel@ == source@.subrange(
                            res.match_depth as int,
                            source@.len() as int,
                        ));
                    }
                    Ok(dest)
                },
                None => {
                    proof {
                        assert(false);
                    }
                    vstd::pervasive::unreached()
                },
            }
        },
    }
}

/// The views of planned copies: `(source, stored destination)`.
pub open spec fn copy_views(v: Seq<(AbsPath, AbsPath)>) -> Seq<(Seq<Seq<char>>, Seq<Seq<char>>)> {
    Seq::new(v.len(), |i: int| (v[i].0@, v[i].1@))
}

/// The copies a batch add performs: one per source that resolves, in order.
pub open spec fn planned_copies(nss: Seq<Namespace>, sources: Seq<AbsPath>) -> Seq<
    (Seq<Seq<char>>, Seq<Seq<char>>),
>
    decreases sources.len(),
{
    if sources.len() == 0 {
        seq![]
    } else {
        let rest = planned_copies(nss, sources.drop_first());
        match add_destination(nss, sources[0]@) {
            Some(dest) => seq![(sources[0]@, dest)] + rest,
            None => rest,
        }
    }
}

/// The indices (from `base`) of the sources that resolve to no namespace.
pub open spec fn failed_adds(nss: Seq<Namespace>, sources: Seq<AbsPath>, base: int) -> Seq<int>
    decreases sources.len(),
{
    if sources.len() == 0 {
        seq![]
    } else {
        let rest = failed_adds(nss, sources.drop_first(), base + 1);
        if add_destination(nss, sources[0]@) is None {
            seq![base] + rest
        } else {
            rest
        }
    }
}

/// A batch add, planned: the copies to perform and the sources that failed.
pub struct AddPlan {
    /// `(source, stored destination)`, for every source that resolved.
    pub copies: Vec<(AbsPath, AbsPath)>,
    /// Indices into the batch of the sources that resolved to no namespace.
    pub failures: Vec<usize>,
}

/// The views of failure indices.
pub open spec fn idx_views(v: Seq<usize>) -> Seq<int> {
    Seq::new(v.len(), |i: int| v[i] as int)
}

/// Plans a batch add: every source is attempted; one that resolves to no
/// namespace is recorded as failed and the rest proceed. The overall add
/// reports failure when `failures` is non-empty.
pub fn plan_add(namespaces: &Vec<Namespace>, sources: &Vec<AbsPath>) -> (r: AddPlan)
    ensures
        copy_views(r.copies@) == planned_copies(namespaces@, sources@),
        idx_views(r.failures@) == failed_adds(namespaces@, sources@, 0),
{
    let mut copies: Vec<(AbsPath, AbsPath)> = Vec::new();
    let mut failures: Vec<usize> = Vec::new();
    let n = sources.len();
    proof {
        assert(sources@.skip(0) =~= sources@);
        assert(copy_views(copies@) + planned_copies(namespaces@, sources@) =~= planned_copies(
            namespaces@,
            sources@,
        ));
        assert(idx_views(failures@) + failed_adds(namespaces@, sources@, 0) =~= failed_adds(
            namespaces@,
            sources@,
            0,
        ));
    }
    for k in 0..n
        invariant
            n == sources@.len(),
            planned_copies(namespaces@, sources@) == copy_views(copies@) + planned_copies(
                namespaces@,
                sources@.skip(k as int),
            ),
            failed_adds(namespaces@, sources@, 0) == idx_views(failures@) + failed_adds(
                namespaces@,
                sources@.skip(k as int),
                k as int,
            ),
        decreases n - k,
    {
        proof {
            assert(sources@.skip(k as int)[0] == sources@[k as int]);
            assert(sources@.skip(k as int).drop_first() =~= sources@.skip(k + 1));
        }
        match compute_add_destination(namespaces, &sources[k]) {
            Ok(dest) => {
                let entry = (sources[k].duplicate(), dest);
                proof {
                    assert(copy_views(copies@.push(entry)) =~= copy_views(copies@) + seq![
                        (sources@[k as int]@, entry.1@),
                    ]);
                    let rest = planned_copies(namespaces@, sources@.skip(k + 1));
                    assert(copy_views(copies@) + (seq![(sources@[k as int]@, entry.1@)] + rest)
                        =~= (copy_views(copies@) + seq![(sources@[k as int]@, entry.1@)]) + rest);
                }
                copies.push(entry);
            },
            Err(_) => {
                proof {
                    assert(idx_views(failures@.push(k)) =~= idx_views(failures@) + seq![
                        k as int,
                    ]);
                    let rest = failed_adds(namespaces@, sources@.skip(k + 1), k + 1);
                    assert(idx_views(failures@) + (seq![k as int] + rest) =~= (idx_views(
                        failures@,
                    ) + seq![k as int]) + rest);
                }
                failures.push(k);
            },
        }
    }
    proof {
        assert(sources@.skip(n as int) =~= Seq::<AbsPath>::empty());
        assert(copy_views(copies@) + planned_copies(
            namespaces@,
            sources@.skip(n as int),
        ) =~= copy_views(copies@));
        assert(idx_views(failures@) + failed_adds(namespaces@, sources@.skip(n as int), n as int)
            =~= idx_views(failures@));
    }
    AddPlan { copies, failures }
}

} // verus!

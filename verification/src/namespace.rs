//! Namespaces and the namespace resolver.
//!
//! A namespace maps a storage location inside the repository to one or more
//! target directories on the real filesystem. The resolver answers: which
//! namespace owns a given absolute path? It walks the path's ancestors from
//! the innermost outwards and, at each ancestor, looks for a namespace with a
//! target equal to that ancestor.
//!
//! Policy choices, fixed here deliberately:
//! - a path matches a namespace when the ancestor equals *any one* of its
//!   targets (a multi-target namespace is addressable through each target);
//! - when several namespaces match at the same ancestor (a pathological
//!   configuration sharing a target), the one earliest in the caller's list
//!   wins, deterministically; callers that want a name-based tiebreak sort
//!   the list by name first.

use vstd::prelude::*;
use vstd::string::StrSliceExecFns;
use vstd::string::StringExecFns;

use crate::path::AbsPath;

verus! {

/// A namespace: stored files live under `location` inside the repository and
/// deploy to every directory in `targets`.
#[derive(Debug)]
pub struct Namespace {
    /// The physical location of the namespace, where files are stored.
    pub location: AbsPath,
    /// The output locations, where files are deployed to.
    pub targets: Vec<AbsPath>,
}

/// A configuration error in a namespace description.
#[derive(PartialEq, Eq, Structural, Clone, Copy, Debug)]
pub enum NamespaceError {
    /// The namespace lists no target: a configuration error that must be
    /// surfaced, never treated as a silent no-op.
    NoTargets,
}

impl Namespace {
    /// A well-formed namespace has at least one target.
    pub open spec fn wf(&self) -> bool {
        self.targets@.len() > 0
    }

    /// Builds a namespace, rejecting an empty target list.
    pub fn new(location: AbsPath, targets: Vec<AbsPath>) -> (r: Result<Namespace, NamespaceError>)
        ensures
            targets@.len() > 0 <==> r is Ok,
            r matches Ok(ns) ==> ns.location == location && ns.targets == targets && ns.wf(),
            r matches Err(e) ==> e == NamespaceError::NoTargets,
    {
        if targets.len() == 0 {
            Err(NamespaceError::NoTargets)
        } else {
            Ok(Namespace { location, targets })
        }
    }
}

/// True when the namespace's name — the last component of its storage
/// location — is `name`.
pub open spec fn ns_named(ns: Namespace, name: Seq<char>) -> bool {
    ns.location@.len() > 0 && ns.location@.last() == name
}

impl Namespace {
    /// The namespace's name: the last component of its storage location.
    /// `None` only for the degenerate location at the filesystem root.
    pub fn name(&self) -> (r: Option<&String>)
        ensures
            match r {
                Some(n) => self.location@.len() > 0 && n@ == self.location@.last(),
                None => self.location@.len() == 0,
            },
    {
        let n = self.location.parts.len();
        if n == 0 {
            None
        } else {
            Some(&self.location.parts[n - 1])
        }
    }
}

/// True when some registered namespace carries the name (used to reject
/// removing a namespace that does not exist).
pub fn has_namespace_named(namespaces: &Vec<Namespace>, name: &String) -> (r: bool)
    ensures
        r == exists|i: int| 0 <= i < namespaces@.len() && ns_named(#[trigger] namespaces@[i], name@),
{
    let n = namespaces.len();
    for i in 0..n
        invariant
            n == namespaces@.len(),
            forall|k: int| 0 <= k < i ==> !ns_named(#[trigger] namespaces@[k], name@),
        decreases n - i,
    {
        match namespaces[i].name() {
            Some(nm) => {
                if nm.eq(name) {
                    proof {
                        assert(ns_named(namespaces@[i as int], name@));
                    }
                    return true;
                }
            },
            None => {},
        }
    }
    false
}

/// The fixed name of the descriptor file marking a namespace directory.
pub open spec fn descriptor_file_name() -> Seq<char> {
    "namespace.fig"@
}

/// True exactly when `name` is the descriptor file's name.
pub fn is_descriptor_name(name: &String) -> (r: bool)
    ensures
        r == (name@ == descriptor_file_name()),
{
    let d = String::from_str("namespace.fig");
    name.eq(&d)
}

/// The target paths a namespace descriptor lists, in order: one per line,
/// trimmed of padding, blank lines ignored. The legacy single-target format
/// (the whole file is the one target, no trailing newline) is the one-line
/// case of the same rule.
pub open spec fn kept_targets(ls: Seq<Seq<char>>) -> Seq<Seq<char>>
    decreases ls.len(),
{
    if ls.len() == 0 {
        seq![]
    } else {
        let rest = kept_targets(ls.drop_first());
        if crate::text::trim_pad(ls[0]).len() > 0 {
            seq![crate::text::trim_pad(ls[0])] + rest
        } else {
            rest
        }
    }
}

pub open spec fn descriptor_targets(text: Seq<char>) -> Seq<Seq<char>> {
    kept_targets(crate::text::split_lines(text))
}

/// Parses the content of a namespace descriptor file into its list of target
/// path strings. A descriptor listing no target is a configuration error.
pub fn parse_descriptor(text: &str) -> (r: Result<Vec<String>, NamespaceError>)
    ensures
        r is Ok <==> descriptor_targets(text@).len() > 0,
        r matches Ok(ts) ==> crate::text::str_views(ts@) == descriptor_targets(text@),
        r matches Err(e) ==> e == NamespaceError::NoTargets,
{
    let lines = crate::text::lines_of(text);
    let ghost ls = crate::text::split_lines(text@);
    let mut out: Vec<String> = Vec::new();
    let k_end = lines.len();
    proof {
        assert(ls.skip(0) =~= ls);
        assert(crate::text::str_views(out@) + kept_targets(ls) =~= kept_targets(ls));
    }
    for k in 0..k_end
        invariant
            k_end == lines@.len() == ls.len(),
            crate::text::str_views(lines@) == ls,
            descriptor_targets(text@) == crate::text::str_views(out@) + kept_targets(
                ls.skip(k as int),
            ),
        decreases k_end - k,
    {
        let t = crate::text::trim(lines[k].as_str());
        proof {
            assert(lines@[k as int]@ == ls[k as int]);
            assert(ls.skip(k as int)[0] == ls[k as int]);
            assert(ls.skip(k as int).drop_first() =~= ls.skip(k + 1));
        }
        if !t.is_empty() {
            let owned = String::from_str(t);
            proof {
                assert(crate::text::str_views(out@.push(owned)) =~= crate::text::str_views(out@)
                    + seq![crate::text::trim_pad(ls[k as int])]);
            }
            out.push(owned);
        }
    }
    proof {
        assert(ls.skip(k_end as int) =~= Seq::<Seq<char>>::empty());
        assert(crate::text::str_views(out@) + kept_targets(ls.skip(k_end as int))
            =~= crate::text::str_views(out@));
    }
    if out.len() == 0 {
        proof {
            assert(descriptor_targets(text@).len() == crate::text::str_views(out@).len());
        }
        Err(NamespaceError::NoTargets)
    } else {
        Ok(out)
    }
}

/// What a repository-root directory entry looks like to this engine: its
/// name, whether it is a directory, and whether it holds a descriptor file.
pub struct RepoEntry {
    pub name: String,
    pub is_dir: bool,
    pub has_descriptor: bool,
}

/// True for a directory entry that is a floating namespace: a non-hidden
/// directory without a descriptor, unmanaged and reported only as a
/// diagnostic.
pub open spec fn is_floating(e: RepoEntry) -> bool {
    &&& e.is_dir
    &&& !e.has_descriptor
    &&& !(e.name@.len() > 0 && e.name@[0] == '.')
}

pub open spec fn floating_spec(entries: Seq<RepoEntry>) -> Seq<Seq<char>>
    decreases entries.len(),
{
    if entries.len() == 0 {
        seq![]
    } else {
        let rest = floating_spec(entries.drop_first());
        if is_floating(entries[0]) {
            seq![entries[0].name@] + rest
        } else {
            rest
        }
    }
}

/// Names of the repository subdirectories that lack a descriptor file and
/// are not hidden: the floating namespaces, in the order handed in.
pub fn floating_namespaces(entries: &Vec<RepoEntry>) -> (r: Vec<String>)
    ensures
        crate::text::str_views(r@) == floating_spec(entries@),
{
    let mut out: Vec<String> = Vec::new();
    let k_end = entries.len();
    proof {
        assert(entries@.skip(0) =~= entries@);
        assert(crate::text::str_views(out@) + floating_spec(entries@) =~= floating_spec(
            entries@,
        ));
    }
    for k in 0..k_end
        invariant
            k_end == entries@.len(),
            floating_spec(entries@) == crate::text::str_views(out@) + floating_spec(
                entries@.skip(k as int),
            ),
        decreases k_end - k,
    {
        let e = &entries[k];
        proof {
            assert(entries@.skip(k as int)[0] == entries@[k as int]);
            assert(entries@.skip(k as int).drop_first() =~= entries@.skip(k + 1));
        }
        let hidden = e.name.as_str().unicode_len() > 0 && e.name.as_str().get_char(0) == '.';
        if e.is_dir && !e.has_descriptor && !hidden {
            let owned = e.name.clone();
            proof {
                assert(crate::text::str_views(out@.push(owned)) =~= crate::text::str_views(out@)
                    + seq![entries@[k as int].name@]);
            }
            out.push(owned);
        }
    }
    proof {
        assert(entries@.skip(k_end as int) =~= Seq::<RepoEntry>::empty());
        assert(crate::text::str_views(out@) + floating_spec(entries@.skip(k_end as int))
            =~= crate::text::str_views(out@));
    }
    out
}

/// True when one of `ns`'s targets equals the ancestor `anc`.
pub open spec fn target_matches(ns: Namespace, anc: Seq<Seq<char>>) -> bool {
    exists|j: int| 0 <= j < ns.targets@.len() && ns.targets@[j]@ == anc
}

/// True when some namespace in the list has a target equal to `anc`.
pub open spec fn any_namespace_matches(nss: Seq<Namespace>, anc: Seq<Seq<char>>) -> bool {
    exists|i: int| 0 <= i < nss.len() && target_matches(nss[i], anc)
}

/// True when some strict ancestor of `p` (a proper prefix, the path's parent
/// chain) matches a registered target: exactly then resolution succeeds.
pub open spec fn resolvable(nss: Seq<Namespace>, p: Seq<Seq<char>>) -> bool {
    exists|d: int| 0 <= d < p.len() && any_namespace_matches(nss, p.subrange(0, d))
}

/// Index of the first target in `targets` equal to `anc`; `targets.len()`
/// when none is.
pub open spec fn first_target_index(targets: Seq<AbsPath>, anc: Seq<Seq<char>>) -> int
    decreases targets.len(),
{
    if targets.len() == 0 {
        0
    } else if targets[0]@ == anc {
        0
    } else {
        1 + first_target_index(targets.drop_first(), anc)
    }
}

/// Index of the first namespace in `nss` with a target equal to `anc`;
/// `nss.len()` when none has one.
pub open spec fn first_namespace_index(nss: Seq<Namespace>, anc: Seq<Seq<char>>) -> int
    decreases nss.len(),
{
    if nss.len() == 0 {
        0
    } else if target_matches(nss[0], anc) {
        0
    } else {
        1 + first_namespace_index(nss.drop_first(), anc)
    }
}

/// The largest ancestor depth `m <= d` at which some namespace matches;
/// `-1` when none matches at any depth in `[0, d]`.
pub open spec fn innermost_match(nss: Seq<Namespace>, p: Seq<Seq<char>>, d: int) -> int
    decreases d + 1,
{
    if d < 0 {
        -1
    } else if any_namespace_matches(nss, p.subrange(0, d)) {
        d
    } else {
        innermost_match(nss, p, d - 1)
    }
}

/// The resolver, as a function of the configuration: the innermost matching
/// ancestor depth, and at it the first matching namespace and its first
/// matching target. `None` exactly when no ancestor matches.
pub open spec fn resolve_spec(nss: Seq<Namespace>, p: Seq<Seq<char>>) -> Option<(int, int, int)> {
    let d = innermost_match(nss, p, p.len() - 1);
    if d < 0 {
        None
    } else {
        let anc = p.subrange(0, d);
        let i = first_namespace_index(nss, anc);
        let j = first_target_index(nss[i].targets@, anc);
        Some((i, j, d))
    }
}

pub proof fn lemma_first_target_index(targets: Seq<AbsPath>, anc: Seq<Seq<char>>)
    ensures
        ({
            let f = first_target_index(targets, anc);
            &&& 0 <= f <= targets.len()
            &&& f < targets.len() ==> targets[f]@ == anc
            &&& forall|j: int| 0 <= j < f ==> targets[j]@ != anc
            &&& (exists|j: int| 0 <= j < targets.len() && targets[j]@ == anc) ==> f < targets.len()
        }),
    decreases targets.len(),
{
    if targets.len() == 0 {
    } else if targets[0]@ == anc {
    } else {
        lemma_first_target_index(targets.drop_first(), anc);
        let f = first_target_index(targets, anc);
        let fr = first_target_index(targets.drop_first(), anc);
        assert forall|j: int| 0 <= j < f implies targets[j]@ != anc by {
            if j > 0 {
                assert(targets.drop_first()[j - 1] == targets[j]);
            }
        }
        if exists|j: int| 0 <= j < targets.len() && targets[j]@ == anc {
            let j = choose|j: int| 0 <= j < targets.len() && targets[j]@ == anc;
            assert(j > 0);
            assert(targets.drop_first()[j - 1]@ == anc);
        }
    }
}

pub proof fn lemma_first_namespace_index(nss: Seq<Namespace>, anc: Seq<Seq<char>>)
    ensures
        ({
            let f = first_namespace_index(nss, anc);
            &&& 0 <= f <= nss.len()
            &&& f < nss.len() ==> target_matches(nss[f], anc)
            &&& forall|i: int| 0 <= i < f ==> !target_matches(nss[i], anc)
            &&& any_namespace_matches(nss, anc) ==> f < nss.len()
        }),
    decreases nss.len(),
{
    if nss.len() == 0 {
    } else if target_matches(nss[0], anc) {
    } else {
        lemma_first_namespace_index(nss.drop_first(), anc);
        let f = first_namespace_index(nss, anc);
        assert forall|i: int| 0 <= i < f implies !target_matches(nss[i], anc) by {
            if i > 0 {
                assert(nss.drop_first()[i - 1] == nss[i]);
            }
        }
        if any_namespace_matches(nss, anc) {
            let i = choose|i: int| 0 <= i < nss.len() && target_matches(nss[i], anc);
            assert(i > 0);
            assert(nss.drop_first()[i - 1] == nss[i]);
            assert(any_namespace_matches(nss.drop_first(), anc));
        }
    }
}

pub proof fn lemma_innermost_match(nss: Seq<Namespace>, p: Seq<Seq<char>>, d: int)
    requires
        d >= -1,
    ensures
        ({
            let m = innermost_match(nss, p, d);
            &&& -1 <= m <= d
            &&& m >= 0 ==> any_namespace_matches(nss, p.subrange(0, m))
            &&& forall|d2: int| m < d2 <= d ==> !any_namespace_matches(nss, p.subrange(0, d2))
        }),
    decreases d + 1,
{
    if d < 0 {
    } else if any_namespace_matches(nss, p.subrange(0, d)) {
    } else {
        lemma_innermost_match(nss, p, d - 1);
        let m = innermost_match(nss, p, d);
        assert(m == innermost_match(nss, p, d - 1));
        assert forall|d2: int| m < d2 <= d implies !any_namespace_matches(
            nss,
            p.subrange(0, d2),
        ) by {
            if d2 < d {
                assert(!any_namespace_matches(nss, p.subrange(0, d2)));
            }
        }
    }
}

/// What a successful resolution means: indices in range, and the matched
/// target equal to the ancestor of `p` at the matched depth. Resolution
/// succeeds exactly on resolvable paths.
pub proof fn lemma_resolve_spec_ok(nss: Seq<Namespace>, p: Seq<Seq<char>>)
    ensures
        resolve_spec(nss, p) is Some <==> resolvable(nss, p),
        resolve_spec(nss, p) matches Some(r) ==> {
            let (i, j, d) = r;
            &&& 0 <= i < nss.len()
            &&& 0 <= j < nss[i].targets@.len()
            &&& 0 <= d < p.len()
            &&& nss[i].targets@[j]@ == p.subrange(0, d)
        },
{
    lemma_innermost_match(nss, p, p.len() - 1);
    let m = innermost_match(nss, p, p.len() - 1);
    if m >= 0 {
        let anc = p.subrange(0, m);
        lemma_first_namespace_index(nss, anc);
        let i = first_namespace_index(nss, anc);
        lemma_first_target_index(nss[i].targets@, anc);
    } else {
        if resolvable(nss, p) {
            let d = choose|d: int|
                0 <= d < p.len() && any_namespace_matches(nss, p.subrange(0, d));
            assert(!any_namespace_matches(nss, p.subrange(0, d)));
        }
    }
}

/// Resolver correctness: when some ancestor of `p` equals a target of
/// namespace `i` and no ancestor equals a target of any other namespace,
/// resolution returns namespace `i`.
pub proof fn lemma_resolver_correctness(nss: Seq<Namespace>, p: Seq<Seq<char>>, i: int)
    requires
        0 <= i < nss.len(),
        exists|d: int| 0 <= d < p.len() && target_matches(nss[i], #[trigger] p.subrange(0, d)),
        forall|k: int, d: int|
            0 <= k < nss.len() && k != i && 0 <= d < p.len() ==> !target_matches(
                #[trigger] nss[k],
                #[trigger] p.subrange(0, d),
            ),
    ensures
        resolve_spec(nss, p) matches Some(r) && r.0 == i,
{
    let dw = choose|d: int| 0 <= d < p.len() && target_matches(nss[i], #[trigger] p.subrange(0, d));
    assert(any_namespace_matches(nss, p.subrange(0, dw)));
    assert(resolvable(nss, p));
    lemma_resolve_spec_ok(nss, p);
    lemma_innermost_match(nss, p, p.len() - 1);
    let m = innermost_match(nss, p, p.len() - 1);
    let anc = p.subrange(0, m);
    let k = choose|k: int| 0 <= k < nss.len() && target_matches(nss[k], anc);
    assert(k == i);
    lemma_first_namespace_index(nss, anc);
    let f = first_namespace_index(nss, anc);
    assert(f <= i);
    if f < i {
        assert(!target_matches(nss[f], anc));
    }
}

/// A path under no registered target resolves to nothing.
pub proof fn lemma_resolver_no_match(nss: Seq<Namespace>, p: Seq<Seq<char>>)
    requires
        forall|d: int| 0 <= d < p.len() ==> !any_namespace_matches(nss, #[trigger] p.subrange(0, d)),
    ensures
        resolve_spec(nss, p) is None,
{
    lemma_resolve_spec_ok(nss, p);
}

/// Ambiguity policy: when several namespaces match at the resolved ancestor
/// (for instance, two namespaces sharing an identical target path), the
/// resolver deterministically picks the earliest in the list — it never
/// merges them and never fails on that account.
pub proof fn lemma_resolution_prefers_first(
    nss: Seq<Namespace>,
    p: Seq<Seq<char>>,
    ri: int,
    rj: int,
    rd: int,
    k: int,
)
    requires
        resolve_spec(nss, p) == Some((ri, rj, rd)),
        0 <= k < nss.len(),
        target_matches(nss[k], p.subrange(0, rd)),
    ensures
        ri <= k,
{
    lemma_innermost_match(nss, p, p.len() - 1);
    let m = innermost_match(nss, p, p.len() - 1);
    let anc = p.subrange(0, m);
    lemma_first_namespace_index(nss, anc);
    if ri > k {
        assert(!target_matches(nss[k], anc));
    }
}

/// The resolver's result, by position in the configuration handed in: the
/// owning namespace, the target that matched, and the depth (component
/// count) of the matched ancestor, so the relative suffix below the target
/// is `path[match_depth..]`.
#[derive(Debug)]
pub struct Resolution {
    pub namespace_index: usize,
    pub target_index: usize,
    pub match_depth: usize,
}

/// Failure of namespace resolution.
#[derive(PartialEq, Eq, Structural, Clone, Copy, Debug)]
pub enum ResolveError {
    /// No ancestor of the path equals any registered target: the path is not
    /// managed by any namespace, which is fatal to the calling operation.
    HasNoNamespace,
}

/// Finds the namespace owning `path`: walks `path`'s ancestors from the
/// innermost outwards and returns the first namespace (and its first target)
/// equal to an ancestor. Fails with `HasNoNamespace` when the filesystem
/// root is reached without a match.
pub fn determine_namespace(namespaces: &Vec<Namespace>, path: &AbsPath) -> (r: Result<
    Resolution,
    ResolveError,
>)
    ensures
        match r {
            Ok(res) => resolve_spec(namespaces@, path@) == Some(
                (res.namespace_index as int, res.target_index as int, res.match_depth as int),
            ),
            Err(e) => resolve_spec(namespaces@, path@) is None && e
                == ResolveError::HasNoNamespace,
        },
        r is Ok <==> resolvable(namespaces@, path@),
{
    let plen = path.parts.len();
    let nlen = namespaces.len();
    let mut d: usize = plen;
    while d > 0
        invariant
            plen == path@.len(),
            nlen == namespaces@.len(),
            d <= plen,
            forall|d2: int|
                d <= d2 < plen ==> !any_namespace_matches(
                    namespaces@,
                    path@.subrange(0, d2),
                ),
        decreases d,
    {
        d = d - 1;
        let ghost anc = path@.subrange(0, d as int);
        for i in 0..nlen
            invariant
                plen == path@.len(),
                nlen == namespaces@.len(),
                d < plen,
                anc == path@.subrange(0, d as int),
                forall|d2: int|
                    d < d2 < plen ==> !any_namespace_matches(
                        namespaces@,
                        path@.subrange(0, d2),
                    ),
                forall|k: int| 0 <= k < i ==> !target_matches(namespaces@[k], anc),
        {
            let tlen = namespaces[i].targets.len();
            for j in 0..tlen
                invariant
                    plen == path@.len(),
                    nlen == namespaces@.len(),
                    i < nlen,
                    d < plen,
                    anc == path@.subrange(0, d as int),
                    tlen == namespaces@[i as int].targets@.len(),
                    forall|d2: int|
                        d < d2 < plen ==> !any_namespace_matches(
                            namespaces@,
                            path@.subrange(0, d2),
                        ),
                    forall|k: int| 0 <= k < i ==> !target_matches(namespaces@[k], anc),
                    forall|jj: int|
                        0 <= jj < j ==> namespaces@[i as int].targets@[jj]@ != anc,
            {
                if crate::path::matches_prefix_at(&namespaces[i].targets[j], path, d) {
                    proof {
                        lemma_resolution_pins(namespaces@, path@, i as int, j as int, d as int);
                    }
                    return Ok(
                        Resolution { namespace_index: i, target_index: j, match_depth: d },
                    );
                }
            }
            proof {
                assert(!target_matches(namespaces@[i as int], anc));
            }
        }
        proof {
            assert(!any_namespace_matches(namespaces@, anc));
        }
    }
    proof {
        lemma_innermost_match(namespaces@, path@, plen - 1);
        let m = innermost_match(namespaces@, path@, plen as int - 1);
        if m >= 0 {
            assert(!any_namespace_matches(namespaces@, path@.subrange(0, m)));
        }
        if resolvable(namespaces@, path@) {
            let dw = choose|dw: int|
                0 <= dw < path@.len() && any_namespace_matches(namespaces@, path@.subrange(0, dw));
            assert(false);
        }
    }
    Err(ResolveError::HasNoNamespace)
}

/// Once a match is found at depth `d` by namespace `i`, target `j`, with no
/// match at any greater depth, none in an earlier namespace at `d`, and none
/// at an earlier target of `i`, the resolver's answer is exactly `(i, j, d)`.
proof fn lemma_resolution_pins(nss: Seq<Namespace>, p: Seq<Seq<char>>, i: int, j: int, d: int)
    requires
        0 <= d < p.len(),
        0 <= i < nss.len(),
        0 <= j < nss[i].targets@.len(),
        nss[i].targets@[j]@ == p.subrange(0, d),
        forall|d2: int| d < d2 < p.len() ==> !any_namespace_matches(nss, p.subrange(0, d2)),
        forall|k: int| 0 <= k < i ==> !target_matches(nss[k], p.subrange(0, d)),
        forall|jj: int| 0 <= jj < j ==> nss[i].targets@[jj]@ != p.subrange(0, d),
    ensures
        resolve_spec(nss, p) == Some((i, j, d)),
        resolvable(nss, p),
{
    let anc = p.subrange(0, d);
    assert(target_matches(nss[i], anc));
    assert(any_namespace_matches(nss, anc));
    lemma_innermost_steps(nss, p, p.len() - 1, d);
    lemma_first_namespace_index(nss, anc);
    let f = first_namespace_index(nss, anc);
    assert(f <= i);
    assert(f >= i) by {
        if f < i {
            assert(!target_matches(nss[f], anc));
        }
    }
    lemma_first_target_index(nss[i].targets@, anc);
    let ft = first_target_index(nss[i].targets@, anc);
    assert(ft <= j) by {
        if ft > j {
            assert(nss[i].targets@[j]@ != anc);
        }
    }
    assert(ft >= j) by {
        if ft < j {
            assert(nss[i].targets@[ft]@ != anc);
        }
    }
}

/// When a match exists at depth `d` and none at any depth in `(d, hi]`, the
/// innermost match over `[0, hi]` is `d`.
proof fn lemma_innermost_steps(nss: Seq<Namespace>, p: Seq<Seq<char>>, hi: int, d: int)
    requires
        0 <= d <= hi,
        any_namespace_matches(nss, p.subrange(0, d)),
        forall|d2: int| d < d2 <= hi ==> !any_namespace_matches(nss, p.subrange(0, d2)),
    ensures
        innermost_match(nss, p, hi) == d,
    decreases hi - d,
{
    if hi == d {
    } else {
        lemma_innermost_steps(nss, p, hi - 1, d);
    }
}

} // verus!

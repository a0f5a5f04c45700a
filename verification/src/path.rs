//! Paths as sequences of components.
//!
//! The engine never compares raw path strings: a path is an ordered list of
//! components (no separators, no `.` / `..` markers), so prefix tests and
//! joins are plain sequence operations and cannot be confused by trailing
//! separators or platform-specific prefixes. Conversion between these values
//! and operating-system path strings happens at the boundary, outside this
//! crate, after canonicalization.

use vstd::prelude::*;

verus! {

/// A well-formed path component: non-empty, holds no separator, and is not a
/// relative marker, so joining components onto a root can never escape it.
pub open spec fn component_wf(c: Seq<char>) -> bool {
    &&& c.len() > 0
    &&& !c.contains('/')
    &&& c != "."@
    &&& c != ".."@
}

/// An absolute path: its components from the filesystem root down.
/// An empty component list denotes the root itself.
#[derive(Debug)]
pub struct AbsPath {
    pub parts: Vec<String>,
}

impl View for AbsPath {
    type V = Seq<Seq<char>>;

    open spec fn view(&self) -> Seq<Seq<char>> {
        Seq::new(self.parts@.len(), |i: int| self.parts@[i]@)
    }
}

impl AbsPath {
    pub open spec fn wf(&self) -> bool {
        forall|i: int| 0 <= i < self@.len() ==> component_wf(#[trigger] self@[i])
    }

    pub fn new(parts: Vec<String>) -> (r: AbsPath)
        ensures
            r.parts == parts,
    {
        AbsPath { parts }
    }

    /// An owned copy with the same components.
    pub fn duplicate(&self) -> (r: AbsPath)
        ensures
            r@ == self@,
    {
        let mut parts: Vec<String> = Vec::new();
        let n = self.parts.len();
        for i in 0..n
            invariant
                n == self.parts@.len(),
                parts@.len() == i,
                forall|k: int| 0 <= k < i ==> parts@[k]@ == self@[k],
            decreases n - i,
        {
            parts.push(self.parts[i].clone());
        }
        let r = AbsPath { parts };
        proof {
            assert(r@ =~= self@);
        }
        r
    }
}

/// A path relative to some root: the component suffix below it.
#[derive(Debug)]
pub struct RelPath {
    pub parts: Vec<String>,
}

impl View for RelPath {
    type V = Seq<Seq<char>>;

    open spec fn view(&self) -> Seq<Seq<char>> {
        Seq::new(self.parts@.len(), |i: int| self.parts@[i]@)
    }
}

impl RelPath {
    pub open spec fn wf(&self) -> bool {
        forall|i: int| 0 <= i < self@.len() ==> component_wf(#[trigger] self@[i])
    }

    pub fn new(parts: Vec<String>) -> (r: RelPath)
        ensures
            r.parts == parts,
    {
        RelPath { parts }
    }
}

/// The views of a list of absolute paths.
pub open spec fn abs_views(v: Seq<AbsPath>) -> Seq<Seq<Seq<char>>> {
    Seq::new(v.len(), |i: int| v[i]@)
}

/// The views of a list of relative paths.
pub open spec fn rel_views(v: Seq<RelPath>) -> Seq<Seq<Seq<char>>> {
    Seq::new(v.len(), |i: int| v[i]@)
}

/// True exactly when the two paths have the same components.
pub fn path_eq(a: &AbsPath, b: &AbsPath) -> (r: bool)
    ensures
        r == (a@ == b@),
{
    if a.parts.len() != b.parts.len() {
        assert(a@.len() != b@.len());
        return false;
    }
    let n = a.parts.len();
    for i in 0..n
        invariant
            n == a.parts@.len() == b.parts@.len(),
            forall|k: int| 0 <= k < i ==> a@[k] == b@[k],
    {
        if !a.parts[i].eq(&b.parts[i]) {
            assert(a@[i as int] != b@[i as int]);
            return false;
        }
    }
    proof {
        assert(a@ =~= b@);
    }
    true
}

/// True exactly when `root` is the prefix of `path` of length `d`.
pub fn matches_prefix_at(root: &AbsPath, path: &AbsPath, d: usize) -> (r: bool)
    requires
        d <= path@.len(),
    ensures
        r == (root@ == path@.subrange(0, d as int)),
{
    if root.parts.len() != d {
        assert(root@.len() != path@.subrange(0, d as int).len());
        return false;
    }
    for i in 0..d
        invariant
            d == root.parts@.len(),
            d <= path.parts@.len(),
            forall|k: int| 0 <= k < i ==> root@[k] == path@[k],
    {
        if !root.parts[i].eq(&path.parts[i]) {
            assert(root@[i as int] != path@.subrange(0, d as int)[i as int]);
            return false;
        }
    }
    proof {
        assert(root@ =~= path@.subrange(0, d as int));
    }
    true
}

/// Computes `path` relative to `root` by prefix stripping. Returns `None`,
/// not an error, when `path` does not lie under `root`: callers are expected
/// to check for that outcome.
pub fn strip_namespace(root: &AbsPath, path: &AbsPath) -> (r: Option<RelPath>)
    ensures
        r is Some <==> root@.is_prefix_of(path@),
        r matches Some(rel) ==> rel@ == path@.subrange(root@.len() as int, path@.len() as int),
        r matches Some(rel) ==> path@ == root@ + rel@,
        r matches Some(rel) ==> (path.wf() ==> rel.wf()),
{
    let rlen = root.parts.len();
    let plen = path.parts.len();
    if rlen > plen {
        assert(!root@.is_prefix_of(path@));
        return None;
    }
    if !matches_prefix_at(root, path, rlen) {
        assert(!root@.is_prefix_of(path@)) by {
            if root@.is_prefix_of(path@) {
                assert(root@ =~= path@.subrange(0, rlen as int));
            }
        }
        return None;
    }
    assert(root@.is_prefix_of(path@)) by {
        assert(root@ == path@.subrange(0, rlen as int));
    }
    let mut parts: Vec<String> = Vec::new();
    for i in rlen..plen
        invariant
            rlen <= plen == path.parts@.len(),
            parts@.len() == i - rlen,
            forall|k: int| 0 <= k < parts@.len() ==> parts@[k]@ == path@[rlen + k],
    {
        parts.push(path.parts[i].clone());
    }
    let rel = RelPath { parts };
    proof {
        assert(rel@ =~= path@.subrange(root@.len() as int, path@.len() as int));
        assert(path@ =~= root@ + rel@);
    }
    Some(rel)
}

/// Joins a relative suffix onto a root: plain concatenation of components.
/// Because well-formed components exclude `..` and `.`, the result can never
/// leave `root`.
pub fn join(root: &AbsPath, rel: &RelPath) -> (r: AbsPath)
    ensures
        r@ == root@ + rel@,
        root.wf() && rel.wf() ==> r.wf(),
{
    let mut parts: Vec<String> = Vec::new();
    let rlen = root.parts.len();
    for i in 0..rlen
        invariant
            rlen == root.parts@.len(),
            parts@.len() == i,
            forall|k: int| 0 <= k < i ==> parts@[k]@ == root@[k],
    {
        parts.push(root.parts[i].clone());
    }
    let slen = rel.parts.len();
    for i in 0..slen
        invariant
            rlen == root.parts@.len(),
            slen == rel.parts@.len(),
            parts@.len() == rlen + i,
            forall|k: int| 0 <= k < rlen ==> parts@[k]@ == root@[k],
            forall|k: int| 0 <= k < i ==> parts@[rlen + k]@ == rel@[k],
    {
        parts.push(rel.parts[i].clone());
    }
    let out = AbsPath { parts };
    proof {
        assert(out@ =~= root@ + rel@);
    }
    out
}

/// Stored-path / target-path duality, one direction: stripping a root off a
/// path under it and joining the suffix back on restores the path exactly.
pub proof fn lemma_strip_then_join(root: Seq<Seq<char>>, path: Seq<Seq<char>>)
    requires
        root.is_prefix_of(path),
    ensures
        root + path.subrange(root.len() as int, path.len() as int) == path,
{
    assert(root + path.subrange(root.len() as int, path.len() as int) =~= path);
}

/// Stored-path / target-path duality, the other direction: a suffix joined
/// onto a root lies under the root, and stripping the root recovers exactly
/// that suffix.
pub proof fn lemma_join_then_strip(root: Seq<Seq<char>>, rel: Seq<Seq<char>>)
    ensures
        root.is_prefix_of(root + rel),
        (root + rel).subrange(root.len() as int, (root + rel).len() as int) == rel,
{
    assert((root + rel).subrange(0, root.len() as int) =~= root);
    assert((root + rel).subrange(root.len() as int, (root + rel).len() as int) =~= rel);
}

} // verus!

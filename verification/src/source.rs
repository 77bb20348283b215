//! Byte-range sources: their failures, the containment of resolved paths
//! under the served root, and the bounds check every ranged read makes
//! before it touches storage.

use vstd::prelude::*;

verus! {

/// Why a source could not serve a read.
#[derive(Debug, Clone, PartialEq, Eq)]
pub enum SourceError {
    /// The identifier does not resolve to a readable object.
    NotFound,
    /// Any other storage failure, with its description.
    Io(String),
    /// The requested range does not lie inside the object.
    OutOfRange { offset: u64, len: u64, source_len: u64 },
}

/// The range `[offset, offset + len)` lies inside an object of
/// `source_len` bytes and its length fits an in-memory buffer.
pub open spec fn range_readable(offset: u64, len: u64, source_len: u64) -> bool {
    offset + len <= source_len && len <= usize::MAX
}

/// Check a ranged read against the object's length: the buffer length to
/// read, or `OutOfRange` carrying the request.
pub fn check_range(offset: u64, len: u64, source_len: u64) -> (r: Result<usize, SourceError>)
    ensures
        range_readable(offset, len, source_len) <==> r is Ok,
        r matches Ok(n) ==> n == len,
        r matches Err(e) ==> e == (SourceError::OutOfRange { offset, len, source_len }),
{
    let fits = match offset.checked_add(len) {
        None => false,
        Some(end) => end <= source_len,
    };
    if !fits {
        return Err(SourceError::OutOfRange { offset, len, source_len });
    }
    if len > usize::MAX as u64 {
        return Err(SourceError::OutOfRange { offset, len, source_len });
    }
    Ok(len as usize)
}

/// The canonical path `candidate`, as its components, lies under `root`:
/// the root's components are its leading components.
pub open spec fn within(root: Seq<Vec<u8>>, candidate: Seq<Vec<u8>>) -> bool {
    root.len() <= candidate.len() && forall|i: int| 0 <= i < root.len() ==> candidate[i]@ == root[i]@
}

fn same_bytes(a: &Vec<u8>, b: &Vec<u8>) -> (r: bool)
    ensures
        r == (a@ == b@),
{
    if a.len() != b.len() {
        return false;
    }
    let mut i: usize = 0;
    while i < a.len()
        invariant
            a@.len() == b@.len(),
            i <= a@.len(),
            forall|j: int| 0 <= j < i ==> a@[j] == b@[j],
        decreases a@.len() - i,
    {
        if a[i] != b[i] {
            return false;
        }
        i += 1;
    }
    assert(a@ =~= b@);
    true
}

/// Whether the canonical path `candidate` lies under the canonical `root`,
/// both given as their components (the root directory is a component of
/// its own), compared component by component.
pub fn within_root(root: &Vec<Vec<u8>>, candidate: &Vec<Vec<u8>>) -> (r: bool)
    ensures
        r == within(root@, candidate@),
{
    if root.len() > candidate.len() {
        return false;
    }
    let mut i: usize = 0;
    while i < root.len()
        invariant
            root@.len() <= candidate@.len(),
            i <= root@.len(),
            forall|j: int| 0 <= j < i ==> candidate@[j]@ == root@[j]@,
        decreases root@.len() - i,
    {
        if !same_bytes(&candidate[i], &root[i]) {
            return false;
        }
        i += 1;
    }
    true
}

/// The containment decision of identifier resolution: a canonicalized
/// path is served only when it lies under the root; one that escapes it
/// (a symlink pointing outside the tree) is answered as not found, and a
/// failure to canonicalize is passed on.
pub fn resolution(root: &Vec<Vec<u8>>, canonical: Result<Vec<Vec<u8>>, SourceError>) -> (r: Result<
    Vec<Vec<u8>>,
    SourceError,
>)
    ensures
        canonical matches Err(e) ==> r == Err::<Vec<Vec<u8>>, SourceError>(e),
        canonical matches Ok(c) ==> (if within(root@, c@) {
            r matches Ok(p) && p@ == c@
        } else {
            r == Err::<Vec<Vec<u8>>, SourceError>(SourceError::NotFound)
        }),
{
    match canonical {
        Err(e) => Err(e),
        Ok(c) => if within_root(root, &c) {
            Ok(c)
        } else {
            Err(SourceError::NotFound)
        },
    }
}

/// The served root: its canonical path, as components. Identifiers
/// resolve against it, and only paths under it are served.
#[derive(Debug, Clone, PartialEq, Eq)]
pub struct LocalRoot {
    root: Vec<Vec<u8>>,
}

impl LocalRoot {
    /// The root's canonical path, as components.
    pub closed spec fn components(self) -> Seq<Vec<u8>> {
        self.root@
    }

    /// A root at the canonical path whose components are `canonical_root`.
    pub fn new(canonical_root: Vec<Vec<u8>>) -> (r: Self)
        ensures
            r.components() == canonical_root@,
    {
        LocalRoot { root: canonical_root }
    }

    /// The root's components.
    pub fn path(&self) -> (r: &Vec<Vec<u8>>)
        ensures
            r@ == self.components(),
    {
        &self.root
    }

    /// Decide on the canonical form of `root/identifier` (see
    /// [`resolution`]).
    pub fn resolve(&self, canonical: Result<Vec<Vec<u8>>, SourceError>) -> (r: Result<Vec<Vec<u8>>, SourceError>)
        ensures
            canonical matches Err(e) ==> r == Err::<Vec<Vec<u8>>, SourceError>(e),
            canonical matches Ok(c) ==> (if within(self.components(), c@) {
                r matches Ok(p) && p@ == c@
            } else {
                r == Err::<Vec<Vec<u8>>, SourceError>(SourceError::NotFound)
            }),
    {
        resolution(&self.root, canonical)
    }
}

} // verus!

//! Host paths as byte strings, and their classification around the `.zip` component that
//! turns an archive into a directory.

use vstd::prelude::*;
use vstd::utf8::valid_utf8;

verus! {

pub const SLASH: u8 = 47;

/// The bytes of ".zip".
pub open spec fn zip_suffix() -> Seq<u8> {
    seq![46u8, 122u8, 105u8, 112u8]
}

/// `name` ends in ".zip" (case-sensitive).
pub open spec fn has_zip_suffix(name: Seq<u8>) -> bool {
    name.len() >= 4 && name.subrange(name.len() - 4, name.len() as int) == zip_suffix()
}

/// Where the path component that ends at byte position `e` of `p` starts: just after the
/// last '/' before `e`, or 0.
pub open spec fn component_start(p: Seq<u8>, e: int) -> int
    decreases e,
{
    if e <= 0 || e > p.len() {
        0
    } else if p[e - 1] == SLASH {
        e
    } else {
        component_start(p, e - 1)
    }
}

/// A path component of `p` that is a string (valid UTF-8) ending in ".zip" ends at byte
/// position `e`. Components that are not valid UTF-8 never count.
pub open spec fn zip_component_end(p: Seq<u8>, e: int) -> bool {
    &&& 4 <= e <= p.len()
    &&& e == p.len() || p[e] == SLASH
    &&& has_zip_suffix(p.subrange(0, e))
    &&& valid_utf8(p.subrange(component_start(p, e), e))
}

/// Relies on std::str::from_utf8: it succeeds exactly when the bytes are valid UTF-8.
#[verifier::external_body]
fn is_utf8(b: &[u8]) -> (r: bool)
    ensures
        r == valid_utf8(b@),
{
    std::str::from_utf8(b).is_ok()
}

/// Where the component of `p` that ends at `e` starts.
fn find_component_start(p: &[u8], e: usize) -> (r: usize)
    requires
        e <= p@.len(),
    ensures
        r == component_start(p@, e as int),
        r <= e,
{
    let mut j: usize = e;
    while j > 0 && p[j - 1] != SLASH
        invariant
            j <= e <= p@.len(),
            component_start(p@, e as int) == component_start(p@, j as int),
        decreases j,
    {
        j = j - 1;
    }
    j
}

/// The end of the last ".zip" component of `p` at or before `e`, or -1 when there is none.
pub open spec fn pivot_upto(p: Seq<u8>, e: int) -> int
    decreases e,
{
    if e < 4 || e > p.len() {
        -1
    } else if zip_component_end(p, e) {
        e
    } else {
        pivot_upto(p, e - 1)
    }
}

/// The end of the ".zip" component nearest to the leaf of `p`, or -1.
pub open spec fn pivot(p: Seq<u8>) -> int {
    pivot_upto(p, p.len() as int)
}

/// Where a host path leads.
#[derive(Debug, PartialEq, Eq)]
pub enum Classification {
    /// No component ends in ".zip": a plain host file or directory.
    Passthrough { host: Vec<u8> },
    /// The path ends at an archive, which is shown as a directory.
    ArchiveRoot { archive: Vec<u8> },
    /// The path goes on inside an archive; `inner` is the rest, without a leading '/'.
    InArchive { archive: Vec<u8>, inner: Vec<u8> },
}

/// The classification of `p`, as views.
pub open spec fn classify_spec(p: Seq<u8>) -> (Seq<u8>, Option<Seq<u8>>) {
    let q = pivot(p);
    if q < 0 {
        (p, None)
    } else if q == p.len() {
        (p, Some(Seq::<u8>::empty()))
    } else {
        (p.subrange(0, q), Some(p.subrange(q + 1, p.len() as int)))
    }
}

impl Classification {
    /// The host path named, and the path inside the archive if there is one.
    pub open spec fn view_parts(&self) -> (Seq<u8>, Option<Seq<u8>>) {
        match self {
            Classification::Passthrough { host } => (host@, None),
            Classification::ArchiveRoot { archive } => (archive@, Some(Seq::<u8>::empty())),
            Classification::InArchive { archive, inner } => (archive@, Some(inner@)),
        }
    }
}

proof fn lemma_pivot_upto(p: Seq<u8>, e: int)
    ensures
        e <= p.len() ==> forall|k: int| pivot_upto(p, e) < k <= e ==> !zip_component_end(p, k),
        pivot_upto(p, e) >= 0 ==> zip_component_end(p, pivot_upto(p, e)),
        pivot_upto(p, e) >= 0 ==> pivot_upto(p, e) >= 4,
        pivot_upto(p, e) == -1 || pivot_upto(p, e) >= 4,
    decreases e,
{
    if e >= 4 && e <= p.len() && !zip_component_end(p, e) {
        lemma_pivot_upto(p, e - 1);
    }
}

/// The bytes `p[a..b]` as a new vector.
pub fn copy_range(p: &[u8], a: usize, b: usize) -> (r: Vec<u8>)
    requires
        a <= b <= p@.len(),
    ensures
        r@ == p@.subrange(a as int, b as int),
{
    let mut r: Vec<u8> = Vec::new();
    let mut i: usize = a;
    while i < b
        invariant
            a <= i <= b <= p@.len(),
            r@ == p@.subrange(a as int, i as int),
        decreases b - i,
    {
        r.push(p[i]);
        i = i + 1;
        assert(r@ =~= p@.subrange(a as int, i as int));
    }
    r
}

/// Whether `name` ends in ".zip".
pub fn is_zip_name(name: &[u8]) -> (r: bool)
    ensures
        r == has_zip_suffix(name@),
{
    let n = name.len();
    if n < 4 {
        return false;
    }
    let r = name[n - 4] == 46u8 && name[n - 3] == 122u8 && name[n - 2] == 105u8 && name[n - 1] == 112u8;
    proof {
        let t = name@.subrange(n - 4, n as int);
        if r {
            assert(t =~= zip_suffix());
        } else {
            if t == zip_suffix() {
                assert(t[0] == 46u8 && t[1] == 122u8 && t[2] == 105u8 && t[3] == 112u8);
            }
        }
    }
    r
}

/// Splits a host path at the ".zip" component nearest to its leaf: the archive's path and
/// the path inside it. `None` when no component ends in ".zip".
pub fn get_zip_paths(p: &[u8]) -> (r: Option<(Vec<u8>, Vec<u8>)>)
    ensures
        pivot(p@) < 0 <==> r.is_none(),
        pivot(p@) < 0 <==> forall|e: int| !zip_component_end(p@, e),
        pivot(p@) >= 0 ==> zip_component_end(p@, pivot(p@)),
        forall|e: int| pivot(p@) < e ==> !zip_component_end(p@, e),
        r matches Some((a, f)) ==> classify_spec(p@) == (a@, Some(f@)),
{
    let n = p.len();
    proof {
        lemma_pivot_upto(p@, n as int);
        assert forall|k: int| pivot(p@) < k implies !zip_component_end(p@, k) by {
            if k <= n {
                assert(pivot_upto(p@, n as int) < k <= n);
            }
        }
    }
    let mut e: usize = n;
    while e >= 4
        invariant
            e <= n == p@.len(),
            pivot(p@) == pivot_upto(p@, e as int),
            forall|k: int| pivot(p@) < k ==> !zip_component_end(p@, k),
        decreases e,
    {
        let at_end = e == n || p[e] == SLASH;
        let pre = copy_range(p, 0, e);
        if at_end && is_zip_name(pre.as_slice()) && is_utf8(
            copy_range(p, find_component_start(p, e), e).as_slice(),
        ) {
            proof {
                assert(zip_component_end(p@, e as int));
            }
            let archive = pre;
            let inner = if e == n { Vec::new() } else { copy_range(p, e + 1, n) };
            proof {
                if e == n {
                    assert(inner@ =~= Seq::<u8>::empty());
                }
            }
            return Some((archive, inner));
        }
        proof {
            assert(!zip_component_end(p@, e as int));
        }
        e = e - 1;
    }
    proof {
        lemma_pivot_upto(p@, e as int);
        lemma_pivot_upto(p@, n as int);
    }
    None
}

/// Classifies a host path: a plain host entry, an archive shown as a directory, or a path
/// inside an archive.
pub fn classify(p: &[u8]) -> (r: Classification)
    ensures
        r.view_parts() == classify_spec(p@),
        r matches Classification::InArchive { inner, .. } ==> inner@.len() > 0 || pivot(p@) + 1 == p@.len(),
{
    match get_zip_paths(p) {
        None => {
            let host = copy_range(p, 0, p.len());
            assert(host@ =~= p@);
            Classification::Passthrough { host }
        },
        Some((archive, inner)) => {
            proof {
                lemma_pivot_upto(p@, p@.len() as int);
            }
            if inner.len() == 0 && archive.len() == p.len() {
                proof {
                    assert(archive@ =~= p@);
                }
                Classification::ArchiveRoot { archive }
            } else {
                Classification::InArchive { archive, inner }
            }
        },
    }
}

/// The path of the entry `name` in the directory `parent`: the two joined by one '/',
/// unless `parent` is empty or already ends in '/'.
pub open spec fn join_spec(parent: Seq<u8>, name: Seq<u8>) -> Seq<u8> {
    if parent.len() == 0 || parent.last() == SLASH {
        parent + name
    } else {
        parent.push(SLASH) + name
    }
}

/// Joins a directory path and an entry name.
pub fn join(parent: &[u8], name: &[u8]) -> (r: Vec<u8>)
    ensures
        r@ == join_spec(parent@, name@),
{
    let mut r = copy_range(parent, 0, parent.len());
    assert(r@ =~= parent@);
    let n = parent.len();
    if n > 0 && parent[n - 1] != SLASH {
        r.push(SLASH);
    }
    let ghost base = r@;
    let mut i: usize = 0;
    while i < name.len()
        invariant
            i <= name@.len(),
            r@ == base + name@.subrange(0, i as int),
        decreases name@.len() - i,
    {
        r.push(name[i]);
        i = i + 1;
        assert(r@ =~= base + name@.subrange(0, i as int));
    }
    assert(name@.subrange(0, name@.len() as int) =~= name@);
    r
}

/// The bytes of `a` followed by those of `b`.
pub fn concat(a: &[u8], b: &[u8]) -> (r: Vec<u8>)
    ensures
        r@ == a@ + b@,
{
    let mut r = copy_range(a, 0, a.len());
    assert(r@ =~= a@);
    let mut i: usize = 0;
    while i < b.len()
        invariant
            i <= b@.len(),
            r@ == a@ + b@.subrange(0, i as int),
        decreases b@.len() - i,
    {
        r.push(b[i]);
        i = i + 1;
        assert(r@ =~= a@ + b@.subrange(0, i as int));
    }
    assert(b@.subrange(0, b@.len() as int) =~= b@);
    r
}

} // verus!

//! The member table of a parsed archive, and what the filesystem derives from it: the
//! entries of a directory inside the archive, the kind of a member, and where to read a
//! byte range of a member.

use crate::attr::FileKind;
use crate::error::FsError;
use crate::path::SLASH;
use vstd::prelude::*;

verus! {

/// What the filesystem needs of a readable member.
#[derive(Clone, Copy, Debug, PartialEq, Eq, Structural)]
pub struct MemberInfo {
    /// The member is a directory marker.
    pub is_dir: bool,
    /// The member is stored without compression, so its bytes can be read in place.
    pub stored: bool,
    /// The uncompressed size.
    pub size: u64,
    /// Where the member's data starts in the archive file.
    pub data_start: u64,
}

/// A member of an archive: its full name inside the archive, and its description when the
/// member can be read (it is `None` for an encrypted or otherwise unreadable member).
#[derive(Debug)]
pub struct Member {
    pub name: Vec<u8>,
    pub info: Option<MemberInfo>,
}

/// The members of an archive, in the order of its central directory.
#[derive(Debug)]
pub struct ArchiveIndex {
    pub members: Vec<Member>,
}

/// The views of a sequence of byte vectors.
pub open spec fn views(v: Seq<Vec<u8>>) -> Seq<Seq<u8>> {
    v.map_values(|x: Vec<u8>| x@)
}

/// The position of the first occurrence of `name` in `names`, or -1.
pub open spec fn find_name(names: Seq<Seq<u8>>, name: Seq<u8>) -> int
    decreases names.len(),
{
    if names.len() == 0 {
        -1
    } else if names[0] == name {
        0
    } else {
        let r = find_name(names.drop_first(), name);
        if r < 0 {
            -1
        } else {
            r + 1
        }
    }
}

proof fn lemma_find_name(names: Seq<Seq<u8>>, name: Seq<u8>, i: int)
    requires
        0 <= i <= names.len(),
        forall|j: int| 0 <= j < i ==> names[j] != name,
    ensures
        i < names.len() && names[i] == name ==> find_name(names, name) == i,
        i == names.len() ==> find_name(names, name) == -1,
    decreases i,
{
    if i > 0 {
        let t = names.drop_first();
        assert forall|j: int| 0 <= j < i - 1 implies t[j] != name by {
            assert(t[j] == names[j + 1]);
        }
        lemma_find_name(t, name, i - 1);
        if i < names.len() {
            assert(t[i - 1] == names[i]);
        }
    }
}

/// A directory's prefix inside an archive: the inner path followed by '/', without a
/// leading '/'. It is empty at the archive's root.
pub open spec fn dir_prefix(inner: Seq<u8>) -> Seq<u8> {
    let s = inner.push(SLASH);
    if s[0] == SLASH {
        s.drop_first()
    } else {
        s
    }
}

/// The length of `s` up to its first '/'.
pub open spec fn first_slash(s: Seq<u8>) -> int
    decreases s.len(),
{
    if s.len() == 0 || s[0] == SLASH {
        0
    } else {
        1 + first_slash(s.drop_first())
    }
}

/// The immediate child of the directory `prefix` that the member `name` lies in or is, if
/// `name` lies under `prefix` and the child's name is not empty.
pub open spec fn child_of(name: Seq<u8>, prefix: Seq<u8>) -> Option<Seq<u8>> {
    if prefix.len() <= name.len() && name.subrange(0, prefix.len() as int) == prefix {
        let rest = name.subrange(prefix.len() as int, name.len() as int);
        let c = rest.subrange(0, first_slash(rest));
        if c.len() > 0 {
            Some(c)
        } else {
            None
        }
    } else {
        None
    }
}

/// The children of `prefix`, one for each member under it, in member order.
pub open spec fn raw_children(names: Seq<Seq<u8>>, prefix: Seq<u8>) -> Seq<Seq<u8>>
    decreases names.len(),
{
    if names.len() == 0 {
        Seq::empty()
    } else {
        let r = raw_children(names.drop_last(), prefix);
        match child_of(names.last(), prefix) {
            Some(c) => r.push(c),
            None => r,
        }
    }
}

/// `s` with each run of equal neighbours kept once.
pub open spec fn dedup(s: Seq<Seq<u8>>) -> Seq<Seq<u8>>
    decreases s.len(),
{
    if s.len() <= 1 {
        s
    } else {
        let d = dedup(s.drop_last());
        if s.last() == s[s.len() - 2] {
            d
        } else {
            d.push(s.last())
        }
    }
}

pub open spec fn has_len(l: nat) -> spec_fn(Seq<u8>) -> bool {
    |x: Seq<u8>| x.len() == l
}

/// The longest length in `s` (0 when empty).
pub open spec fn max_len(s: Seq<Seq<u8>>) -> nat
    decreases s.len(),
{
    if s.len() == 0 {
        0
    } else {
        let m = max_len(s.drop_last());
        if s.last().len() > m {
            s.last().len()
        } else {
            m
        }
    }
}

/// The elements of `s` of lengths below `h`: first those of length 0, then those of
/// length 1, and so on, each group in the order of `s`.
pub open spec fn len_buckets(s: Seq<Seq<u8>>, h: nat) -> Seq<Seq<u8>>
    decreases h,
{
    if h == 0 {
        Seq::empty()
    } else {
        len_buckets(s, (h - 1) as nat) + s.filter(has_len((h - 1) as nat))
    }
}

/// `s` sorted by length, stably.
pub open spec fn sort_by_len(s: Seq<Seq<u8>>) -> Seq<Seq<u8>> {
    len_buckets(s, max_len(s) + 1)
}

/// The names listed for the directory `inner` of an archive whose members are `names`.
pub open spec fn child_names_spec(names: Seq<Seq<u8>>, inner: Seq<u8>) -> Seq<Seq<u8>> {
    sort_by_len(dedup(raw_children(names, dir_prefix(inner))))
}

impl ArchiveIndex {
    pub open spec fn names(&self) -> Seq<Seq<u8>> {
        self.members@.map_values(|m: Member| m.name@)
    }

    /// The description of the member that a lookup of `name` finds, if it can be read.
    pub open spec fn lookup_spec(&self, name: Seq<u8>) -> Option<(int, MemberInfo)> {
        let i = find_name(self.names(), name);
        if i < 0 {
            None
        } else {
            match self.members@[i].info {
                Some(info) => Some((i, info)),
                None => None,
            }
        }
    }

    /// The kind shown for the path `name` inside the archive: a file only when a readable
    /// member of that name is a file. Names that are missing, unreadable or directory
    /// markers are shown as directories.
    pub open spec fn kind_spec(&self, name: Seq<u8>) -> FileKind {
        match self.lookup_spec(name) {
            Some((_, info)) => if info.is_dir {
                FileKind::Directory
            } else {
                FileKind::RegularFile
            },
            None => FileKind::Directory,
        }
    }
}

/// Whether two byte strings are equal.
pub fn bytes_eq(a: &[u8], b: &[u8]) -> (r: bool)
    ensures
        r == (a@ == b@),
{
    if a.len() != b.len() {
        return false;
    }
    let mut i: usize = 0;
    while i < a.len()
        invariant
            a@.len() == b@.len(),
            i <= a@.len(),
            forall|j: int| 0 <= j < i ==> a@[j] == b@[j],
        decreases a@.len() - i,
    {
        if a[i] != b[i] {
            return false;
        }
        i = i + 1;
    }
    assert(a@ =~= b@);
    true
}

fn clone_bytes(v: &Vec<u8>) -> (r: Vec<u8>)
    ensures
        r@ == v@,
{
    let mut r: Vec<u8> = Vec::new();
    let mut i: usize = 0;
    while i < v.len()
        invariant
            i <= v@.len(),
            r@ == v@.subrange(0, i as int),
        decreases v@.len() - i,
    {
        r.push(v[i]);
        i = i + 1;
        assert(r@ =~= v@.subrange(0, i as int));
    }
    assert(v@.subrange(0, v@.len() as int) =~= v@);
    r
}

/// The prefix of the directory `inner` inside an archive.
pub fn make_dir_prefix(inner: &[u8]) -> (r: Vec<u8>)
    ensures
        r@ == dir_prefix(inner@),
{
    let mut r: Vec<u8> = Vec::new();
    if inner.len() == 0 {
        proof {
            assert(inner@.push(SLASH).drop_first() =~= r@);
        }
        return r;
    }
    let mut i: usize = if inner[0] == SLASH { 1 } else { 0 };
    let start = i;
    while i < inner.len()
        invariant
            start <= i <= inner@.len(),
            start == 0 || start == 1,
            r@ == inner@.subrange(start as int, i as int),
        decreases inner@.len() - i,
    {
        r.push(inner[i]);
        i = i + 1;
        assert(r@ =~= inner@.subrange(start as int, i as int));
    }
    r.push(SLASH);
    proof {
        let s = inner@.push(SLASH);
        if start == 1 {
            assert(r@ =~= s.drop_first());
        } else {
            assert(r@ =~= s);
        }
    }
    r
}

proof fn lemma_first_slash(s: Seq<u8>, k: int)
    requires
        0 <= k <= s.len(),
        forall|j: int| 0 <= j < k ==> s[j] != SLASH,
        k == s.len() || s[k] == SLASH,
    ensures
        first_slash(s) == k,
    decreases k,
{
    if k > 0 {
        let t = s.drop_first();
        assert forall|j: int| 0 <= j < k - 1 implies t[j] != SLASH by {
            assert(t[j] == s[j + 1]);
        }
        if k < s.len() {
            assert(t[k - 1] == s[k]);
        }
        lemma_first_slash(t, k - 1);
    }
}

/// The child of `prefix` that the member `name` gives, if any.
pub fn child_of_name(name: &[u8], prefix: &[u8]) -> (r: Option<Vec<u8>>)
    ensures
        match r {
            Some(c) => child_of(name@, prefix@) == Some(c@),
            None => child_of(name@, prefix@).is_none(),
        },
{
    let p = prefix.len();
    if p > name.len() {
        return None;
    }
    let mut i: usize = 0;
    while i < p
        invariant
            p == prefix@.len() <= name@.len(),
            i <= p,
            forall|j: int| 0 <= j < i ==> name@[j] == prefix@[j],
        decreases p - i,
    {
        if name[i] != prefix[i] {
            proof {
                assert(name@.subrange(0, p as int)[i as int] != prefix@[i as int]);
            }
            return None;
        }
        i = i + 1;
    }
    assert(name@.subrange(0, p as int) =~= prefix@);
    let ghost rest = name@.subrange(p as int, name@.len() as int);
    let mut c: Vec<u8> = Vec::new();
    let mut k: usize = p;
    while k < name.len() && name[k] != SLASH
        invariant
            p <= k <= name@.len(),
            rest == name@.subrange(p as int, name@.len() as int),
            c@ == rest.subrange(0, k - p),
            forall|j: int| 0 <= j < k - p ==> rest[j] != SLASH,
        decreases name@.len() - k,
    {
        c.push(name[k]);
        k = k + 1;
        assert(c@ =~= rest.subrange(0, k - p));
    }
    proof {
        lemma_first_slash(rest, k - p);
    }
    if c.len() > 0 {
        Some(c)
    } else {
        None
    }
}

proof fn lemma_dedup_last(s: Seq<Seq<u8>>)
    requires
        s.len() > 0,
    ensures
        dedup(s).len() > 0,
        dedup(s).last() == s.last(),
    decreases s.len(),
{
    if s.len() > 1 {
        lemma_dedup_last(s.drop_last());
    }
}

/// `s` with each run of equal neighbours kept once.
pub fn dedup_names(s: &Vec<Vec<u8>>) -> (r: Vec<Vec<u8>>)
    ensures
        views(r@) == dedup(views(s@)),
{
    let ghost t = views(s@);
    let mut r: Vec<Vec<u8>> = Vec::new();
    let mut i: usize = 0;
    while i < s.len()
        invariant
            i <= s@.len(),
            t == views(s@),
            views(r@) == dedup(t.subrange(0, i as int)),
        decreases s@.len() - i,
    {
        let ghost before = t.subrange(0, i as int);
        let ghost after = t.subrange(0, i as int + 1);
        assert(after.drop_last() =~= before);
        let keep = if r.len() == 0 {
            true
        } else {
            !bytes_eq(r[r.len() - 1].as_slice(), s[i].as_slice())
        };
        proof {
            if i > 0 {
                lemma_dedup_last(before);
                assert(views(r@).last() == r@[r@.len() - 1]@);
                assert(before.last() == after[i - 1]);
            } else {
                assert(dedup(before).len() == 0);
            }
        }
        if keep {
            r.push(clone_bytes(&s[i]));
            assert(views(r@) =~= dedup(before).push(t[i as int]));
        }
        proof {
            if i == 0 {
                assert(views(r@) =~= after);
            }
        }
        i = i + 1;
    }
    assert(t.subrange(0, s@.len() as int) =~= t);
    r
}

/// `s` sorted by length, stably: equal lengths keep their order.
pub fn sort_names_by_len(s: &Vec<Vec<u8>>) -> (r: Vec<Vec<u8>>)
    ensures
        views(r@) == sort_by_len(views(s@)),
{
    let ghost t = views(s@);
    let mut m: usize = 0;
    let mut i: usize = 0;
    while i < s.len()
        invariant
            i <= s@.len(),
            t == views(s@),
            m == max_len(t.subrange(0, i as int)),
        decreases s@.len() - i,
    {
        assert(t.subrange(0, i as int + 1).drop_last() =~= t.subrange(0, i as int));
        if s[i].len() > m {
            m = s[i].len();
        }
        i = i + 1;
    }
    assert(t.subrange(0, s@.len() as int) =~= t);
    let mut r: Vec<Vec<u8>> = Vec::new();
    let mut l: usize = 0;
    let mut done = false;
    while !done
        invariant
            t == views(s@),
            m == max_len(t),
            l <= m,
            !done ==> views(r@) == len_buckets(t, l as nat),
            done ==> views(r@) == len_buckets(t, (m + 1) as nat),
        decreases m - l + if done { 0int } else { 1int },
    {
        let ghost base = views(r@);
        let mut j: usize = 0;
        while j < s.len()
            invariant
                j <= s@.len(),
                t == views(s@),
                views(r@) == base + t.subrange(0, j as int).filter(has_len(l as nat)),
            decreases s@.len() - j,
        {
            let ghost pre = t.subrange(0, j as int);
            let ghost post = t.subrange(0, j as int + 1);
            assert(post.drop_last() =~= pre);
            assert(post.last() == s@[j as int]@);
            reveal(Seq::filter);
            assert(post.filter(has_len(l as nat)) == (if has_len(l as nat)(post.last()) {
                pre.filter(has_len(l as nat)).push(post.last())
            } else {
                pre.filter(has_len(l as nat))
            }));
            if s[j].len() == l {
                let ghost before = views(r@);
                r.push(clone_bytes(&s[j]));
                assert(views(r@) =~= before.push(post.last()));
                assert(views(r@) =~= base + post.filter(has_len(l as nat)));
            } else {
                assert(views(r@) =~= base + post.filter(has_len(l as nat)));
            }
            j = j + 1;
        }
        assert(t.subrange(0, s@.len() as int) =~= t);
        assert(views(r@) == len_buckets(t, (l + 1) as nat));
        if l == m {
            done = true;
        } else {
            l = l + 1;
        }
    }
    r
}

impl ArchiveIndex {
    /// Finds the member named `name`: its position and description, when the first member of
    /// that name can be read.
    pub fn lookup(&self, name: &[u8]) -> (r: Option<(usize, MemberInfo)>)
        ensures
            match r {
                Some((i, info)) => self.lookup_spec(name@) == Some((i as int, info)),
                None => self.lookup_spec(name@).is_none(),
            },
    {
        let ghost names = self.names();
        let mut i: usize = 0;
        while i < self.members.len()
            invariant
                i <= self.members@.len(),
                names == self.names(),
                forall|j: int| 0 <= j < i ==> names[j] != name@,
            decreases self.members@.len() - i,
        {
            if bytes_eq(self.members[i].name.as_slice(), name) {
                proof {
                    lemma_find_name(names, name@, i as int);
                }
                return match self.members[i].info {
                    Some(info) => Some((i, info)),
                    None => None,
                };
            }
            i = i + 1;
        }
        proof {
            lemma_find_name(names, name@, i as int);
        }
        None
    }

    /// The kind shown for the path `name` inside this archive.
    pub fn kind_of(&self, name: &[u8]) -> (r: FileKind)
        ensures
            r == self.kind_spec(name@),
    {
        match self.lookup(name) {
            Some((_, info)) => if info.is_dir {
                FileKind::Directory
            } else {
                FileKind::RegularFile
            },
            None => FileKind::Directory,
        }
    }

    /// The names of the entries of the directory `inner` of this archive: the immediate
    /// children of every member under it, neighbours that repeat kept once, sorted stably by
    /// length.
    pub fn child_names(&self, inner: &[u8]) -> (r: Vec<Vec<u8>>)
        ensures
            views(r@) == child_names_spec(self.names(), inner@),
    {
        let prefix = make_dir_prefix(inner);
        let ghost names = self.names();
        let mut raw: Vec<Vec<u8>> = Vec::new();
        let mut i: usize = 0;
        while i < self.members.len()
            invariant
                i <= self.members@.len(),
                names == self.names(),
                views(raw@) == raw_children(names.subrange(0, i as int), prefix@),
            decreases self.members@.len() - i,
        {
            assert(names.subrange(0, i as int + 1).drop_last() =~= names.subrange(0, i as int));
            assert(names[i as int] == self.members@[i as int].name@);
            match child_of_name(self.members[i].name.as_slice(), prefix.as_slice()) {
                Some(c) => {
                    raw.push(c);
                    assert(views(raw@) =~= raw_children(names.subrange(0, i as int), prefix@).push(c@));
                },
                None => {},
            }
            i = i + 1;
        }
        assert(names.subrange(0, self.members@.len() as int) =~= names);
        let unique = dedup_names(&raw);
        sort_names_by_len(&unique)
    }
}

/// What reading a byte range of a member takes.
#[derive(Clone, Copy, Debug, PartialEq, Eq, Structural)]
pub enum ReadPlan {
    /// Nothing: the range starts at or past the member's end, or asks for no bytes.
    Empty,
    /// Read exactly `len` bytes of the archive file from `pos`.
    Stored { pos: u64, len: usize },
    /// Decompress member `index` from its start, drop `skip` bytes and keep the next `take`.
    Decode { index: usize, skip: u64, take: usize },
}

/// How many bytes a read of `want` bytes from `offset` gives of a member of `size` bytes.
pub open spec fn read_len(size: u64, offset: u64, want: u32) -> nat {
    if offset >= size {
        0
    } else if (want as int) < size - offset {
        want as nat
    } else {
        (size - offset) as nat
    }
}

/// The plan for reading `want` bytes from `offset` of the member at position `index`.
pub open spec fn plan_spec(index: int, info: MemberInfo, offset: u64, want: u32) -> Result<ReadPlan, FsError> {
    let n = read_len(info.size, offset, want);
    if n == 0 {
        Ok(ReadPlan::Empty)
    } else if !info.stored {
        Ok(ReadPlan::Decode { index: index as usize, skip: offset, take: n as usize })
    } else if info.data_start + offset > u64::MAX {
        Err(FsError::Overflow)
    } else {
        Ok(ReadPlan::Stored { pos: (info.data_start + offset) as u64, len: n as usize })
    }
}

/// The bytes of `data` from position `skip` on, at most `take` of them.
pub open spec fn window_spec(data: Seq<u8>, skip: int, take: int) -> Seq<u8> {
    let a = if skip < data.len() { skip } else { data.len() as int };
    let b = if skip + take < data.len() { skip + take } else { data.len() as int };
    data.subrange(a, b)
}

/// The bytes of `data` from position `skip` on, at most `take` of them: what a read of
/// `take` bytes at offset `skip` returns from content `data`.
pub fn window(data: &[u8], skip: u64, take: usize) -> (r: Vec<u8>)
    ensures
        r@ == window_spec(data@, skip as int, take as int),
{
    let n = data.len();
    let a: usize = if (skip as u128) < (n as u128) { skip as usize } else { n };
    let b: usize = if (a as u128) + (take as u128) < (n as u128) { a + take } else { n };
    let mut r: Vec<u8> = Vec::new();
    let mut i: usize = a;
    while i < b
        invariant
            a <= i <= b <= n == data@.len(),
            r@ == data@.subrange(a as int, i as int),
        decreases b - i,
    {
        r.push(data[i]);
        i = i + 1;
        assert(r@ =~= data@.subrange(a as int, i as int));
    }
    r
}

impl ArchiveIndex {
    /// Plans a read of `want` bytes from `offset` of the member named `name`. A member that is
    /// missing or cannot be read is not found.
    pub fn plan_read(&self, name: &[u8], offset: u64, want: u32) -> (r: Result<ReadPlan, FsError>)
        ensures
            match self.lookup_spec(name@) {
                None => r == Err::<ReadPlan, FsError>(FsError::NotFound),
                Some((i, info)) => r == plan_spec(i, info, offset, want),
            },
    {
        match self.lookup(name) {
            None => Err(FsError::NotFound),
            Some((i, info)) => {
                let n: u64 = if offset >= info.size {
                    0
                } else if (want as u64) < info.size - offset {
                    want as u64
                } else {
                    info.size - offset
                };
                if n == 0 {
                    Ok(ReadPlan::Empty)
                } else if !info.stored {
                    Ok(ReadPlan::Decode { index: i, skip: offset, take: n as usize })
                } else {
                    match info.data_start.checked_add(offset) {
                        None => Err(FsError::Overflow),
                        Some(pos) => Ok(ReadPlan::Stored { pos, len: n as usize }),
                    }
                }
            },
        }
    }
}

} // verus!

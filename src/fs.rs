//! The filesystem's state and its decisions: which inode names which host path, which
//! archives are cached, and what each request returns. Host I/O is left to the caller: it
//! hands in what the host reported, and carries out the reads that a plan names.

use crate::archive::{child_names_spec, dir_prefix, make_dir_prefix, plan_spec, views, ArchiveIndex, ReadPlan};
use crate::attr::{
    attr_of, dir_attr, dir_attr_spec, member_file_attr, member_file_attr_spec,
    metadata_to_file_attrs, FileAttr, FileKind, HostFileType, HostMeta,
};
use crate::cache::ArchiveCache;
use crate::error::FsError;
use crate::path::{
    classify, classify_spec, concat, copy_range, has_zip_suffix, is_zip_name, join, join_spec, Classification,
};
use vstd::prelude::*;

verus! {

/// The inode of the data directory, the root of the mount.
pub const ROOT_INO: u64 = 1;

/// A parsed archive as the cache holds it: its member table, and the handle that reads it.
pub struct CachedArchive<H> {
    pub index: ArchiveIndex,
    pub handle: H,
}

/// A host directory entry as the host lists it.
pub struct HostEntry {
    pub name: Vec<u8>,
    pub file_type: HostFileType,
}

/// An entry of a directory listing. `offset` is the offset at which a listing resumes after
/// this entry.
#[derive(Debug, PartialEq, Eq)]
pub struct DirEntry {
    pub ino: u64,
    pub offset: u64,
    pub kind: FileKind,
    pub name: Vec<u8>,
}

/// What an inode names: its host path, its classification and, for a path that leads into
/// an archive, the archive's inode (0 otherwise).
#[derive(Debug)]
pub struct Target {
    pub path: Vec<u8>,
    pub class: Classification,
    pub archive_ino: u64,
}

/// The kind listed for a host entry: names ending in ".zip" are directories; other entries
/// keep their host kind, and entries that are neither files nor directories are refused.
pub open spec fn host_kind(e: HostEntry) -> Option<FileKind> {
    if has_zip_suffix(e.name@) {
        Some(FileKind::Directory)
    } else if e.file_type == HostFileType::Directory {
        Some(FileKind::Directory)
    } else if e.file_type == HostFileType::RegularFile {
        Some(FileKind::RegularFile)
    } else {
        None
    }
}

/// The names and kinds listed for a host directory from position `offset` of its entries.
pub open spec fn host_listing_spec(meta: HostMeta, entries: Seq<HostEntry>, offset: u64) -> Result<
    Seq<(Seq<u8>, FileKind)>,
    FsError,
> {
    if meta.file_type != HostFileType::Directory {
        Err(FsError::NotADirectory)
    } else if offset >= entries.len() {
        Ok(Seq::empty())
    } else if exists|i: int| offset <= i < entries.len() && host_kind(#[trigger] entries[i]).is_none() {
        Err(FsError::Unsupported)
    } else {
        Ok(
            Seq::new(
                (entries.len() - offset) as nat,
                |i: int| (entries[offset + i].name@, host_kind(entries[offset + i]).unwrap()),
            ),
        )
    }
}

/// The names and kinds listed for the directory `inner` of an archive: the whole listing
/// at offset 0, nothing after it, and nothing for an archive that could not be parsed.
pub open spec fn zip_listing_spec(index: Option<ArchiveIndex>, inner: Seq<u8>, offset: u64) -> Seq<
    (Seq<u8>, FileKind),
> {
    match index {
        Some(ix) if offset == 0 => {
            let names = child_names_spec(ix.names(), inner);
            Seq::new(names.len(), |i: int| (names[i], ix.kind_spec(dir_prefix(inner) + names[i])))
        },
        _ => Seq::empty(),
    }
}

/// The attributes of a host entry with inode `ino`, before any archive override.
pub open spec fn base_attr_spec(meta: HostMeta, ino: u64) -> Result<FileAttr, FsError> {
    if meta.file_type == HostFileType::Other {
        Err(FsError::Unsupported)
    } else {
        let kind = if meta.file_type == HostFileType::Directory {
            FileKind::Directory
        } else {
            FileKind::RegularFile
        };
        Ok(FileAttr { ino, ..attr_of(meta, kind) })
    }
}

/// The attributes of the entry `ino` classified as `class`, where `meta` is what the host
/// reports of the entry, or of the archive file for a path that leads into one, and `index`
/// is the archive's member table if it could be parsed.
pub open spec fn attr_spec(class: Classification, meta: HostMeta, ino: u64, index: Option<ArchiveIndex>) -> Result<
    FileAttr,
    FsError,
> {
    match base_attr_spec(meta, ino) {
        Err(e) => Err(e),
        Ok(base) => match class {
            Classification::Passthrough { .. } => Ok(base),
            Classification::ArchiveRoot { .. } => Ok(dir_attr_spec(base)),
            Classification::InArchive { inner, .. } => match index {
                Some(ix) if ix.kind_spec(inner@) == FileKind::RegularFile => Ok(member_file_attr_spec(base)),
                _ => Ok(dir_attr_spec(base)),
            },
        },
    }
}

/// The path inside the archive that a target names (empty for the archive itself).
pub open spec fn inner_of(class: Classification) -> Seq<u8> {
    match class {
        Classification::InArchive { inner, .. } => inner@,
        _ => Seq::empty(),
    }
}

/// The plan for a read of `want` bytes from `offset` of the target `class`, with `index` the
/// archive's member table if it is parsed. Only paths into an archive are read without a
/// handle.
pub open spec fn read_spec(class: Classification, index: Option<ArchiveIndex>, offset: u64, want: u32) -> Result<
    ReadPlan,
    FsError,
> {
    match class {
        Classification::Passthrough { .. } => Err(FsError::BadFileHandle),
        _ => match index {
            None => Err(FsError::NotFound),
            Some(ix) => match ix.lookup_spec(inner_of(class)) {
                None => Err(FsError::NotFound),
                Some((i, info)) => plan_spec(i, info, offset, want),
            },
        },
    }
}

/// The order of recency of `c` once the archive `zino` is used: a cached archive becomes the
/// most recently used, and the others keep their order.
pub open spec fn promoted<V>(c: ArchiveCache<V>, zino: u64) -> Seq<u64> {
    if c.contains(zino) {
        c.keys().remove(c.position(zino)).push(zino)
    } else {
        c.keys()
    }
}

/// The filesystem's state: the inode table and the cache of parsed archives.
pub struct ZipFs<H> {
    paths: Vec<Vec<u8>>,
    archives: ArchiveCache<CachedArchive<H>>,
}

impl<H> ZipFs<H> {
    /// The host path of each inode; inode `i` names entry `i - 1`.
    pub closed spec fn inodes(&self) -> Seq<Seq<u8>> {
        views(self.paths@)
    }

    /// The cache of parsed archives.
    pub closed spec fn archives(&self) -> ArchiveCache<CachedArchive<H>> {
        self.archives
    }

    pub open spec fn has_inode(&self, ino: u64) -> bool {
        1 <= ino <= self.inodes().len()
    }

    pub open spec fn path_of(&self, ino: u64) -> Seq<u8> {
        self.inodes()[ino - 1]
    }

    /// The member table cached for the archive with inode `zino`, if any.
    pub open spec fn cached_index(&self, zino: u64) -> Option<ArchiveIndex> {
        if self.archives().contains(zino) {
            Some(self.archives().value(zino).index)
        } else {
            None
        }
    }

    pub closed spec fn wf(&self) -> bool {
        &&& self.paths@.len() >= 1
        &&& self.inodes().no_duplicates()
        &&& self.archives.wf()
    }

    /// No two inodes name the same path.
    pub proof fn lemma_inodes_distinct(&self)
        requires
            self.wf(),
        ensures
            self.inodes().no_duplicates(),
            forall|i: u64, j: u64|
                self.has_inode(i) && self.has_inode(j) && self.path_of(i) == self.path_of(j) ==> i == j,
    {
    }

    /// A well-formed state holds a well-formed cache, which can hold at least one archive.
    pub proof fn lemma_archives_wf(&self)
        requires
            self.wf(),
        ensures
            self.archives().wf(),
            self.archives().capacity() > 0,
    {
        crate::cache::lemma_cache_bounded(&self.archives);
    }

    /// Creates the state of a mount of `data_dir`, caching at most `cache_size` archives.
    pub fn new(data_dir: Vec<u8>, cache_size: usize) -> (r: Self)
        requires
            cache_size > 0,
        ensures
            r.wf(),
            r.inodes() == seq![data_dir@],
            r.archives().keys().len() == 0,
            r.archives().capacity() == cache_size,
    {
        let mut paths: Vec<Vec<u8>> = Vec::new();
        paths.push(data_dir);
        let r = ZipFs { paths, archives: ArchiveCache::new(cache_size) };
        assert(r.inodes() =~= seq![data_dir@]);
        r
    }

    /// The host path of inode `ino`.
    pub fn get_data_path(&self, ino: u64) -> (r: Result<Vec<u8>, FsError>)
        ensures
            self.has_inode(ino) ==> (r matches Ok(p) && p@ == self.path_of(ino)),
            !self.has_inode(ino) ==> r == Err::<Vec<u8>, FsError>(FsError::NotFound),
    {
        if ino == 0 || ino > self.paths.len() as u64 {
            return Err(FsError::NotFound);
        }
        let i = (ino - 1) as usize;
        Ok(crate::path::copy_range(self.paths[i].as_slice(), 0, self.paths[i].len()))
    }

    /// The inode that names `p`, if there is one.
    pub fn find_inode_by_path(&self, p: &[u8]) -> (r: Option<u64>)
        ensures
            match r {
                Some(ino) => self.has_inode(ino) && self.path_of(ino) == p@,
                None => !self.inodes().contains(p@),
            },
    {
        let mut i: usize = 0;
        while i < self.paths.len()
            invariant
                i <= self.paths@.len(),
                forall|j: int| 0 <= j < i ==> self.inodes()[j] != p@,
            decreases self.paths@.len() - i,
        {
            if crate::archive::bytes_eq(self.paths[i].as_slice(), p) {
                assert(self.inodes()[i as int] == p@);
                return Some(i as u64 + 1);
            }
            i = i + 1;
        }
        None
    }

    /// The inode of `p`, given a new one when `p` has none yet.
    pub fn get_or_create_inode(&mut self, p: Vec<u8>) -> (r: Result<u64, FsError>)
        requires
            old(self).wf(),
        ensures
            final(self).wf(),
            final(self).archives() == old(self).archives(),
            old(self).inodes().contains(p@) ==> final(self).inodes() == old(self).inodes(),
            !old(self).inodes().contains(p@) && old(self).inodes().len() < u64::MAX ==>
                final(self).inodes() == old(self).inodes().push(p@),
            !old(self).inodes().contains(p@) && old(self).inodes().len() >= u64::MAX ==>
                r == Err::<u64, FsError>(FsError::Overflow) && final(self).inodes() == old(self).inodes(),
            old(self).inodes().contains(p@) || old(self).inodes().len() < u64::MAX ==> r is Ok,
            r matches Ok(ino) ==> final(self).has_inode(ino) && final(self).path_of(ino) == p@,
            forall|i: u64| old(self).has_inode(i) && old(self).path_of(i) == p@ ==> r == Ok::<u64, FsError>(i),
    {
        match self.find_inode_by_path(p.as_slice()) {
            Some(ino) => Ok(ino),
            None => {
                let n = self.paths.len() as u64;
                if n == u64::MAX {
                    return Err(FsError::Overflow);
                }
                let ghost before = self.inodes();
                self.paths.push(p);
                proof {
                    assert(self.inodes() =~= before.push(p@));
                    assert forall|i: int, j: int| 0 <= i < j < self.inodes().len() implies self.inodes()[i] != self.inodes()[j] by {
                        if j == before.len() {
                            assert(before[i] != p@);
                        }
                    }
                }
                Ok(n + 1)
            },
        }
    }

    /// The inode of the entry `name` of the directory `parent`.
    pub fn lookup_(&mut self, parent: u64, name: &[u8]) -> (r: Result<u64, FsError>)
        requires
            old(self).wf(),
        ensures
            final(self).wf(),
            final(self).archives() == old(self).archives(),
            !old(self).has_inode(parent) ==> r == Err::<u64, FsError>(FsError::NotFound) && final(self).inodes()
                == old(self).inodes(),
            old(self).has_inode(parent) && old(self).inodes().len() < u64::MAX ==> r is Ok,
            forall|i: u64|
                old(self).has_inode(parent) && old(self).has_inode(i) && old(self).path_of(i) == join_spec(
                    old(self).path_of(parent),
                    name@,
                ) ==> r == Ok::<u64, FsError>(i),
            r matches Ok(ino) ==> final(self).has_inode(ino) && final(self).path_of(ino) == join_spec(
                old(self).path_of(parent),
                name@,
            ),
            forall|i: u64| old(self).has_inode(i) ==> final(self).has_inode(i) && final(self).path_of(i) == old(self).path_of(i),
    {
        let parent_path = self.get_data_path(parent)?;
        let path = join(parent_path.as_slice(), name);
        self.get_or_create_inode(path)
    }

    /// What the inode `ino` names. A path into an archive gets the archive's inode too.
    pub fn resolve(&mut self, ino: u64) -> (r: Result<Target, FsError>)
        requires
            old(self).wf(),
        ensures
            final(self).wf(),
            final(self).archives() == old(self).archives(),
            !old(self).has_inode(ino) ==> r == Err::<Target, FsError>(FsError::NotFound),
            old(self).has_inode(ino) && old(self).inodes().len() < u64::MAX ==> r is Ok,
            forall|i: u64| old(self).has_inode(i) ==> final(self).has_inode(i) && final(self).path_of(i) == old(self).path_of(i),
            r matches Ok(t) ==> {
                &&& t.path@ == old(self).path_of(ino)
                &&& t.class.view_parts() == classify_spec(t.path@)
                &&& (t.class is Passthrough <==> t.archive_ino == 0)
                &&& !(t.class is Passthrough) ==> final(self).has_inode(t.archive_ino)
                    && final(self).path_of(t.archive_ino) == t.class.view_parts().0
            },
    {
        let path = self.get_data_path(ino)?;
        let class = classify(path.as_slice());
        let archive_ino = match &class {
            Classification::Passthrough { .. } => 0,
            Classification::ArchiveRoot { archive } => {
                let a = crate::path::copy_range(archive.as_slice(), 0, archive.len());
                assert(a@ =~= archive@);
                self.get_or_create_inode(a)?
            },
            Classification::InArchive { archive, .. } => {
                let a = crate::path::copy_range(archive.as_slice(), 0, archive.len());
                assert(a@ =~= archive@);
                self.get_or_create_inode(a)?
            },
        };
        Ok(Target { path, class, archive_ino })
    }

    /// Whether the archive with inode `zino` is cached.
    pub fn is_cached(&self, zino: u64) -> (r: bool)
        requires
            self.wf(),
        ensures
            r == self.archives().contains(zino),
    {
        self.archives.contains_key(zino)
    }

    /// Caches the outcome of parsing the archive with inode `zino`, which is not cached yet.
    /// An archive that could not be parsed (`None`) is not cached, and the cache is left as it
    /// was; a parsed one becomes the most recently used, after the least recently used
    /// archive is evicted from a full cache. Returns whether the archive is now cached.
    pub fn store_archive(&mut self, zino: u64, parsed: Option<CachedArchive<H>>) -> (r: bool)
        requires
            old(self).wf(),
            !old(self).archives().contains(zino),
        ensures
            final(self).wf(),
            final(self).inodes() == old(self).inodes(),
            r == parsed.is_some(),
            final(self).archives().capacity() == old(self).archives().capacity(),
            parsed.is_none() ==> final(self).archives() == old(self).archives(),
            parsed matches Some(a) ==> {
                &&& final(self).archives().contains(zino)
                &&& final(self).archives().value(zino) == a
                &&& old(self).archives().keys().len() < old(self).archives().capacity() ==> final(self).archives().keys() == old(self).archives().keys().push(zino)
                &&& old(self).archives().keys().len() == old(self).archives().capacity() ==> final(self).archives().keys() == old(self).archives().keys().drop_first().push(zino)
                &&& forall|j: u64|
                    j != zino && #[trigger] final(self).archives().contains(j) ==> old(self).archives().contains(j)
                        && final(self).archives().value(j) == old(self).archives().value(j)
            },
    {
        match parsed {
            None => false,
            Some(a) => {
                let _ = self.archives.insert(zino, a);
                true
            },
        }
    }

    /// The archive cached for `zino`, if any; a hit makes it the most recently used.
    pub fn cached(&mut self, zino: u64) -> (r: Option<&CachedArchive<H>>)
        requires
            old(self).wf(),
        ensures
            final(self).wf(),
            final(self).inodes() == old(self).inodes(),
            forall|z: u64| final(self).cached_index(z) == old(self).cached_index(z),
            final(self).archives().capacity() == old(self).archives().capacity(),
            final(self).archives().keys() == promoted(old(self).archives(), zino),
            match r {
                Some(a) => old(self).archives().contains(zino) && *a == old(self).archives().value(zino),
                None => !old(self).archives().contains(zino),
            },
    {
        self.archives.get(zino)
    }

    /// The attributes of the entry `ino` that `target` describes, where `meta` is what the
    /// host reports of the entry, or of the archive file for a path that leads into one.
    /// An inode that names nothing is not found.
    /// An archive that could not be parsed is shown as an empty directory.
    pub fn getattr_(&mut self, target: &Target, meta: &HostMeta, ino: u64) -> (r: Result<FileAttr, FsError>)
        requires
            old(self).wf(),
        ensures
            final(self).wf(),
            final(self).inodes() == old(self).inodes(),
            forall|z: u64| final(self).cached_index(z) == old(self).cached_index(z),
            final(self).archives().capacity() == old(self).archives().capacity(),
            !old(self).has_inode(ino) ==> r == Err::<FileAttr, FsError>(FsError::NotFound),
            old(self).has_inode(ino) ==> r == attr_spec(
                target.class,
                *meta,
                ino,
                old(self).cached_index(target.archive_ino),
            ),
            final(self).archives().keys() == if !old(self).has_inode(ino) || meta.file_type == HostFileType::Other
                || target.class is Passthrough {
                old(self).archives().keys()
            } else {
                promoted(old(self).archives(), target.archive_ino)
            },
    {
        if ino == 0 || ino > self.paths.len() as u64 {
            return Err(FsError::NotFound);
        }
        let mut base = metadata_to_file_attrs(meta)?;
        base.ino = ino;
        match &target.class {
            Classification::Passthrough { .. } => Ok(base),
            Classification::ArchiveRoot { .. } => {
                let _ = self.archives.get(target.archive_ino);
                Ok(dir_attr(base))
            },
            Classification::InArchive { inner, .. } => {
                let file = match self.archives.get(target.archive_ino) {
                    Some(a) => match a.index.kind_of(inner.as_slice()) {
                        FileKind::RegularFile => true,
                        FileKind::Directory => false,
                    },
                    None => false,
                };
                if file {
                    Ok(member_file_attr(base))
                } else {
                    Ok(dir_attr(base))
                }
            },
        }
    }

    /// Gives each listed name the inode of its path under `dir`, and the offset that follows
    /// it.
    fn number_entries(&mut self, dir: &[u8], listing: Vec<(Vec<u8>, FileKind)>, offset: u64) -> (r: Result<
        Vec<DirEntry>,
        FsError,
    >)
        requires
            old(self).wf(),
            offset + listing@.len() <= u64::MAX,
        ensures
            final(self).wf(),
            final(self).archives() == old(self).archives(),
            forall|i: u64| old(self).has_inode(i) ==> final(self).has_inode(i) && final(self).path_of(i) == old(self).path_of(i),
            old(self).inodes().len() + listing@.len() < u64::MAX ==> r is Ok,
            listing@.len() == 0 ==> r is Ok,
            r is Err ==> r == Err::<Vec<DirEntry>, FsError>(FsError::Overflow),
            r matches Ok(v) ==> entries_match(v@, listing_view(listing@), dir@, offset, *final(self)),
    {
        let mut out: Vec<DirEntry> = Vec::new();
        let mut i: usize = 0;
        let ghost start = *self;
        while i < listing.len()
            invariant
                i <= listing@.len(),
                offset + listing@.len() <= u64::MAX,
                self.wf(),
                self.archives() == start.archives(),
                self.inodes().len() <= start.inodes().len() + i,
                forall|k: u64| start.has_inode(k) ==> self.has_inode(k) && self.path_of(k) == start.path_of(k),
                out@.len() == i,
                entries_match(out@, listing_view(listing@).subrange(0, i as int), dir@, offset, *self),
                start.wf(),
                start == *old(self),
            decreases listing@.len() - i,
        {
            let name = copy_range(listing[i].0.as_slice(), 0, listing[i].0.len());
            let path = join(dir, name.as_slice());
            let ghost mid = *self;
            let ino = self.get_or_create_inode(path)?;
            proof {
                assert forall|j: int| 0 <= j < out@.len() implies self.has_inode(#[trigger] out@[j].ino)
                    && self.path_of(out@[j].ino) == join_spec(dir@, out@[j].name@) by {
                    assert(mid.has_inode(out@[j].ino));
                }
            }
            let ghost prev = out@;
            out.push(DirEntry { ino, offset: offset + i as u64 + 1, kind: listing[i].1, name });
            i = i + 1;
            proof {
                let lv = listing_view(listing@).subrange(0, i as int);
                assert forall|j: int| 0 <= j < out@.len() implies {
                    &&& (#[trigger] out@[j]).name@ == lv[j].0
                    &&& out@[j].kind == lv[j].1
                    &&& out@[j].offset == offset + j + 1
                    &&& self.has_inode(out@[j].ino)
                    &&& self.path_of(out@[j].ino) == join_spec(dir@, out@[j].name@)
                } by {
                    if j < i - 1 {
                        assert(out@[j] == prev[j]);
                        assert(lv[j] == listing_view(listing@).subrange(0, i - 1)[j]);
                    }
                }
            }
        }
        assert(listing_view(listing@).subrange(0, listing@.len() as int) =~= listing_view(listing@));
        Ok(out)
    }

    /// Lists the host directory that `target` names, from position `offset` of `entries`,
    /// the host's listing of it; `meta` is what the host reports of the directory. Names
    /// ending in ".zip" are listed as directories.
    pub fn readdir_host(&mut self, target: &Target, meta: &HostMeta, entries: &Vec<HostEntry>, offset: u64) -> (r:
        Result<Vec<DirEntry>, FsError>)
        requires
            old(self).wf(),
        ensures
            final(self).wf(),
            final(self).archives() == old(self).archives(),
            forall|i: u64| old(self).has_inode(i) ==> final(self).has_inode(i) && final(self).path_of(i) == old(self).path_of(i),
            match host_listing_spec(*meta, entries@, offset) {
                Err(e) => r == Err::<Vec<DirEntry>, FsError>(e),
                Ok(l) => {
                    &&& l.len() == 0 ==> (r matches Ok(v) && v@.len() == 0)
                    &&& old(self).inodes().len() + l.len() < u64::MAX ==> r is Ok
                    &&& r is Err ==> r == Err::<Vec<DirEntry>, FsError>(FsError::Overflow)
                    &&& r matches Ok(v) ==> entries_match(v@, l, target.path@, offset, *final(self))
                },
            },
    {
        match meta.file_type {
            HostFileType::Directory => {},
            _ => {
                return Err(FsError::NotADirectory);
            },
        }
        let n = entries.len();
        if offset >= n as u64 {
            let r: Vec<DirEntry> = Vec::new();
            assert(host_listing_spec(*meta, entries@, offset) == Ok::<Seq<(Seq<u8>, FileKind)>, FsError>(Seq::empty()));
            assert(r@ =~= Seq::<DirEntry>::empty());
            return Ok(r);
        }
        let start = offset as usize;
        let mut listing: Vec<(Vec<u8>, FileKind)> = Vec::new();
        let mut i: usize = start;
        while i < n
            invariant
                start <= i <= n == entries@.len(),
                start == offset,
                *self == *old(self),
                self.wf(),
                meta.file_type == HostFileType::Directory,
                listing@.len() == i - start,
                forall|j: int| 0 <= j < listing@.len() ==> {
                    &&& host_kind(entries@[start + j]) == Some(#[trigger] listing@[j].1)
                    &&& listing@[j].0@ == entries@[start + j].name@
                },
            decreases n - i,
        {
            let e = &entries[i];
            let kind = if is_zip_name(e.name.as_slice()) {
                FileKind::Directory
            } else {
                match e.file_type {
                    HostFileType::Directory => FileKind::Directory,
                    HostFileType::RegularFile => FileKind::RegularFile,
                    HostFileType::Other => {
                        proof {
                            assert(host_kind(entries@[i as int]).is_none());
                        }
                        return Err(FsError::Unsupported);
                    },
                }
            };
            listing.push((copy_range(e.name.as_slice(), 0, e.name.len()), kind));
            i = i + 1;
        }
        proof {
            assert(!exists|i: int| offset <= i < entries@.len() && host_kind(#[trigger] entries@[i]).is_none()) by {
                if exists|i: int| offset <= i < entries@.len() && host_kind(#[trigger] entries@[i]).is_none() {
                    let k = choose|i: int| offset <= i < entries@.len() && host_kind(#[trigger] entries@[i]).is_none();
                    assert(host_kind(entries@[start + (k - start)]) == Some(listing@[k - start].1));
                }
            }
            let l = Seq::new(
                (entries@.len() - offset) as nat,
                |j: int| (entries@[offset + j].name@, host_kind(entries@[offset + j]).unwrap()),
            );
            assert(host_listing_spec(*meta, entries@, offset) == Ok::<Seq<(Seq<u8>, FileKind)>, FsError>(l));
            assert(listing_view(listing@) =~= l);
        }
        let path = copy_range(target.path.as_slice(), 0, target.path.len());
        assert(path@ =~= target.path@);
        self.number_entries(path.as_slice(), listing, offset)
    }

    /// Lists the directory inside an archive that `target` names. The whole listing comes at
    /// offset 0 and nothing after it; an archive that could not be parsed lists nothing.
    pub fn readdir_zip(&mut self, target: &Target, offset: u64) -> (r: Result<Vec<DirEntry>, FsError>)
        requires
            old(self).wf(),
            !(target.class is Passthrough),
        ensures
            final(self).wf(),
            forall|z: u64| final(self).cached_index(z) == old(self).cached_index(z),
            final(self).archives().capacity() == old(self).archives().capacity(),
            forall|i: u64| old(self).has_inode(i) ==> final(self).has_inode(i) && final(self).path_of(i) == old(self).path_of(i),
            final(self).archives().keys() == if offset != 0 {
                old(self).archives().keys()
            } else {
                promoted(old(self).archives(), target.archive_ino)
            },
            ({
                let l = zip_listing_spec(old(self).cached_index(target.archive_ino), inner_of(target.class), offset);
                &&& l.len() == 0 ==> (r matches Ok(v) && v@.len() == 0)
                &&& old(self).inodes().len() + l.len() < u64::MAX ==> r is Ok
                &&& r is Err ==> r == Err::<Vec<DirEntry>, FsError>(FsError::Overflow)
                &&& r matches Ok(v) ==> entries_match(v@, l, target.path@, offset, *final(self))
            }),
    {
        if offset != 0 {
            let r: Vec<DirEntry> = Vec::new();
            assert(r@ =~= Seq::<DirEntry>::empty());
            return Ok(r);
        }
        let inner: Vec<u8> = match &target.class {
            Classification::InArchive { inner, .. } => copy_range(inner.as_slice(), 0, inner.len()),
            _ => Vec::new(),
        };
        assert(inner@ =~= inner_of(target.class));
        let listing: Vec<(Vec<u8>, FileKind)> = match self.archives.get(target.archive_ino) {
            None => Vec::new(),
            Some(a) => zip_listing(&a.index, inner.as_slice()),
        };
        assert(listing_view(listing@) =~= zip_listing_spec(old(self).cached_index(target.archive_ino), inner@, offset));
        let path = copy_range(target.path.as_slice(), 0, target.path.len());
        assert(path@ =~= target.path@);
        self.number_entries(path.as_slice(), listing, 0)
    }

    /// Plans a read of `want` bytes from `offset` of the archive member that `target` names.
    /// A member of an archive that could not be parsed, or that is missing or unreadable, is
    /// not found; a host file is read through its handle instead.
    pub fn read_member(&mut self, target: &Target, offset: u64, want: u32) -> (r: Result<ReadPlan, FsError>)
        requires
            old(self).wf(),
        ensures
            final(self).wf(),
            final(self).inodes() == old(self).inodes(),
            forall|z: u64| final(self).cached_index(z) == old(self).cached_index(z),
            final(self).archives().capacity() == old(self).archives().capacity(),
            r == read_spec(target.class, old(self).cached_index(target.archive_ino), offset, want),
            final(self).archives().keys() == if target.class is Passthrough {
                old(self).archives().keys()
            } else {
                promoted(old(self).archives(), target.archive_ino)
            },
    {
        let inner: Vec<u8> = match &target.class {
            Classification::Passthrough { .. } => {
                return Err(FsError::BadFileHandle);
            },
            Classification::InArchive { inner, .. } => copy_range(inner.as_slice(), 0, inner.len()),
            Classification::ArchiveRoot { .. } => Vec::new(),
        };
        assert(inner@ =~= inner_of(target.class));
        match self.archives.get(target.archive_ino) {
            None => Err(FsError::NotFound),
            Some(a) => a.index.plan_read(inner.as_slice(), offset, want),
        }
    }
}

/// The listing of the directory `inner` of the archive `ix`, with the kind of each entry.
fn zip_listing(ix: &ArchiveIndex, inner: &[u8]) -> (r: Vec<(Vec<u8>, FileKind)>)
    ensures
        listing_view(r@) == zip_listing_spec(Some(*ix), inner@, 0),
        r@.len() <= usize::MAX,
{
    let names = ix.child_names(inner);
    let prefix = make_dir_prefix(inner);
    let ghost l = zip_listing_spec(Some(*ix), inner@, 0);
    let mut r: Vec<(Vec<u8>, FileKind)> = Vec::new();
    let mut i: usize = 0;
    while i < names.len()
        invariant
            i <= names@.len(),
            views(names@) == child_names_spec(ix.names(), inner@),
            prefix@ == dir_prefix(inner@),
            l == zip_listing_spec(Some(*ix), inner@, 0),
            l.len() == names@.len(),
            listing_view(r@) == l.subrange(0, i as int),
        decreases names@.len() - i,
    {
        let full = concat(prefix.as_slice(), names[i].as_slice());
        let kind = ix.kind_of(full.as_slice());
        let name = copy_range(names[i].as_slice(), 0, names[i].len());
        assert(name@ =~= names@[i as int]@);
        assert(views(names@)[i as int] == names@[i as int]@);
        assert(l[i as int] == (name@, kind));
        let ghost before = listing_view(r@);
        r.push((name, kind));
        assert(listing_view(r@) =~= before.push((name@, kind)));
        i = i + 1;
        assert(listing_view(r@) =~= l.subrange(0, i as int));
    }
    assert(l.subrange(0, names@.len() as int) =~= l);
    r
}

/// Whether an open of `target` takes a host handle: paths into archives are read without
/// one. Write access is refused.
pub open spec fn open_spec(class: Classification, write: bool) -> Result<bool, FsError> {
    if write {
        Err(FsError::PermissionDenied)
    } else {
        Ok(class is Passthrough)
    }
}

/// Decides an open of `target`: `Ok(true)` when a host file must be opened and given a
/// handle, `Ok(false)` when reads go by path with handle 0.
pub fn open_(target: &Target, write: bool) -> (r: Result<bool, FsError>)
    ensures
        r == open_spec(target.class, write),
{
    if write {
        return Err(FsError::PermissionDenied);
    }
    match &target.class {
        Classification::Passthrough { .. } => Ok(true),
        _ => Ok(false),
    }
}

/// The listed entries `v` carry the names and kinds of `l` in order, the offsets that follow
/// `offset`, and the inodes of their paths under `dir` in `fs`.
pub open spec fn entries_match<H>(v: Seq<DirEntry>, l: Seq<(Seq<u8>, FileKind)>, dir: Seq<u8>, offset: u64, fs: ZipFs<H>) -> bool {
    &&& v.len() == l.len()
    &&& forall|i: int| 0 <= i < v.len() ==> {
        &&& (#[trigger] v[i]).name@ == l[i].0
        &&& v[i].kind == l[i].1
        &&& v[i].offset == offset + i + 1
        &&& fs.has_inode(v[i].ino)
        &&& fs.path_of(v[i].ino) == join_spec(dir, v[i].name@)
    }
}

/// A listing of byte vectors and kinds, as views.
pub open spec fn listing_view(l: Seq<(Vec<u8>, FileKind)>) -> Seq<(Seq<u8>, FileKind)> {
    l.map_values(|e: (Vec<u8>, FileKind)| (e.0@, e.1))
}

} // verus!

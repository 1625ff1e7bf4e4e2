//! Properties of the filesystem that relate several requests, or hold of every input,
//! proved over the specifications that the functions themselves meet.

use crate::archive::{plan_spec, read_len, window_spec, ArchiveIndex, MemberInfo, ReadPlan};
use crate::attr::{FileKind, HostFileType, HostMeta, DIR_PERM};
use crate::error::FsError;
use crate::fs::{
    attr_spec, host_kind, host_listing_spec, inner_of, read_spec, zip_listing_spec, ZipFs,
};
use crate::path::{classify_spec, has_zip_suffix, pivot, pivot_upto, zip_component_end, Classification};
use vstd::prelude::*;

verus! {

proof fn lemma_no_pivot(p: Seq<u8>, e: int)
    requires
        forall|k: int| !zip_component_end(p, k),
    ensures
        pivot_upto(p, e) == -1,
    decreases e,
{
    if e >= 4 && e <= p.len() {
        lemma_no_pivot(p, e - 1);
    }
}

/// A path none of whose components ends in ".zip" is served from the host path itself.
pub proof fn lemma_plain_path_passes_through(p: Seq<u8>)
    requires
        forall|e: int| !zip_component_end(p, e),
    ensures
        pivot(p) == -1,
        classify_spec(p) == (p, Option::<Seq<u8>>::None),
{
    lemma_no_pivot(p, p.len() as int);
}

/// Listing a host directory gives its entries in the host's order, from the requested
/// offset, each with the host's kind, except that names ending in ".zip" are directories.
pub proof fn lemma_host_listing_mirrors_host(meta: HostMeta, entries: Seq<crate::fs::HostEntry>, offset: u64)
    requires
        meta.file_type == HostFileType::Directory,
        offset < entries.len(),
        forall|i: int| 0 <= i < entries.len() ==> (#[trigger] entries[i]).file_type != HostFileType::Other,
    ensures
        host_listing_spec(meta, entries, offset) matches Ok(l) && {
            &&& l.len() == entries.len() - offset
            &&& forall|i: int| 0 <= i < l.len() ==> (#[trigger] l[i]).0 == entries[offset + i].name@
            &&& forall|i: int|
                0 <= i < l.len() ==> (#[trigger] l[i]).1 == if has_zip_suffix(entries[offset + i].name@) {
                    FileKind::Directory
                } else if entries[offset + i].file_type == HostFileType::Directory {
                    FileKind::Directory
                } else {
                    FileKind::RegularFile
                }
        },
{
    assert(!exists|i: int| offset <= i < entries.len() && host_kind(#[trigger] entries[i]).is_none());
}

/// Reading a whole member from offset 0 reads all of it: in place when it is stored, else by
/// decoding it from the start; and the bytes kept of its content are the content itself.
pub proof fn lemma_whole_member_read(index: int, info: MemberInfo, want: u32, content: Seq<u8>)
    requires
        info.size > 0,
        want >= info.size,
        content.len() == info.size,
    ensures
        info.stored ==> plan_spec(index, info, 0, want) == Ok::<ReadPlan, FsError>(
            ReadPlan::Stored { pos: info.data_start, len: info.size as usize },
        ),
        !info.stored ==> plan_spec(index, info, 0, want) == Ok::<ReadPlan, FsError>(
            ReadPlan::Decode { index: index as usize, skip: 0, take: info.size as usize },
        ),
        window_spec(content, 0, info.size as int) == content,
{
    assert(content.subrange(0, content.len() as int) =~= content);
}

/// An archive that could not be parsed is a directory, lists no entries, and has no
/// members to read.
pub proof fn lemma_unparsed_archive_is_empty_dir(class: Classification, meta: HostMeta, ino: u64, offset: u64, want: u32)
    requires
        !(class is Passthrough),
        meta.file_type != HostFileType::Other,
    ensures
        attr_spec(class, meta, ino, None) matches Ok(a) && a.kind == FileKind::Directory && a.perm == DIR_PERM,
        zip_listing_spec(None, inner_of(class), offset) == Seq::<(Seq<u8>, FileKind)>::empty(),
        read_spec(class, None, offset, want) == Err::<ReadPlan, FsError>(FsError::NotFound),
{
}

/// The archives that a mount holds open never outnumber the cache's capacity.
pub proof fn lemma_open_archives_bounded<H>(fs: ZipFs<H>)
    requires
        fs.wf(),
    ensures
        fs.archives().keys().len() <= fs.archives().capacity(),
        fs.archives().capacity() > 0,
{
    fs.lemma_archives_wf();
    crate::cache::lemma_cache_bounded(&fs.archives());
}

/// Two states that cache the same archives plan the same read of a target: a read leaves
/// the cached archives as they were, so reading twice gives the same bytes.
pub proof fn lemma_read_repeatable<H>(a: ZipFs<H>, b: ZipFs<H>, class: Classification, zino: u64, offset: u64, want: u32)
    requires
        forall|z: u64| a.cached_index(z) == b.cached_index(z),
    ensures
        read_spec(class, a.cached_index(zino), offset, want) == read_spec(class, b.cached_index(zino), offset, want),
{
    assert(a.cached_index(zino) == b.cached_index(zino));
}

/// Two states that cache the same archives give the same attributes for the same host
/// metadata: asking for attributes leaves the cached archives as they were, so asking twice
/// gives the same answer.
pub proof fn lemma_getattr_repeatable<H>(a: ZipFs<H>, b: ZipFs<H>, class: Classification, meta: HostMeta, ino: u64, zino: u64)
    requires
        forall|z: u64| a.cached_index(z) == b.cached_index(z),
    ensures
        attr_spec(class, meta, ino, a.cached_index(zino)) == attr_spec(class, meta, ino, b.cached_index(zino)),
{
    assert(a.cached_index(zino) == b.cached_index(zino));
}

/// A read that starts at the end of a member, or of a host file's content, gives no bytes.
pub proof fn lemma_read_at_end(index: int, info: MemberInfo, want: u32, content: Seq<u8>, take: int)
    requires
        take >= 0,
    ensures
        plan_spec(index, info, info.size, want) == Ok::<ReadPlan, FsError>(ReadPlan::Empty),
        window_spec(content, content.len() as int, take) == Seq::<u8>::empty(),
{
    assert(window_spec(content, content.len() as int, take) =~= Seq::<u8>::empty());
}

/// A read that runs past the end of a member, or of a host file's content, gives the bytes
/// from its offset to the end.
pub proof fn lemma_read_past_end(size: u64, offset: u64, want: u32, content: Seq<u8>, skip: int, take: int)
    requires
        offset <= size,
        offset + want > size,
        0 <= skip <= content.len(),
        skip + take > content.len(),
    ensures
        read_len(size, offset, want) == size - offset,
        window_spec(content, skip, take).len() == content.len() - skip,
        window_spec(content, skip, take) == content.subrange(skip, content.len() as int),
{
}

/// A read of a member that runs past its end reads from the offset to the end: in place for
/// a stored member (whose data lies within the archive file, so its end is a valid position),
/// or by decoding, with the bytes past the offset kept.
pub proof fn lemma_member_read_past_end(index: int, info: MemberInfo, offset: u64, want: u32)
    requires
        offset < info.size,
        offset + want > info.size,
        info.stored ==> info.data_start + info.size <= u64::MAX,
    ensures
        info.stored ==> plan_spec(index, info, offset, want) == Ok::<ReadPlan, FsError>(
            ReadPlan::Stored { pos: (info.data_start + offset) as u64, len: (info.size - offset) as usize },
        ),
        !info.stored ==> plan_spec(index, info, offset, want) == Ok::<ReadPlan, FsError>(
            ReadPlan::Decode { index: index as usize, skip: offset, take: (info.size - offset) as usize },
        ),
{
}

/// Listing from an offset past the last entry gives nothing, for a host directory and for
/// a directory inside an archive.
pub proof fn lemma_listing_past_end(
    meta: HostMeta,
    entries: Seq<crate::fs::HostEntry>,
    index: Option<ArchiveIndex>,
    inner: Seq<u8>,
    offset: u64,
)
    requires
        meta.file_type == HostFileType::Directory,
        offset > entries.len(),
        offset > zip_listing_spec(index, inner, 0).len(),
    ensures
        host_listing_spec(meta, entries, offset) == Ok::<Seq<(Seq<u8>, FileKind)>, FsError>(Seq::empty()),
        zip_listing_spec(index, inner, offset) == Seq::<(Seq<u8>, FileKind)>::empty(),
{
}

} // verus!

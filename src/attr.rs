//! File attributes, and how host metadata becomes the attributes that the kernel is given.

use crate::error::FsError;
use vstd::prelude::*;

verus! {

/// Permission bits of a directory shown for an archive or inside one.
pub const DIR_PERM: u16 = 0o555;

/// Permission bits of a file inside an archive.
pub const MEMBER_FILE_PERM: u16 = 0o444;

/// The kinds of entry the filesystem shows.
#[derive(Clone, Copy, Debug, PartialEq, Eq, Structural)]
pub enum FileKind {
    Directory,
    RegularFile,
}

/// The kind of a host entry, as the host reports it.
#[derive(Clone, Copy, Debug, PartialEq, Eq, Structural)]
pub enum HostFileType {
    Directory,
    RegularFile,
    Other,
}

/// What the host reports of a file: the fields of `stat` that the filesystem uses.
/// Times are seconds since the Unix epoch.
#[derive(Clone, Copy, Debug, PartialEq, Eq, Structural)]
pub struct HostMeta {
    pub ino: u64,
    pub size: u64,
    pub blocks: u64,
    pub atime: i64,
    pub mtime: i64,
    pub ctime: i64,
    pub file_type: HostFileType,
    pub mode: u32,
    pub nlink: u64,
    pub uid: u32,
    pub gid: u32,
    pub rdev: u64,
    pub blksize: u64,
}

/// The attributes of an entry as the kernel is given them. Times are seconds since the
/// Unix epoch.
#[derive(Clone, Copy, Debug, PartialEq, Eq, Structural)]
pub struct FileAttr {
    pub ino: u64,
    pub size: u64,
    pub blocks: u64,
    pub atime: i64,
    pub mtime: i64,
    pub ctime: i64,
    pub crtime: i64,
    pub kind: FileKind,
    pub perm: u16,
    pub nlink: u32,
    pub uid: u32,
    pub gid: u32,
    pub rdev: u32,
    pub blksize: u32,
}

/// The attributes of `m` with the given kind: every other field copied, the wide ones cut to
/// the width of the attribute record.
pub open spec fn attr_of(m: HostMeta, kind: FileKind) -> FileAttr {
    FileAttr {
        ino: m.ino,
        size: m.size,
        blocks: m.blocks,
        atime: m.atime,
        mtime: m.mtime,
        ctime: m.ctime,
        crtime: m.ctime,
        kind,
        perm: (m.mode % 0x10000) as u16,
        nlink: (m.nlink % 0x1_0000_0000) as u32,
        uid: m.uid,
        gid: m.gid,
        rdev: (m.rdev % 0x1_0000_0000) as u32,
        blksize: (m.blksize % 0x1_0000_0000) as u32,
    }
}

fn attr_with_kind(m: &HostMeta, kind: FileKind) -> (r: FileAttr)
    ensures
        r == attr_of(*m, kind),
{
    FileAttr {
        ino: m.ino,
        size: m.size,
        blocks: m.blocks,
        atime: m.atime,
        mtime: m.mtime,
        ctime: m.ctime,
        crtime: m.ctime,
        kind,
        perm: (m.mode % 0x10000) as u16,
        nlink: (m.nlink % 0x1_0000_0000) as u32,
        uid: m.uid,
        gid: m.gid,
        rdev: (m.rdev % 0x1_0000_0000) as u32,
        blksize: (m.blksize % 0x1_0000_0000) as u32,
    }
}

/// The kind shown for a host entry type: only directories and regular files are served.
pub fn map_ft(ft: HostFileType) -> (r: Result<FileKind, FsError>)
    ensures
        ft == HostFileType::Directory ==> r == Ok::<FileKind, FsError>(FileKind::Directory),
        ft == HostFileType::RegularFile ==> r == Ok::<FileKind, FsError>(FileKind::RegularFile),
        ft == HostFileType::Other ==> r == Err::<FileKind, FsError>(FsError::Unsupported),
{
    match ft {
        HostFileType::Directory => Ok(FileKind::Directory),
        HostFileType::RegularFile => Ok(FileKind::RegularFile),
        HostFileType::Other => Err(FsError::Unsupported),
    }
}

/// The attributes of a host entry, shown as the host reports them. Entries that are neither
/// files nor directories are refused.
pub fn metadata_to_file_attrs(m: &HostMeta) -> (r: Result<FileAttr, FsError>)
    ensures
        m.file_type == HostFileType::Other ==> r == Err::<FileAttr, FsError>(FsError::Unsupported),
        m.file_type == HostFileType::Directory ==> r == Ok::<FileAttr, FsError>(
            attr_of(*m, FileKind::Directory),
        ),
        m.file_type == HostFileType::RegularFile ==> r == Ok::<FileAttr, FsError>(
            attr_of(*m, FileKind::RegularFile),
        ),
{
    let kind = map_ft(m.file_type)?;
    Ok(attr_with_kind(m, kind))
}

/// Host metadata that can be shown as attributes.
pub trait MetadataFileAttr {
    spec fn file_attr_spec(&self) -> FileAttr;

    /// The attributes shown for this entry: a directory when the host says so, else a
    /// regular file.
    fn to_file_attr(&self) -> (r: FileAttr)
        ensures
            r == self.file_attr_spec(),
    ;
}

impl MetadataFileAttr for HostMeta {
    open spec fn file_attr_spec(&self) -> FileAttr {
        attr_of(
            *self,
            if self.file_type == HostFileType::Directory {
                FileKind::Directory
            } else {
                FileKind::RegularFile
            },
        )
    }

    fn to_file_attr(&self) -> (r: FileAttr) {
        let kind = match self.file_type {
            HostFileType::Directory => FileKind::Directory,
            _ => FileKind::RegularFile,
        };
        attr_with_kind(self, kind)
    }
}

/// `a` shown as a read-only directory.
pub open spec fn dir_attr_spec(a: FileAttr) -> FileAttr {
    FileAttr { kind: FileKind::Directory, perm: DIR_PERM, ..a }
}

/// `a` shown as a read-only regular file.
pub open spec fn member_file_attr_spec(a: FileAttr) -> FileAttr {
    FileAttr { kind: FileKind::RegularFile, perm: MEMBER_FILE_PERM, ..a }
}

/// The attributes of an archive, or of a directory inside one, from those of the archive file.
pub fn dir_attr(a: FileAttr) -> (r: FileAttr)
    ensures
        r == dir_attr_spec(a),
{
    FileAttr { kind: FileKind::Directory, perm: DIR_PERM, ..a }
}

/// The attributes of a file inside an archive, from those of the archive file.
pub fn member_file_attr(a: FileAttr) -> (r: FileAttr)
    ensures
        r == member_file_attr_spec(a),
{
    FileAttr { kind: FileKind::RegularFile, perm: MEMBER_FILE_PERM, ..a }
}

} // verus!

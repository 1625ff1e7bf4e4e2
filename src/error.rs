//! The errors that the filesystem reports; each maps to one errno at the kernel boundary.

use vstd::prelude::*;

verus! {

#[derive(Clone, Copy, Debug, PartialEq, Eq, Structural)]
pub enum FsError {
    /// No such file, or no such member in a readable archive (`ENOENT`).
    NotFound,
    /// A directory listing was asked of something that is not a directory (`ENOTDIR`).
    NotADirectory,
    /// A read names a handle that is not open (`EBADF`).
    BadFileHandle,
    /// An open asked for write access to this read-only filesystem (`EACCES`).
    PermissionDenied,
    /// A host entry is neither a regular file nor a directory (`ENOSYS`).
    Unsupported,
    /// A position or a counter does not fit its integer type (`EOVERFLOW`).
    Overflow,
    /// A host I/O failure, with the errno the host reported.
    Io(i32),
}

} // verus!

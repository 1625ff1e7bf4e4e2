//! A read-only filesystem that shows the ZIP archives under a host directory as directories.
//!
//! The library holds the filesystem's logic and state: how a host path is classified around
//! its ".zip" component (`path`), how host metadata becomes attributes (`attr`), what an
//! archive's member table lists and where a member's bytes are (`archive`), the bounded
//! cache of parsed archives (`cache`), the table of open host files (`handles`), and the
//! inode table with the answer to each request (`fs`). Host I/O and the kernel protocol stay
//! with the caller, which hands in what the host reported.

pub mod archive;
pub mod attr;
pub mod cache;
pub mod error;
pub mod fs;
pub mod handles;
pub mod laws;
pub mod options;
pub mod path;

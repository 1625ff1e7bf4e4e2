use zipfs::archive::{ArchiveIndex, Member, MemberInfo, ReadPlan};
use zipfs::attr::{FileKind, HostFileType, HostMeta};
use zipfs::cache::ArchiveCache;
use zipfs::error::FsError;
use zipfs::fs::{open_, CachedArchive, HostEntry, ZipFs, ROOT_INO};
use zipfs::handles::HandleTable;
use zipfs::path::Classification;

fn b(s: &str) -> Vec<u8> {
    s.as_bytes().to_vec()
}

fn meta(ft: HostFileType) -> HostMeta {
    HostMeta {
        ino: 9,
        size: 512,
        blocks: 1,
        atime: 10,
        mtime: 20,
        ctime: 30,
        file_type: ft,
        mode: 0o100644,
        nlink: 1,
        uid: 1,
        gid: 2,
        rdev: 0,
        blksize: 4096,
    }
}

fn fixture(stored: bool) -> ArchiveIndex {
    let d = |n: &str| Member { name: b(n), info: Some(MemberInfo { is_dir: true, stored: true, size: 0, data_start: 0 }) };
    ArchiveIndex {
        members: vec![
            d("some/"),
            d("some/nested/"),
            Member {
                name: b("some/nested/file.txt"),
                info: Some(MemberInfo { is_dir: false, stored, size: 195, data_start: 64 }),
            },
        ],
    }
}

fn mounted() -> ZipFs<u32> {
    ZipFs::new(b("data"), 2)
}

fn entry(name: &str, ft: HostFileType) -> HostEntry {
    HostEntry { name: b(name), file_type: ft }
}

#[test]
fn test_readdir_passthrough() {
    let mut fs = mounted();
    let t = fs.resolve(ROOT_INO).unwrap();
    let host = vec![
        entry("passthrough.txt", HostFileType::RegularFile),
        entry("stored.zip", HostFileType::RegularFile),
        entry("sub", HostFileType::Directory),
    ];
    let listed = fs.readdir_host(&t, &meta(HostFileType::Directory), &host, 0).unwrap();
    let names: Vec<Vec<u8>> = listed.iter().map(|e| e.name.clone()).collect();
    let host_names: Vec<Vec<u8>> = host.iter().map(|e| e.name.clone()).collect();
    assert_eq!(names.len(), host_names.len());
    assert_eq!(names, host_names);
    let kinds: Vec<FileKind> = listed.iter().map(|e| e.kind).collect();
    assert_eq!(kinds, vec![FileKind::RegularFile, FileKind::Directory, FileKind::Directory]);
    let offsets: Vec<u64> = listed.iter().map(|e| e.offset).collect();
    assert_eq!(offsets, vec![1, 2, 3]);
    assert_eq!(fs.get_data_path(listed[1].ino), Ok(b("data/stored.zip")));
}

#[test]
fn passthrough_open_holds_file_under_handle() {
    let mut fs = mounted();
    let ino = fs.lookup_(ROOT_INO, b"passthrough.txt").unwrap();
    let t = fs.resolve(ino).unwrap();
    assert_eq!(open_(&t, false), Ok(true));
    let content_data = b("passthrough content\n");
    let mut files: HandleTable<Vec<u8>> = HandleTable::new();
    let fh = files.insert(content_data.clone()).unwrap();
    assert_ne!(fh, 0);
    let content_mnt = files.get(fh).unwrap();
    assert_eq!(&content_data, content_mnt);
    assert_eq!(files.remove(fh), Some(content_data));
    assert_eq!(files.get(fh), Err(FsError::BadFileHandle));
}

#[test]
fn lookup_returns_existing_inode_and_leaves_table_on_bad_parent() {
    let mut fs = mounted();
    let a = fs.lookup_(ROOT_INO, b"a").unwrap();
    let before = fs.find_inode_by_path(b"data/a");
    assert_eq!(before, Some(a));
    assert_eq!(fs.lookup_(ROOT_INO, b"a"), Ok(a));
    assert_eq!(fs.lookup_(77, b"a"), Err(FsError::NotFound));
    assert_eq!(fs.find_inode_by_path(b"data/77/a"), None);
}

#[test]
fn handles_count_up_from_one() {
    let mut files: HandleTable<u8> = HandleTable::new();
    assert_eq!(files.insert(1), Ok(1));
    assert_eq!(files.insert(2), Ok(2));
    assert_eq!(files.remove(1), Some(1));
    assert_eq!(files.insert(3), Ok(3));
}

#[test]
fn test_corrupt_zip_mounts_dir() {
    let mut fs = mounted();
    let ino = fs.lookup_(ROOT_INO, b"corrupt.zip").unwrap();
    let t = fs.resolve(ino).unwrap();
    assert!(matches!(t.class, Classification::ArchiveRoot { .. }));
    assert!(!fs.is_cached(t.archive_ino));
    assert!(!fs.store_archive(t.archive_ino, None));
    assert!(!fs.is_cached(t.archive_ino));
    let a = fs.getattr_(&t, &meta(HostFileType::RegularFile), ino).unwrap();
    assert_eq!(a.kind, FileKind::Directory);
    assert_eq!(a.perm, 0o555);
    assert_eq!(fs.readdir_zip(&t, 0), Ok(vec![]));
    assert_eq!(fs.read_member(&t, 0, 10), Err(FsError::NotFound));
}

#[test]
fn readdir_passthrough_past_end_is_empty() {
    let mut fs = mounted();
    let t = fs.resolve(ROOT_INO).unwrap();
    let host = vec![entry("a", HostFileType::RegularFile), entry("b", HostFileType::RegularFile)];
    assert_eq!(fs.readdir_host(&t, &meta(HostFileType::Directory), &host, 2), Ok(vec![]));
    assert_eq!(fs.readdir_host(&t, &meta(HostFileType::Directory), &host, 7), Ok(vec![]));
    let rest = fs.readdir_host(&t, &meta(HostFileType::Directory), &host, 1).unwrap();
    assert_eq!(rest.len(), 1);
    assert_eq!(rest[0].name, b("b"));
    assert_eq!(rest[0].offset, 2);
}

#[test]
fn readdir_of_a_file_is_not_a_directory() {
    let mut fs = mounted();
    let t = fs.resolve(ROOT_INO).unwrap();
    assert_eq!(fs.readdir_host(&t, &meta(HostFileType::RegularFile), &vec![], 0), Err(FsError::NotADirectory));
}

#[test]
fn readdir_with_unsupported_entry_fails() {
    let mut fs = mounted();
    let t = fs.resolve(ROOT_INO).unwrap();
    let host = vec![entry("a", HostFileType::RegularFile), entry("link", HostFileType::Other)];
    assert_eq!(fs.readdir_host(&t, &meta(HostFileType::Directory), &host, 0), Err(FsError::Unsupported));
    let zip_link = vec![entry("a.zip", HostFileType::Other)];
    let listed = fs.readdir_host(&t, &meta(HostFileType::Directory), &zip_link, 0).unwrap();
    assert_eq!(listed[0].kind, FileKind::Directory);
}

#[test]
fn stored_zip_navigation_and_read() {
    let mut fs = mounted();
    let zip = fs.lookup_(ROOT_INO, b"stored.zip").unwrap();
    let t = fs.resolve(zip).unwrap();
    assert!(fs.store_archive(t.archive_ino, Some(CachedArchive { index: fixture(true), handle: 7 })));
    assert_eq!(fs.cached(t.archive_ino).map(|a| a.handle), Some(7));

    let root = fs.readdir_zip(&t, 0).unwrap();
    assert_eq!(root.len(), 1);
    assert_eq!(root[0].name, b("some"));
    assert_eq!(root[0].kind, FileKind::Directory);
    assert_eq!(root[0].offset, 1);
    assert_eq!(fs.get_data_path(root[0].ino), Ok(b("data/stored.zip/some")));
    assert_eq!(fs.readdir_zip(&t, 1), Ok(vec![]));

    let some = fs.resolve(root[0].ino).unwrap();
    let nested = fs.readdir_zip(&some, 0).unwrap();
    assert_eq!(nested.len(), 1);
    assert_eq!(nested[0].name, b("nested"));

    let nested_t = fs.resolve(nested[0].ino).unwrap();
    let files = fs.readdir_zip(&nested_t, 0).unwrap();
    assert_eq!(files.len(), 1);
    assert_eq!(files[0].name, b("file.txt"));
    assert_eq!(files[0].kind, FileKind::RegularFile);

    let f = fs.resolve(files[0].ino).unwrap();
    assert_eq!(f.archive_ino, t.archive_ino);
    let a = fs.getattr_(&f, &meta(HostFileType::RegularFile), files[0].ino).unwrap();
    assert_eq!(a.kind, FileKind::RegularFile);
    assert_eq!(a.perm, 0o444);
    assert_eq!(a.ino, files[0].ino);
    assert_eq!(a.mtime, 20);
    let again = fs.getattr_(&f, &meta(HostFileType::RegularFile), files[0].ino).unwrap();
    assert_eq!(a, again);

    assert_eq!(fs.read_member(&f, 0, 4096), Ok(ReadPlan::Stored { pos: 64, len: 195 }));
    assert_eq!(fs.read_member(&f, 0, 4096), Ok(ReadPlan::Stored { pos: 64, len: 195 }));
    assert_eq!(fs.read_member(&f, 195, 4096), Ok(ReadPlan::Empty));

    let d = fs.getattr_(&nested_t, &meta(HostFileType::RegularFile), nested[0].ino).unwrap();
    assert_eq!(d.kind, FileKind::Directory);
    assert_eq!(d.perm, 0o555);
}

#[test]
fn encrypted_member_is_a_directory() {
    let mut fs = mounted();
    let zip = fs.lookup_(ROOT_INO, b"encrypted.zip").unwrap();
    let t = fs.resolve(zip).unwrap();
    let index = ArchiveIndex { members: vec![Member { name: b("some/nested/file.txt"), info: None }] };
    assert!(fs.store_archive(t.archive_ino, Some(CachedArchive { index, handle: 1 })));
    let root = fs.readdir_zip(&t, 0).unwrap();
    assert_eq!(root[0].name, b("some"));
    let some = fs.lookup_(zip, b"some").unwrap();
    let nested = fs.lookup_(some, b"nested").unwrap();
    let file = fs.lookup_(nested, b"file.txt").unwrap();
    let ft = fs.resolve(file).unwrap();
    let a = fs.getattr_(&ft, &meta(HostFileType::RegularFile), file).unwrap();
    assert_eq!(a.kind, FileKind::Directory);
    assert_eq!(fs.read_member(&ft, 0, 10), Err(FsError::NotFound));
}

#[test]
fn passthrough_getattr_is_verbatim() {
    let mut fs = mounted();
    let ino = fs.lookup_(ROOT_INO, b"passthrough.txt").unwrap();
    let t = fs.resolve(ino).unwrap();
    assert_eq!(t.archive_ino, 0);
    let a = fs.getattr_(&t, &meta(HostFileType::RegularFile), ino).unwrap();
    assert_eq!(a.kind, FileKind::RegularFile);
    assert_eq!(a.perm, 0o100644);
    assert_eq!(a.size, 512);
    assert_eq!(fs.read_member(&t, 0, 10), Err(FsError::BadFileHandle));
}

#[test]
fn unknown_inode_is_not_found() {
    let mut fs = mounted();
    let t = fs.resolve(ROOT_INO).unwrap();
    assert_eq!(fs.getattr_(&t, &meta(HostFileType::Directory), 99), Err(FsError::NotFound));
    assert_eq!(fs.getattr_(&t, &meta(HostFileType::Directory), 0), Err(FsError::NotFound));
    assert_eq!(fs.get_data_path(0), Err(FsError::NotFound));
    assert_eq!(fs.get_data_path(99), Err(FsError::NotFound));
    assert!(fs.resolve(99).is_err());
    assert_eq!(fs.lookup_(99, b"x"), Err(FsError::NotFound));
}

#[test]
fn inodes_are_stable() {
    let mut fs = mounted();
    let a = fs.lookup_(ROOT_INO, b"x").unwrap();
    let b2 = fs.lookup_(ROOT_INO, b"y").unwrap();
    assert_eq!(fs.lookup_(ROOT_INO, b"x").unwrap(), a);
    assert_ne!(a, b2);
    assert_eq!(fs.find_inode_by_path(b"data/y"), Some(b2));
    assert_eq!(fs.find_inode_by_path(b"data/z"), None);
}

#[test]
fn open_decisions() {
    let mut fs = mounted();
    let p = fs.lookup_(ROOT_INO, b"passthrough.txt").unwrap();
    let tp = fs.resolve(p).unwrap();
    assert_eq!(open_(&tp, false), Ok(true));
    assert_eq!(open_(&tp, true), Err(FsError::PermissionDenied));
    let z = fs.lookup_(ROOT_INO, b"stored.zip").unwrap();
    let tz = fs.resolve(z).unwrap();
    assert_eq!(open_(&tz, false), Ok(false));
}

#[test]
fn cache_evicts_least_recently_used() {
    let mut c: ArchiveCache<u32> = ArchiveCache::new(2);
    assert_eq!(c.insert(1, 10), None);
    assert_eq!(c.insert(2, 20), None);
    assert_eq!(c.get(1), Some(&10));
    assert_eq!(c.insert(3, 30), Some(2));
    assert_eq!(c.len(), 2);
    assert_eq!(c.cap(), 2);
    assert!(c.contains_key(1));
    assert!(!c.contains_key(2));
    assert_eq!(c.get(3), Some(&30));
    assert_eq!(c.insert(4, 40), Some(1));
    assert_eq!(c.get(1), None);
    assert_eq!(c.len(), 2);
}

#[test]
fn mount_cache_holds_at_most_its_capacity() {
    let mut fs = mounted();
    for (i, name) in ["a.zip", "b.zip", "c.zip"].iter().enumerate() {
        let ino = fs.lookup_(ROOT_INO, name.as_bytes()).unwrap();
        let t = fs.resolve(ino).unwrap();
        assert!(fs.store_archive(t.archive_ino, Some(CachedArchive { index: fixture(false), handle: i as u32 })));
    }
    let a = fs.find_inode_by_path(b"data/a.zip").unwrap();
    let c = fs.find_inode_by_path(b"data/c.zip").unwrap();
    assert!(!fs.is_cached(a));
    assert!(fs.is_cached(c));
}

#[test]
fn handles_are_nonzero_and_checked() {
    let mut t: HandleTable<&str> = HandleTable::new();
    let h1 = t.insert("one").unwrap();
    let h2 = t.insert("two").unwrap();
    assert!(h1 >= 1);
    assert_ne!(h1, h2);
    assert_eq!(t.get(h2), Ok(&"two"));
    assert_eq!(t.get(0), Err(FsError::BadFileHandle));
    assert_eq!(t.remove(h1), Some("one"));
    assert_eq!(t.get(h1), Err(FsError::BadFileHandle));
    assert_eq!(t.remove(h1), None);
    assert_eq!(t.get(h2), Ok(&"two"));
}

#[test]
fn used_archive_survives_eviction() {
    let mut fs = mounted();
    let mut zinos = Vec::new();
    for name in ["a.zip", "b.zip"] {
        let ino = fs.lookup_(ROOT_INO, name.as_bytes()).unwrap();
        let t = fs.resolve(ino).unwrap();
        assert!(fs.store_archive(t.archive_ino, Some(CachedArchive { index: fixture(false), handle: 0 })));
        zinos.push(t.archive_ino);
    }
    assert!(fs.cached(zinos[0]).is_some());
    let c = fs.lookup_(ROOT_INO, b"c.zip").unwrap();
    let tc = fs.resolve(c).unwrap();
    assert!(fs.store_archive(tc.archive_ino, Some(CachedArchive { index: fixture(false), handle: 0 })));
    assert!(fs.is_cached(zinos[0]));
    assert!(!fs.is_cached(zinos[1]));
    assert!(fs.is_cached(tc.archive_ino));
}

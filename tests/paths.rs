use zipfs::attr::{
    dir_attr, map_ft, member_file_attr, metadata_to_file_attrs, FileKind, HostFileType, HostMeta,
    MetadataFileAttr,
};
use zipfs::error::FsError;
use zipfs::options::{parse_mount_options, MountOpt};
use zipfs::path::{classify, get_zip_paths, is_zip_name, join, Classification};

fn b(s: &str) -> Vec<u8> {
    s.as_bytes().to_vec()
}

#[test]
fn classify_plain_path_passes_through() {
    let c = classify(b"data/passthrough.txt");
    assert_eq!(c, Classification::Passthrough { host: b("data/passthrough.txt") });
}

#[test]
fn classify_archive_root() {
    let c = classify(b"data/stored.zip");
    assert_eq!(c, Classification::ArchiveRoot { archive: b("data/stored.zip") });
}

#[test]
fn classify_member_path() {
    let c = classify(b"data/stored.zip/some/nested/file.txt");
    assert_eq!(
        c,
        Classification::InArchive { archive: b("data/stored.zip"), inner: b("some/nested/file.txt") }
    );
}

#[test]
fn classify_ignores_names_that_only_contain_zip() {
    assert!(matches!(classify(b"data/foo.zip.bak/x"), Classification::Passthrough { .. }));
    assert!(matches!(classify(b"data/a.zippy"), Classification::Passthrough { .. }));
    assert!(matches!(classify(b"data/ZIP.ZIP"), Classification::Passthrough { .. }));
}

#[test]
fn classify_picks_component_nearest_the_leaf() {
    let c = classify(b"/a.zip/b.zip/c");
    assert_eq!(c, Classification::InArchive { archive: b("/a.zip/b.zip"), inner: b("c") });
}

#[test]
fn get_zip_paths_splits_or_declines() {
    assert_eq!(get_zip_paths(b"/d/x.zip/y"), Some((b("/d/x.zip"), b("y"))));
    assert_eq!(get_zip_paths(b"/d/x.zip"), Some((b("/d/x.zip"), b(""))));
    assert_eq!(get_zip_paths(b"/d/x"), None);
    assert_eq!(get_zip_paths(b""), None);
}

#[test]
fn zip_names() {
    assert!(is_zip_name(b"stored.zip"));
    assert!(is_zip_name(b".zip"));
    assert!(!is_zip_name(b"zip"));
    assert!(!is_zip_name(b"stored.zipx"));
    assert!(!is_zip_name(b""));
}

#[test]
fn join_inserts_one_separator() {
    assert_eq!(join(b"data", b"a.txt"), b("data/a.txt"));
    assert_eq!(join(b"/", b"a.txt"), b("/a.txt"));
    assert_eq!(join(b"", b"a.txt"), b("a.txt"));
}

fn meta(ft: HostFileType) -> HostMeta {
    HostMeta {
        ino: 42,
        size: 195,
        blocks: 8,
        atime: 1_700_000_000,
        mtime: 1_700_000_100,
        ctime: 1_700_000_200,
        file_type: ft,
        mode: 0o100644,
        nlink: 1,
        uid: 1000,
        gid: 100,
        rdev: 0,
        blksize: 4096,
    }
}

#[test]
fn host_metadata_becomes_attributes() {
    let a = metadata_to_file_attrs(&meta(HostFileType::RegularFile)).unwrap();
    assert_eq!(a.ino, 42);
    assert_eq!(a.size, 195);
    assert_eq!(a.blocks, 8);
    assert_eq!(a.atime, 1_700_000_000);
    assert_eq!(a.mtime, 1_700_000_100);
    assert_eq!(a.ctime, 1_700_000_200);
    assert_eq!(a.crtime, 1_700_000_200);
    assert_eq!(a.kind, FileKind::RegularFile);
    assert_eq!(a.perm, 0o100644);
    assert_eq!(a.nlink, 1);
    assert_eq!(a.uid, 1000);
    assert_eq!(a.gid, 100);
    assert_eq!(a.blksize, 4096);
    let d = metadata_to_file_attrs(&meta(HostFileType::Directory)).unwrap();
    assert_eq!(d.kind, FileKind::Directory);
}

#[test]
fn other_host_types_are_unsupported() {
    assert_eq!(metadata_to_file_attrs(&meta(HostFileType::Other)), Err(FsError::Unsupported));
    assert_eq!(map_ft(HostFileType::Other), Err(FsError::Unsupported));
    assert_eq!(map_ft(HostFileType::Directory), Ok(FileKind::Directory));
}

#[test]
fn wide_fields_are_cut_to_the_record_width() {
    let mut m = meta(HostFileType::RegularFile);
    m.nlink = (1u64 << 32) + 3;
    m.mode = 0x1_0000 | 0o600;
    let a = metadata_to_file_attrs(&m).unwrap();
    assert_eq!(a.nlink, 3);
    assert_eq!(a.perm, 0o600);
}

#[test]
fn to_file_attr_treats_non_directories_as_files() {
    assert_eq!(meta(HostFileType::Other).to_file_attr().kind, FileKind::RegularFile);
    assert_eq!(meta(HostFileType::Directory).to_file_attr().kind, FileKind::Directory);
}

#[test]
fn archive_overrides() {
    let a = metadata_to_file_attrs(&meta(HostFileType::RegularFile)).unwrap();
    let d = dir_attr(a);
    assert_eq!(d.kind, FileKind::Directory);
    assert_eq!(d.perm, 0o555);
    assert_eq!(d.mtime, a.mtime);
    assert_eq!(d.uid, a.uid);
    let f = member_file_attr(d);
    assert_eq!(f.kind, FileKind::RegularFile);
    assert_eq!(f.perm, 0o444);
    assert_eq!(f.size, a.size);
}

#[test]
fn mount_options_are_recognised_or_passed_through() {
    let o = parse_mount_options(b"ro,allow_other,default_permissions,allow_root,,fsname=x");
    assert_eq!(
        o,
        vec![
            MountOpt::Custom(b("ro")),
            MountOpt::AllowOther,
            MountOpt::DefaultPermissions,
            MountOpt::AllowRoot,
            MountOpt::Custom(b("")),
            MountOpt::Custom(b("fsname=x")),
        ]
    );
    assert_eq!(parse_mount_options(b""), vec![MountOpt::Custom(b(""))]);
    assert_eq!(parse_mount_options(b"allow_others"), vec![MountOpt::Custom(b("allow_others"))]);
}

#[test]
fn components_that_are_not_utf8_are_never_archives() {
    assert_eq!(get_zip_paths(b"/d/\xff.zip"), None);
    assert_eq!(get_zip_paths(b"/d/\xff.zip/x"), None);
    assert_eq!(
        get_zip_paths(b"/a.zip/\xff.zip/c"),
        Some((b("/a.zip"), b"\xff.zip/c".to_vec()))
    );
    assert!(matches!(classify(b"/d/\xff.zip/x"), Classification::Passthrough { .. }));
}

#[test]
fn utf8_component_names_can_be_archives() {
    assert_eq!(
        get_zip_paths("/d/\u{e9}t\u{e9}.zip/x".as_bytes()),
        Some(("/d/\u{e9}t\u{e9}.zip".as_bytes().to_vec(), b("x")))
    );
}

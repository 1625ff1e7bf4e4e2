use zipfs::archive::{window, ArchiveIndex, Member, MemberInfo, ReadPlan};
use zipfs::attr::FileKind;
use zipfs::error::FsError;

fn b(s: &str) -> Vec<u8> {
    s.as_bytes().to_vec()
}

fn dir(name: &str) -> Member {
    Member { name: b(name), info: Some(MemberInfo { is_dir: true, stored: true, size: 0, data_start: 0 }) }
}

fn file(name: &str, stored: bool, size: u64, data_start: u64) -> Member {
    Member { name: b(name), info: Some(MemberInfo { is_dir: false, stored, size, data_start }) }
}

fn fixture(stored: bool) -> ArchiveIndex {
    ArchiveIndex {
        members: vec![dir("some/"), dir("some/nested/"), file("some/nested/file.txt", stored, 195, 100)],
    }
}

#[test]
fn stored_archive_navigation() {
    let ix = fixture(true);
    assert_eq!(ix.child_names(b""), vec![b("some")]);
    assert_eq!(ix.child_names(b"some"), vec![b("nested")]);
    assert_eq!(ix.child_names(b"some/nested"), vec![b("file.txt")]);
    assert_eq!(ix.child_names(b"some/nested/file.txt"), Vec::<Vec<u8>>::new());
}

#[test]
fn archive_without_directory_entries_lists_the_same() {
    let ix = ArchiveIndex { members: vec![file("some/nested/file.txt", false, 195, 0)] };
    assert_eq!(ix.child_names(b""), vec![b("some")]);
    assert_eq!(ix.child_names(b"some"), vec![b("nested")]);
    assert_eq!(ix.child_names(b"/some"), vec![b("nested")]);
}

#[test]
fn children_sorted_stably_by_length() {
    let ix = ArchiveIndex {
        members: vec![
            file("abc/x", true, 1, 0),
            file("b", true, 1, 0),
            file("a/y", true, 1, 0),
            file("ab", true, 1, 0),
        ],
    };
    assert_eq!(ix.child_names(b""), vec![b("b"), b("a"), b("ab"), b("abc")]);
}

#[test]
fn only_neighbouring_repeats_are_dropped() {
    let ix = ArchiveIndex {
        members: vec![file("a/1", true, 1, 0), file("a/2", true, 1, 0), file("c/1", true, 1, 0), file("a/3", true, 1, 0)],
    };
    assert_eq!(ix.child_names(b""), vec![b("a"), b("c"), b("a")]);
}

#[test]
fn kinds_of_members() {
    let ix = fixture(true);
    assert_eq!(ix.kind_of(b"some/nested/file.txt"), FileKind::RegularFile);
    assert_eq!(ix.kind_of(b"some/nested"), FileKind::Directory);
    assert_eq!(ix.kind_of(b"no/such/name"), FileKind::Directory);
    let enc = ArchiveIndex { members: vec![Member { name: b("some/nested/file.txt"), info: None }] };
    assert_eq!(enc.kind_of(b"some/nested/file.txt"), FileKind::Directory);
}

#[test]
fn lookup_finds_the_first_readable_member() {
    let ix = fixture(true);
    assert_eq!(ix.lookup(b"some/nested/file.txt").map(|(i, _)| i), Some(2));
    assert_eq!(ix.lookup(b"some/nested/file"), None);
    let enc = ArchiveIndex { members: vec![Member { name: b("x"), info: None }, file("x", true, 1, 0)] };
    assert_eq!(enc.lookup(b"x"), None);
}

#[test]
fn stored_member_reads_in_place() {
    let ix = fixture(true);
    assert_eq!(ix.plan_read(b"some/nested/file.txt", 0, 4096), Ok(ReadPlan::Stored { pos: 100, len: 195 }));
    assert_eq!(ix.plan_read(b"some/nested/file.txt", 10, 20), Ok(ReadPlan::Stored { pos: 110, len: 20 }));
}

#[test]
fn compressed_member_is_decoded() {
    let ix = fixture(false);
    assert_eq!(
        ix.plan_read(b"some/nested/file.txt", 13, 4096),
        Ok(ReadPlan::Decode { index: 2, skip: 13, take: 182 })
    );
}

#[test]
fn read_at_end_gives_nothing() {
    let ix = fixture(true);
    assert_eq!(ix.plan_read(b"some/nested/file.txt", 195, 10), Ok(ReadPlan::Empty));
    assert_eq!(ix.plan_read(b"some/nested/file.txt", 500, 10), Ok(ReadPlan::Empty));
    assert_eq!(ix.plan_read(b"some/nested/file.txt", 0, 0), Ok(ReadPlan::Empty));
}

#[test]
fn read_past_end_is_cut_short() {
    let ix = fixture(true);
    assert_eq!(ix.plan_read(b"some/nested/file.txt", 190, 100), Ok(ReadPlan::Stored { pos: 290, len: 5 }));
}

#[test]
fn missing_or_unreadable_member_is_not_found() {
    let ix = fixture(true);
    assert_eq!(ix.plan_read(b"some/other.txt", 0, 10), Err(FsError::NotFound));
    let enc = ArchiveIndex { members: vec![Member { name: b("f"), info: None }] };
    assert_eq!(enc.plan_read(b"f", 0, 10), Err(FsError::NotFound));
}

#[test]
fn stored_position_overflow_is_reported() {
    let ix = ArchiveIndex { members: vec![file("f", true, 10, u64::MAX - 2)] };
    assert_eq!(ix.plan_read(b"f", 5, 1), Err(FsError::Overflow));
}

#[test]
fn window_cuts_content() {
    let data = b"some content\n".repeat(15);
    assert_eq!(window(&data, 0, 4096), data);
    assert_eq!(window(&data, 5, 7), b("content"));
    assert_eq!(window(&data, 190, 100), data[190..].to_vec());
    assert_eq!(window(&data, 195, 10), Vec::<u8>::new());
    assert_eq!(window(&data, 1000, 10), Vec::<u8>::new());
    assert_eq!(window(&data, 190, 100).len(), 5);
}

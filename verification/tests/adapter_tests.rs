use jjfs_nfs::adapter::{
    capabilities, lookup_finish, read_finish, readlink_prepare, register_new_object,
    remove_decide, remove_finish, rename_prepare, resolve_child, resolve_handle, root_handle,
    symlink_prepare, Capability, RemoveAction, Status,
};
use jjfs_nfs::attr::{make_attr, make_timespec, FileType, NativeMeta};
use jjfs_nfs::pathname::{join_path, utf8_check};
use jjfs_nfs::registry::Registry;

fn meta(is_dir: bool, is_symlink: bool, size: u64) -> NativeMeta {
    NativeMeta {
        is_dir,
        is_symlink,
        mode: 0o644,
        size,
        atime_secs: 100,
        atime_nanos: 1,
        mtime_secs: 200,
        mtime_nanos: 2,
        ctime_secs: 300,
        ctime_nanos: 3,
    }
}

#[test]
fn root_handle_is_one_and_capability_is_read_write() {
    assert_eq!(root_handle(), 1);
    assert_eq!(capabilities(), Capability::ReadWrite);
}

#[test]
fn utf8_check_accepts_text_and_rejects_bad_bytes() {
    assert!(utf8_check(&b"a.txt".to_vec()));
    assert!(utf8_check(&Vec::new()));
    assert!(!utf8_check(&vec![0xff, 0xfe]));
}

#[test]
fn join_inserts_single_separator() {
    assert_eq!(join_path(&b"/srv".to_vec(), &b"a.txt".to_vec()), b"/srv/a.txt".to_vec());
}

#[test]
fn resolve_child_joins_dir_and_name() {
    let reg = Registry::new(b"/srv/data".to_vec());
    assert_eq!(resolve_child(&reg, 1, &b"a.txt".to_vec()), Ok(b"/srv/data/a.txt".to_vec()));
}

#[test]
fn resolve_child_unknown_dir_is_not_found() {
    let reg = Registry::new(b"/srv/data".to_vec());
    assert_eq!(resolve_child(&reg, 7, &b"a.txt".to_vec()), Err(Status::NotFound));
}

#[test]
fn resolve_child_bad_name_is_invalid_argument() {
    let reg = Registry::new(b"/srv/data".to_vec());
    assert_eq!(resolve_child(&reg, 1, &vec![0xff, 0xfe]), Err(Status::InvalidArg));
}

#[test]
fn lookup_of_missing_path_is_not_found() {
    let mut reg = Registry::new(b"/srv/data".to_vec());
    let r = lookup_finish(&mut reg, b"/srv/data/nope".to_vec(), false);
    assert_eq!(r, Err(Status::NotFound));
    assert_eq!(reg.resolve(2), None);
}

#[test]
fn lookup_of_existing_path_allocates_then_reuses() {
    let mut reg = Registry::new(b"/srv/data".to_vec());
    let h1 = lookup_finish(&mut reg, b"/srv/data/a.txt".to_vec(), true).unwrap();
    let h2 = lookup_finish(&mut reg, b"/srv/data/a.txt".to_vec(), true).unwrap();
    assert_eq!(h1, 2);
    assert_eq!(h2, 2);
}

#[test]
fn attributes_are_synthesized_exactly() {
    let a = make_attr(&meta(false, false, 10), 2);
    assert_eq!(a.ftype, FileType::Regular);
    assert_eq!(a.mode, 0o644);
    assert_eq!(a.nlink, 1);
    assert_eq!(a.uid, 501);
    assert_eq!(a.gid, 20);
    assert_eq!(a.size, 10);
    assert_eq!(a.used, 10);
    assert_eq!(a.fsid, 0);
    assert_eq!(a.fileid, 2);
    assert_eq!(a.atime.seconds, 100);
    assert_eq!(a.atime.nseconds, 1);
    assert_eq!(a.mtime.seconds, 200);
    assert_eq!(a.ctime.seconds, 300);
}

#[test]
fn directory_wins_over_symlink_in_type_synthesis() {
    assert_eq!(make_attr(&meta(true, true, 0), 5).ftype, FileType::Directory);
    assert_eq!(make_attr(&meta(false, true, 0), 5).ftype, FileType::Symlink);
    assert_eq!(make_attr(&meta(false, false, 0), 5).ftype, FileType::Regular);
}

#[test]
fn timestamp_seconds_truncate_to_32_bits() {
    let t = make_timespec(0x1_0000_0005, 9);
    assert_eq!(t.seconds, 5);
    assert_eq!(t.nseconds, 9);
}

#[test]
fn read_shorter_than_asked_reports_eof() {
    let buf = vec![7u8; 1024];
    let (data, eof) = read_finish(buf, 10, 1024);
    assert_eq!(data.len(), 10);
    assert!(data.iter().all(|&b| b == 7));
    assert!(eof);
}

#[test]
fn full_read_does_not_report_eof() {
    let buf = vec![1u8; 8];
    let (data, eof) = read_finish(buf, 8, 8);
    assert_eq!(data.len(), 8);
    assert!(!eof);
}

#[test]
fn read_past_end_returns_nothing_and_eof() {
    let buf = vec![0u8; 16];
    let (data, eof) = read_finish(buf, 0, 16);
    assert!(data.is_empty());
    assert!(eof);
}

#[test]
fn zero_byte_read_reports_eof() {
    // A read at or beyond end of file returns no bytes and must report
    // end-of-file, also when no bytes were asked for.
    let (data, eof) = read_finish(Vec::new(), 0, 0);
    assert!(data.is_empty());
    assert!(eof);
}

#[test]
fn remove_of_absent_target_is_not_found() {
    assert_eq!(remove_decide(None), Err(Status::NotFound));
}

#[test]
fn remove_picks_the_matching_native_operation() {
    assert_eq!(remove_decide(Some(true)), Ok(RemoveAction::RemoveDir));
    assert_eq!(remove_decide(Some(false)), Ok(RemoveAction::RemoveFile));
}

#[test]
fn failed_native_removal_surfaces_as_io_error() {
    assert_eq!(remove_finish(false), Err(Status::IoError));
    assert_eq!(remove_finish(true), Ok(()));
}

#[test]
fn symlink_prepare_joins_link_path() {
    let reg = Registry::new(b"/srv".to_vec());
    let r = symlink_prepare(&reg, 1, &b"ln".to_vec(), &b"/target".to_vec(), true);
    assert_eq!(r, Ok(b"/srv/ln".to_vec()));
}

#[test]
fn symlink_without_platform_support_is_not_supported() {
    let reg = Registry::new(b"/srv".to_vec());
    let r = symlink_prepare(&reg, 1, &b"ln".to_vec(), &b"/target".to_vec(), false);
    assert_eq!(r, Err(Status::NotSupported));
}

#[test]
fn symlink_with_bad_target_is_invalid_argument() {
    let reg = Registry::new(b"/srv".to_vec());
    let r = symlink_prepare(&reg, 1, &b"ln".to_vec(), &vec![0x80], true);
    assert_eq!(r, Err(Status::InvalidArg));
}

#[test]
fn readlink_resolves_or_refuses() {
    let mut reg = Registry::new(b"/srv".to_vec());
    let h = reg.assign(b"/srv/ln".to_vec());
    assert_eq!(readlink_prepare(&reg, h, true), Ok(b"/srv/ln".to_vec()));
    assert_eq!(readlink_prepare(&reg, h, false), Err(Status::NotSupported));
    assert_eq!(readlink_prepare(&reg, 99, true), Err(Status::NotFound));
}

#[test]
fn rename_prepare_joins_both_paths() {
    let mut reg = Registry::new(b"/srv".to_vec());
    let sub = reg.assign(b"/srv/sub".to_vec());
    let r = rename_prepare(&reg, 1, &b"old".to_vec(), sub, &b"new".to_vec());
    assert_eq!(r, Ok((b"/srv/old".to_vec(), b"/srv/sub/new".to_vec())));
}

#[test]
fn rename_with_unknown_directory_is_not_found() {
    let reg = Registry::new(b"/srv".to_vec());
    assert_eq!(
        rename_prepare(&reg, 9, &b"a".to_vec(), 1, &b"b".to_vec()),
        Err(Status::NotFound)
    );
    assert_eq!(
        rename_prepare(&reg, 1, &b"a".to_vec(), 9, &b"b".to_vec()),
        Err(Status::NotFound)
    );
}

#[test]
fn rename_with_bad_name_is_invalid_argument() {
    let reg = Registry::new(b"/srv".to_vec());
    assert_eq!(
        rename_prepare(&reg, 1, &vec![0xc0], 1, &b"b".to_vec()),
        Err(Status::InvalidArg)
    );
}

#[test]
fn resolve_handle_finds_known_paths_only() {
    let mut reg = Registry::new(b"/srv".to_vec());
    let h = reg.assign(b"/srv/x".to_vec());
    assert_eq!(resolve_handle(&reg, h), Ok(&b"/srv/x".to_vec()));
    assert_eq!(resolve_handle(&reg, 42), Err(Status::NotFound));
}

#[test]
fn new_object_gets_handle_and_attributes() {
    let mut reg = Registry::new(b"/srv".to_vec());
    let (h, a) = register_new_object(&mut reg, b"/srv/new.txt".to_vec(), &meta(false, false, 0));
    assert_eq!(h, 2);
    assert_eq!(a.fileid, 2);
    assert_eq!(a.size, 0);
    assert_eq!(a.ftype, FileType::Regular);
    assert_eq!(reg.resolve(2), Some(&b"/srv/new.txt".to_vec()));
}

//! End-to-end scenarios over the decision half of the adapter, with the
//! native I/O results played in as the filesystem would report them.

use jjfs_nfs::adapter::{lookup_finish, read_finish, register_new_object, resolve_child,
    resolve_handle};
use jjfs_nfs::attr::{make_attr, FileType, NativeMeta};
use jjfs_nfs::registry::Registry;

fn file_meta(size: u64) -> NativeMeta {
    NativeMeta {
        is_dir: false,
        is_symlink: false,
        mode: 0o644,
        size,
        atime_secs: 10,
        atime_nanos: 0,
        mtime_secs: 10,
        mtime_nanos: 0,
        ctime_secs: 10,
        ctime_nanos: 0,
    }
}

fn dir_meta() -> NativeMeta {
    NativeMeta {
        is_dir: true,
        is_symlink: false,
        mode: 0o755,
        size: 64,
        atime_secs: 10,
        atime_nanos: 0,
        mtime_secs: 10,
        mtime_nanos: 0,
        ctime_secs: 10,
        ctime_nanos: 0,
    }
}

#[test]
fn serve_lookup_getattr_read_write_getattr() {
    // Served directory /srv/data holds a.txt, 10 bytes.
    let mut reg = Registry::new(b"/srv/data".to_vec());

    // lookup(root, "a.txt") -> handle 2
    let path = resolve_child(&reg, 1, &b"a.txt".to_vec()).unwrap();
    assert_eq!(path, b"/srv/data/a.txt".to_vec());
    let h = lookup_finish(&mut reg, path, true).unwrap();
    assert_eq!(h, 2);

    // getattr(2) -> size 10
    let p = resolve_handle(&reg, h).unwrap().clone();
    assert_eq!(p, b"/srv/data/a.txt".to_vec());
    let attr = make_attr(&file_meta(10), h);
    assert_eq!(attr.size, 10);

    // read(2, 0, 1024) -> 10 bytes, eof
    let mut buf = vec![0u8; 1024];
    buf[..10].copy_from_slice(b"0123456789");
    let (data, eof) = read_finish(buf, 10, 1024);
    assert_eq!(data, b"0123456789".to_vec());
    assert!(eof);

    // write(2, 10, "more") -> refreshed attributes report size 14
    assert!(resolve_handle(&reg, h).is_ok());
    let attr = make_attr(&file_meta(14), h);
    assert_eq!(attr.size, 14);

    // getattr(2) -> size 14
    let attr = make_attr(&file_meta(14), h);
    assert_eq!(attr.size, 14);
}

#[test]
fn new_empty_file_reports_size_zero_then_grows() {
    let mut reg = Registry::new(b"/srv/data".to_vec());
    let path = resolve_child(&reg, 1, &b"fresh.txt".to_vec()).unwrap();
    let (h, attr) = register_new_object(&mut reg, path, &file_meta(0));
    assert_eq!(attr.size, 0);
    assert_eq!(attr.ftype, FileType::Regular);

    // After a write of 4 bytes at offset 0 the refreshed stat reports >= 4.
    let attr = make_attr(&file_meta(4), h);
    assert!(attr.size >= 4);
}

#[test]
fn mkdir_then_second_lookup_returns_same_handle() {
    let mut reg = Registry::new(b"/srv/data".to_vec());

    // An earlier lookup took handle 2.
    let path = resolve_child(&reg, 1, &b"a.txt".to_vec()).unwrap();
    assert_eq!(lookup_finish(&mut reg, path, true).unwrap(), 2);

    // mkdir(root, "sub") -> handle 3, a directory
    let sub = resolve_child(&reg, 1, &b"sub".to_vec()).unwrap();
    let (h, attr) = register_new_object(&mut reg, sub, &dir_meta());
    assert_eq!(h, 3);
    assert_eq!(attr.ftype, FileType::Directory);

    // lookup(root, "sub") on a second call returns 3, not a new handle.
    let again = resolve_child(&reg, 1, &b"sub".to_vec()).unwrap();
    assert_eq!(lookup_finish(&mut reg, again, true).unwrap(), 3);
}

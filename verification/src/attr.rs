//! Attribute synthesis: protocol-shaped metadata built per request from
//! native file metadata handed in as plain values.
//!
//! Link count, owner and group are fixed synthetic values; the size and the
//! timestamps come straight from the native metadata; the object identifier
//! is the handle the registry bound to the path.

use vstd::prelude::*;

verus! {

/// The kind of a served object.
#[derive(Clone, Copy, Debug, PartialEq, Eq, Structural)]
pub enum FileType {
    Regular,
    Directory,
    Symlink,
}

/// A protocol timestamp: seconds and nanoseconds since the epoch.
#[derive(Clone, Copy, Debug, PartialEq, Eq, Structural)]
pub struct TimeSpec {
    pub seconds: u32,
    pub nseconds: u32,
}

/// Native file metadata, as plain values: what a stat of the path reports.
#[derive(Clone, Copy, Debug, PartialEq, Eq, Structural)]
pub struct NativeMeta {
    pub is_dir: bool,
    pub is_symlink: bool,
    /// Native permission bits.
    pub mode: u32,
    /// Size of the object in bytes.
    pub size: u64,
    pub atime_secs: u64,
    pub atime_nanos: u32,
    pub mtime_secs: u64,
    pub mtime_nanos: u32,
    pub ctime_secs: u64,
    pub ctime_nanos: u32,
}

/// The synthesized attribute record returned for a handle.
#[derive(Clone, Copy, Debug, PartialEq, Eq, Structural)]
pub struct FileAttr {
    pub ftype: FileType,
    pub mode: u32,
    pub nlink: u32,
    pub uid: u32,
    pub gid: u32,
    pub size: u64,
    pub used: u64,
    pub fsid: u64,
    pub fileid: u64,
    pub atime: TimeSpec,
    pub mtime: TimeSpec,
    pub ctime: TimeSpec,
}

/// Synthetic owner reported for every object.
pub const DEFAULT_UID: u32 = 501;

/// Synthetic group reported for every object.
pub const DEFAULT_GID: u32 = 20;

/// The object kind derived from native metadata: a directory wins over a
/// symlink, and anything else is a regular file.
pub open spec fn spec_file_type(m: NativeMeta) -> FileType {
    if m.is_dir {
        FileType::Directory
    } else if m.is_symlink {
        FileType::Symlink
    } else {
        FileType::Regular
    }
}

/// A native timestamp shaped for the protocol; the seconds are truncated to
/// 32 bits.
pub open spec fn spec_timespec(secs: u64, nanos: u32) -> TimeSpec {
    TimeSpec { seconds: (secs % 0x1_0000_0000) as u32, nseconds: nanos }
}

/// The full attribute record synthesized for handle `id` from metadata `m`.
pub open spec fn spec_attr(m: NativeMeta, id: u64) -> FileAttr {
    FileAttr {
        ftype: spec_file_type(m),
        mode: m.mode,
        nlink: 1,
        uid: DEFAULT_UID,
        gid: DEFAULT_GID,
        size: m.size,
        used: m.size,
        fsid: 0,
        fileid: id,
        atime: spec_timespec(m.atime_secs, m.atime_nanos),
        mtime: spec_timespec(m.mtime_secs, m.mtime_nanos),
        ctime: spec_timespec(m.ctime_secs, m.ctime_nanos),
    }
}

/// Shapes a native timestamp for the protocol.
pub fn make_timespec(secs: u64, nanos: u32) -> (r: TimeSpec)
    ensures
        r == spec_timespec(secs, nanos),
{
    TimeSpec { seconds: (secs % 0x1_0000_0000) as u32, nseconds: nanos }
}

/// Synthesizes the attribute record for handle `id` from native metadata.
pub fn make_attr(m: &NativeMeta, id: u64) -> (r: FileAttr)
    ensures
        r == spec_attr(*m, id),
{
    let ftype = if m.is_dir {
        FileType::Directory
    } else if m.is_symlink {
        FileType::Symlink
    } else {
        FileType::Regular
    };
    FileAttr {
        ftype,
        mode: m.mode,
        nlink: 1,
        uid: DEFAULT_UID,
        gid: DEFAULT_GID,
        size: m.size,
        used: m.size,
        fsid: 0,
        fileid: id,
        atime: make_timespec(m.atime_secs, m.atime_nanos),
        mtime: make_timespec(m.mtime_secs, m.mtime_nanos),
        ctime: make_timespec(m.ctime_secs, m.ctime_nanos),
    }
}

} // verus!

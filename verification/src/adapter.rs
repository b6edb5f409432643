//! The decision half of each protocol operation: handle resolution, name
//! validation, path joining, handle allocation and outcome shaping.
//!
//! Each operation splits in two around its native I/O. A `..._prepare`
//! function turns the protocol arguments into the path the I/O must touch,
//! or the error owed when a handle is unknown or a name is not valid text; a
//! finishing function takes what the I/O reported and produces the
//! protocol-shaped result.

use vstd::prelude::*;

use crate::attr::{make_attr, spec_attr, FileAttr, NativeMeta};
use crate::pathname::{clone_bytes, is_utf8, join_path, spec_join, utf8_check};
use crate::registry::{model_assign, model_handle, Registry};

verus! {

/// The protocol-facing error kinds.
#[derive(Clone, Copy, Debug, PartialEq, Eq, Structural)]
pub enum Status {
    /// The handle is unknown, or the target path does not exist.
    NotFound,
    /// A supplied name is not valid text.
    InvalidArg,
    /// A native filesystem operation failed.
    IoError,
    /// The operation is unavailable on this platform.
    NotSupported,
}

/// What the adapter reports it can do.
#[derive(Clone, Copy, Debug, PartialEq, Eq, Structural)]
pub enum Capability {
    ReadOnly,
    ReadWrite,
}

/// How a removal must be performed, by the kind of the target.
#[derive(Clone, Copy, Debug, PartialEq, Eq, Structural)]
pub enum RemoveAction {
    RemoveDir,
    RemoveFile,
}

/// The registry state and returned handle after a lookup-or-insert, as
/// `Registry::assign` leaves them.
pub open spec fn assign_post(pre: Registry, post: Registry, p: Seq<u8>, h: u64) -> bool {
    &&& post.root_path() == pre.root_path()
    &&& post.assigned() == model_assign(pre.root_path(), pre.assigned(), p)
    &&& h == model_handle(post.root_path(), post.assigned(), p)
    &&& post.spec_resolve(h) == Some(p)
}

/// The root handle, fixed at 1, returned unconditionally.
pub fn root_handle() -> (r: u64)
    ensures
        r == 1u64,
{
    1
}

/// The adapter serves reads and writes alike.
pub fn capabilities() -> (r: Capability)
    ensures
        r == Capability::ReadWrite,
{
    Capability::ReadWrite
}

/// Resolves a handle to the path the operation must touch: the step shared
/// by attribute queries, reads, writes and link reads.
pub fn resolve_handle(reg: &Registry, id: u64) -> (r: Result<&Vec<u8>, Status>)
    ensures
        match r {
            Ok(p) => reg.spec_resolve(id) == Some(p@),
            Err(s) => s == Status::NotFound && reg.spec_resolve(id) is None,
        },
{
    match reg.resolve(id) {
        Some(p) => Ok(p),
        None => Err(Status::NotFound),
    }
}

/// Resolves a directory handle and joins a child name onto it: the step
/// shared by lookup, create, mkdir and remove. An unknown directory handle
/// is NotFound; a name that is not valid text is InvalidArg.
pub fn resolve_child(reg: &Registry, dirid: u64, name: &Vec<u8>) -> (r: Result<Vec<u8>, Status>)
    ensures
        match r {
            Ok(p) => reg.spec_resolve(dirid) is Some && is_utf8(name@) && p@ == spec_join(
                reg.spec_resolve(dirid).unwrap(),
                name@,
            ),
            Err(s) => (s == Status::NotFound && reg.spec_resolve(dirid) is None) || (s
                == Status::InvalidArg && reg.spec_resolve(dirid) is Some && !is_utf8(name@)),
        },
{
    let dir = match reg.resolve(dirid) {
        Some(p) => p,
        None => {
            return Err(Status::NotFound);
        },
    };
    if !utf8_check(name) {
        return Err(Status::InvalidArg);
    }
    Ok(join_path(dir, name))
}

/// Finishes a lookup once the native side has said whether the joined path
/// exists: an existing path gets its handle (allocating one the first time),
/// a missing one is NotFound and the registry is untouched.
pub fn lookup_finish(reg: &mut Registry, path: Vec<u8>, exists: bool) -> (r: Result<u64, Status>)
    requires
        old(reg).wf(),
        old(reg).assigned().len() + 2 < u64::MAX,
    ensures
        final(reg).wf(),
        final(reg).root_path() == old(reg).root_path(),
        exists ==> r is Ok && assign_post(*old(reg), *final(reg), path@, r.unwrap()),
        !exists ==> r == Err::<u64, Status>(Status::NotFound) && *final(reg) == *old(reg),
        forall|g: u64|
            old(reg).spec_resolve(g) is Some ==> final(reg).spec_resolve(g) == old(
                reg,
            ).spec_resolve(g),
{
    if !exists {
        return Err(Status::NotFound);
    }
    Ok(reg.assign(path))
}

/// Registers an object the native side just produced (a created file, a new
/// directory, a new link): binds the path to a handle and synthesizes its
/// attributes from the metadata the native side reported.
pub fn register_new_object(reg: &mut Registry, path: Vec<u8>, meta: &NativeMeta) -> (r: (
    u64,
    FileAttr,
))
    requires
        old(reg).wf(),
        old(reg).assigned().len() + 2 < u64::MAX,
    ensures
        final(reg).wf(),
        assign_post(*old(reg), *final(reg), path@, r.0),
        r.1 == spec_attr(*meta, r.0),
        forall|g: u64|
            old(reg).spec_resolve(g) is Some ==> final(reg).spec_resolve(g) == old(
                reg,
            ).spec_resolve(g),
{
    let id = reg.assign(path);
    let attr = make_attr(meta, id);
    (id, attr)
}

/// Prepares a symlink creation: resolves the directory, validates both the
/// link name and the target as text, and refuses the operation where the
/// platform has no symlinks.
pub fn symlink_prepare(
    reg: &Registry,
    dirid: u64,
    linkname: &Vec<u8>,
    target: &Vec<u8>,
    platform_has_symlinks: bool,
) -> (r: Result<Vec<u8>, Status>)
    ensures
        match r {
            Ok(p) => reg.spec_resolve(dirid) is Some && is_utf8(linkname@) && is_utf8(target@)
                && platform_has_symlinks && p@ == spec_join(
                reg.spec_resolve(dirid).unwrap(),
                linkname@,
            ),
            Err(s) => (s == Status::NotFound && reg.spec_resolve(dirid) is None) || (s
                == Status::InvalidArg && reg.spec_resolve(dirid) is Some && (!is_utf8(linkname@)
                || !is_utf8(target@))) || (s == Status::NotSupported && reg.spec_resolve(
                dirid,
            ) is Some && is_utf8(linkname@) && is_utf8(target@) && !platform_has_symlinks),
        },
{
    let dir = match reg.resolve(dirid) {
        Some(p) => p,
        None => {
            return Err(Status::NotFound);
        },
    };
    if !utf8_check(linkname) {
        return Err(Status::InvalidArg);
    }
    if !utf8_check(target) {
        return Err(Status::InvalidArg);
    }
    if !platform_has_symlinks {
        return Err(Status::NotSupported);
    }
    Ok(join_path(dir, linkname))
}

/// Prepares a link read: resolves the handle, and refuses the operation
/// where the platform has no symlinks.
pub fn readlink_prepare(reg: &Registry, id: u64, platform_has_symlinks: bool) -> (r: Result<
    Vec<u8>,
    Status,
>)
    ensures
        match r {
            Ok(p) => reg.spec_resolve(id) == Some(p@) && platform_has_symlinks,
            Err(s) => (s == Status::NotFound && reg.spec_resolve(id) is None) || (s
                == Status::NotSupported && reg.spec_resolve(id) is Some
                && !platform_has_symlinks),
        },
{
    let path = match reg.resolve(id) {
        Some(p) => p,
        None => {
            return Err(Status::NotFound);
        },
    };
    if !platform_has_symlinks {
        return Err(Status::NotSupported);
    }
    Ok(clone_bytes(path))
}

/// Finishes a read: keeps the bytes the native read filled in and reports
/// end-of-file exactly when fewer bytes came back than were asked for, or
/// when none were asked for. A read at or beyond end of file hands back no
/// bytes, so with the zero-byte case included the indicator is true for
/// every such read — also for a zero-byte probe, which the
/// fewer-than-requested rule alone would miss.
pub fn read_finish(buf: Vec<u8>, bytes_read: usize, count: u32) -> (r: (Vec<u8>, bool))
    requires
        bytes_read <= buf@.len(),
        buf@.len() == count,
    ensures
        r.0@ == buf@.take(bytes_read as int),
        r.1 == (bytes_read < count as usize || count == 0),
        bytes_read < count as usize ==> r.1,
        count == 0 ==> r.1,
{
    let mut buf = buf;
    let eof = count == 0 || bytes_read < count as usize;
    buf.truncate(bytes_read);
    (buf, eof)
}

/// Decides how a removal proceeds from what a stat of the target reported:
/// no metadata means the target is absent (NotFound); a directory is removed
/// as a directory, anything else as a file.
pub fn remove_decide(stat: Option<bool>) -> (r: Result<RemoveAction, Status>)
    ensures
        match stat {
            None => r == Err::<RemoveAction, Status>(Status::NotFound),
            Some(d) => r == Ok::<RemoveAction, Status>(
                if d {
                    RemoveAction::RemoveDir
                } else {
                    RemoveAction::RemoveFile
                },
            ),
        },
{
    match stat {
        None => Err(Status::NotFound),
        Some(d) => Ok(
            if d {
                RemoveAction::RemoveDir
            } else {
                RemoveAction::RemoveFile
            },
        ),
    }
}

/// Shapes the outcome of the native removal: a failure surfaces as IoError,
/// never as silent success.
pub fn remove_finish(removed: bool) -> (r: Result<(), Status>)
    ensures
        removed ==> r == Ok::<(), Status>(()),
        !removed ==> r == Err::<(), Status>(Status::IoError),
{
    if removed {
        Ok(())
    } else {
        Err(Status::IoError)
    }
}

/// Prepares a rename: resolves both directory handles and joins both names,
/// in the order the protocol checks them (source directory, target
/// directory, source name, target name).
pub fn rename_prepare(
    reg: &Registry,
    from_dirid: u64,
    from_name: &Vec<u8>,
    to_dirid: u64,
    to_name: &Vec<u8>,
) -> (r: Result<(Vec<u8>, Vec<u8>), Status>)
    ensures
        match r {
            Ok(p) => reg.spec_resolve(from_dirid) is Some && reg.spec_resolve(to_dirid) is Some
                && is_utf8(from_name@) && is_utf8(to_name@) && p.0@ == spec_join(
                reg.spec_resolve(from_dirid).unwrap(),
                from_name@,
            ) && p.1@ == spec_join(reg.spec_resolve(to_dirid).unwrap(), to_name@),
            Err(s) => (s == Status::NotFound && (reg.spec_resolve(from_dirid) is None
                || reg.spec_resolve(to_dirid) is None)) || (s == Status::InvalidArg
                && reg.spec_resolve(from_dirid) is Some && reg.spec_resolve(to_dirid) is Some && (
            !is_utf8(from_name@) || !is_utf8(to_name@))),
        },
{
    let from_dir = match reg.resolve(from_dirid) {
        Some(p) => p,
        None => {
            return Err(Status::NotFound);
        },
    };
    let to_dir = match reg.resolve(to_dirid) {
        Some(p) => p,
        None => {
            return Err(Status::NotFound);
        },
    };
    if !utf8_check(from_name) {
        return Err(Status::InvalidArg);
    }
    if !utf8_check(to_name) {
        return Err(Status::InvalidArg);
    }
    Ok((join_path(from_dir, from_name), join_path(to_dir, to_name)))
}

} // verus!

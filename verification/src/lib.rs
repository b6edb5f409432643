//! Core of a pass-through file server: a handle registry that keeps a
//! bijection between opaque numeric handles and filesystem paths, and the
//! logic that turns protocol operations (lookup, read, readdir, ...) into
//! decisions over that registry, with synthesized attributes and paginated
//! directory listings.
//!
//! All native I/O (stat, open, read, write, directory enumeration) happens
//! outside this crate; callers hand the results in as plain values.

pub mod adapter;
pub mod attr;
pub mod pathname;
pub mod readdir;
pub mod registry;

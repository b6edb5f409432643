//! Byte-level path values and the joining rule used by the registry and the
//! adapter: a path is an absolute filesystem path held as its raw bytes, and
//! joining a directory path with a child name inserts a single separator.

use vstd::prelude::*;

verus! {

/// The path-component separator.
pub const SEPARATOR: u8 = 47;

/// The path obtained by joining a directory path with a child name.
pub open spec fn spec_join(dir: Seq<u8>, name: Seq<u8>) -> Seq<u8> {
    dir + seq![SEPARATOR] + name
}

/// Whether a byte sequence is valid UTF-8; protocol names that are not are
/// rejected as invalid arguments.
pub uninterp spec fn is_utf8(s: Seq<u8>) -> bool;

/// Relies on std::str::from_utf8: whether it accepts a byte slice depends on
/// the bytes alone (it succeeds exactly on valid UTF-8).
#[verifier::external_body]
pub fn utf8_check(b: &Vec<u8>) -> (r: bool)
    ensures
        r == is_utf8(b@),
{
    std::str::from_utf8(b.as_slice()).is_ok()
}

/// Byte-wise equality of two paths.
pub fn bytes_eq(a: &Vec<u8>, b: &Vec<u8>) -> (r: bool)
    ensures
        r == (a@ == b@),
{
    if a.len() != b.len() {
        return false;
    }
    let mut i: usize = 0;
    while i < a.len()
        invariant
            a@.len() == b@.len(),
            i <= a@.len(),
            forall|j: int| 0 <= j < i ==> a@[j] == b@[j],
        decreases a@.len() - i,
    {
        if a[i] != b[i] {
            return false;
        }
        i += 1;
    }
    proof {
        assert(a@ =~= b@);
    }
    true
}

/// An owned copy of a path value.
pub fn clone_bytes(v: &Vec<u8>) -> (r: Vec<u8>)
    ensures
        r@ == v@,
{
    let mut r: Vec<u8> = Vec::new();
    let mut i: usize = 0;
    while i < v.len()
        invariant
            i <= v@.len(),
            r@ == v@.take(i as int),
        decreases v@.len() - i,
    {
        r.push(v[i]);
        proof {
            assert(v@.take(i + 1 as int) =~= v@.take(i as int).push(v@[i as int]));
        }
        i += 1;
    }
    proof {
        assert(v@.take(v@.len() as int) =~= v@);
    }
    r
}

/// Joins a directory path and a child name with a separator between them.
pub fn join_path(dir: &Vec<u8>, name: &Vec<u8>) -> (r: Vec<u8>)
    ensures
        r@ == spec_join(dir@, name@),
{
    let mut r = clone_bytes(dir);
    r.push(SEPARATOR);
    let mut i: usize = 0;
    while i < name.len()
        invariant
            i <= name@.len(),
            r@ == dir@ + seq![SEPARATOR] + name@.take(i as int),
        decreases name@.len() - i,
    {
        r.push(name[i]);
        proof {
            assert(dir@ + seq![SEPARATOR] + name@.take(i + 1 as int) =~= (dir@ + seq![SEPARATOR]
                + name@.take(i as int)).push(name@[i as int]));
        }
        i += 1;
    }
    proof {
        assert(name@.take(name@.len() as int) =~= name@);
    }
    r
}

} // verus!

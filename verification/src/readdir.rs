//! Paginated directory listing.
//!
//! The native side enumerates a directory and hands the entries in, in the
//! order the native enumeration yielded them, each with its stat result.
//! This module assigns each entry its handle (allocating lazily through the
//! registry), filters out entries whose handle is at or below the resumption
//! cursor, synthesizes attributes, caps the page at the requested size and
//! reports whether the listing is complete.

use vstd::prelude::*;

use crate::attr::{make_attr, spec_attr, FileAttr, NativeMeta};
use crate::pathname::{clone_bytes, join_path, spec_join};
use crate::registry::{
    lemma_handle_of_index, model_assign, model_contains, model_handle, model_wf, Registry,
};

verus! {

/// A native directory entry as handed in: its name and its stat result.
pub struct RawEntry {
    pub name: Vec<u8>,
    pub meta: NativeMeta,
}

/// One returned listing entry: the handle, the name, and the synthesized
/// attributes.
pub struct DirEntryOut {
    pub fileid: u64,
    pub name: Vec<u8>,
    pub attr: FileAttr,
}

/// One page of a listing, and whether it ends the enumeration.
pub struct ReadDirPage {
    pub entries: Vec<DirEntryOut>,
    pub end: bool,
}

/// The mathematical shape of a returned entry.
pub open spec fn entry_view(e: DirEntryOut) -> (u64, Seq<u8>, FileAttr) {
    (e.fileid, e.name@, e.attr)
}

pub open spec fn entry_views(s: Seq<DirEntryOut>) -> Seq<(u64, Seq<u8>, FileAttr)> {
    s.map(|i: int, e: DirEntryOut| entry_view(e))
}

/// What one page of a listing is: walking the raw entries in order, each
/// entry is bound to its handle (a lookup-or-insert on the registry state);
/// entries at or below the cursor are passed over when the cursor is set;
/// the others are returned with synthesized attributes until the page is
/// full. The result is the registry state left behind, the returned entries,
/// and whether the raw entries were exhausted.
pub open spec fn spec_page(
    root: Seq<u8>,
    assigned: Seq<Seq<u8>>,
    dir: Seq<u8>,
    raw: Seq<RawEntry>,
    start_after: u64,
    remaining: nat,
) -> (Seq<Seq<u8>>, Seq<(u64, Seq<u8>, FileAttr)>, bool)
    decreases raw.len(),
{
    if raw.len() == 0 {
        (assigned, Seq::<(u64, Seq<u8>, FileAttr)>::empty(), true)
    } else if remaining == 0 {
        (assigned, Seq::<(u64, Seq<u8>, FileAttr)>::empty(), false)
    } else {
        let p = spec_join(dir, raw[0].name@);
        let a2 = model_assign(root, assigned, p);
        let id = model_handle(root, a2, p);
        if start_after != 0 && id <= start_after {
            spec_page(root, a2, dir, raw.drop_first(), start_after, remaining)
        } else {
            let rest = spec_page(root, a2, dir, raw.drop_first(), start_after, (remaining
                - 1) as nat);
            (
                rest.0,
                seq![(id, raw[0].name@, spec_attr(raw[0].meta, id))] + rest.1,
                rest.2,
            )
        }
    }
}

/// Produces one page of the listing of directory `dir`, whose raw entries
/// are `raw`, resuming after handle `start_after` (0 means from the start),
/// with at most `max_entries` entries.
pub fn readdir_page(
    reg: &mut Registry,
    dir: &Vec<u8>,
    raw: &Vec<RawEntry>,
    start_after: u64,
    max_entries: usize,
) -> (r: ReadDirPage)
    requires
        old(reg).wf(),
        old(reg).assigned().len() + raw@.len() + 2 < u64::MAX,
    ensures
        final(reg).wf(),
        final(reg).root_path() == old(reg).root_path(),
        ({
            let page = spec_page(
                old(reg).root_path(),
                old(reg).assigned(),
                dir@,
                raw@,
                start_after,
                max_entries as nat,
            );
            &&& final(reg).assigned() == page.0
            &&& entry_views(r.entries@) == page.1
            &&& r.end == page.2
        }),
        forall|g: u64|
            old(reg).spec_resolve(g) is Some ==> final(reg).spec_resolve(g) == old(
                reg,
            ).spec_resolve(g),
{
    let ghost reg0 = *reg;
    let ghost root0 = reg.root_path();
    let ghost a0 = reg.assigned();
    let ghost full = spec_page(root0, a0, dir@, raw@, start_after, max_entries as nat);
    let mut entries: Vec<DirEntryOut> = Vec::new();
    let mut count: usize = 0;
    let mut i: usize = 0;
    proof {
        assert(raw@.skip(0) =~= raw@);
    }
    while i < raw.len()
        invariant
            reg0 == *old(reg),
            root0 == reg0.root_path(),
            a0 == reg0.assigned(),
            reg.wf(),
            reg.root_path() == root0,
            i <= raw@.len(),
            count <= max_entries,
            count == entries@.len(),
            reg.assigned().len() <= a0.len() + i,
            a0.len() + raw@.len() + 2 < u64::MAX,
            full == spec_page(root0, a0, dir@, raw@, start_after, max_entries as nat),
            ({
                let rest = spec_page(
                    root0,
                    reg.assigned(),
                    dir@,
                    raw@.skip(i as int),
                    start_after,
                    (max_entries - count) as nat,
                );
                &&& full.0 == rest.0
                &&& full.1 == entry_views(entries@) + rest.1
                &&& full.2 == rest.2
            }),
            forall|g: u64|
                reg0.spec_resolve(g) is Some ==> reg.spec_resolve(g) == reg0.spec_resolve(g),
        decreases raw@.len() - i,
    {
        proof {
            assert(raw@.skip(i as int).len() == raw@.len() - i);
            assert(raw@.skip(i as int)[0] == raw@[i as int]);
            assert(raw@.skip(i as int).drop_first() =~= raw@.skip(i as int + 1));
        }
        if count >= max_entries {
            proof {
                assert(full.1 =~= entry_views(entries@));
            }
            return ReadDirPage { entries, end: false };
        }
        let ghost pre = *reg;
        let p = join_path(dir, &raw[i].name);
        let id = reg.assign(p);
        if start_after != 0 && id <= start_after {
            i += 1;
        } else {
            let attr = make_attr(&raw[i].meta, id);
            let name = clone_bytes(&raw[i].name);
            let e = DirEntryOut { fileid: id, name, attr };
            proof {
                let ghost ev = entry_view(e);
                let rest_pre = spec_page(
                    root0,
                    pre.assigned(),
                    dir@,
                    raw@.skip(i as int),
                    start_after,
                    (max_entries - count) as nat,
                );
                let rest = spec_page(
                    root0,
                    reg.assigned(),
                    dir@,
                    raw@.skip(i as int + 1),
                    start_after,
                    (max_entries - (count + 1)) as nat,
                );
                assert(rest_pre.1 == seq![ev] + rest.1);
                assert(entry_views(entries@.push(e)) =~= entry_views(entries@).push(ev));
                assert(entry_views(entries@) + (seq![ev] + rest.1) =~= entry_views(
                    entries@,
                ).push(ev) + rest.1);
            }
            entries.push(e);
            count += 1;
            i += 1;
        }
    }
    proof {
        assert(raw@.skip(raw@.len() as int) =~= Seq::<RawEntry>::empty());
        assert(full.1 =~= entry_views(entries@));
    }
    ReadDirPage { entries, end: true }
}

/// The paths the raw entries of a listing of `dir` join to, in order.
pub open spec fn joined_paths(dir: Seq<u8>, raw: Seq<RawEntry>) -> Seq<Seq<u8>> {
    raw.map(|i: int, e: RawEntry| spec_join(dir, e.name@))
}

/// A listing whose entries are all new to the registry: their joined paths
/// are pairwise distinct and none is bound yet.
pub open spec fn fresh_listing(
    root: Seq<u8>,
    assigned: Seq<Seq<u8>>,
    dir: Seq<u8>,
    raw: Seq<RawEntry>,
) -> bool {
    &&& forall|i: int, j: int|
        0 <= i < j < raw.len() ==> joined_paths(dir, raw)[i] != joined_paths(dir, raw)[j]
    &&& forall|i: int|
        0 <= i < raw.len() ==> !model_contains(root, assigned, joined_paths(dir, raw)[i])
}

/// The entry a page built over registry state `(root, a)` returns for the
/// raw entry at position `pos`, when that entry was the `off`-th path bound
/// after `a`.
pub open spec fn expected_entry(a: Seq<Seq<u8>>, raw: Seq<RawEntry>, pos: int, off: int) -> (
    u64,
    Seq<u8>,
    FileAttr,
) {
    (
        (a.len() + 2 + off) as u64,
        raw[pos].name@,
        spec_attr(raw[pos].meta, (a.len() + 2 + off) as u64),
    )
}

/// What a page looks like when the raw entries split into an already-bound
/// prefix at or below the cursor (passed over) and a not-yet-bound rest
/// (returned in order, at consecutive fresh handles): the page holds the
/// next slice of the rest, and the listing is complete exactly when the rest
/// fits in the page.
proof fn lemma_page_slice(
    root: Seq<u8>,
    a: Seq<Seq<u8>>,
    dir: Seq<u8>,
    raw: Seq<RawEntry>,
    j: int,
    start_after: u64,
    k: nat,
)
    requires
        model_wf(root, a),
        k >= 1,
        0 <= j <= raw.len(),
        forall|i1: int, i2: int|
            0 <= i1 < i2 < raw.len() ==> joined_paths(dir, raw)[i1] != joined_paths(dir, raw)[i2],
        forall|i: int|
            0 <= i < j ==> model_contains(root, a, joined_paths(dir, raw)[i]) && model_handle(
                root,
                a,
                joined_paths(dir, raw)[i],
            ) <= start_after,
        forall|i: int| j <= i < raw.len() ==> !model_contains(root, a, joined_paths(dir, raw)[i]),
        start_after == 0 ==> j == 0,
        start_after != 0 ==> start_after < a.len() + 2,
        a.len() + (raw.len() - j) + 2 <= u64::MAX,
    ensures
        ({
            let page = spec_page(root, a, dir, raw, start_after, k);
            let m = if k as int <= raw.len() - j {
                k as int
            } else {
                raw.len() - j
            };
            &&& page.0 == a + joined_paths(dir, raw).subrange(j, j + m)
            &&& page.1.len() == m
            &&& (forall|i: int| 0 <= i < m ==> page.1[i] == expected_entry(a, raw, j + i, i))
            &&& page.2 == (raw.len() - j <= k)
        }),
    decreases raw.len(),
{
    let jp = joined_paths(dir, raw);
    let page = spec_page(root, a, dir, raw, start_after, k);
    let m = if k as int <= raw.len() - j {
        k as int
    } else {
        raw.len() - j
    };
    if raw.len() == 0 {
        assert(a + jp.subrange(0, 0) =~= a);
    } else {
        let p = spec_join(dir, raw[0].name@);
        assert(jp[0] == p);
        let raw1 = raw.drop_first();
        let jp1 = joined_paths(dir, raw1);
        assert(jp1 =~= jp.drop_first());
        assert(forall|i: int| 0 <= i < raw1.len() ==> jp1[i] == jp[i + 1]);
        if j > 0 {
            assert(model_contains(root, a, p));
            let a2 = model_assign(root, a, p);
            assert(a2 == a);
            let id = model_handle(root, a, p);
            assert(id <= start_after && start_after != 0);
            lemma_page_slice(root, a, dir, raw1, j - 1, start_after, k);
            let m1 = if k as int <= raw1.len() - (j - 1) {
                k as int
            } else {
                raw1.len() - (j - 1)
            };
            assert(m1 == m);
            assert(jp1.subrange(j - 1, j - 1 + m) =~= jp.subrange(j, j + m));
            let page1 = spec_page(root, a, dir, raw1, start_after, k);
            assert(page == page1);
            assert(forall|i: int| 0 <= i < m ==> page.1[i] == expected_entry(a, raw, j + i, i))
                by {
                assert(forall|i: int|
                    0 <= i < m ==> page1.1[i] == expected_entry(a, raw1, j - 1 + i, i));
                assert(forall|i: int| 0 <= i < m ==> #[trigger] raw1[j - 1 + i] == raw[j + i]);
            }
        } else {
            assert(!model_contains(root, a, p));
            let a2 = model_assign(root, a, p);
            assert(a2 == a.push(p));
            assert(model_wf(root, a2)) by {
                assert(forall|i: int| 0 <= i < a.len() ==> a2[i] == a[i]);
                assert(forall|i: int| 0 <= i < a.len() ==> a2[i] != p) by {
                    assert(!a.contains(p));
                    assert(forall|i: int| 0 <= i < a.len() ==> a[i] != p) by {
                        if exists|i: int| 0 <= i < a.len() && a[i] == p {
                            let i = choose|i: int| 0 <= i < a.len() && a[i] == p;
                            assert(a.contains(p));
                        }
                    }
                }
            }
            assert(a2[a.len() as int] == p);
            lemma_handle_of_index(root, a2, p, a.len() as int);
            let id = model_handle(root, a2, p);
            assert(id == a.len() + 2);
            assert(!(start_after != 0 && id <= start_after));
            let rest = spec_page(root, a2, dir, raw1, start_after, (k - 1) as nat);
            assert(page.0 == rest.0 && page.2 == rest.2);
            assert(page.1 == seq![(id, raw[0].name@, spec_attr(raw[0].meta, id))] + rest.1);
            // the remaining raw entries are still unbound after binding p
            assert(forall|i: int| 0 <= i < raw1.len() ==> !model_contains(root, a2, jp1[i])) by {
                assert(forall|i: int|
                    0 <= i < raw1.len() ==> jp1[i] != root && !a.contains(jp1[i]) && jp1[i] != p);
                assert(forall|i: int| 0 <= i < raw1.len() ==> !a2.contains(jp1[i])) by {
                    assert(forall|i: int, l: int|
                        0 <= i < raw1.len() && 0 <= l < a2.len() ==> a2[l] != jp1[i]) by {
                        assert(forall|i: int, l: int|
                            0 <= i < raw1.len() && 0 <= l < a.len() ==> a[l] != jp1[i]) by {
                            assert(forall|i: int|
                                0 <= i < raw1.len() ==> !a.contains(jp1[i]));
                            assert(forall|i: int, l: int|
                                0 <= i < raw1.len() && 0 <= l < a.len() && a[l] == jp1[i]
                                    ==> a.contains(jp1[i]));
                        }
                    }
                }
            }
            if k == 1 {
                assert(m == 1);
                if raw1.len() == 0 {
                    assert(rest == (a2, Seq::<(u64, Seq<u8>, FileAttr)>::empty(), true));
                } else {
                    assert(rest == (a2, Seq::<(u64, Seq<u8>, FileAttr)>::empty(), false));
                }
                assert(page.0 == a2);
                assert(a2 =~= a + jp.subrange(0, 1));
                assert(page.1.len() == 1);
                assert(page.1[0] == expected_entry(a, raw, 0, 0));
                assert(page.2 == (raw.len() <= 1));
            } else {
                lemma_page_slice(root, a2, dir, raw1, 0, start_after, (k - 1) as nat);
                let m1 = if (k - 1) as int <= raw1.len() {
                    (k - 1) as int
                } else {
                    raw1.len() as int
                };
                assert(m1 == m - 1);
                assert(page.0 == a2 + jp1.subrange(0, m - 1));
                assert(a2 + jp1.subrange(0, m - 1) =~= a + jp.subrange(0, m)) by {
                    assert(forall|i: int| 0 <= i < m - 1 ==> jp1[i] == jp[i + 1]);
                }
                assert(page.1.len() == m);
                assert(forall|i: int| 0 <= i < m ==> page.1[i] == expected_entry(a, raw, i, i))
                    by {
                    assert(page.1[0] == (id, raw[0].name@, spec_attr(raw[0].meta, id)));
                    assert(forall|i: int|
                        0 <= i < m - 1 ==> rest.1[i] == expected_entry(a2, raw1, i, i));
                    assert(forall|i: int| 1 <= i < m ==> page.1[i] == rest.1[i - 1]);
                    assert(forall|i: int| 0 <= i < m - 1 ==> raw1[i] == raw[i + 1]);
                }
                assert(page.2 == (raw1.len() <= k - 1));
            }
        }
    }
}

/// The first page of a fresh listing returns the first entries in the order
/// the native enumeration yielded them, bound to consecutive handles
/// starting just past the registry, holds exactly `k` of them when more
/// than `k` entries exist (with the listing reported incomplete), and
/// reports the listing complete exactly when no entry was left over.
pub proof fn lemma_readdir_first_page(
    root: Seq<u8>,
    a: Seq<Seq<u8>>,
    dir: Seq<u8>,
    raw: Seq<RawEntry>,
    k: nat,
)
    requires
        model_wf(root, a),
        fresh_listing(root, a, dir, raw),
        k >= 1,
        a.len() + raw.len() + 2 <= u64::MAX,
    ensures
        ({
            let page = spec_page(root, a, dir, raw, 0, k);
            let m = if k as int <= raw.len() {
                k as int
            } else {
                raw.len() as int
            };
            &&& page.1.len() == m
            &&& (forall|i: int| 0 <= i < m ==> page.1[i] == expected_entry(a, raw, i, i))
            &&& page.2 == (raw.len() <= k)
        }),
{
    lemma_page_slice(root, a, dir, raw, 0, 0, k);
}

/// Resuming a fresh listing with the cursor set to the last returned handle
/// and the same page size yields exactly the next slice, in order, with no
/// entry repeated and none passed over, and reports the listing complete
/// exactly when nothing is left after the second page.
pub proof fn lemma_readdir_resume(
    root: Seq<u8>,
    a: Seq<Seq<u8>>,
    dir: Seq<u8>,
    raw: Seq<RawEntry>,
    k: nat,
)
    requires
        model_wf(root, a),
        fresh_listing(root, a, dir, raw),
        1 <= k < raw.len(),
        a.len() + raw.len() + 2 <= u64::MAX,
    ensures
        ({
            let page1 = spec_page(root, a, dir, raw, 0, k);
            let cursor = page1.1[k - 1].0;
            let page2 = spec_page(root, page1.0, dir, raw, cursor, k);
            let m2 = if k as int <= raw.len() - k {
                k as int
            } else {
                raw.len() - k
            };
            &&& page1.1.len() == k && !page1.2
            &&& (forall|i: int| 0 <= i < k ==> page1.1[i] == expected_entry(a, raw, i, i))
            &&& page2.1.len() == m2
            &&& (forall|i: int|
                0 <= i < m2 ==> page2.1[i] == expected_entry(a, raw, k + i, k + i))
            &&& page2.2 == (raw.len() <= k + k)
        }),
{
    let jp = joined_paths(dir, raw);
    lemma_page_slice(root, a, dir, raw, 0, 0, k);
    let page1 = spec_page(root, a, dir, raw, 0, k);
    let a1 = page1.0;
    assert(a1 == a + jp.subrange(0, k as int));
    let cursor = page1.1[k - 1].0;
    assert(cursor == a.len() + 2 + (k - 1));
    assert(model_wf(root, a1)) by {
        assert(forall|i: int| 0 <= i < a.len() ==> a1[i] == a[i]);
        assert(forall|i: int| 0 <= i < k ==> a1[a.len() + i] == jp[i]);
        assert(forall|i: int| 0 <= i < raw.len() ==> jp[i] != root && !a.contains(jp[i]));
        assert(forall|i: int, l: int|
            0 <= i < raw.len() && 0 <= l < a.len() ==> a[l] != jp[i]) by {
            assert(forall|i: int, l: int|
                0 <= i < raw.len() && 0 <= l < a.len() && a[l] == jp[i] ==> a.contains(jp[i]));
        }
    }
    assert(forall|i: int|
        0 <= i < k ==> model_contains(root, a1, jp[i]) && model_handle(root, a1, jp[i])
            <= cursor) by {
        assert(forall|i: int| 0 <= i < k ==> a1[a.len() + i] == jp[i]);
        assert(forall|i: int| 0 <= i < k ==> a1.contains(jp[i]));
        assert(forall|i: int|
            0 <= i < k ==> model_handle(root, a1, jp[i]) == a.len() + i + 2) by {
            assert forall|i: int| 0 <= i < k implies model_handle(root, a1, jp[i]) == a.len() + i
                + 2 by {
                lemma_handle_of_index(root, a1, jp[i], a.len() + i);
            }
        }
    }
    assert(forall|i: int| k <= i < raw.len() ==> !model_contains(root, a1, jp[i])) by {
        assert(forall|i: int| k <= i < raw.len() ==> jp[i] != root && !a.contains(jp[i]));
        assert(forall|i: int, l: int|
            k <= i < raw.len() && 0 <= l < a1.len() ==> a1[l] != jp[i]) by {
            assert(forall|i: int, l: int|
                k <= i < raw.len() && 0 <= l < a.len() && a[l] == jp[i] ==> a.contains(jp[i]));
            assert(forall|l: int|
                a.len() <= l < a1.len() ==> #[trigger] a1[l] == jp[l - a.len()]);
        }
        assert(forall|i: int| k <= i < raw.len() ==> !a1.contains(jp[i])) by {
            assert forall|i: int| k <= i < raw.len() implies !a1.contains(jp[i]) by {
                if a1.contains(jp[i]) {
                    let l = choose|l: int| 0 <= l < a1.len() && a1[l] == jp[i];
                }
            }
        }
    }
    lemma_page_slice(root, a1, dir, raw, k as int, cursor, k);
    assert(forall|i: int|
        0 <= i < (if k as int <= raw.len() - k {
            k as int
        } else {
            raw.len() - k
        }) ==> spec_page(root, a1, dir, raw, cursor, k).1[i] == expected_entry(
            a1,
            raw,
            k + i,
            i,
        ));
    assert(a1.len() == a.len() + k);
    assert(forall|pos: int, i: int| #[trigger] expected_entry(a1, raw, pos, i) == expected_entry(
        a,
        raw,
        pos,
        k + i,
    ));
}

} // verus!

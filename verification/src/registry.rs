//! The handle registry: a bijection between opaque numeric handles and
//! absolute paths, for the lifetime of a session.
//!
//! Handle 1 is permanently bound to the served root directory. Every other
//! handle is allocated lazily, in increasing order starting at 2, the first
//! time a path is observed; bindings are never removed, so handle `i + 2`
//! is the path that was assigned `i`-th.

use vstd::prelude::*;

use crate::pathname::bytes_eq;

verus! {

/// Whether a path is bound in a registry whose root is `root` and whose
/// non-root paths, in order of assignment, are `assigned`.
pub open spec fn model_contains(root: Seq<u8>, assigned: Seq<Seq<u8>>, p: Seq<u8>) -> bool {
    p == root || assigned.contains(p)
}

/// The handle bound to a path (meaningful only when the path is bound):
/// 1 for the root, position of assignment plus 2 otherwise.
pub open spec fn model_handle(root: Seq<u8>, assigned: Seq<Seq<u8>>, p: Seq<u8>) -> u64 {
    if p == root {
        1
    } else {
        (assigned.index_of(p) + 2) as u64
    }
}

/// The path bound to a handle, if any.
pub open spec fn model_resolve(root: Seq<u8>, assigned: Seq<Seq<u8>>, h: u64) -> Option<Seq<u8>> {
    if h == 1 {
        Some(root)
    } else if 2 <= h && h < assigned.len() + 2 {
        Some(assigned[h - 2])
    } else {
        None
    }
}

/// The assigned paths after a lookup-or-insert of `p`: unchanged when `p` is
/// already bound, extended by `p` otherwise.
pub open spec fn model_assign(root: Seq<u8>, assigned: Seq<Seq<u8>>, p: Seq<u8>) -> Seq<Seq<u8>> {
    if model_contains(root, assigned, p) {
        assigned
    } else {
        assigned.push(p)
    }
}

/// The bijection invariant: no path is bound twice, and no assigned path
/// shadows the root.
pub open spec fn model_wf(root: Seq<u8>, assigned: Seq<Seq<u8>>) -> bool {
    &&& forall|i: int, j: int|
        0 <= i < j < assigned.len() ==> assigned[i] != assigned[j]
    &&& forall|i: int| 0 <= i < assigned.len() ==> assigned[i] != root
}

/// The handle registry. `paths[i]` is the path bound to handle `i + 2`;
/// the root path is bound to handle 1.
pub struct Registry {
    root: Vec<u8>,
    paths: Vec<Vec<u8>>,
}

impl Registry {
    /// The served root path.
    pub closed spec fn root_path(&self) -> Seq<u8> {
        self.root@
    }

    /// The non-root paths, in order of assignment.
    pub closed spec fn assigned(&self) -> Seq<Seq<u8>> {
        self.paths@.map(|i: int, p: Vec<u8>| p@)
    }

    pub open spec fn wf(&self) -> bool {
        model_wf(self.root_path(), self.assigned())
    }

    pub open spec fn spec_contains(&self, p: Seq<u8>) -> bool {
        model_contains(self.root_path(), self.assigned(), p)
    }

    pub open spec fn spec_handle(&self, p: Seq<u8>) -> u64 {
        model_handle(self.root_path(), self.assigned(), p)
    }

    pub open spec fn spec_resolve(&self, h: u64) -> Option<Seq<u8>> {
        model_resolve(self.root_path(), self.assigned(), h)
    }

    /// A fresh registry, seeded with the root binding alone.
    pub fn new(root: Vec<u8>) -> (r: Registry)
        ensures
            r.root_path() == root@,
            r.assigned() == Seq::<Seq<u8>>::empty(),
            r.wf(),
    {
        let r = Registry { root, paths: Vec::new() };
        proof {
            assert(r.assigned() =~= Seq::<Seq<u8>>::empty());
        }
        r
    }

    /// How many non-root paths have been assigned handles.
    pub fn assigned_count(&self) -> (n: usize)
        ensures
            n == self.assigned().len(),
    {
        self.paths.len()
    }

    /// Looks up the path bound to a handle.
    pub fn resolve(&self, h: u64) -> (r: Option<&Vec<u8>>)
        ensures
            match r {
                Some(p) => self.spec_resolve(h) == Some(p@),
                None => self.spec_resolve(h) is None,
            },
    {
        if h == 1 {
            Some(&self.root)
        } else if h >= 2 && h - 2 < self.paths.len() as u64 {
            let i = (h - 2) as usize;
            Some(&self.paths[i])
        } else {
            None
        }
    }

    /// Returns the handle already bound to `p`, or binds `p` to the next
    /// unused handle. The lookup and the insert are one step: no two handles
    /// are ever given out for one path.
    pub fn assign(&mut self, p: Vec<u8>) -> (h: u64)
        requires
            old(self).wf(),
            old(self).assigned().len() + 2 < u64::MAX,
        ensures
            final(self).wf(),
            final(self).root_path() == old(self).root_path(),
            final(self).assigned() == model_assign(
                old(self).root_path(),
                old(self).assigned(),
                p@,
            ),
            h == model_handle(final(self).root_path(), final(self).assigned(), p@),
            final(self).spec_resolve(h) == Some(p@),
            old(self).spec_contains(p@) ==> final(self).assigned() == old(self).assigned() && h
                == old(self).spec_handle(p@),
            !old(self).spec_contains(p@) ==> final(self).assigned() == old(self).assigned().push(
                p@,
            ) && h == old(self).assigned().len() + 2,
            forall|g: u64|
                old(self).spec_resolve(g) is Some ==> final(self).spec_resolve(g) == old(
                    self,
                ).spec_resolve(g),
    {
        if bytes_eq(&p, &self.root) {
            return 1;
        }
        let ghost pre = *self;
        let mut i: usize = 0;
        while i < self.paths.len()
            invariant
                *self == pre,
                self.wf(),
                self.assigned().len() + 2 < u64::MAX,
                i <= self.paths@.len(),
                forall|j: int| 0 <= j < i ==> self.assigned()[j] != p@,
            decreases self.paths@.len() - i,
        {
            if bytes_eq(&p, &self.paths[i]) {
                proof {
                    assert(self.assigned()[i as int] == p@);
                    assert(self.assigned().contains(p@));
                    lemma_handle_of_index(
                        self.root_path(),
                        self.assigned(),
                        p@,
                        i as int,
                    );
                }
                return (i as u64) + 2;
            }
            i += 1;
        }
        let h = (self.paths.len() as u64) + 2;
        proof {
            assert(forall|j: int|
                0 <= j < pre.assigned().len() ==> pre.assigned()[j] != p@);
            assert(!pre.assigned().contains(p@));
        }
        self.paths.push(p);
        proof {
            assert(self.assigned() =~= pre.assigned().push(p@));
            assert(self.assigned()[pre.assigned().len() as int] == p@);
            assert(self.assigned().contains(p@));
            lemma_handle_of_index(
                self.root_path(),
                self.assigned(),
                p@,
                pre.assigned().len() as int,
            );
        }
        h
    }
}

/// In a well-formed registry, a path that stands at position `i` has handle
/// `i + 2`: the chosen index in `model_handle` is the only index.
pub proof fn lemma_handle_of_index(root: Seq<u8>, assigned: Seq<Seq<u8>>, p: Seq<u8>, i: int)
    requires
        model_wf(root, assigned),
        0 <= i < assigned.len(),
        assigned[i] == p,
        assigned.len() + 2 <= u64::MAX,
    ensures
        model_contains(root, assigned, p),
        model_handle(root, assigned, p) == i + 2,
        model_resolve(root, assigned, model_handle(root, assigned, p)) == Some(p),
    decreases 0int,
{
    assert(assigned.contains(p));
    assert(p != root);
    let j = assigned.index_of(p);
    assert(0 <= j < assigned.len() && assigned[j] == p);
    if i != j {
        assert(assigned[i] == assigned[j]);
        assert(false);
    }
}

/// Assigning a path and then resolving the returned handle gives the path
/// back, and assigning the same path again returns the same handle with the
/// registry unchanged: allocation is idempotent.
pub proof fn lemma_assign_idempotent(root: Seq<u8>, assigned: Seq<Seq<u8>>, p: Seq<u8>)
    requires
        model_wf(root, assigned),
        assigned.len() + 2 < u64::MAX,
    ensures
        ({
            let a1 = model_assign(root, assigned, p);
            let h = model_handle(root, a1, p);
            &&& model_resolve(root, a1, h) == Some(p)
            &&& model_assign(root, a1, p) == a1
            &&& model_handle(root, model_assign(root, a1, p), p) == h
            &&& model_wf(root, a1)
        }),
{
    let a1 = model_assign(root, assigned, p);
    if model_contains(root, assigned, p) {
        if p == root {
        } else {
            let j = assigned.index_of(p);
            assert(0 <= j < assigned.len() && assigned[j] == p);
            lemma_handle_of_index(root, assigned, p, j);
        }
    } else {
        assert(a1 == assigned.push(p));
        assert(a1[assigned.len() as int] == p);
        assert(a1.contains(p));
        assert(forall|i: int, j: int| 0 <= i < j < a1.len() ==> a1[i] != a1[j]) by {
            assert(forall|i: int| 0 <= i < assigned.len() ==> a1[i] == assigned[i]);
        }
        assert(model_wf(root, a1));
        lemma_handle_of_index(root, a1, p, assigned.len() as int);
    }
}

/// Handle 1 always resolves to the served root path, however many other
/// handles have been allocated.
pub proof fn lemma_root_always_resolves(reg: Registry)
    ensures
        reg.spec_resolve(1) == Some(reg.root_path()),
{
}

} // verus!

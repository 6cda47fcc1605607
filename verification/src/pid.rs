//! PID allocation with free-list recycling.
//!
//! PIDs below `current` have been handed out at some point; `recycled` holds
//! the ones that were returned.  A PID is *live* while some `PidHandle` owns
//! it, that is, while it is below `current` and not on the free list.

use vstd::prelude::*;

verus! {

/// Owner of a PID.  The process control block that holds the handle has
/// unique ownership of the PID; returning it to the allocator is the explicit
/// `dealloc` step of reaping.
#[derive(Debug, Clone)]
pub struct PidHandle(pub usize);

pub struct PidAllocator {
    pub current: usize,
    pub recycled: Vec<usize>,
}

/// How often `p` occurs in `s`.
pub open spec fn occurrences(s: Seq<usize>, p: usize) -> nat
    decreases s.len(),
{
    if s.len() == 0 {
        0
    } else {
        occurrences(s.drop_last(), p) + if s.last() == p {
            1nat
        } else {
            0nat
        }
    }
}

impl PidAllocator {
    /// A PID that the allocator may hand out again: never one that a live
    /// handle still owns.
    pub open spec fn spec_is_free(self, pid: usize) -> bool {
        pid >= self.current || self.recycled@.contains(pid)
    }

    /// A PID some live handle owns.
    pub open spec fn spec_is_live(self, pid: usize) -> bool {
        !self.spec_is_free(pid)
    }

    pub open spec fn wf(self) -> bool {
        &&& forall|i: int|
            0 <= i < self.recycled@.len() ==> (#[trigger] self.recycled@[i]) < self.current
        &&& forall|i: int, j: int|
            0 <= i < j < self.recycled@.len() ==> self.recycled@[i] != self.recycled@[j]
    }

    /// The PID the next allocation returns.
    pub open spec fn spec_next(self) -> usize {
        if self.recycled@.len() > 0 {
            self.recycled@.last()
        } else {
            self.current
        }
    }

    pub fn new() -> (r: Self)
        ensures
            r.wf(),
            r.current == 0,
            r.recycled@ =~= Seq::<usize>::empty(),
    {
        Self { current: 0, recycled: Vec::new() }
    }

    /// Pops a recycled PID if any, else mints `current`.
    pub fn allocate(&mut self) -> (r: PidHandle)
        requires
            old(self).wf(),
            old(self).current < usize::MAX,
        ensures
            final(self).wf(),
            final(self).current == old(self).current + if old(self).recycled@.len() > 0 {
                0int
            } else {
                1int
            },
            r.0 == old(self).spec_next(),
            old(self).spec_is_free(r.0),
            final(self).spec_is_live(r.0),
            // the free list is a stack: allocation pops its tail
            old(self).recycled@.len() > 0 ==> final(self).recycled@ =~= old(
                self,
            ).recycled@.drop_last(),
            old(self).recycled@.len() == 0 ==> final(self).recycled@ =~= old(self).recycled@,
            // every other PID keeps its state
            forall|p: usize| p != r.0 ==> final(self).spec_is_free(p) == old(self).spec_is_free(p),
    {
        if let Some(pid) = self.recycled.pop() {
            assert(old(self).recycled@.drop_last().push(pid) =~= old(self).recycled@);
            assert forall|p: usize| p != pid implies self.spec_is_free(p) == old(
                self,
            ).spec_is_free(p) by {
                if old(self).recycled@.contains(p) {
                    let i = choose|i: int|
                        0 <= i < old(self).recycled@.len() && old(self).recycled@[i] == p;
                    assert(self.recycled@[i] == p);
                }
            }
            PidHandle(pid)
        } else {
            self.current = self.current + 1;
            PidHandle(self.current - 1)
        }
    }

    /// Returns a PID to the free list.  The callers guarantee the PID was
    /// handed out and is not already free: freeing twice is a kernel bug.
    pub fn dealloc(&mut self, pid: usize)
        requires
            old(self).wf(),
            old(self).spec_is_live(pid),
        ensures
            final(self).wf(),
            final(self).current == old(self).current,
            final(self).recycled@ =~= old(self).recycled@.push(pid),
            final(self).spec_is_free(pid),
            forall|p: usize| p != pid ==> final(self).spec_is_free(p) == old(self).spec_is_free(p),
    {
        self.recycled.push(pid);
        assert(self.recycled@.last() == pid);
        assert forall|p: usize| p != pid implies self.spec_is_free(p) == old(self).spec_is_free(
            p,
        ) by {
            if self.recycled@.contains(p) {
                let i = choose|i: int| 0 <= i < self.recycled@.len() && self.recycled@[i] == p;
                assert(i < old(self).recycled@.len());
                assert(old(self).recycled@[i] == p);
            }
            if old(self).recycled@.contains(p) {
                let i = choose|i: int|
                    0 <= i < old(self).recycled@.len() && old(self).recycled@[i] == p;
                assert(self.recycled@[i] == p);
            }
        }
    }
}

/// Allocates a PID from the system-wide allocator.
pub fn alloc_pid(allocator: &mut PidAllocator) -> (r: PidHandle)
    requires
        old(allocator).wf(),
        old(allocator).current < usize::MAX,
    ensures
        final(allocator).wf(),
        final(allocator).current == old(allocator).current + if old(allocator).recycled@.len()
            > 0 {
            0int
        } else {
            1int
        },
        r.0 == old(allocator).spec_next(),
        old(allocator).spec_is_free(r.0),
        final(allocator).spec_is_live(r.0),
        old(allocator).recycled@.len() > 0 ==> final(allocator).recycled@ =~= old(
            allocator,
        ).recycled@.drop_last(),
        old(allocator).recycled@.len() == 0 ==> final(allocator).recycled@ =~= old(
            allocator,
        ).recycled@,
        forall|p: usize|
            p != r.0 ==> final(allocator).spec_is_free(p) == old(allocator).spec_is_free(p),
{
    allocator.allocate()
}

/// PID reuse safety: a PID a live handle owns is never the one the allocator
/// hands out next.
pub proof fn lemma_pid_reuse_safety(a: PidAllocator, p: usize)
    requires
        a.wf(),
        a.spec_is_live(p),
    ensures
        a.spec_next() != p,
{
    if a.recycled@.len() > 0 {
        assert(a.recycled@.contains(a.recycled@.last()));
    }
}

/// After a handle is dropped, its PID stands on the free list exactly once.
pub proof fn lemma_pid_returned_exactly_once(pre: PidAllocator, post: PidAllocator, p: usize)
    requires
        pre.wf(),
        pre.spec_is_live(p),
        post.recycled@ =~= pre.recycled@.push(p),
    ensures
        occurrences(post.recycled@, p) == 1,
{
    lemma_occurrences_absent(pre.recycled@, p);
    assert(post.recycled@.drop_last() =~= pre.recycled@);
}

proof fn lemma_occurrences_absent(s: Seq<usize>, p: usize)
    requires
        !s.contains(p),
    ensures
        occurrences(s, p) == 0,
    decreases s.len(),
{
    if s.len() > 0 {
        assert(!s.drop_last().contains(p)) by {
            if s.drop_last().contains(p) {
                let i = choose|i: int| 0 <= i < s.drop_last().len() && s.drop_last()[i] == p;
                assert(s[i] == p);
            }
        }
        lemma_occurrences_absent(s.drop_last(), p);
    }
}

} // verus!

//! The FIFO ready queue of the process manager.
//!
//! `add` appends at the tail, `fetch` pops the head; there are no
//! priorities.  The queue holds PIDs; the process table owns the control
//! blocks themselves.

use vstd::prelude::*;

verus! {

pub struct ProcessManager {
    pub ready_queue: Vec<usize>,
}

impl ProcessManager {
    pub fn new() -> (r: Self)
        ensures
            r.ready_queue@ =~= Seq::<usize>::empty(),
    {
        Self { ready_queue: Vec::new() }
    }

    /// Appends a ready process at the tail.
    pub fn add(&mut self, process: usize)
        ensures
            final(self).ready_queue@ =~= old(self).ready_queue@.push(process),
    {
        self.ready_queue.push(process);
    }

    /// Pops the head of the queue: the process that has waited longest.
    pub fn fetch(&mut self) -> (r: Option<usize>)
        ensures
            old(self).ready_queue@.len() == 0 ==> (r is None && *final(self) == *old(self)),
            old(self).ready_queue@.len() > 0 ==> (r == Some(old(self).ready_queue@[0])
                && final(self).ready_queue@ =~= old(self).ready_queue@.skip(1)),
    {
        if self.ready_queue.len() == 0 {
            None
        } else {
            let p = self.ready_queue.remove(0);
            Some(p)
        }
    }
}

/// Appends a process to the system-wide ready queue.
pub fn add_process(manager: &mut ProcessManager, process: usize)
    ensures
        final(manager).ready_queue@ =~= old(manager).ready_queue@.push(process),
{
    manager.add(process)
}

/// Pops the longest-waiting process from the system-wide ready queue.
pub fn fetch_process(manager: &mut ProcessManager) -> (r: Option<usize>)
    ensures
        old(manager).ready_queue@.len() == 0 ==> (r is None && *final(manager) == *old(manager)),
        old(manager).ready_queue@.len() > 0 ==> (r == Some(old(manager).ready_queue@[0])
            && final(manager).ready_queue@ =~= old(manager).ready_queue@.skip(1)),
{
    manager.fetch()
}

/// One operation on the ready queue: an enqueue at the tail or a dispatch
/// from the head.
pub enum QueueOp {
    Add(usize),
    Fetch,
}

/// The queue after one operation.
pub open spec fn spec_queue_step(q: Seq<usize>, op: QueueOp) -> Seq<usize> {
    match op {
        QueueOp::Add(p) => q.push(p),
        QueueOp::Fetch => if q.len() > 0 {
            q.skip(1)
        } else {
            q
        },
    }
}

/// The processes a run of operations dispatches, in dispatch order.
pub open spec fn spec_dispatched(q: Seq<usize>, ops: Seq<QueueOp>) -> Seq<usize>
    decreases ops.len(),
{
    if ops.len() == 0 {
        Seq::empty()
    } else {
        let head = if ops[0] is Fetch && q.len() > 0 {
            seq![q[0]]
        } else {
            Seq::<usize>::empty()
        };
        head + spec_dispatched(spec_queue_step(q, ops[0]), ops.skip(1))
    }
}

/// No operation in the run enqueues `p` again.
pub open spec fn spec_no_adds_of(ops: Seq<QueueOp>, p: usize) -> bool {
    forall|k: int| 0 <= k < ops.len() ==> (#[trigger] ops[k]) != QueueOp::Add(p)
}

/// Every dispatch of `b` comes after some dispatch of `a`.
pub open spec fn spec_dispatched_after(d: Seq<usize>, a: usize, b: usize) -> bool {
    forall|k: int|
        0 <= k < d.len() && (#[trigger] d[k]) == b ==> exists|k2: int| 0 <= k2 < k && d[k2] == a
}

/// FIFO scheduling: if `a` stands ahead of `b` in the ready queue and
/// neither is enqueued again, then whatever enqueues and dispatches follow,
/// `b` is never dispatched before `a`.
pub proof fn lemma_fifo_dispatch_order(
    q: Seq<usize>,
    ops: Seq<QueueOp>,
    a: usize,
    b: usize,
    ia: int,
    ib: int,
)
    requires
        0 <= ia < ib < q.len(),
        q[ia] == a,
        q[ib] == b,
        a != b,
        forall|k: int| 0 <= k < q.len() && (#[trigger] q[k]) == b ==> k == ib,
        spec_no_adds_of(ops, a),
        spec_no_adds_of(ops, b),
    ensures
        spec_dispatched_after(spec_dispatched(q, ops), a, b),
    decreases ops.len(),
{
    if ops.len() == 0 {
    } else {
        let op = ops[0];
        let q2 = spec_queue_step(q, op);
        let rest = ops.skip(1);
        let d = spec_dispatched(q, ops);
        assert(spec_no_adds_of(rest, a) && spec_no_adds_of(rest, b)) by {
            assert(forall|k: int|
                0 <= k < rest.len() ==> (#[trigger] rest[k]) == ops[k + 1]);
        }
        match op {
            QueueOp::Add(x) => {
                assert(x != a && x != b) by {
                    assert(ops[0] != QueueOp::Add(a) && ops[0] != QueueOp::Add(b));
                }
                assert(forall|k: int|
                    0 <= k < q2.len() && (#[trigger] q2[k]) == b ==> k == ib);
                lemma_fifo_dispatch_order(q2, rest, a, b, ia, ib);
                assert(d =~= spec_dispatched(q2, rest));
            },
            QueueOp::Fetch => {
                if q.len() == 0 {
                    lemma_fifo_dispatch_order(q2, rest, a, b, ia, ib);
                    assert(d =~= spec_dispatched(q2, rest));
                } else if q[0] == a {
                    // `a` is dispatched right now, at position 0; every later
                    // dispatch of `b` therefore has one of `a` before it.
                    assert(d =~= seq![a] + spec_dispatched(q2, rest));
                    assert forall|k: int|
                        0 <= k < d.len() && (#[trigger] d[k]) == b implies exists|k2: int|
                        0 <= k2 < k && d[k2] == a by {
                        assert(d[0] == a);
                        assert(k != 0);
                        assert(0 <= 0 < k && d[0] == a);
                    }
                } else {
                    // the head is neither `a` (it may be any other ready
                    // process) nor `b` (`b` sits strictly behind `a`).
                    assert(q[0] != b);
                    assert(q2 =~= q.skip(1));
                    assert(q2[ia - 1] == a && q2[ib - 1] == b);
                    assert(forall|k: int|
                        0 <= k < q2.len() && (#[trigger] q2[k]) == b ==> k == ib - 1) by {
                        assert(forall|k: int|
                            0 <= k < q2.len() ==> (#[trigger] q2[k]) == q[k + 1]);
                    }
                    lemma_fifo_dispatch_order(q2, rest, a, b, ia - 1, ib - 1);
                    let d2 = spec_dispatched(q2, rest);
                    assert(d =~= seq![q[0]] + d2);
                    assert forall|k: int|
                        0 <= k < d.len() && (#[trigger] d[k]) == b implies exists|k2: int|
                        0 <= k2 < k && d[k2] == a by {
                        assert(k >= 1);
                        assert(d2[k - 1] == b);
                        assert(spec_dispatched_after(d2, a, b));
                        let k2 = choose|k2: int| 0 <= k2 < k - 1 && d2[k2] == a;
                        assert(d[k2 + 1] == a);
                    }
                }
            },
        }
    }
}

} // verus!

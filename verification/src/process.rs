//! The process subsystem: the process table, the dispatcher and the
//! scheduling paths.
//!
//! The kernel owns every process control block in a PID-indexed table;
//! the ready queue and the parent/child links carry PIDs.  The dispatcher
//! alternates between the idle context and per-process contexts: each
//! dispatch names the saved context to switch to and the page-table root to
//! load into CR3, and the assembly trampoline outside the library performs
//! the switch.

use vstd::prelude::*;

use crate::kernel_stack::{spec_kernel_stack_bottom, spec_kernel_stack_top};
use crate::manager::ProcessManager;
use crate::memory::{KERNEL_STACK_SIZE, KERNEL_STACK_SLOTS};
use crate::memory_set::MemorySet;
use crate::pcb::{ProcessControlBlock, ProcessStatus};
use crate::pid::PidAllocator;

verus! {

/// The single CPU's dispatcher state: the running process, if any, and the
/// slot into which `switch_to` stashes the idle context pointer.
pub struct Processor {
    pub current: Option<usize>,
    pub idle_process_context_ptr: u64,
}

impl Processor {
    pub fn new() -> (r: Self)
        ensures
            r.current is None,
            r.idle_process_context_ptr == 0,
    {
        Self { current: None, idle_process_context_ptr: 0 }
    }

    /// The running process, by PID.
    pub fn current(&self) -> (r: Option<usize>)
        ensures
            r == self.current,
    {
        self.current
    }

    /// Moves the strong reference out of the `current` slot, the
    /// `take_current` pattern used before any operation that may switch
    /// context.
    pub fn take_current(&mut self) -> (r: Option<usize>)
        ensures
            r == old(self).current,
            final(self).current is None,
            final(self).idle_process_context_ptr == old(self).idle_process_context_ptr,
    {
        self.current.take()
    }
}

/// What one dispatch asks the assembly layer to do: write `cr3` and switch
/// to the saved context at `next_process_context_ptr`.
#[derive(Debug, Clone, Copy, PartialEq, Eq, Structural)]
pub struct Dispatch {
    pub next_process_context_ptr: u64,
    pub cr3: u64,
}

/// The whole process subsystem.
pub struct Kernel {
    pub pid_allocator: PidAllocator,
    pub kernel_space: MemorySet,
    /// The process table, indexed by PID; an entry is occupied exactly
    /// while its PID is live.
    pub procs: Vec<Option<ProcessControlBlock>>,
    pub manager: ProcessManager,
    pub processor: Processor,
    /// PID of the init process, to which orphans are reparented.
    pub initproc: usize,
    /// Link-time address of the SYSRET trampoline.
    pub trap_ret: u64,
    /// The console: a write-only byte sink.
    pub console: Vec<u8>,
    /// Bytes the keyboard handler has queued for `read`.
    pub stdin_buffer: Vec<u8>,
}

impl Kernel {
    pub open spec fn is_live(self, p: int) -> bool {
        0 <= p < self.procs@.len() && self.procs@[p] is Some
    }

    pub open spec fn proc(self, p: int) -> ProcessControlBlock {
        self.procs@[p].unwrap()
    }

    pub open spec fn spec_child(self, p: int, i: int) -> usize {
        self.proc(p).inner.children@[i]
    }

    pub open spec fn spec_status(self, p: int) -> ProcessStatus {
        self.proc(p).inner.process_status
    }

    /// The table mirrors the PID allocator: entry `p` is occupied exactly
    /// while PID `p` is live, and holds a well-formed block that carries
    /// that PID.
    pub open spec fn wf_table(self) -> bool {
        &&& self.pid_allocator.wf()
        &&& self.pid_allocator.current <= KERNEL_STACK_SLOTS
        &&& self.procs@.len() == self.pid_allocator.current
        &&& forall|p: int|
            0 <= p < self.procs@.len() ==> ((#[trigger] self.procs@[p]) is Some
                == self.pid_allocator.spec_is_live(p as usize))
        &&& forall|p: int|
            #![trigger self.procs@[p]]
            0 <= p < self.procs@.len() && self.procs@[p] is Some ==> self.proc(p).wf()
                && self.proc(p).pid.0 == p
    }

    /// Every region of the kernel address space is the kernel stack slot of
    /// some live process.
    pub open spec fn wf_stacks(self) -> bool {
        &&& self.kernel_space.wf()
        &&& forall|i: int|
            0 <= i < self.kernel_space.areas@.len() ==> self.spec_stack_area_owned(i)
    }

    pub open spec fn spec_stack_area_owned(self, i: int) -> bool {
        exists|p: int|
            #![trigger self.spec_stack_owner(p)]
            self.is_live(p) && self.kernel_space.areas@[i].start_virt_addr
                == spec_kernel_stack_bottom(p) && self.kernel_space.areas@[i].end_virt_addr
                == spec_kernel_stack_top(p)
    }

    pub open spec fn spec_stack_owner(self, p: int) -> int {
        p
    }

    /// The ready queue holds live Ready processes, each at most once, and
    /// never the running one.
    pub open spec fn wf_queue(self) -> bool {
        &&& forall|k: int|
            0 <= k < self.manager.ready_queue@.len() ==> self.is_live(
                (#[trigger] self.manager.ready_queue@[k]) as int,
            ) && self.spec_status(self.manager.ready_queue@[k] as int) is Ready
        &&& forall|k: int, l: int|
            0 <= k < l < self.manager.ready_queue@.len() ==> self.manager.ready_queue@[k]
                != self.manager.ready_queue@[l]
        &&& forall|k: int|
            0 <= k < self.manager.ready_queue@.len() ==> Some(
                (#[trigger] self.manager.ready_queue@[k]),
            ) != self.processor.current
    }

    /// The running process is live and marked Running.
    pub open spec fn wf_current(self) -> bool {
        match self.processor.current {
            Some(p) => self.is_live(p as int) && self.spec_status(p as int) is Running,
            None => true,
        }
    }

    /// Children are live and point back at their parent; no process stands
    /// in two children lists (or twice in one); a zombie has no children.
    pub open spec fn wf_children(self) -> bool {
        &&& forall|p: int, i: int|
            #![trigger self.spec_child(p, i)]
            self.is_live(p) && 0 <= i < self.proc(p).inner.children@.len() ==> {
                &&& self.is_live(self.spec_child(p, i) as int)
                &&& self.proc(self.spec_child(p, i) as int).inner.parent == Some(p as usize)
                &&& self.spec_child(p, i) != p
            }
        &&& forall|p: int, i: int, q: int, j: int|
            #![trigger self.spec_child(p, i), self.spec_child(q, j)]
            self.is_live(p) && 0 <= i < self.proc(p).inner.children@.len() && self.is_live(q) && 0
                <= j < self.proc(q).inner.children@.len() && (p != q || i != j)
                ==> self.spec_child(p, i) != self.spec_child(q, j)
        &&& forall|p: int|
            #![trigger self.spec_status(p)]
            self.is_live(p) && self.spec_status(p) is Zombie ==> self.proc(
                p,
            ).inner.children@.len() == 0
    }

    /// Init is live, has no parent and is never a zombie.
    pub open spec fn wf_init(self) -> bool {
        &&& self.is_live(self.initproc as int)
        &&& self.proc(self.initproc as int).inner.parent is None
        &&& !(self.spec_status(self.initproc as int) is Zombie)
    }

    pub open spec fn wf(self) -> bool {
        &&& self.wf_table()
        &&& self.wf_stacks()
        &&& self.wf_queue()
        &&& self.wf_current()
        &&& self.wf_children()
        &&& self.wf_init()
    }

    /// A fresh PID and kernel stack slot can still be handed out.
    pub open spec fn spec_can_spawn(self) -> bool {
        self.pid_allocator.recycled@.len() > 0 || self.pid_allocator.current < KERNEL_STACK_SLOTS
    }

    /// The kernel as it stands right after boot: no processes yet.  The
    /// state becomes well-formed when `add_initproc` installs init.
    pub fn new(trap_ret: u64, page_table_root: u64) -> (r: Self)
        ensures
            r.procs@.len() == 0,
            r.kernel_space.wf(),
            r.kernel_space.areas@.len() == 0,
            r.initproc == 0,
            r.manager.ready_queue@.len() == 0,
            r.processor.current is None,
            r.trap_ret == trap_ret,
            r.kernel_space.page_table_root == page_table_root,
            r.console@ =~= Seq::<u8>::empty(),
            r.stdin_buffer@ =~= Seq::<u8>::empty(),
            r.pid_allocator.current == 0,
            r.pid_allocator.recycled@.len() == 0,
    {
        Self {
            pid_allocator: PidAllocator::new(),
            kernel_space: MemorySet::new(page_table_root),
            procs: Vec::new(),
            manager: ProcessManager::new(),
            processor: Processor::new(),
            initproc: 0,
            trap_ret,
            console: Vec::new(),
            stdin_buffer: Vec::new(),
        }
    }
}

/// The console and keyboard buffer carry no well-formedness: two kernels
/// that agree on everything else are equally well-formed.
pub proof fn lemma_wf_ignores_console(a: Kernel, b: Kernel)
    requires
        a.wf(),
        b.pid_allocator == a.pid_allocator,
        b.kernel_space == a.kernel_space,
        b.procs == a.procs,
        b.manager == a.manager,
        b.processor == a.processor,
        b.initproc == a.initproc,
    ensures
        b.wf(),
{
    assert(b.wf_table()) by {
        assert(forall|q: int|
            0 <= q < b.procs@.len() ==> ((#[trigger] b.procs@[q]) is Some
                == b.pid_allocator.spec_is_live(q as usize)));
        assert forall|q: int|
            #![trigger b.procs@[q]]
            0 <= q < b.procs@.len() && b.procs@[q] is Some implies b.proc(q).wf() && b.proc(
            q,
        ).pid.0 == q by {
            assert(a.proc(q).wf());
        }
    }
    assert(b.wf_stacks()) by {
        assert forall|i: int| 0 <= i < b.kernel_space.areas@.len() implies b.spec_stack_area_owned(
            i,
        ) by {
            assert(a.spec_stack_area_owned(i));
            let q = choose|q: int|
                a.is_live(q) && a.kernel_space.areas@[i].start_virt_addr
                    == spec_kernel_stack_bottom(q) && a.kernel_space.areas@[i].end_virt_addr
                    == spec_kernel_stack_top(q);
            assert(b.spec_stack_owner(q) == q);
            assert(b.is_live(q));
        }
    }
    assert(b.wf_queue()) by {
        assert forall|j: int| 0 <= j < b.manager.ready_queue@.len() implies b.is_live(
            (#[trigger] b.manager.ready_queue@[j]) as int,
        ) && b.spec_status(b.manager.ready_queue@[j] as int) is Ready by {
            let e = a.manager.ready_queue@[j];
            assert(a.is_live(e as int) && a.spec_status(e as int) is Ready);
        }
    }
    assert(b.wf_current()) by {
        if a.processor.current is Some {
            let q = a.processor.current.unwrap() as int;
            assert(a.is_live(q) && a.spec_status(q) is Running);
        }
    }
    assert(b.wf_children()) by {
        assert(forall|q: int, i: int|
            #![trigger b.spec_child(q, i)]
            b.is_live(q) && 0 <= i < b.proc(q).inner.children@.len() ==> b.spec_child(q, i)
                == a.spec_child(q, i));
        assert(forall|q: int|
            #![trigger b.spec_status(q)]
            b.is_live(q) ==> b.spec_status(q) == a.spec_status(q) && b.proc(
                q,
            ).inner.children@.len() == a.proc(q).inner.children@.len());
    }
    assert(b.wf_init()) by {
        assert(a.is_live(a.initproc as int));
    }
}

/// No PID stands in two children lists, nor twice in one.
pub proof fn lemma_children_unique(k: Kernel, q: int, i: int, q2: int, j: int)
    requires
        k.wf(),
        k.is_live(q),
        0 <= i < k.proc(q).inner.children@.len(),
        k.is_live(q2),
        0 <= j < k.proc(q2).inner.children@.len(),
        q != q2 || i != j,
    ensures
        k.spec_child(q, i) != k.spec_child(q2, j),
{
    assert(k.spec_child(q, i) != k.spec_child(q2, j) || k.spec_child(q, i) == k.spec_child(q2, j));
}

/// Changing one process's address-space contents, trap frame, saved
/// context or exit code leaves the kernel well-formed, as long as the
/// block itself stays well-formed and its identity, status and links are
/// untouched.
pub proof fn lemma_wf_proc_fields_update(pre: Kernel, post: Kernel, p: int)
    requires
        pre.wf(),
        0 <= p < pre.procs@.len(),
        pre.procs@[p] is Some,
        post.procs@.len() == pre.procs@.len(),
        forall|q: int|
            0 <= q < pre.procs@.len() && q != p ==> (#[trigger] post.procs@[q]) == pre.procs@[q],
        post.procs@[p] is Some,
        post.proc(p).wf(),
        post.proc(p).pid == pre.proc(p).pid,
        post.proc(p).inner.process_status == pre.proc(p).inner.process_status,
        post.proc(p).inner.parent == pre.proc(p).inner.parent,
        post.proc(p).inner.children == pre.proc(p).inner.children,
        post.pid_allocator == pre.pid_allocator,
        post.kernel_space == pre.kernel_space,
        post.manager == pre.manager,
        post.processor == pre.processor,
        post.initproc == pre.initproc,
    ensures
        post.wf(),
{
    assert forall|q: int| 0 <= q < post.procs@.len() implies ((#[trigger] post.procs@[q]) is Some
        == pre.procs@[q] is Some) by {}
    assert(post.wf_table()) by {
        assert forall|q: int|
            #![trigger post.procs@[q]]
            0 <= q < post.procs@.len() && post.procs@[q] is Some implies post.proc(q).wf()
            && post.proc(q).pid.0 == q by {
            assert(pre.proc(q).wf());
        }
    }
    assert(post.wf_stacks()) by {
        assert forall|i: int| 0 <= i < post.kernel_space.areas@.len() implies
            post.spec_stack_area_owned(i) by {
            assert(pre.spec_stack_area_owned(i));
            let q = choose|q: int|
                pre.is_live(q) && pre.kernel_space.areas@[i].start_virt_addr
                    == spec_kernel_stack_bottom(q) && pre.kernel_space.areas@[i].end_virt_addr
                    == spec_kernel_stack_top(q);
            assert(post.spec_stack_owner(q) == q);
            assert(post.is_live(q));
        }
    }
    assert(post.wf_queue()) by {
        assert forall|j: int| 0 <= j < post.manager.ready_queue@.len() implies post.is_live(
            (#[trigger] post.manager.ready_queue@[j]) as int,
        ) && post.spec_status(post.manager.ready_queue@[j] as int) is Ready by {
            let e = pre.manager.ready_queue@[j];
            assert(pre.is_live(e as int) && pre.spec_status(e as int) is Ready);
        }
    }
    assert(post.wf_current()) by {
        if pre.processor.current is Some {
            let q = pre.processor.current.unwrap() as int;
            assert(pre.is_live(q) && pre.spec_status(q) is Running);
        }
    }
    assert(post.wf_children()) by {
        assert(forall|q: int, i: int|
            #![trigger post.spec_child(q, i)]
            post.is_live(q) && 0 <= i < post.proc(q).inner.children@.len() ==> post.spec_child(
                q,
                i,
            ) == pre.spec_child(q, i));
        assert(forall|q: int|
            #![trigger post.spec_status(q)]
            post.is_live(q) ==> post.spec_status(q) == pre.spec_status(q) && post.proc(
                q,
            ).inner.children@.len() == pre.proc(q).inner.children@.len());
    }
    assert(post.wf_init()) by {
        assert(pre.is_live(pre.initproc as int));
    }
}

/// Creates the init process from its ELF image and enqueues it; the first
/// dispatch will start it in user mode.
pub fn add_initproc(k: &mut Kernel, elf_data: &Vec<u8>)
    requires
        crate::elf::valid_elf(elf_data@),
        old(k).procs@.len() == 0,
        old(k).pid_allocator.current == 0,
        old(k).pid_allocator.recycled@.len() == 0,
        old(k).pid_allocator.wf(),
        old(k).manager.ready_queue@.len() == 0,
        old(k).processor.current is None,
        old(k).kernel_space.wf(),
        old(k).kernel_space.areas@.len() == 0,
        old(k).initproc == 0,
    ensures
        final(k).wf(),
        final(k).is_live(0),
        final(k).initproc == 0,
        final(k).manager.ready_queue@ =~= seq![0usize],
        final(k).processor.current is None,
        final(k).spec_status(0) is Ready,
        crate::memory_set::spec_is_elf_layout(final(k).proc(0).inner.memory_set, elf_data@),
        final(k).proc(0).inner.trap_frame.rsp == crate::memory_set::spec_user_stack_top(elf_data@),
        final(k).proc(0).inner.trap_frame.rcx == crate::elf::spec_entry_point(elf_data@),
        final(k).trap_ret == old(k).trap_ret,
        final(k).console@ =~= old(k).console@,
        final(k).stdin_buffer@ =~= old(k).stdin_buffer@,
{
    let root = k.kernel_space.page_table_address();
    let pcb = ProcessControlBlock::new(
        elf_data,
        k.trap_ret,
        &mut k.pid_allocator,
        &mut k.kernel_space,
        root,
    );
    k.procs.push(Some(pcb));
    crate::manager::add_process(&mut k.manager, 0);
    proof {
        assert(k.wf_table()) by {
            assert(forall|p: int|
                0 <= p < k.procs@.len() ==> ((#[trigger] k.procs@[p]) is Some
                    == k.pid_allocator.spec_is_live(p as usize)));
        }
        assert(k.wf_stacks()) by {
            assert forall|i: int| 0 <= i < k.kernel_space.areas@.len() implies
                k.spec_stack_area_owned(i) by {
                assert(k.spec_stack_owner(0) == 0);
                assert(k.is_live(0));
            }
        }
        assert(k.wf_queue());
        assert(k.wf_children());
        assert(k.wf_init());
    }
}

/// Queues a decoded keyboard byte for `read`; the interrupt handler calls
/// in with each keystroke.
pub fn push_stdin(k: &mut Kernel, byte: u8)
    requires
        old(k).wf(),
    ensures
        final(k).wf(),
        final(k).stdin_buffer@ =~= old(k).stdin_buffer@.push(byte),
        final(k).procs == old(k).procs,
        final(k).manager == old(k).manager,
        final(k).processor == old(k).processor,
        final(k).console == old(k).console,
{
    k.stdin_buffer.push(byte);
    proof {
        lemma_wf_ignores_console(*old(k), *k);
    }
}

/// The running process, by PID, without giving it up.
pub fn current_process(k: &Kernel) -> (r: Option<usize>)
    ensures
        r == k.processor.current,
{
    k.processor.current()
}

/// Moves the running process out of the `current` slot.
pub fn take_current_process(k: &mut Kernel) -> (r: Option<usize>)
    ensures
        r == old(k).processor.current,
        final(k).processor.current is None,
        final(k).processor.idle_process_context_ptr == old(k).processor.idle_process_context_ptr,
        final(k).procs == old(k).procs,
        final(k).manager == old(k).manager,
        final(k).pid_allocator == old(k).pid_allocator,
        final(k).kernel_space == old(k).kernel_space,
        final(k).initproc == old(k).initproc,
        final(k).trap_ret == old(k).trap_ret,
        final(k).console == old(k).console,
        final(k).stdin_buffer == old(k).stdin_buffer,
{
    k.processor.take_current()
}

/// Top of the running process's kernel stack: where the SYSCALL entry stub
/// points RSP before it pushes the trap frame.
pub fn current_kernel_stack(k: &Kernel) -> (r: usize)
    requires
        k.wf(),
        k.processor.current is Some,
    ensures
        r == spec_kernel_stack_top(k.processor.current.unwrap() as int),
{
    let p = k.processor.current().unwrap();
    let pcb = k.procs[p].as_ref().unwrap();
    pcb.kernel_stack.get_top()
}

/// One trip through the idle loop: dequeues the longest-waiting ready
/// process, marks it Running, installs it as current, and names the
/// context switch for the assembly layer: its saved context pointer and
/// its page-table root for CR3.  With nothing ready, the idle loop just
/// spins: no dispatch.
pub fn run_processes(k: &mut Kernel) -> (r: Option<Dispatch>)
    requires
        old(k).wf(),
        old(k).processor.current is None,
    ensures
        final(k).wf(),
        old(k).manager.ready_queue@.len() == 0 ==> (r is None && *final(k) == *old(k)),
        old(k).manager.ready_queue@.len() > 0 ==> {
            let p = old(k).manager.ready_queue@[0];
            &&& r == Some(
                Dispatch {
                    next_process_context_ptr: old(k).proc(p as int).inner.process_context_ptr,
                    cr3: old(k).proc(p as int).inner.memory_set.page_table_root,
                },
            )
            &&& final(k).manager.ready_queue@ =~= old(k).manager.ready_queue@.skip(1)
            &&& final(k).processor.current == Some(p)
            &&& final(k).spec_status(p as int) is Running
            &&& final(k).procs@.len() == old(k).procs@.len()
            &&& forall|q: int|
                0 <= q < old(k).procs@.len() && q != p ==> final(k).procs@[q] == old(k).procs@[q]
            &&& final(k).proc(p as int) == (ProcessControlBlock {
                inner: crate::pcb::ProcessControlBlockInner {
                    process_status: ProcessStatus::Running,
                    ..old(k).proc(p as int).inner
                },
                ..old(k).proc(p as int)
            })
            &&& final(k).pid_allocator == old(k).pid_allocator
            &&& final(k).kernel_space == old(k).kernel_space
            &&& final(k).console == old(k).console
        },
{
    let fetched = crate::manager::fetch_process(&mut k.manager);
    match fetched {
        None => None,
        Some(p) => {
            let slot = &mut k.procs[p];
            let mut pcb = slot.take().unwrap();
            let next_process_context_ptr = pcb.inner.get_process_context_ptr2();
            let cr3 = pcb.inner.memory_set.page_table_address();
            pcb.inner.process_status = ProcessStatus::Running;
            k.procs.set(p, Some(pcb));
            k.processor.current = Some(p);
            proof {
                let pre = *old(k);
                assert(k.procs@ =~= pre.procs@.update(p as int, k.procs@[p as int]));
                assert(k.wf_table()) by {
                    assert(forall|q: int|
                        0 <= q < k.procs@.len() ==> ((#[trigger] k.procs@[q]) is Some
                            == pre.procs@[q] is Some));
                }
                assert(k.wf_stacks()) by {
                    assert forall|i: int| 0 <= i < k.kernel_space.areas@.len() implies
                        k.spec_stack_area_owned(i) by {
                        assert(pre.spec_stack_area_owned(i));
                        let q = choose|q: int|
                            pre.is_live(q) && pre.kernel_space.areas@[i].start_virt_addr
                                == spec_kernel_stack_bottom(q)
                                && pre.kernel_space.areas@[i].end_virt_addr
                                == spec_kernel_stack_top(q);
                        assert(k.spec_stack_owner(q) == q);
                        assert(k.is_live(q));
                    }
                }
                assert(k.wf_queue()) by {
                    assert(forall|j: int|
                        0 <= j < k.manager.ready_queue@.len()
                            ==> (#[trigger] k.manager.ready_queue@[j])
                            == pre.manager.ready_queue@[j + 1]);
                }
                assert(k.wf_children()) by {
                    assert(forall|q: int, i: int|
                        #![trigger k.spec_child(q, i)]
                        k.is_live(q) && 0 <= i < k.proc(q).inner.children@.len()
                            ==> k.spec_child(q, i) == pre.spec_child(q, i));
                    assert(forall|q: int|
                        #![trigger k.spec_status(q)]
                        k.is_live(q) && q != p ==> k.spec_status(q) == pre.spec_status(q)
                            && k.proc(q).inner.children@.len()
                            == pre.proc(q).inner.children@.len());
                    assert(!(k.spec_status(p as int) is Zombie));
                    assert(k.proc(p as int).inner.children@.len() == pre.proc(
                        p as int,
                    ).inner.children@.len());
                }
                assert(k.wf_init());
            }
            Some(Dispatch { next_process_context_ptr, cr3 })
        },
    }
}

/// Takes the running process off the CPU, marks it Ready, requeues it at
/// the tail, and returns to the idle context; the saved context pointer
/// lets a later dispatch resume it inside the syscall path.
pub fn suspend_current_and_run_next(k: &mut Kernel)
    requires
        old(k).wf(),
        old(k).processor.current is Some,
    ensures
        final(k).wf(),
        final(k).processor.current is None,
        final(k).manager.ready_queue@ =~= old(k).manager.ready_queue@.push(
            old(k).processor.current.unwrap(),
        ),
        final(k).is_live(old(k).processor.current.unwrap() as int),
        final(k).spec_status(old(k).processor.current.unwrap() as int) is Ready,
        final(k).procs@.len() == old(k).procs@.len(),
        forall|q: int|
            0 <= q < old(k).procs@.len() && q != old(k).processor.current.unwrap() ==> (#[trigger] final(k).procs@[q]) == old(k).procs@[q],
        final(k).proc(old(k).processor.current.unwrap() as int) == (ProcessControlBlock {
            inner: crate::pcb::ProcessControlBlockInner {
                process_status: ProcessStatus::Ready,
                ..old(k).proc(old(k).processor.current.unwrap() as int).inner
            },
            ..old(k).proc(old(k).processor.current.unwrap() as int)
        }),
        final(k).pid_allocator == old(k).pid_allocator,
        final(k).kernel_space == old(k).kernel_space,
        final(k).console == old(k).console,
        final(k).stdin_buffer == old(k).stdin_buffer,
        final(k).initproc == old(k).initproc,
        final(k).trap_ret == old(k).trap_ret,
{
    let p = take_current_process(k).unwrap();
    let slot = &mut k.procs[p];
    let mut pcb = slot.take().unwrap();
    pcb.inner.process_status = ProcessStatus::Ready;
    k.procs.set(p, Some(pcb));
    crate::manager::add_process(&mut k.manager, p);
    proof {
        let pre = *old(k);
        assert(k.procs@ =~= pre.procs@.update(p as int, k.procs@[p as int]));
        assert(k.wf_table()) by {
            assert(forall|q: int|
                0 <= q < k.procs@.len() ==> ((#[trigger] k.procs@[q]) is Some == pre.procs@[q]
                    is Some));
        }
        assert(k.wf_stacks()) by {
            assert forall|i: int| 0 <= i < k.kernel_space.areas@.len() implies
                k.spec_stack_area_owned(i) by {
                assert(pre.spec_stack_area_owned(i));
                let q = choose|q: int|
                    pre.is_live(q) && pre.kernel_space.areas@[i].start_virt_addr
                        == spec_kernel_stack_bottom(q) && pre.kernel_space.areas@[i].end_virt_addr
                        == spec_kernel_stack_top(q);
                assert(k.spec_stack_owner(q) == q);
                assert(k.is_live(q));
            }
        }
        assert(k.wf_queue()) by {
            assert(k.manager.ready_queue@ =~= pre.manager.ready_queue@.push(p));
        }
        assert(k.wf_children()) by {
            assert(forall|q: int, i: int|
                #![trigger k.spec_child(q, i)]
                k.is_live(q) && 0 <= i < k.proc(q).inner.children@.len() ==> k.spec_child(q, i)
                    == pre.spec_child(q, i));
            assert(forall|q: int|
                #![trigger k.spec_status(q)]
                k.is_live(q) && q != p ==> k.spec_status(q) == pre.spec_status(q) && k.proc(
                    q,
                ).inner.children@.len() == pre.proc(q).inner.children@.len());
            assert(!(k.spec_status(p as int) is Zombie));
            assert(k.proc(p as int).inner.children@.len() == pre.proc(
                p as int,
            ).inner.children@.len());
        }
        assert(k.wf_init());
    }
}

/// Terminates the running process: it becomes a zombie holding `exit_code`,
/// every child it owns is handed to init (the child's back-reference is
/// rewritten and the child joins init's children), its own list is cleared,
/// and the CPU returns to the idle context.  The zombie stays in its
/// parent's children list until the parent reaps it.
pub fn exit_current_and_run_next(k: &mut Kernel, exit_code: isize)
    requires
        old(k).wf(),
        old(k).processor.current is Some,
        old(k).processor.current.unwrap() != old(k).initproc,
    ensures
        final(k).wf(),
        final(k).processor.current is None,
        ({
            let p = old(k).processor.current.unwrap() as int;
            let init = old(k).initproc as int;
            let old_children = old(k).proc(p).inner.children@;
            &&& final(k).spec_status(p) is Zombie
            &&& final(k).proc(p).inner.exit_code == exit_code
            &&& final(k).proc(p).inner.children@.len() == 0
            &&& final(k).proc(p).inner.parent == old(k).proc(p).inner.parent
            &&& final(k).proc(p).inner.memory_set == old(k).proc(p).inner.memory_set
            &&& final(k).proc(p).inner.trap_frame == old(k).proc(p).inner.trap_frame
            &&& final(k).proc(init).inner.children@ =~= old(k).proc(init).inner.children@
                + old_children
            &&& forall|ci: int|
                0 <= ci < old_children.len() ==> final(k).proc(
                    (#[trigger] old_children[ci]) as int,
                ).inner.parent == Some(old(k).initproc)
            &&& forall|ci: int|
                0 <= ci < old_children.len() ==> final(k).is_live(
                    (#[trigger] old_children[ci]) as int,
                )
            &&& final(k).procs@.len() == old(k).procs@.len()
            &&& forall|q: int|
                0 <= q < old(k).procs@.len() && q != p && q != init && !old_children.contains(
                    q as usize,
                ) ==> (#[trigger] final(k).procs@[q]) == old(k).procs@[q]
            &&& final(k).manager == old(k).manager
            &&& final(k).pid_allocator == old(k).pid_allocator
            &&& final(k).kernel_space == old(k).kernel_space
            &&& final(k).console == old(k).console
            &&& final(k).stdin_buffer == old(k).stdin_buffer
            &&& final(k).initproc == old(k).initproc
            &&& final(k).trap_ret == old(k).trap_ret
            // the zombie stays in its parent's children list until reaped
            &&& (match old(k).proc(p).inner.parent {
                Some(par) => old(k).is_live(par as int) && old(k).proc(
                    par as int,
                ).inner.children@.contains(p as usize) ==> final(k).proc(
                    par as int,
                ).inner.children@.contains(p as usize),
                None => true,
            })
        }),
{
    let ghost pre = *old(k);
    let p = take_current_process(k).unwrap();
    let ghost pint = p as int;
    let ghost init_int = pre.initproc as int;
    let slot = &mut k.procs[p];
    let mut pcb = slot.take().unwrap();
    pcb.inner.process_status = ProcessStatus::Zombie;
    pcb.inner.exit_code = exit_code;
    let mut children: Vec<usize> = Vec::new();
    core::mem::swap(&mut children, &mut pcb.inner.children);
    k.procs.set(p, Some(pcb));
    let ghost cs = children@;
    proof {
        assert(cs == pre.proc(pint).inner.children@);
        // children are pairwise distinct, live, not p, not init
        assert forall|ci: int| 0 <= ci < cs.len() implies pre.is_live(cs[ci] as int) && cs[ci] != p
            && cs[ci] as int != init_int && pre.proc(cs[ci] as int).inner.parent == Some(p) by {
            assert(pre.spec_child(pint, ci) == cs[ci]);
            if cs[ci] as int == init_int {
                assert(pre.proc(init_int).inner.parent is None);
            }
        }
        assert forall|ci: int, cj: int| 0 <= ci < cj < cs.len() implies cs[ci] != cs[cj] by {
            assert(pre.spec_child(pint, ci) == cs[ci]);
            assert(pre.spec_child(pint, cj) == cs[cj]);
        }
    }
    let ghost mid = *k;
    let n = children.len();
    let mut i: usize = 0;
    while i < n
        invariant
            n == cs.len(),
            i <= n,
            cs == children@,
            pre.wf(),
            0 <= pint < pre.procs@.len(),
            pre.is_live(pint),
            pint != init_int,
            init_int == pre.initproc as int,
            mid.procs@.len() == pre.procs@.len(),
            k.procs@.len() == mid.procs@.len(),
            forall|ci: int|
                0 <= ci < cs.len() ==> pre.is_live((#[trigger] cs[ci]) as int) && cs[ci] as int
                    != pint && cs[ci] as int != init_int,
            forall|ci: int, cj: int| 0 <= ci < cj < cs.len() ==> cs[ci] != cs[cj],
            forall|q: int|
                0 <= q < k.procs@.len() && !cs.subrange(0, i as int).contains(q as usize) ==> (
                #[trigger] k.procs@[q]) == mid.procs@[q],
            forall|ci: int|
                0 <= ci < i ==> (#[trigger] k.procs@[cs[ci] as int]) == Some(
                    ProcessControlBlock {
                        inner: crate::pcb::ProcessControlBlockInner {
                            parent: Some(pre.initproc),
                            ..pre.proc(cs[ci] as int).inner
                        },
                        ..pre.proc(cs[ci] as int)
                    },
                ),
            forall|q: int|
                0 <= q < mid.procs@.len() && q != pint ==> (#[trigger] mid.procs@[q])
                    == pre.procs@[q],
            mid.initproc == pre.initproc,
            k.manager == mid.manager,
            k.pid_allocator == mid.pid_allocator,
            k.kernel_space == mid.kernel_space,
            k.processor == mid.processor,
            k.console == mid.console,
            k.stdin_buffer == mid.stdin_buffer,
            k.initproc == mid.initproc,
            k.trap_ret == mid.trap_ret,
        decreases n - i,
    {
        let c = children[i];
        proof {
            assert(cs[i as int] == c);
            assert(pre.is_live(c as int));
            assert(!cs.subrange(0, i as int).contains(c)) by {
                if cs.subrange(0, i as int).contains(c) {
                    let ci = choose|ci: int|
                        0 <= ci < i && cs.subrange(0, i as int)[ci] == c;
                    assert(cs[ci] == c);
                }
            }
            assert(k.procs@[c as int] == mid.procs@[c as int]);
            assert(mid.procs@[c as int] == pre.procs@[c as int]);
        }
        let ghost kstart = *k;
        let cslot = &mut k.procs[c];
        let mut cpcb = cslot.take().unwrap();
        cpcb.inner.parent = Some(k.initproc);
        k.procs.set(c, Some(cpcb));
        proof {
            assert(k.procs@ =~= kstart.procs@.update(c as int, k.procs@[c as int]));
            assert forall|q: int|
                0 <= q < k.procs@.len() && !cs.subrange(0, i as int + 1).contains(q as usize)
                    implies (#[trigger] k.procs@[q]) == mid.procs@[q] by {
                assert(q != c as int) by {
                    if q == c as int {
                        assert(cs.subrange(0, i as int + 1)[i as int] == c);
                    }
                }
                assert(!cs.subrange(0, i as int).contains(q as usize)) by {
                    if cs.subrange(0, i as int).contains(q as usize) {
                        let ci = choose|ci: int|
                            0 <= ci < i && cs.subrange(0, i as int)[ci] == q as usize;
                        assert(cs.subrange(0, i as int + 1)[ci] == q as usize);
                    }
                }
            }
            assert forall|ci: int| 0 <= ci < i + 1 implies (#[trigger] k.procs@[cs[ci] as int])
                == Some(
                ProcessControlBlock {
                    inner: crate::pcb::ProcessControlBlockInner {
                        parent: Some(pre.initproc),
                        ..pre.proc(cs[ci] as int).inner
                    },
                    ..pre.proc(cs[ci] as int)
                },
            ) by {
                if ci < i {
                    assert(cs[ci] != cs[i as int]);
                    assert(k.procs@[cs[ci] as int] == kstart.procs@[cs[ci] as int]);
                } else {
                    assert(cs[ci] == c);
                    assert(kstart.procs@[c as int] == mid.procs@[c as int]);
                    assert(mid.procs@[c as int] == pre.procs@[c as int]);
                }
            }
        }
        i = i + 1;
    }
    proof {
        assert(cs.subrange(0, n as int) =~= cs);
    }
    let init = k.initproc;
    proof {
        assert(!cs.contains(init));
        assert(k.procs@[init_int] == pre.procs@[init_int]);
    }
    let islot = &mut k.procs[init];
    let mut ipcb = islot.take().unwrap();
    let ghost init_children0 = ipcb.inner.children@;
    let mut j: usize = 0;
    while j < n
        invariant
            n == cs.len(),
            j <= n,
            cs == children@,
            ipcb.inner.children@ =~= init_children0 + cs.subrange(0, j as int),
            ipcb.inner.memory_set == pre.proc(init_int).inner.memory_set,
            ipcb.inner.process_status == pre.proc(init_int).inner.process_status,
            ipcb.inner.process_context_ptr == pre.proc(init_int).inner.process_context_ptr,
            ipcb.inner.process_context == pre.proc(init_int).inner.process_context,
            ipcb.inner.trap_frame == pre.proc(init_int).inner.trap_frame,
            ipcb.inner.parent == pre.proc(init_int).inner.parent,
            ipcb.inner.exit_code == pre.proc(init_int).inner.exit_code,
            ipcb.pid == pre.proc(init_int).pid,
            ipcb.kernel_stack == pre.proc(init_int).kernel_stack,
        decreases n - j,
    {
        let c = children[j];
        ipcb.inner.children.push(c);
        proof {
            assert(cs.subrange(0, j as int).push(cs[j as int]) =~= cs.subrange(0, j as int + 1));
        }
        j = j + 1;
    }
    proof {
        assert(ipcb.inner.children@ =~= init_children0 + cs);
    }
    k.procs.set(init, Some(ipcb));
    proof {
        lemma_exit_preserves_wf(pre, *k, pint, init_int, cs, init_children0);
        if pre.proc(pint).inner.parent is Some {
            let par = pre.proc(pint).inner.parent.unwrap() as int;
            if pre.is_live(par) && pre.proc(par).inner.children@.contains(p) {
                let ci = choose|ci: int|
                    0 <= ci < pre.proc(par).inner.children@.len() && pre.proc(
                        par,
                    ).inner.children@[ci] == p;
                if par == init_int {
                    assert(k.proc(par).inner.children@[ci] == p);
                } else if cs.contains(par as usize) {
                    let cj = choose|cj: int| 0 <= cj < cs.len() && cs[cj] == par as usize;
                    assert(k.procs@[cs[cj] as int] is Some);
                    assert(k.proc(par).inner.children@ == pre.proc(par).inner.children@);
                    assert(k.proc(par).inner.children@[ci] == p);
                } else {
                    assert(par != pint) by {
                        assert(pre.spec_child(par, ci) == p);
                    }
                    assert(k.procs@[par] == pre.procs@[par]);
                    assert(k.proc(par).inner.children@[ci] == p);
                }
            }
        }
    }
}

/// `post` is `pre` after the running process `p` exited: `p` is a zombie
/// with no children, each of its former children now refers to init and
/// stands in init's list, and nothing else moved.  All well-formedness
/// clauses survive this step.
proof fn lemma_exit_preserves_wf(
    pre: Kernel,
    post: Kernel,
    p: int,
    init: int,
    cs: Seq<usize>,
    init_children0: Seq<usize>,
)
    requires
        pre.wf(),
        pre.processor.current == Some(p as usize),
        0 <= p < pre.procs@.len(),
        p != init,
        init == pre.initproc as int,
        cs == pre.proc(p).inner.children@,
        init_children0 == pre.proc(init).inner.children@,
        post.procs@.len() == pre.procs@.len(),
        post.manager == pre.manager,
        post.pid_allocator == pre.pid_allocator,
        post.kernel_space == pre.kernel_space,
        post.processor.current is None,
        post.initproc == pre.initproc,
        // p: zombie, no children, other fields kept
        post.procs@[p] is Some,
        post.proc(p).pid == pre.proc(p).pid,
        post.proc(p).kernel_stack == pre.proc(p).kernel_stack,
        post.proc(p).inner.memory_set == pre.proc(p).inner.memory_set,
        post.proc(p).inner.process_status is Zombie,
        post.proc(p).inner.process_context_ptr == pre.proc(p).inner.process_context_ptr,
        post.proc(p).inner.parent == pre.proc(p).inner.parent,
        post.proc(p).inner.children@.len() == 0,
        // init: children extended, other fields kept
        post.procs@[init] is Some,
        post.proc(init).pid == pre.proc(init).pid,
        post.proc(init).kernel_stack == pre.proc(init).kernel_stack,
        post.proc(init).inner.memory_set == pre.proc(init).inner.memory_set,
        post.proc(init).inner.process_status == pre.proc(init).inner.process_status,
        post.proc(init).inner.process_context_ptr == pre.proc(init).inner.process_context_ptr,
        post.proc(init).inner.parent == pre.proc(init).inner.parent,
        post.proc(init).inner.children@ == init_children0 + cs,
        // former children of p: parent rewritten, other fields kept
        forall|ci: int|
            0 <= ci < cs.len() ==> (#[trigger] post.procs@[cs[ci] as int]) == Some(
                ProcessControlBlock {
                    inner: crate::pcb::ProcessControlBlockInner {
                        parent: Some(pre.initproc),
                        ..pre.proc(cs[ci] as int).inner
                    },
                    ..pre.proc(cs[ci] as int)
                },
            ),
        // everything else untouched
        forall|q: int|
            0 <= q < pre.procs@.len() && q != p && q != init && !cs.contains(q as usize) ==> (
            #[trigger] post.procs@[q]) == pre.procs@[q],
    ensures
        post.wf(),
{
    // children of p are distinct, live, and neither p nor init
    assert forall|ci: int| 0 <= ci < cs.len() implies pre.is_live((#[trigger] cs[ci]) as int)
        && cs[ci] as int != p && cs[ci] as int != init && pre.proc(cs[ci] as int).inner.parent
        == Some(p as usize) by {
        assert(pre.spec_child(p, ci) == cs[ci]);
        if cs[ci] as int == init {
            assert(pre.proc(init).inner.parent is None);
        }
    }
    assert forall|ci: int, cj: int| 0 <= ci < cj < cs.len() implies cs[ci] != cs[cj] by {
        assert(pre.spec_child(p, ci) == cs[ci]);
        assert(pre.spec_child(p, cj) == cs[cj]);
    }
    // liveness is unchanged everywhere
    assert forall|q: int| 0 <= q < post.procs@.len() implies (#[trigger] post.procs@[q]) is Some
        == pre.procs@[q] is Some by {
        if q != p && q != init && !cs.contains(q as usize) {
        } else if q == p || q == init {
        } else {
            let ci = choose|ci: int| 0 <= ci < cs.len() && cs[ci] == q as usize;
            assert(post.procs@[cs[ci] as int] is Some);
        }
    }
    // fields other than parent/children/status survive for every live q
    assert forall|q: int| post.is_live(q) implies (#[trigger] post.proc(q)).pid == pre.proc(q).pid
        && post.proc(q).kernel_stack == pre.proc(q).kernel_stack && post.proc(q).inner.memory_set
        == pre.proc(q).inner.memory_set && post.proc(q).inner.process_context_ptr == pre.proc(
        q,
    ).inner.process_context_ptr by {
        if q != p && q != init && !cs.contains(q as usize) {
        } else if q == p || q == init {
        } else {
            let ci = choose|ci: int| 0 <= ci < cs.len() && cs[ci] == q as usize;
            assert(post.procs@[cs[ci] as int] == Some(
                ProcessControlBlock {
                    inner: crate::pcb::ProcessControlBlockInner {
                        parent: Some(pre.initproc),
                        ..pre.proc(cs[ci] as int).inner
                    },
                    ..pre.proc(cs[ci] as int)
                },
            ));
        }
    }
    // statuses: only p changed, to Zombie
    assert forall|q: int| post.is_live(q) && q != p implies (#[trigger] post.spec_status(q))
        == pre.spec_status(q) by {
        if q != init && !cs.contains(q as usize) {
        } else if q == init {
        } else {
            let ci = choose|ci: int| 0 <= ci < cs.len() && cs[ci] == q as usize;
            assert(post.procs@[cs[ci] as int] is Some);
        }
    }
    // children lists: p cleared, init extended, all others kept
    assert forall|q: int| post.is_live(q) && q != p && q != init implies (#[trigger] post.proc(
        q,
    )).inner.children@ == pre.proc(q).inner.children@ by {
        if !cs.contains(q as usize) {
        } else {
            let ci = choose|ci: int| 0 <= ci < cs.len() && cs[ci] == q as usize;
            assert(post.procs@[cs[ci] as int] is Some);
        }
    }
    // parents: only the former children of p changed, to init
    assert forall|q: int| post.is_live(q) && !cs.contains(q as usize) implies (#[trigger] post.proc(
        q,
    )).inner.parent == pre.proc(q).inner.parent by {
        if q != p && q != init {
        }
    }
    assert(post.wf_table()) by {
        assert(forall|q: int|
            0 <= q < post.procs@.len() ==> ((#[trigger] post.procs@[q]) is Some
                == post.pid_allocator.spec_is_live(q as usize)));
        assert forall|q: int|
            #![trigger post.procs@[q]]
            0 <= q < post.procs@.len() && post.procs@[q] is Some implies post.proc(q).wf()
            && post.proc(q).pid.0 == q by {
            assert(pre.proc(q).wf());
        }
    }
    assert(post.wf_stacks()) by {
        assert forall|i: int| 0 <= i < post.kernel_space.areas@.len() implies
            post.spec_stack_area_owned(i) by {
            assert(pre.spec_stack_area_owned(i));
            let q = choose|q: int|
                pre.is_live(q) && pre.kernel_space.areas@[i].start_virt_addr
                    == spec_kernel_stack_bottom(q) && pre.kernel_space.areas@[i].end_virt_addr
                    == spec_kernel_stack_top(q);
            assert(post.spec_stack_owner(q) == q);
            assert(post.is_live(q));
        }
    }
    assert(post.wf_queue()) by {
        assert forall|j: int| 0 <= j < post.manager.ready_queue@.len() implies post.is_live(
            (#[trigger] post.manager.ready_queue@[j]) as int,
        ) && post.spec_status(post.manager.ready_queue@[j] as int) is Ready by {
            let r = pre.manager.ready_queue@[j];
            assert(pre.is_live(r as int) && pre.spec_status(r as int) is Ready);
            assert(Some(r) != pre.processor.current);
            assert(r as int != p);
        }
    }
    assert(post.wf_current());
    assert(post.wf_children()) by {
        assert forall|q: int, i: int|
            #![trigger post.spec_child(q, i)]
            post.is_live(q) && 0 <= i < post.proc(q).inner.children@.len() implies {
            &&& post.is_live(post.spec_child(q, i) as int)
            &&& post.proc(post.spec_child(q, i) as int).inner.parent == Some(q as usize)
            &&& post.spec_child(q, i) != q
        } by {
            if q == init {
                assert(pre.is_live(init));
                assert(post.proc(init).inner.children@ == init_children0 + cs);
                if i < init_children0.len() {
                    let c = init_children0[i];
                    assert(0 <= i < pre.proc(init).inner.children@.len());
                    assert(pre.spec_child(init, i) == c);
                    assert(post.spec_child(q, i) == c);
                    assert(pre.is_live(c as int) && pre.proc(c as int).inner.parent == Some(
                        pre.initproc,
                    ) && c as int != init);
                    assert(!cs.contains(c)) by {
                        if cs.contains(c) {
                            let ci = choose|ci: int| 0 <= ci < cs.len() && cs[ci] == c;
                            assert(pre.spec_child(p, ci) == pre.spec_child(init, i));
                        }
                    }
                    // c may be the exiting process itself; its back-reference
                    // to init is untouched by the exit.
                    assert(post.proc(c as int).inner.parent == pre.proc(c as int).inner.parent);
                    assert(post.is_live(c as int));
                } else {
                    let ci = i - init_children0.len();
                    let c = cs[ci];
                    assert(post.spec_child(q, i) == c);
                    assert(post.procs@[cs[ci] as int] is Some);
                    assert(post.proc(c as int).inner.parent == Some(pre.initproc));
                    assert(post.is_live(c as int));
                    assert(c as int != init);
                }
            } else if q == p {
                // no children
            } else {
                assert(post.proc(q).inner.children@ == pre.proc(q).inner.children@);
                assert(pre.is_live(q));
                assert(0 <= i < pre.proc(q).inner.children@.len());
                let c = post.spec_child(q, i);
                assert(pre.spec_child(q, i) == c);
                assert(pre.is_live(c as int));
                assert(pre.proc(c as int).inner.parent == Some(q as usize));
                assert(!cs.contains(c)) by {
                    if cs.contains(c) {
                        let ci = choose|ci: int| 0 <= ci < cs.len() && cs[ci] == c;
                        assert(pre.spec_child(p, ci) == pre.spec_child(q, i));
                    }
                }
                // c may be the exiting process itself: q is then its parent,
                // and the back-reference survives the exit.
                assert(post.proc(c as int).inner.parent == pre.proc(c as int).inner.parent);
                assert(post.is_live(c as int));
            }
        }
        assert forall|q: int, i: int, q2: int, j2: int|
            #![trigger post.spec_child(q, i), post.spec_child(q2, j2)]
            post.is_live(q) && 0 <= i < post.proc(q).inner.children@.len() && post.is_live(q2) && 0
                <= j2 < post.proc(q2).inner.children@.len() && (q != q2 || i != j2) implies
            post.spec_child(q, i) != post.spec_child(q2, j2) by {
            let map_q: int = if q == init && i >= init_children0.len() {
                p
            } else {
                q
            };
            let map_i: int = if q == init && i >= init_children0.len() {
                i - init_children0.len()
            } else {
                i
            };
            let map_q2: int = if q2 == init && j2 >= init_children0.len() {
                p
            } else {
                q2
            };
            let map_j2: int = if q2 == init && j2 >= init_children0.len() {
                j2 - init_children0.len()
            } else {
                j2
            };
            assert(post.spec_child(q, i) == pre.spec_child(map_q, map_i));
            assert(post.spec_child(q2, j2) == pre.spec_child(map_q2, map_j2));
            assert(pre.is_live(map_q) && pre.is_live(map_q2));
            assert(0 <= map_i < pre.proc(map_q).inner.children@.len());
            assert(0 <= map_j2 < pre.proc(map_q2).inner.children@.len());
            assert(map_q != map_q2 || map_i != map_j2);
        }
        assert forall|q: int|
            #![trigger post.spec_status(q)]
            post.is_live(q) && post.spec_status(q) is Zombie implies post.proc(
            q,
        ).inner.children@.len() == 0 by {
            if q == p {
            } else if q == init {
                assert(pre.spec_status(init) == post.spec_status(init));
                assert(!(pre.spec_status(init) is Zombie));
            } else {
                assert(pre.spec_status(q) is Zombie);
            }
        }
    }
    assert(post.wf_init()) by {
        assert(post.is_live(init));
        assert(!cs.contains(pre.initproc));
    }
}

} // verus!

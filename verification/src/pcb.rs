//! The process control block and its lifecycle.
//!
//! A PCB owns its PID handle, its kernel stack, its address space, and the
//! trap frame and saved process context that sit at the top of that stack.
//! Parent and children are linked by PID; the process table in the kernel
//! owns every block, so the child's back-reference is non-owning.

use vstd::prelude::*;

use crate::elf;
use crate::kernel_stack::{spec_kernel_stack_top, KernelStack};
use crate::memory::KERNEL_STACK_SLOTS;
use crate::memory_set;
use crate::memory_set::MemorySet;
use crate::pid::{alloc_pid, PidAllocator, PidHandle};
use crate::trap::TrapFrame;

verus! {

/// Bytes of a `TrapFrame` on the kernel stack: 16 registers.
pub const TRAP_FRAME_SIZE: u64 = 128;

/// Bytes of a `ProcessContext` on the kernel stack: 8 registers.
pub const PROCESS_CONTEXT_SIZE: u64 = 64;

/// RFLAGS value a fresh user context starts with: IF plus the always-one
/// reserved bit.
pub const INITIAL_RFLAGS: u64 = 0x203;

#[derive(Debug, Copy, Clone, Eq, PartialEq, Structural)]
pub enum ProcessStatus {
    Ready,
    Running,
    Zombie,
}

/// Callee-preserved registers plus the saved instruction pointer: what a
/// kernel-to-kernel context switch stores on the stack.
#[derive(Debug, Copy, Clone, Eq, PartialEq, Structural)]
pub struct ProcessContext {
    pub r15: u64,
    pub r14: u64,
    pub r13: u64,
    pub r12: u64,
    pub r11: u64,
    pub rbx: u64,
    pub rbp: u64,
    pub rip: u64,
}

impl ProcessContext {
    /// The context a fresh process starts from: zeroed registers and the
    /// SYSRET trampoline as return address, so its first dispatch lands in
    /// user mode.  The trampoline's address is fixed at link time and
    /// handed in at boot.
    pub fn return_from_trap(trap_ret: u64) -> (r: Self)
        ensures
            r == (ProcessContext {
                r15: 0,
                r14: 0,
                r13: 0,
                r12: 0,
                r11: 0,
                rbx: 0,
                rbp: 0,
                rip: trap_ret,
            }),
    {
        Self { r15: 0, r14: 0, r13: 0, r12: 0, r11: 0, rbx: 0, rbp: 0, rip: trap_ret }
    }
}

/// The mutable inner record of a PCB.
pub struct ProcessControlBlockInner {
    pub memory_set: MemorySet,
    pub process_status: ProcessStatus,
    /// Address of the saved `ProcessContext` on this PCB's own kernel stack.
    pub process_context_ptr: u64,
    /// The saved context at that address.
    pub process_context: ProcessContext,
    /// The trap frame at the top of this PCB's kernel stack.
    pub trap_frame: TrapFrame,
    /// Non-owning back-reference to the parent, by PID.
    pub parent: Option<usize>,
    /// Owned children, by PID.
    pub children: Vec<usize>,
    pub exit_code: isize,
}

pub struct ProcessControlBlock {
    pub pid: PidHandle,
    pub kernel_stack: KernelStack,
    pub inner: ProcessControlBlockInner,
}

impl ProcessControlBlockInner {
    pub fn process_status(&self) -> (r: ProcessStatus)
        ensures
            r == self.process_status,
    {
        self.process_status
    }

    /// The slot holding the saved context pointer; `switch_to` reads it.
    pub fn get_process_context_ptr2(&self) -> (r: u64)
        ensures
            r == self.process_context_ptr,
    {
        self.process_context_ptr
    }

    pub fn is_zombie(&self) -> (r: bool)
        ensures
            r == (self.process_status is Zombie),
    {
        match self.process_status {
            ProcessStatus::Zombie => true,
            _ => false,
        }
    }
}

impl ProcessControlBlock {
    /// The block is tied to its own PID and stack slot, and its saved
    /// context pointer points at the context's seat on that stack, directly
    /// below the trap frame.
    pub open spec fn wf(self) -> bool {
        &&& self.pid.0 < KERNEL_STACK_SLOTS
        &&& self.kernel_stack.pid == self.pid.0
        &&& self.inner.memory_set.wf()
        &&& self.inner.process_context_ptr == spec_kernel_stack_top(self.pid.0 as int)
            - TRAP_FRAME_SIZE - PROCESS_CONTEXT_SIZE
    }

    pub fn getpid(&self) -> (r: usize)
        ensures
            r == self.pid.0,
    {
        self.pid.0
    }

    /// The trap frame at the top of this PCB's kernel stack.
    pub fn get_trap_frame(&self) -> (r: &TrapFrame)
        ensures
            *r == self.inner.trap_frame,
    {
        &self.inner.trap_frame
    }

    /// Builds the initial process from an ELF image: a fresh address space,
    /// PID and kernel stack, a trap frame aimed at the image's entry point
    /// with the user stack top and initial RFLAGS, and a saved context that
    /// resumes at the SYSRET trampoline.
    pub fn new(
        elf_data: &Vec<u8>,
        trap_ret: u64,
        pid_allocator: &mut PidAllocator,
        kernel_space: &mut MemorySet,
        page_table_root: u64,
    ) -> (r: Self)
        requires
            elf::valid_elf(elf_data@),
            old(pid_allocator).wf(),
            old(pid_allocator).spec_next() < KERNEL_STACK_SLOTS,
            old(pid_allocator).current < usize::MAX,
            old(kernel_space).wf(),
            forall|i: int|
                0 <= i < old(kernel_space).areas@.len() ==> !(
                #[trigger] old(kernel_space).areas@[i]).overlaps_range(
                    (spec_kernel_stack_top(old(pid_allocator).spec_next() as int)
                        - crate::memory::KERNEL_STACK_SIZE) as u64,
                    spec_kernel_stack_top(old(pid_allocator).spec_next() as int) as u64,
                ),
        ensures
            r.wf(),
            r.pid.0 == old(pid_allocator).spec_next(),
            old(pid_allocator).spec_is_free(r.pid.0),
            final(pid_allocator).wf(),
            final(pid_allocator).spec_is_live(r.pid.0),
            final(pid_allocator).current == old(pid_allocator).current + if old(
                pid_allocator,
            ).recycled@.len() > 0 {
                0int
            } else {
                1int
            },
            forall|p: usize|
                p != r.pid.0 ==> final(pid_allocator).spec_is_free(p) == old(
                    pid_allocator,
                ).spec_is_free(p),
            final(kernel_space).wf(),
            final(kernel_space).page_table_root == old(kernel_space).page_table_root,
            final(kernel_space).areas@.len() == old(kernel_space).areas@.len() + 1,
            forall|i: int|
                0 <= i < old(kernel_space).areas@.len() ==> final(kernel_space).areas@[i] == old(
                    kernel_space,
                ).areas@[i],
            final(kernel_space).areas@.last().start_virt_addr == r.kernel_stack.spec_bottom(),
            final(kernel_space).areas@.last().end_virt_addr == r.kernel_stack.spec_top(),
            r.inner.memory_set.page_table_root == page_table_root,
            memory_set::spec_is_elf_layout(r.inner.memory_set, elf_data@),
            r.inner.trap_frame == (TrapFrame {
                rsp: memory_set::spec_user_stack_top(elf_data@),
                rcx: elf::spec_entry_point(elf_data@),
                r11: INITIAL_RFLAGS,
                ..crate::trap::spec_zero_trap_frame()
            }),
            r.inner.process_context == (ProcessContext {
                r15: 0,
                r14: 0,
                r13: 0,
                r12: 0,
                r11: 0,
                rbx: 0,
                rbp: 0,
                rip: trap_ret,
            }),
            r.inner.process_status is Ready,
            r.inner.parent is None,
            r.inner.children@ =~= Seq::<usize>::empty(),
            r.inner.exit_code == 0,
    {
        let (memory_set, user_stack, entry_point) = MemorySet::from_elf(elf_data, page_table_root);
        let pid = alloc_pid(pid_allocator);
        let kernel_stack = KernelStack::new(&pid, kernel_space);
        // Seed the initial trap frame at the stack top.
        let mut trap_frame = TrapFrame::new();
        trap_frame.rsp = user_stack;  // user stack
        trap_frame.rcx = entry_point;  // return address for SYSRET
        trap_frame.r11 = INITIAL_RFLAGS;  // RFLAGS
        // Seed the process context directly below it.
        let process_context = ProcessContext::return_from_trap(trap_ret);
        let process_context_ptr = kernel_stack.push_to_top_address(
            PROCESS_CONTEXT_SIZE,
            TRAP_FRAME_SIZE,
        );
        Self {
            pid,
            kernel_stack,
            inner: ProcessControlBlockInner {
                memory_set,
                process_status: ProcessStatus::Ready,
                process_context_ptr,
                process_context,
                trap_frame,
                parent: None,
                children: Vec::new(),
                exit_code: 0,
            },
        }
    }

    /// Replaces this process's program: unmaps every user area, loads the
    /// new image into the same page table, and rewrites the existing trap
    /// frame so that the pending SYSRET enters the new program on its fresh
    /// user stack.
    pub fn exec(&mut self, elf_data: &Vec<u8>)
        requires
            old(self).wf(),
            elf::valid_elf(elf_data@),
        ensures
            final(self).wf(),
            final(self).pid == old(self).pid,
            final(self).kernel_stack == old(self).kernel_stack,
            final(self).inner.memory_set.page_table_root == old(
                self,
            ).inner.memory_set.page_table_root,
            memory_set::spec_is_elf_layout(final(self).inner.memory_set, elf_data@),
            final(self).inner.trap_frame == (TrapFrame {
                rsp: memory_set::spec_user_stack_top(elf_data@),
                rcx: elf::spec_entry_point(elf_data@),
                r11: INITIAL_RFLAGS,
                ..old(self).inner.trap_frame
            }),
            final(self).inner.process_status == old(self).inner.process_status,
            final(self).inner.process_context_ptr == old(self).inner.process_context_ptr,
            final(self).inner.process_context == old(self).inner.process_context,
            final(self).inner.parent == old(self).inner.parent,
            final(self).inner.children == old(self).inner.children,
            final(self).inner.exit_code == old(self).inner.exit_code,
    {
        self.inner.memory_set.remove_all_areas();
        let root = self.inner.memory_set.page_table_address();
        let (memory_set, user_stack, entry_point) = MemorySet::from_elf(elf_data, root);
        self.inner.memory_set = memory_set;
        self.inner.trap_frame.rsp = user_stack;  // user stack
        self.inner.trap_frame.rcx = entry_point;  // return address for SYSRET
        self.inner.trap_frame.r11 = INITIAL_RFLAGS;  // RFLAGS
    }

    /// Clones this process: a copy-on-create duplicate of the address
    /// space, a fresh PID and kernel stack, the parent's current trap frame
    /// copied onto the child's stack, and a saved context that resumes at
    /// the SYSRET trampoline.  The child is appended to this process's
    /// children and refers back to it.
    pub fn fork(
        &mut self,
        trap_ret: u64,
        pid_allocator: &mut PidAllocator,
        kernel_space: &mut MemorySet,
    ) -> (child: ProcessControlBlock)
        requires
            old(self).wf(),
            old(pid_allocator).wf(),
            old(pid_allocator).spec_next() < KERNEL_STACK_SLOTS,
            old(pid_allocator).current < usize::MAX,
            old(kernel_space).wf(),
            forall|i: int|
                0 <= i < old(kernel_space).areas@.len() ==> !(
                #[trigger] old(kernel_space).areas@[i]).overlaps_range(
                    (spec_kernel_stack_top(old(pid_allocator).spec_next() as int)
                        - crate::memory::KERNEL_STACK_SIZE) as u64,
                    spec_kernel_stack_top(old(pid_allocator).spec_next() as int) as u64,
                ),
        ensures
            child.wf(),
            child.pid.0 == old(pid_allocator).spec_next(),
            old(pid_allocator).spec_is_free(child.pid.0),
            final(pid_allocator).wf(),
            final(pid_allocator).spec_is_live(child.pid.0),
            final(pid_allocator).current == old(pid_allocator).current + if old(
                pid_allocator,
            ).recycled@.len() > 0 {
                0int
            } else {
                1int
            },
            forall|p: usize|
                p != child.pid.0 ==> final(pid_allocator).spec_is_free(p) == old(
                    pid_allocator,
                ).spec_is_free(p),
            final(kernel_space).wf(),
            final(kernel_space).page_table_root == old(kernel_space).page_table_root,
            final(kernel_space).areas@.len() == old(kernel_space).areas@.len() + 1,
            forall|i: int|
                0 <= i < old(kernel_space).areas@.len() ==> final(kernel_space).areas@[i] == old(
                    kernel_space,
                ).areas@[i],
            final(kernel_space).areas@.last().start_virt_addr == child.kernel_stack.spec_bottom(),
            final(kernel_space).areas@.last().end_virt_addr == child.kernel_stack.spec_top(),
            memory_set::spec_clones_areas(
                child.inner.memory_set.areas@,
                old(self).inner.memory_set.areas@,
            ),
            child.inner.memory_set.wf(),
            child.inner.trap_frame == old(self).inner.trap_frame,
            child.inner.process_context == (ProcessContext {
                r15: 0,
                r14: 0,
                r13: 0,
                r12: 0,
                r11: 0,
                rbx: 0,
                rbp: 0,
                rip: trap_ret,
            }),
            child.inner.process_status is Ready,
            child.inner.parent == Some(old(self).pid.0),
            child.inner.children@ =~= Seq::<usize>::empty(),
            child.inner.exit_code == 0,
            final(self).pid == old(self).pid,
            final(self).kernel_stack == old(self).kernel_stack,
            final(self).inner.memory_set == old(self).inner.memory_set,
            final(self).inner.process_status == old(self).inner.process_status,
            final(self).inner.process_context_ptr == old(self).inner.process_context_ptr,
            final(self).inner.process_context == old(self).inner.process_context,
            final(self).inner.trap_frame == old(self).inner.trap_frame,
            final(self).inner.parent == old(self).inner.parent,
            final(self).inner.children@ =~= old(self).inner.children@.push(child.pid.0),
            final(self).inner.exit_code == old(self).inner.exit_code,
    {
        let root = self.inner.memory_set.page_table_address();
        let memory_set = MemorySet::from(&self.inner.memory_set, root);
        let pid = alloc_pid(pid_allocator);
        let kernel_stack = KernelStack::new(&pid, kernel_space);
        let process_context = ProcessContext::return_from_trap(trap_ret);
        let process_context_ptr = kernel_stack.push_to_top_address(
            PROCESS_CONTEXT_SIZE,
            TRAP_FRAME_SIZE,
        );
        // The parent's current trap frame, copied onto the child's stack;
        // the syscall-return path later sets the child's rax to zero.
        let trap_frame = self.inner.trap_frame;
        let child_pid = pid.0;
        let child = ProcessControlBlock {
            pid,
            kernel_stack,
            inner: ProcessControlBlockInner {
                memory_set,
                process_status: ProcessStatus::Ready,
                process_context_ptr,
                process_context,
                trap_frame,
                parent: Some(self.pid.0),
                children: Vec::new(),
                exit_code: 0,
            },
        };
        self.inner.children.push(child_pid);
        child
    }
}

} // verus!

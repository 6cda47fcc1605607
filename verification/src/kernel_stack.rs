//! Per-process kernel stacks in the dedicated guarded region.
//!
//! Slot addresses derive deterministically from the PID; one guard page
//! separates neighbouring slots, so a stack overflow faults instead of
//! corrupting its neighbour.

use vstd::prelude::*;

use crate::memory::{GUARD_SIZE, KERNEL_STACK_END, KERNEL_STACK_SIZE, KERNEL_STACK_SLOTS};
use crate::memory_set::{MemorySet, PageTableFlags};
use crate::pid::PidHandle;

verus! {

pub open spec fn spec_kernel_stack_top(pid: int) -> int {
    KERNEL_STACK_END - pid * (KERNEL_STACK_SIZE + GUARD_SIZE)
}

pub open spec fn spec_kernel_stack_bottom(pid: int) -> int {
    spec_kernel_stack_top(pid) - KERNEL_STACK_SIZE
}

/// `(bottom, top)` of the kernel stack slot of process `app_id`.
pub fn kernel_stack_address(app_id: u64) -> (r: (u64, u64))
    requires
        app_id < KERNEL_STACK_SLOTS,
    ensures
        r.0 == spec_kernel_stack_bottom(app_id as int),
        r.1 == spec_kernel_stack_top(app_id as int),
        0 < r.0 < r.1 <= KERNEL_STACK_END,
{
    proof {
        assert(app_id * (KERNEL_STACK_SIZE + GUARD_SIZE) <= 31 * (KERNEL_STACK_SIZE + GUARD_SIZE))
            by (nonlinear_arith)
            requires
                app_id <= 31,
        ;
    }
    let top = KERNEL_STACK_END - app_id * (KERNEL_STACK_SIZE + GUARD_SIZE);
    let bottom = top - KERNEL_STACK_SIZE;
    (bottom, top)
}

/// The PID-keyed kernel stack.  Creating one maps its slot in the kernel
/// address space; releasing it removes that region again.
#[derive(Debug, Clone)]
pub struct KernelStack {
    pub pid: usize,
}

impl KernelStack {
    pub open spec fn spec_top(self) -> int {
        spec_kernel_stack_top(self.pid as int)
    }

    pub open spec fn spec_bottom(self) -> int {
        spec_kernel_stack_bottom(self.pid as int)
    }

    /// Maps the slot of `pid_handle` into the kernel address space,
    /// present + writable and not user-accessible.
    pub fn new(pid_handle: &PidHandle, kernel_space: &mut MemorySet) -> (r: Self)
        requires
            old(kernel_space).wf(),
            pid_handle.0 < KERNEL_STACK_SLOTS,
            forall|i: int|
                0 <= i < old(kernel_space).areas@.len() ==> !(
                #[trigger] old(kernel_space).areas@[i]).overlaps_range(
                    spec_kernel_stack_bottom(pid_handle.0 as int) as u64,
                    spec_kernel_stack_top(pid_handle.0 as int) as u64,
                ),
        ensures
            r.pid == pid_handle.0,
            final(kernel_space).wf(),
            final(kernel_space).page_table_root == old(kernel_space).page_table_root,
            final(kernel_space).areas@.len() == old(kernel_space).areas@.len() + 1,
            forall|i: int|
                0 <= i < old(kernel_space).areas@.len() ==> final(kernel_space).areas@[i] == old(
                    kernel_space,
                ).areas@[i],
            final(kernel_space).areas@.last().start_virt_addr == r.spec_bottom(),
            final(kernel_space).areas@.last().end_virt_addr == r.spec_top(),
            final(kernel_space).areas@.last().flags == (PageTableFlags {
                present: true,
                writable: true,
                user_accessible: false,
                no_execute: false,
            }),
            // the slot ends exactly at its top page: the guard page above
            // stays unmapped
            final(kernel_space).areas@.last().pages_end() == r.spec_top() / 4096,
    {
        let pid = pid_handle.0;
        let (bottom, top) = kernel_stack_address(pid as u64);
        kernel_space.insert(bottom, top, PageTableFlags::kernel_rw(), None);
        proof {
            lemma_kernel_stack_alignment(pid as int);
            assert((top + 4095) / 4096 == top / 4096) by (nonlinear_arith)
                requires
                    top % 4096 == 0,
            ;
        }
        Self { pid }
    }

    pub fn get_top(&self) -> (top: usize)
        requires
            self.pid < KERNEL_STACK_SLOTS,
        ensures
            top == self.spec_top(),
    {
        let (_bottom, top) = kernel_stack_address(self.pid as u64);
        top as usize
    }

    /// Address at which a value of `size` bytes sits when pushed `offset`
    /// bytes below the stack top; the seat of the initial trap frame and
    /// process context.
    pub fn push_to_top_address(&self, size: u64, offset: u64) -> (r: u64)
        requires
            self.pid < KERNEL_STACK_SLOTS,
            size + offset <= KERNEL_STACK_SIZE,
        ensures
            r == self.spec_top() - offset - size,
            self.spec_bottom() <= r <= self.spec_top(),
    {
        let (_bottom, top) = kernel_stack_address(self.pid as u64);
        top - offset - size
    }

    /// Unmaps the slot from the kernel address space; the model's explicit
    /// form of dropping the stack.
    pub fn release(self, kernel_space: &mut MemorySet)
        requires
            old(kernel_space).wf(),
            self.pid < KERNEL_STACK_SLOTS,
        ensures
            final(kernel_space).wf(),
            final(kernel_space).page_table_root == old(kernel_space).page_table_root,
            match old(kernel_space).spec_area_with_start(self.spec_bottom() as u64) {
                Some(i) => final(kernel_space).areas@ =~= old(kernel_space).areas@.remove(i),
                None => final(kernel_space).areas@ =~= old(kernel_space).areas@,
            },
    {
        let (bottom, _top) = kernel_stack_address(self.pid as u64);
        proof {
            assert((bottom / 4096) * 4096 == bottom);
        }
        kernel_space.remove_area_with_start_addr(bottom);
        proof {
            assert(((self.spec_bottom() as u64) / 4096) * 4096 == self.spec_bottom() as u64);
        }
    }
}

/// Slot bounds are page-aligned.
pub proof fn lemma_kernel_stack_alignment(p: int)
    requires
        0 <= p < KERNEL_STACK_SLOTS,
    ensures
        spec_kernel_stack_top(p) % 4096 == 0,
        spec_kernel_stack_bottom(p) % 4096 == 0,
{
    assert(p * (KERNEL_STACK_SIZE + GUARD_SIZE) % 4096 == 0) by (nonlinear_arith)
        requires
            KERNEL_STACK_SIZE + GUARD_SIZE == 8 * 4096,
    ;
    assert(spec_kernel_stack_top(p) % 4096 == 0) by (nonlinear_arith)
        requires
            spec_kernel_stack_top(p) == KERNEL_STACK_END - p * (KERNEL_STACK_SIZE + GUARD_SIZE),
            KERNEL_STACK_END % 4096 == 0,
            p * (KERNEL_STACK_SIZE + GUARD_SIZE) % 4096 == 0,
    ;
    assert(spec_kernel_stack_bottom(p) % 4096 == 0) by (nonlinear_arith)
        requires
            spec_kernel_stack_bottom(p) == spec_kernel_stack_top(p) - KERNEL_STACK_SIZE,
            spec_kernel_stack_top(p) % 4096 == 0,
            KERNEL_STACK_SIZE % 4096 == 0,
    ;
}

/// The slots of two distinct PIDs occupy disjoint page ranges, guard pages
/// included.
pub proof fn lemma_kernel_stack_pages_disjoint(i: u64, j: u64)
    requires
        i < KERNEL_STACK_SLOTS,
        j < KERNEL_STACK_SLOTS,
        i != j,
    ensures
        spec_kernel_stack_top(i as int) / 4096 < spec_kernel_stack_bottom(j as int) / 4096
            || spec_kernel_stack_top(j as int) / 4096 < spec_kernel_stack_bottom(i as int) / 4096,
{
    lemma_kernel_stack_isolation(i, j);
    assert((i as int) * (KERNEL_STACK_SIZE + GUARD_SIZE) % 4096 == 0) by (nonlinear_arith)
        requires
            KERNEL_STACK_SIZE + GUARD_SIZE == 8 * 4096,
    ;
    assert((j as int) * (KERNEL_STACK_SIZE + GUARD_SIZE) % 4096 == 0) by (nonlinear_arith)
        requires
            KERNEL_STACK_SIZE + GUARD_SIZE == 8 * 4096,
    ;
    if i < j {
        lemma_aligned_gap_separates_pages(
            spec_kernel_stack_top(j as int),
            spec_kernel_stack_bottom(i as int),
        );
    } else {
        lemma_aligned_gap_separates_pages(
            spec_kernel_stack_top(i as int),
            spec_kernel_stack_bottom(j as int),
        );
    }
}

/// Two page-aligned addresses a full page apart lie on different pages.
proof fn lemma_aligned_gap_separates_pages(a: int, b: int)
    requires
        a % 4096 == 0,
        b % 4096 == 0,
        a + 4096 <= b,
    ensures
        a / 4096 < b / 4096,
{
    assert(a / 4096 < b / 4096) by (nonlinear_arith)
        requires
            a % 4096 == 0,
            b % 4096 == 0,
            a + 4096 <= b,
    ;
}

/// Kernel stack isolation: the slots of two distinct PIDs are disjoint, and
/// at least one whole guard page lies between them.
pub proof fn lemma_kernel_stack_isolation(i: u64, j: u64)
    requires
        i < KERNEL_STACK_SLOTS,
        j < KERNEL_STACK_SLOTS,
        i != j,
    ensures
        i < j ==> spec_kernel_stack_top(j as int) + GUARD_SIZE <= spec_kernel_stack_bottom(i as int),
        j < i ==> spec_kernel_stack_top(i as int) + GUARD_SIZE <= spec_kernel_stack_bottom(j as int),
        spec_kernel_stack_top(j as int) <= spec_kernel_stack_bottom(i as int)
            || spec_kernel_stack_top(i as int) <= spec_kernel_stack_bottom(j as int),
{
    if i < j {
        assert((j - i) * (KERNEL_STACK_SIZE + GUARD_SIZE) >= KERNEL_STACK_SIZE + GUARD_SIZE)
            by (nonlinear_arith)
            requires
                i < j,
                KERNEL_STACK_SIZE + GUARD_SIZE > 0,
        ;
        assert(j * (KERNEL_STACK_SIZE + GUARD_SIZE) == i * (KERNEL_STACK_SIZE + GUARD_SIZE) + (j
            - i) * (KERNEL_STACK_SIZE + GUARD_SIZE)) by (nonlinear_arith);
    } else {
        assert((i - j) * (KERNEL_STACK_SIZE + GUARD_SIZE) >= KERNEL_STACK_SIZE + GUARD_SIZE)
            by (nonlinear_arith)
            requires
                j < i,
                KERNEL_STACK_SIZE + GUARD_SIZE > 0,
        ;
        assert(i * (KERNEL_STACK_SIZE + GUARD_SIZE) == j * (KERNEL_STACK_SIZE + GUARD_SIZE) + (i
            - j) * (KERNEL_STACK_SIZE + GUARD_SIZE)) by (nonlinear_arith);
    }
}

} // verus!

//! Physical-frame allocation and the kernel's fixed virtual layout.
//!
//! The firmware memory map arrives as plain regions; the allocator hands out
//! the `next`-th usable 4 KiB frame and never frees (a known leak, out of
//! scope to fix).  The kernel-stack region is carved into fixed slots keyed
//! by PID, one guard page between neighbours.

use vstd::prelude::*;

verus! {

pub const PAGE_SIZE: u64 = 4096;

pub const HEAP_START: u64 = 0x5000000;

pub const HEAP_SIZE: u64 = 0x0100000;

pub const KERNEL_STACK_START: u64 = 0x4000000;

pub const KERNEL_STACK_END: u64 = 0x4100000;

/// 28 KiB of stack per process.
pub const KERNEL_STACK_SIZE: u64 = 4096 * 7;

/// One unmapped page between neighbouring kernel stacks.
pub const GUARD_SIZE: u64 = 4096;

/// Number of kernel-stack slots that fit in the dedicated region.
pub const KERNEL_STACK_SLOTS: u64 = 32;

/// One region of the firmware memory map, as the bootloader reports it:
/// frame-aligned bounds and a usability classification.
#[derive(Debug, Clone, Copy, PartialEq, Eq, Structural)]
pub struct MemoryRegion {
    pub start: u64,
    pub end: u64,
    pub usable: bool,
}

/// The boot record handed over by the bootloader, reduced to the plain
/// values the kernel reads from it: the firmware memory map and the base of
/// the direct physical-memory map.
pub struct BootInfo {
    pub memory_map: Vec<MemoryRegion>,
    pub physical_memory_offset: u64,
}

/// The process-wide physical-memory direct-map offset recorded at boot.
pub fn physical_memory_offset(boot: &BootInfo) -> (r: u64)
    ensures
        r == boot.physical_memory_offset,
{
    boot.physical_memory_offset
}

pub open spec fn region_wf(r: MemoryRegion) -> bool {
    &&& r.start % PAGE_SIZE == 0
    &&& r.end % PAGE_SIZE == 0
    &&& r.start <= r.end
}

/// Regions are frame-aligned and stand in increasing, disjoint order.
pub open spec fn memory_map_wf(map: Seq<MemoryRegion>) -> bool {
    &&& forall|i: int| 0 <= i < map.len() ==> region_wf(#[trigger] map[i])
    &&& forall|i: int, j: int| 0 <= i < j < map.len() ==> map[i].end <= map[j].start
}

pub open spec fn region_frame_count(r: MemoryRegion) -> nat {
    (((r.end - r.start) as u64) / PAGE_SIZE) as nat
}

/// The `n`-th usable 4 KiB frame of the memory map, counting across the
/// usable regions in order.
pub open spec fn nth_usable_frame(map: Seq<MemoryRegion>, n: nat) -> Option<u64>
    decreases map.len(),
{
    if map.len() == 0 {
        None
    } else {
        let cnt: nat = if map[0].usable {
            region_frame_count(map[0])
        } else {
            0
        };
        if map[0].usable && n < cnt {
            Some((map[0].start + PAGE_SIZE * n) as u64)
        } else {
            nth_usable_frame(map.skip(1), (n - cnt) as nat)
        }
    }
}

/// Monotonic cursor over the usable frames of the firmware memory map.
pub struct MemoryFrameAllocator {
    pub memory_map: Vec<MemoryRegion>,
    pub initialized: bool,
    pub next: usize,
}

/// A frame allocator that always fails; stands in where mapping code must
/// not allocate.
pub struct EmptyFrameAllocator;

impl EmptyFrameAllocator {
    pub fn allocate_frame(&mut self) -> (r: Option<u64>)
        ensures
            r is None,
    {
        None
    }
}

impl MemoryFrameAllocator {
    pub open spec fn wf(self) -> bool {
        memory_map_wf(self.memory_map@)
    }

    pub fn new() -> (r: Self)
        ensures
            r.wf(),
            !r.initialized,
            r.next == 0,
            r.memory_map@.len() == 0,
    {
        MemoryFrameAllocator { memory_map: Vec::new(), initialized: false, next: 0 }
    }

    /// Records the firmware memory map.
    pub fn init(&mut self, memory_map: Vec<MemoryRegion>)
        requires
            memory_map_wf(memory_map@),
        ensures
            final(self).memory_map == memory_map,
            final(self).initialized,
            final(self).next == old(self).next,
            final(self).wf(),
    {
        self.memory_map = memory_map;
        self.initialized = true;
    }

    /// Returns the `next`-th usable frame, or nothing once the map is
    /// exhausted; the cursor advances either way and frames are never freed.
    pub fn allocate_frame(&mut self) -> (r: Option<u64>)
        requires
            old(self).wf(),
            old(self).initialized,
            old(self).next < usize::MAX,
        ensures
            final(self).wf(),
            final(self).initialized,
            final(self).memory_map == old(self).memory_map,
            final(self).next == old(self).next + 1,
            r == nth_usable_frame(old(self).memory_map@, old(self).next as nat),
    {
        let frame = self.nth_usable(self.next);
        self.next = self.next + 1;
        frame
    }

    fn nth_usable(&self, n: usize) -> (r: Option<u64>)
        requires
            self.wf(),
        ensures
            r == nth_usable_frame(self.memory_map@, n as nat),
    {
        let ghost map0 = self.memory_map@;
        let mut i: usize = 0;
        let mut left: u64 = n as u64;
        proof {
            assert(self.memory_map@.skip(0) =~= self.memory_map@);
        }
        while i < self.memory_map.len()
            invariant
                self.wf(),
                i <= self.memory_map@.len(),
                nth_usable_frame(map0, n as nat) == nth_usable_frame(
                    self.memory_map@.skip(i as int),
                    left as nat,
                ),
                map0 == self.memory_map@,
            decreases self.memory_map@.len() - i,
        {
            let r = self.memory_map[i];
            proof {
                assert(self.memory_map@.skip(i as int)[0] == r);
                assert(self.memory_map@.skip(i as int).skip(1) =~= self.memory_map@.skip(
                    i as int + 1,
                ));
            }
            if r.usable {
                let cnt: u64 = (r.end - r.start) / PAGE_SIZE;
                if left < cnt {
                    assert(r.start + PAGE_SIZE * left < r.end || r.start + PAGE_SIZE * left
                        <= u64::MAX) by (nonlinear_arith)
                        requires
                            left < cnt,
                            cnt == ((r.end - r.start) as u64) / PAGE_SIZE,
                            r.start <= r.end,
                            PAGE_SIZE == 4096,
                    ;
                    return Some(r.start + PAGE_SIZE * left);
                } else {
                    left = left - cnt;
                }
            }
            i = i + 1;
        }
        proof {
            assert(self.memory_map@.skip(i as int) =~= Seq::<MemoryRegion>::empty());
        }
        None
    }
}

/// Allocates one frame from the system-wide frame allocator.
pub fn alloc_frame(allocator: &mut MemoryFrameAllocator) -> (r: Option<u64>)
    requires
        old(allocator).wf(),
        old(allocator).initialized,
        old(allocator).next < usize::MAX,
    ensures
        final(allocator).wf(),
        final(allocator).initialized,
        final(allocator).memory_map == old(allocator).memory_map,
        final(allocator).next == old(allocator).next + 1,
        r == nth_usable_frame(old(allocator).memory_map@, old(allocator).next as nat),
{
    allocator.allocate_frame()
}

/// Records the firmware memory map on the system-wide frame allocator.
pub fn init_frame_allocator(allocator: &mut MemoryFrameAllocator, memory_map: Vec<MemoryRegion>)
    requires
        memory_map_wf(memory_map@),
    ensures
        final(allocator).memory_map == memory_map,
        final(allocator).initialized,
        final(allocator).next == old(allocator).next,
        final(allocator).wf(),
{
    allocator.init(memory_map)
}

/// Eagerly maps the whole PID-indexed kernel stack region: one fixed-size
/// slot per PID, present + writable and not user-accessible, with one
/// unmapped guard page between neighbouring slots.
pub fn init_kernel_stack(kernel_space: &mut crate::memory_set::MemorySet)
    requires
        old(kernel_space).wf(),
        old(kernel_space).areas@.len() == 0,
    ensures
        final(kernel_space).wf(),
        final(kernel_space).page_table_root == old(kernel_space).page_table_root,
        final(kernel_space).areas@.len() == KERNEL_STACK_SLOTS,
        forall|p: int|
            0 <= p < KERNEL_STACK_SLOTS ==> {
                &&& (#[trigger] final(kernel_space).areas@[p]).start_virt_addr
                    == crate::kernel_stack::spec_kernel_stack_bottom(p)
                &&& final(kernel_space).areas@[p].end_virt_addr
                    == crate::kernel_stack::spec_kernel_stack_top(p)
                &&& final(kernel_space).areas@[p].flags == (crate::memory_set::PageTableFlags {
                    present: true,
                    writable: true,
                    user_accessible: false,
                    no_execute: false,
                })
            },
        // the guard page below each slot stays unmapped: a stack overflow
        // faults instead of reaching the neighbouring slot
        forall|p: int, va: u64|
            #![trigger final(kernel_space).is_mapped(va), crate::kernel_stack::spec_kernel_stack_bottom(p)]
            0 <= p < KERNEL_STACK_SLOTS && crate::kernel_stack::spec_kernel_stack_bottom(p)
                - GUARD_SIZE <= va < crate::kernel_stack::spec_kernel_stack_bottom(p)
                ==> !final(kernel_space).is_mapped(va),
{
    let mut pid: u64 = 0;
    while pid < KERNEL_STACK_SLOTS
        invariant
            kernel_space.wf(),
            kernel_space.page_table_root == old(kernel_space).page_table_root,
            pid <= KERNEL_STACK_SLOTS,
            kernel_space.areas@.len() == pid,
            forall|p: int|
                0 <= p < pid ==> {
                    &&& (#[trigger] kernel_space.areas@[p]).start_virt_addr
                        == crate::kernel_stack::spec_kernel_stack_bottom(p)
                    &&& kernel_space.areas@[p].end_virt_addr
                        == crate::kernel_stack::spec_kernel_stack_top(p)
                    &&& kernel_space.areas@[p].flags == (crate::memory_set::PageTableFlags {
                        present: true,
                        writable: true,
                        user_accessible: false,
                        no_execute: false,
                    })
                },
        decreases KERNEL_STACK_SLOTS - pid,
    {
        let (bottom, top) = crate::kernel_stack::kernel_stack_address(pid);
        proof {
            assert forall|i: int| 0 <= i < kernel_space.areas@.len() implies !(
            #[trigger] kernel_space.areas@[i]).overlaps_range(bottom, top) by {
                crate::kernel_stack::lemma_kernel_stack_pages_disjoint(i as u64, pid);
            }
        }
        kernel_space.insert(
            bottom,
            top,
            crate::memory_set::PageTableFlags::kernel_rw(),
            None,
        );
        pid = pid + 1;
    }
    proof {
        assert forall|p: int, va: u64|
            #![trigger kernel_space.is_mapped(va), crate::kernel_stack::spec_kernel_stack_bottom(p)]
            0 <= p < KERNEL_STACK_SLOTS && crate::kernel_stack::spec_kernel_stack_bottom(p)
                - GUARD_SIZE <= va < crate::kernel_stack::spec_kernel_stack_bottom(p)
                implies !kernel_space.is_mapped(va) by {
            crate::kernel_stack::lemma_kernel_stack_alignment(p);
            let bottom = crate::kernel_stack::spec_kernel_stack_bottom(p);
            assert(bottom >= 4096) by (nonlinear_arith)
                requires
                    bottom == KERNEL_STACK_END - p * (KERNEL_STACK_SIZE + GUARD_SIZE)
                        - KERNEL_STACK_SIZE,
                    0 <= p <= 31,
                    KERNEL_STACK_END == 0x4100000,
                    KERNEL_STACK_SIZE + GUARD_SIZE == 0x8000,
                    KERNEL_STACK_SIZE == 0x7000,
            ;
            let g = va / 4096;
            assert(g == bottom / 4096 - 1) by (nonlinear_arith)
                requires
                    bottom % 4096 == 0,
                    bottom >= 4096,
                    g == va / 4096,
                    bottom - 4096 <= va < bottom,
            ;
            if kernel_space.is_mapped(va) {
                let q = kernel_space.area_index_of(va);
                assert(kernel_space.areas@[q].contains_page(g as u64));
                crate::kernel_stack::lemma_kernel_stack_alignment(q);
                assert(kernel_space.areas@[q].pages_end()
                    == crate::kernel_stack::spec_kernel_stack_top(q) / 4096) by (nonlinear_arith)
                    requires
                        kernel_space.areas@[q].pages_end() == (
                        kernel_space.areas@[q].end_virt_addr + 4095) / 4096,
                        kernel_space.areas@[q].end_virt_addr
                            == crate::kernel_stack::spec_kernel_stack_top(q),
                        crate::kernel_stack::spec_kernel_stack_top(q) % 4096 == 0,
                ;
                if q == p {
                    assert(bottom / 4096 <= g);
                } else {
                    crate::kernel_stack::lemma_kernel_stack_pages_disjoint(q as u64, p as u64);
                }
            }
        }
    }
}

/// Top of the kernel stack slot of process `app_id`.
pub fn get_app_kernel_stack(app_id: u64) -> (top: u64)
    requires
        app_id < KERNEL_STACK_SLOTS,
    ensures
        top == KERNEL_STACK_END - app_id * (KERNEL_STACK_SIZE + GUARD_SIZE),
        KERNEL_STACK_START + KERNEL_STACK_SIZE + GUARD_SIZE <= top <= KERNEL_STACK_END,
{
    let top = KERNEL_STACK_END - app_id * (KERNEL_STACK_SIZE + GUARD_SIZE);
    top
}

/// Distinct cursor positions yield distinct frames: the usable frames of a
/// well-formed memory map are strictly increasing.
pub proof fn lemma_usable_frames_distinct(map: Seq<MemoryRegion>, n1: nat, n2: nat, f1: u64, f2: u64)
    requires
        memory_map_wf(map),
        n1 < n2,
        nth_usable_frame(map, n1) == Some(f1),
        nth_usable_frame(map, n2) == Some(f2),
    ensures
        f1 < f2,
    decreases map.len(),
{
    let cnt: nat = if map[0].usable {
        region_frame_count(map[0])
    } else {
        0
    };
    if map[0].usable && n1 < cnt {
        if n2 < cnt {
            assert(map[0].start + PAGE_SIZE * n1 < map[0].start + PAGE_SIZE * n2)
                by (nonlinear_arith)
                requires
                    n1 < n2,
                    PAGE_SIZE == 4096,
            ;
        } else {
            assert(f1 < map[0].end) by (nonlinear_arith)
                requires
                    n1 < cnt,
                    cnt == region_frame_count(map[0]),
                    region_wf(map[0]),
                    f1 == map[0].start + PAGE_SIZE * n1,
                    PAGE_SIZE == 4096,
            ;
            lemma_nth_usable_lower_bound(map.skip(1), (n2 - cnt) as nat, f2);
            if map.len() > 1 {
                assert(map[0].end <= map[1].start);
            }
        }
    } else {
        assert(memory_map_wf(map.skip(1))) by {
            assert(forall|i: int|
                0 <= i < map.skip(1).len() ==> region_wf(#[trigger] map.skip(1)[i]));
        }
        lemma_usable_frames_distinct(map.skip(1), (n1 - cnt) as nat, (n2 - cnt) as nat, f1, f2);
    }
}

/// Every usable frame lies at or above the start of the first region.
proof fn lemma_nth_usable_lower_bound(map: Seq<MemoryRegion>, n: nat, f: u64)
    requires
        memory_map_wf(map),
        nth_usable_frame(map, n) == Some(f),
    ensures
        map.len() > 0,
        f >= map[0].start,
    decreases map.len(),
{
    let cnt: nat = if map[0].usable {
        region_frame_count(map[0])
    } else {
        0
    };
    if map[0].usable && n < cnt {
        assert(f >= map[0].start) by (nonlinear_arith)
            requires
                f == map[0].start + PAGE_SIZE * n,
                PAGE_SIZE == 4096,
        ;
    } else {
        assert(memory_map_wf(map.skip(1))) by {
            assert(forall|i: int|
                0 <= i < map.skip(1).len() ==> region_wf(#[trigger] map.skip(1)[i]));
        }
        lemma_nth_usable_lower_bound(map.skip(1), (n - cnt) as nat, f);
        if map.len() > 1 {
            assert(map.skip(1)[0] == map[1]);
            assert(map[0].end <= map[1].start);
        }
    }
}

} // verus!

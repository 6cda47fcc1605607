use os::kernel_stack::{kernel_stack_address, KernelStack};
use os::memory::{
    alloc_frame, get_app_kernel_stack, init_frame_allocator, physical_memory_offset, BootInfo,
    EmptyFrameAllocator, MemoryFrameAllocator, MemoryRegion, GUARD_SIZE, KERNEL_STACK_END,
    KERNEL_STACK_SIZE,
};
use os::memory_set::MemorySet;
use os::pid::PidHandle;

#[test]
fn kernel_stack_tops_step_down_by_slot() {
    assert_eq!(get_app_kernel_stack(0), KERNEL_STACK_END);
    assert_eq!(get_app_kernel_stack(1), KERNEL_STACK_END - (KERNEL_STACK_SIZE + GUARD_SIZE));
    assert_eq!(get_app_kernel_stack(0), 0x4100000);
    assert_eq!(get_app_kernel_stack(1), 0x40f8000);
}

#[test]
fn kernel_stack_slots_leave_a_guard_page() {
    let (bottom0, top0) = kernel_stack_address(0);
    let (bottom1, top1) = kernel_stack_address(1);
    assert_eq!(top0 - bottom0, KERNEL_STACK_SIZE);
    // slot 1 ends one guard page below slot 0's bottom
    assert_eq!(top1 + GUARD_SIZE, bottom0);
    // all 32 slots are pairwise disjoint
    for i in 0..32u64 {
        for j in 0..32u64 {
            if i != j {
                let (bi, ti) = kernel_stack_address(i);
                let (bj, tj) = kernel_stack_address(j);
                assert!(ti <= bj || tj <= bi);
            }
        }
    }
}

#[test]
fn frame_allocator_walks_usable_regions() {
    let mut a = MemoryFrameAllocator::new();
    let map = vec![
        MemoryRegion { start: 0x1000, end: 0x3000, usable: true },
        MemoryRegion { start: 0x3000, end: 0x5000, usable: false },
        MemoryRegion { start: 0x8000, end: 0xa000, usable: true },
    ];
    init_frame_allocator(&mut a, map);
    assert_eq!(alloc_frame(&mut a), Some(0x1000));
    assert_eq!(alloc_frame(&mut a), Some(0x2000));
    // the reserved region is skipped entirely
    assert_eq!(alloc_frame(&mut a), Some(0x8000));
    assert_eq!(alloc_frame(&mut a), Some(0x9000));
    // the map is exhausted and the allocator never frees
    assert_eq!(alloc_frame(&mut a), None);
    assert_eq!(a.next, 5);
}

#[test]
fn empty_frame_allocator_always_fails() {
    let mut a = EmptyFrameAllocator;
    assert_eq!(a.allocate_frame(), None);
}

#[test]
fn boot_info_carries_the_direct_map_offset() {
    let boot = BootInfo { memory_map: Vec::new(), physical_memory_offset: 0x1_0000_0000 };
    assert_eq!(physical_memory_offset(&boot), 0x1_0000_0000);
}

#[test]
fn kernel_stack_maps_and_releases_its_slot() {
    let mut kernel_space = MemorySet::new(0x1000);
    let pid = PidHandle(2);
    let stack = KernelStack::new(&pid, &mut kernel_space);
    assert_eq!(stack.pid, 2);
    assert_eq!(kernel_space.areas.len(), 1);
    let (bottom, top) = kernel_stack_address(2);
    assert_eq!(kernel_space.areas[0].start_virt_addr, bottom);
    assert_eq!(kernel_space.areas[0].end_virt_addr, top);
    assert_eq!(stack.get_top(), top as usize);
    stack.release(&mut kernel_space);
    assert_eq!(kernel_space.areas.len(), 0);
}

#[test]
fn init_kernel_stack_premaps_every_slot() {
    let mut kernel_space = MemorySet::new(0x2000);
    os::memory::init_kernel_stack(&mut kernel_space);
    assert_eq!(kernel_space.areas.len(), 32);
    for pid in 0..32u64 {
        let (bottom, top) = kernel_stack_address(pid);
        let area = &kernel_space.areas[pid as usize];
        assert_eq!(area.start_virt_addr, bottom);
        assert_eq!(area.end_virt_addr, top);
        assert!(area.flags.present && area.flags.writable && !area.flags.user_accessible);
    }
}

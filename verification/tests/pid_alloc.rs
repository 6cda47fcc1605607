use os::pid::{alloc_pid, PidAllocator};

#[test]
fn fresh_allocator_counts_up() {
    let mut a = PidAllocator::new();
    assert_eq!(a.allocate().0, 0);
    assert_eq!(a.allocate().0, 1);
    assert_eq!(a.allocate().0, 2);
    assert_eq!(a.current, 3);
}

#[test]
fn recycled_pid_comes_back_last_in_first_out() {
    let mut a = PidAllocator::new();
    let p0 = a.allocate();
    let p1 = a.allocate();
    let p2 = a.allocate();
    assert_eq!((p0.0, p1.0, p2.0), (0, 1, 2));
    a.dealloc(1);
    a.dealloc(0);
    // the free list is popped from its tail
    assert_eq!(a.allocate().0, 0);
    assert_eq!(a.allocate().0, 1);
    assert_eq!(a.allocate().0, 3);
}

#[test]
fn live_pid_never_reissued() {
    let mut a = PidAllocator::new();
    let mut live = Vec::new();
    for _ in 0..8 {
        live.push(a.allocate().0);
    }
    a.dealloc(3);
    a.dealloc(6);
    live.retain(|&p| p != 3 && p != 6);
    for _ in 0..4 {
        let p = a.allocate().0;
        assert!(!live.contains(&p), "PID {} is still live", p);
        live.push(p);
    }
}

#[test]
fn alloc_pid_matches_allocator() {
    let mut a = PidAllocator::new();
    let h = alloc_pid(&mut a);
    assert_eq!(h.0, 0);
    a.dealloc(0);
    let h = alloc_pid(&mut a);
    assert_eq!(h.0, 0);
}

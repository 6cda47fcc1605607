use os::kernel_stack::kernel_stack_address;
use os::loader::AppTable;
use os::pcb::ProcessStatus;
use os::process::{
    add_initproc, current_kernel_stack, current_process, push_stdin, run_processes, Kernel,
};
use os::system_call::{
    sys_exec, sys_exit, sys_fork, sys_read, sys_waitpid, sys_write, sys_yield, trap_syscall,
};

fn put_u16(b: &mut [u8], off: usize, v: u16) {
    b[off..off + 2].copy_from_slice(&v.to_le_bytes());
}

fn put_u32(b: &mut [u8], off: usize, v: u32) {
    b[off..off + 4].copy_from_slice(&v.to_le_bytes());
}

fn put_u64(b: &mut [u8], off: usize, v: u64) {
    b[off..off + 8].copy_from_slice(&v.to_le_bytes());
}

fn make_elf(entry: u64, segs: &[(u64, u32, Vec<u8>, u64)]) -> Vec<u8> {
    let ph_off = 64usize;
    let payload_off = ph_off + 56 * segs.len();
    let total = payload_off + segs.iter().map(|s| s.2.len()).sum::<usize>();
    let mut b = vec![0u8; total.max(64)];
    b[0] = 0x7f;
    b[1] = 0x45;
    b[2] = 0x4c;
    b[3] = 0x46;
    put_u64(&mut b, 24, entry);
    put_u64(&mut b, 32, ph_off as u64);
    put_u16(&mut b, 54, 56);
    put_u16(&mut b, 56, segs.len() as u16);
    let mut data_off = payload_off;
    for (i, (vaddr, flags, data, memsz)) in segs.iter().enumerate() {
        let slot = ph_off + 56 * i;
        put_u32(&mut b, slot, 1);
        put_u32(&mut b, slot + 4, *flags);
        put_u64(&mut b, slot + 8, data_off as u64);
        put_u64(&mut b, slot + 16, *vaddr);
        put_u64(&mut b, slot + 32, data.len() as u64);
        put_u64(&mut b, slot + 40, *memsz);
        b[data_off..data_off + data.len()].copy_from_slice(data);
        data_off += data.len();
    }
    b
}

const BASE: u64 = 0x8000000;

/// Image whose data page holds: "A", "B", "Hello World!\n", "user_shell\0",
/// "nonexistent\0".
fn init_elf() -> Vec<u8> {
    let data = b"ABHello World!\nuser_shell\0nonexistent\0".to_vec();
    make_elf(BASE, &[(BASE, 2, data, 0x1000)])
}

const MSG: u64 = BASE + 2;
const PATH_SHELL: u64 = BASE + 15;
const PATH_MISSING: u64 = BASE + 26;

fn shell_elf() -> Vec<u8> {
    make_elf(0x9000040, &[(0x9000000, 1, b"shell".to_vec(), 0x100)])
}

fn boot() -> Kernel {
    let mut k = Kernel::new(0xdead_f000, 0x7777000);
    add_initproc(&mut k, &init_elf());
    k
}

#[test]
fn boot_dispatches_initproc_first() {
    let mut k = boot();
    assert_eq!(k.manager.ready_queue, vec![0]);
    assert_eq!(current_process(&k), None);
    let d = run_processes(&mut k).expect("init must be dispatched");
    assert_eq!(current_process(&k), Some(0));
    assert_eq!(k.procs[0].as_ref().unwrap().inner.process_status, ProcessStatus::Running);
    // CR3 gets the process's page-table root
    assert_eq!(d.cr3, 0x7777000);
    // the saved context sits just below the trap frame at the stack top
    let (_, top) = kernel_stack_address(0);
    assert_eq!(d.next_process_context_ptr, top - 128 - 64);
    assert_eq!(current_kernel_stack(&k), top as usize);
    // with nothing ready the idle loop spins
    assert!(run_processes(&mut k).is_none());
}

#[test]
fn initial_trap_frame_aims_at_the_image() {
    let k = boot();
    let pcb = k.procs[0].as_ref().unwrap();
    let frame = pcb.get_trap_frame();
    assert_eq!(frame.rcx, BASE); // entry point for SYSRET
    assert_eq!(frame.r11, 0x203); // initial RFLAGS
    assert_eq!(frame.rsp, 0x8002000 + 1024 * 1024); // user stack top
    assert_eq!(frame.rax, 0);
    assert_eq!(pcb.getpid(), 0);
}

#[test]
fn write_appends_to_the_console() {
    let mut k = boot();
    run_processes(&mut k).unwrap();
    let r = sys_write(&mut k, MSG, 13);
    assert_eq!(r, 13);
    assert_eq!(&k.console, b"Hello World!\n");
}

#[test]
fn fork_gives_parent_the_pid_and_child_a_zero() {
    let mut k = boot();
    run_processes(&mut k).unwrap();
    let child = sys_fork(&mut k);
    assert_eq!(child, 1);
    // parent keeps running; the child waits its turn at the queue's tail
    assert_eq!(current_process(&k), Some(0));
    assert_eq!(k.manager.ready_queue, vec![1]);
    let child_pcb = k.procs[1].as_ref().unwrap();
    assert_eq!(child_pcb.inner.process_status, ProcessStatus::Ready);
    assert_eq!(child_pcb.inner.parent, Some(0));
    assert_eq!(child_pcb.inner.trap_frame.rax, 0);
    // everything but rax mirrors the parent's frame
    let parent_frame = k.procs[0].as_ref().unwrap().get_trap_frame();
    assert_eq!(child_pcb.inner.trap_frame.rcx, parent_frame.rcx);
    assert_eq!(child_pcb.inner.trap_frame.rsp, parent_frame.rsp);
    // the clone holds the same bytes on backing of its own
    assert_eq!(child_pcb.inner.memory_set.read_byte(BASE), Some(b'A'));
    assert_eq!(k.procs[0].as_ref().unwrap().inner.children, vec![1]);
}

#[test]
fn yield_interleaving_runs_fifo() {
    // two processes take strict turns writing one letter each
    let mut k = boot();
    run_processes(&mut k).unwrap();
    sys_fork(&mut k);
    for _ in 0..3 {
        // whoever runs writes its letter and yields
        let me = current_process(&k).unwrap() as u64;
        sys_write(&mut k, BASE + me, 1);
        sys_yield(&mut k);
        run_processes(&mut k).unwrap();
        let me = current_process(&k).unwrap() as u64;
        sys_write(&mut k, BASE + me, 1);
        sys_yield(&mut k);
        run_processes(&mut k).unwrap();
    }
    assert!(k.console.starts_with(b"ABABAB"));
}

#[test]
fn waitpid_timing_reaps_code_42() {
    let mut k = boot();
    run_processes(&mut k).unwrap();
    let child = sys_fork(&mut k);
    let code_ptr = 0x8100000u64; // inside the parent's user stack

    // child still alive: -2
    assert_eq!(sys_waitpid(&mut k, child, code_ptr), -2);
    // no such child: -1
    assert_eq!(sys_waitpid(&mut k, 7, code_ptr), -1);

    // parent yields; the child runs and exits with 42
    sys_yield(&mut k);
    run_processes(&mut k).unwrap();
    assert_eq!(current_process(&k), Some(child as usize));
    sys_exit(&mut k, 42);
    assert_eq!(
        k.procs[child as usize].as_ref().unwrap().inner.process_status,
        ProcessStatus::Zombie
    );
    // the zombie still hangs in the parent's children list
    assert!(k.procs[0].as_ref().unwrap().inner.children.contains(&(child as usize)));

    // the parent reaps it and reads the code through its pointer
    run_processes(&mut k).unwrap();
    assert_eq!(current_process(&k), Some(0));
    assert_eq!(sys_waitpid(&mut k, child, code_ptr), child);
    assert!(k.procs[child as usize].is_none());
    assert!(!k.procs[0].as_ref().unwrap().inner.children.contains(&(child as usize)));
    let ms = &k.procs[0].as_ref().unwrap().inner.memory_set;
    let got = ms.read_bytes(code_ptr, 8).unwrap();
    assert_eq!(u64::from_le_bytes(got.try_into().unwrap()), 42);
    // the PID is free again and nothing matches any more
    assert!(k.pid_allocator.recycled.contains(&(child as usize)));
    assert_eq!(sys_waitpid(&mut k, -1, code_ptr), -1);
}

#[test]
fn reparenting_hands_orphans_to_init() {
    let mut k = boot();
    run_processes(&mut k).unwrap();
    // init forks P; P runs and forks C
    let p = sys_fork(&mut k) as usize;
    sys_yield(&mut k);
    run_processes(&mut k).unwrap();
    assert_eq!(current_process(&k), Some(p));
    let c = sys_fork(&mut k) as usize;
    assert_eq!(k.procs[c].as_ref().unwrap().inner.parent, Some(p));

    // P exits before C: C now refers to init, and init owns it
    sys_exit(&mut k, 0);
    assert_eq!(k.procs[c].as_ref().unwrap().inner.parent, Some(0));
    assert!(k.procs[0].as_ref().unwrap().inner.children.contains(&c));
    assert_eq!(k.procs[p].as_ref().unwrap().inner.children.len(), 0);

    // C runs, exits; init eventually reaps it
    run_processes(&mut k).unwrap();
    while current_process(&k) != Some(c) {
        sys_yield(&mut k);
        run_processes(&mut k).unwrap();
    }
    sys_exit(&mut k, 7);
    run_processes(&mut k).unwrap();
    while current_process(&k) != Some(0) {
        sys_yield(&mut k);
        run_processes(&mut k).unwrap();
    }
    let code_ptr = 0x8100000u64;
    let reaped = sys_waitpid(&mut k, -1, code_ptr);
    assert!(reaped == p as isize || reaped == c as isize);
}

#[test]
fn exec_replaces_the_program_or_reports_failure() {
    let mut apps = AppTable::new();
    assert!(apps.add_app(b"user_shell".to_vec(), shell_elf()));
    let mut k = boot();
    run_processes(&mut k).unwrap();

    // unknown image: -1 and the program continues unchanged
    assert_eq!(sys_exec(&mut k, PATH_MISSING, &apps), -1);
    assert_eq!(k.procs[0].as_ref().unwrap().get_trap_frame().rcx, BASE);

    // known image: the address space and pending SYSRET target are replaced
    assert_eq!(sys_exec(&mut k, PATH_SHELL, &apps), 0);
    let pcb = k.procs[0].as_ref().unwrap();
    assert_eq!(pcb.get_trap_frame().rcx, 0x9000040);
    assert_eq!(pcb.get_trap_frame().r11, 0x203);
    let ms = &pcb.inner.memory_set;
    assert_eq!(ms.read_byte(0x9000000), Some(b's'));
    // nothing of the previous program remains mapped
    assert_eq!(ms.read_byte(BASE), None);
    assert_eq!(ms.areas.len(), 2);
}

#[test]
fn exit_logs_the_return_code_on_the_console() {
    let mut k = boot();
    run_processes(&mut k).unwrap();
    let child = sys_fork(&mut k);
    sys_yield(&mut k);
    run_processes(&mut k).unwrap();
    assert_eq!(current_process(&k), Some(child as usize));
    sys_exit(&mut k, 42);
    assert_eq!(&k.console, b"[kernel] Task exited with return code 42.\n");
    // a negative code renders with its sign
    run_processes(&mut k).unwrap();
    let child = sys_fork(&mut k);
    sys_yield(&mut k);
    run_processes(&mut k).unwrap();
    assert_eq!(current_process(&k), Some(child as usize));
    sys_exit(&mut k, -7);
    assert!(k.console.ends_with(b"[kernel] Task exited with return code -7.\n"));
}

#[test]
fn stdin_is_a_fifo_queue() {
    let mut k = boot();
    run_processes(&mut k).unwrap();
    push_stdin(&mut k, b'a');
    push_stdin(&mut k, b'b');
    push_stdin(&mut k, b'c');
    // the oldest byte is delivered first
    assert_eq!(sys_read(&mut k, BASE, 1), Some(1));
    let ms = &k.procs[0].as_ref().unwrap().inner.memory_set;
    assert_eq!(ms.read_byte(BASE), Some(b'a'));
    assert_eq!(sys_read(&mut k, BASE, 1), Some(1));
    let ms = &k.procs[0].as_ref().unwrap().inner.memory_set;
    assert_eq!(ms.read_byte(BASE), Some(b'b'));
    assert_eq!(k.stdin_buffer, vec![b'c']);
}

#[test]
fn read_delivers_input_or_parks_the_caller() {
    let mut k = boot();
    run_processes(&mut k).unwrap();
    // no input: the caller yields and will retry
    assert_eq!(sys_read(&mut k, BASE, 1), None);
    assert_eq!(current_process(&k), None);
    assert_eq!(k.manager.ready_queue, vec![0]);

    // with input queued the call completes at once
    run_processes(&mut k).unwrap();
    push_stdin(&mut k, b'x');
    assert_eq!(sys_read(&mut k, BASE, 1), Some(1));
    let ms = &k.procs[0].as_ref().unwrap().inner.memory_set;
    assert_eq!(ms.read_byte(BASE), Some(b'x'));
}

#[test]
fn trap_syscall_marshals_registers_and_stores_rax() {
    let apps = AppTable::new();
    let mut k = boot();
    run_processes(&mut k).unwrap();
    // the process issued write(MSG, 13): rax=1, rdi=buf, rsi=len
    {
        let frame = &mut k.procs[0].as_mut().unwrap().inner.trap_frame;
        frame.rax = 1;
        frame.rdi = MSG;
        frame.rsi = 13;
    }
    let r = trap_syscall(&mut k, &apps);
    assert_eq!(r, Some(13));
    assert_eq!(&k.console, b"Hello World!\n");
    // the return value lands in the saved rax for SYSRET
    assert_eq!(k.procs[0].as_ref().unwrap().get_trap_frame().rax, 13);
}

use os::gdt::ISTIndex;
use os::interrupts::Interrupt;
use os::task::{InnerTaskManager, Task, TaskManager, TaskStatus, TrapContext};
use os::trap::{
    restore_user_registers, save_user_registers, TrapFrame, UserRegisters,
};
use os::user;
use os::user::SystemCall;
use os::vga::{Color, ColorCode, Writer, BUFFER_HEIGHT, BUFFER_WIDTH};

#[test]
fn interrupt_vectors_match_the_pic_remap() {
    assert_eq!(Interrupt::Timer.as_u8(), 32);
    assert_eq!(Interrupt::Keyboard.as_u8(), 33);
    assert_eq!(Interrupt::Trap.as_u8(), 0x80);
    assert_eq!(Interrupt::Keyboard.as_usize(), 33);
}

#[test]
fn ist_indexes_count_from_zero() {
    assert_eq!(ISTIndex::DoubleFault.as_u16(), 0);
    assert_eq!(ISTIndex::NonMaskableInterrupt.as_u16(), 1);
    assert_eq!(ISTIndex::Debug.as_u16(), 2);
    assert_eq!(ISTIndex::Debug.as_usize(), 2);
}

#[test]
fn syscall_numbers_follow_the_abi() {
    assert_eq!(SystemCall::SysWrite.as_u64(), 1);
    assert_eq!(SystemCall::SysExit.as_u64(), 2);
    assert_eq!(SystemCall::SysFork.as_u64(), 3);
    assert_eq!(SystemCall::SysExec.as_u64(), 4);
    assert_eq!(SystemCall::SysYield.as_u64(), 5);
    assert_eq!(SystemCall::SysRead.as_u64(), 6);
    assert_eq!(SystemCall::SysWaitpid.as_u64(), 7);
    assert_eq!(SystemCall::SysExec.as_usize(), 4);
}

#[test]
fn user_stubs_marshal_the_registers() {
    let r = user::write(0x8000000, 13);
    assert_eq!((r.id, r.args), (1, [0x8000000, 13, 0]));
    let r = user::exit(42);
    assert_eq!((r.id, r.args), (2, [42, 0, 0]));
    let r = user::fork();
    assert_eq!((r.id, r.args), (3, [0, 0, 0]));
    let r = user::exec(0x8000020);
    assert_eq!((r.id, r.args), (4, [0x8000020, 0, 0]));
    let r = user::yield_();
    assert_eq!((r.id, r.args), (5, [0, 0, 0]));
    let r = user::read(0x8000040, 1);
    assert_eq!((r.id, r.args), (6, [0x8000040, 1, 0]));
    let r = user::waitpid(3, 0x8000048);
    assert_eq!((r.id, r.args), (7, [3, 0x8000048, 0]));
    let r = user::wait(0x8000048);
    assert_eq!(r.id, 7);
    assert_eq!(r.args[0], (-1isize) as usize);
}

#[test]
fn trap_frame_round_trip_preserves_registers() {
    let regs = UserRegisters {
        rax: 1,
        rbx: 2,
        rcx: 3,
        rdx: 4,
        rbp: 5,
        rsi: 6,
        rdi: 7,
        r8: 8,
        r9: 9,
        r10: 10,
        r11: 11,
        r12: 12,
        r13: 13,
        r14: 14,
        r15: 15,
        rsp: 16,
    };
    let mut frame = save_user_registers(&regs);
    // the kernel stores the call's return value before SYSRET
    frame.rax = 99;
    let back = restore_user_registers(&frame);
    assert_eq!(back, UserRegisters { rax: 99, ..regs });
    assert_eq!(TrapFrame::new().rsp, 0);
}

#[test]
fn color_codes_pack_background_and_foreground() {
    let code = ColorCode::new(Color::Yellow, Color::Blue);
    assert_eq!(code.0, 0x1e);
    let def: ColorCode = Default::default();
    assert_eq!(def.0, 0x0f);
}

#[test]
fn writer_advances_wraps_and_scrolls() {
    let mut w = Writer::new();
    w.write_byte(b'H');
    w.write_byte(b'i');
    assert_eq!(w.column_position, 2);
    assert_eq!(w.buffer.characters[0][0].ascii, b'H');
    assert_eq!(w.buffer.characters[0][1].ascii, b'i');
    w.write_byte(b'\n');
    assert_eq!((w.row_position, w.column_position), (1, 0));

    // a full line wraps to the next row
    for _ in 0..BUFFER_WIDTH {
        w.write_byte(b'x');
    }
    w.write_byte(b'y');
    assert_eq!(w.row_position, 2);
    assert_eq!(w.buffer.characters[2][0].ascii, b'y');

    // on the last row, a newline scrolls everything up one row
    let mut w = Writer::new();
    w.write_byte(b'T');
    for _ in 0..(BUFFER_HEIGHT - 1) {
        w.write_byte(b'\n');
    }
    assert_eq!(w.row_position, BUFFER_HEIGHT - 1);
    w.write_byte(b'Z');
    w.write_byte(b'\n');
    assert_eq!(w.row_position, BUFFER_HEIGHT - 1);
    assert_eq!(w.buffer.characters[BUFFER_HEIGHT - 2][0].ascii, b'Z');
}

#[test]
fn writer_replaces_unprintable_bytes() {
    let mut w = Writer::new();
    w.write_string("ok\u{7f}");
    assert_eq!(w.buffer.characters[0][0].ascii, b'o');
    assert_eq!(w.buffer.characters[0][1].ascii, b'k');
    assert_eq!(w.buffer.characters[0][2].ascii, 0xfe);
}

fn tiny_task(id: usize, status: TaskStatus) -> Task {
    // a task table entry with an empty address space, enough for the
    // scheduler's bookkeeping
    Task {
        id,
        task_status: status,
        memory_set: os::memory_set::MemorySet::new(0x1000 + id as u64),
        trap_context: TrapContext { user_stack: 0x9000 + id, entry_point: 0x400 + id },
    }
}

#[test]
fn round_robin_skips_stopped_tasks() {
    let tasks = vec![
        tiny_task(0, TaskStatus::Running),
        tiny_task(1, TaskStatus::Stop),
        tiny_task(2, TaskStatus::Ready),
    ];
    let tm = TaskManager { task_num: 3, inner: InnerTaskManager { tasks, current_task: 0 } };
    assert_eq!(tm.find_next_task(), Some(2));
    assert_eq!(tm.inner.current_task().id, 0);
    let jump = os::task::run_first(&tm);
    assert_eq!(jump.user_stack, 0x9000);
    assert_eq!(jump.entry_point, 0x400);
    assert_eq!(jump.page_table_addr, 0x1000);
}

#[test]
fn stop_current_and_run_next_moves_on() {
    let tasks = vec![tiny_task(0, TaskStatus::Running), tiny_task(1, TaskStatus::Ready)];
    let mut tm = TaskManager { task_num: 2, inner: InnerTaskManager { tasks, current_task: 0 } };
    let jump = os::task::stop_current_and_run_next(&mut tm);
    assert_eq!(tm.inner.tasks[0].task_status, TaskStatus::Stop);
    assert_eq!(tm.inner.current_task, 1);
    assert_eq!(jump.user_stack, 0x9001);
    assert_eq!(tm.current_task_kernel_stack(), os::memory::get_app_kernel_stack(1));
    assert_eq!(os::task::user_init(&tm).user_stack, 0x9000);
}

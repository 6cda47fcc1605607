//! User register state across the SYSCALL/SYSRET boundary.
//!
//! On SYSCALL entry the stub pushes the whole user register file onto the
//! process's kernel stack as a `TrapFrame`; on SYSRET it pops the frame
//! again.  The hardware clobbers `rcx` (return address) and `r11` (RFLAGS)
//! by convention, and `rax` carries the system call's return value.

use vstd::prelude::*;

verus! {

/// User-mode register snapshot captured on SYSCALL entry, in push order.
#[derive(Debug, Clone, Copy, PartialEq, Eq, Structural)]
pub struct TrapFrame {
    pub rax: u64,
    pub rbx: u64,
    pub rcx: u64,
    pub rdx: u64,
    pub rbp: u64,
    pub rsi: u64,
    pub rdi: u64,
    pub r8: u64,
    pub r9: u64,
    pub r10: u64,
    pub r11: u64,
    pub r12: u64,
    pub r13: u64,
    pub r14: u64,
    pub r15: u64,
    pub rsp: u64,
}

impl TrapFrame {
    pub fn new() -> (r: Self)
        ensures
            r == spec_zero_trap_frame(),
    {
        Self {
            rax: 0,
            rbx: 0,
            rcx: 0,
            rdx: 0,
            rbp: 0,
            rsi: 0,
            rdi: 0,
            r8: 0,
            r9: 0,
            r10: 0,
            r11: 0,
            r12: 0,
            r13: 0,
            r14: 0,
            r15: 0,
            rsp: 0,
        }
    }
}

pub open spec fn spec_zero_trap_frame() -> TrapFrame {
    TrapFrame {
        rax: 0,
        rbx: 0,
        rcx: 0,
        rdx: 0,
        rbp: 0,
        rsi: 0,
        rdi: 0,
        r8: 0,
        r9: 0,
        r10: 0,
        r11: 0,
        r12: 0,
        r13: 0,
        r14: 0,
        r15: 0,
        rsp: 0,
    }
}

/// The live user register file, as it stands in the CPU while the process
/// runs in ring 3.
#[derive(Debug, Clone, Copy, PartialEq, Eq, Structural)]
pub struct UserRegisters {
    pub rax: u64,
    pub rbx: u64,
    pub rcx: u64,
    pub rdx: u64,
    pub rbp: u64,
    pub rsi: u64,
    pub rdi: u64,
    pub r8: u64,
    pub r9: u64,
    pub r10: u64,
    pub r11: u64,
    pub r12: u64,
    pub r13: u64,
    pub r14: u64,
    pub r15: u64,
    pub rsp: u64,
}

/// The frame the SYSCALL entry stub stores: every user register, verbatim.
pub open spec fn spec_save_user_registers(regs: UserRegisters) -> TrapFrame {
    TrapFrame {
        rax: regs.rax,
        rbx: regs.rbx,
        rcx: regs.rcx,
        rdx: regs.rdx,
        rbp: regs.rbp,
        rsi: regs.rsi,
        rdi: regs.rdi,
        r8: regs.r8,
        r9: regs.r9,
        r10: regs.r10,
        r11: regs.r11,
        r12: regs.r12,
        r13: regs.r13,
        r14: regs.r14,
        r15: regs.r15,
        rsp: regs.rsp,
    }
}

/// The register file SYSRET restores: every saved register, verbatim.
pub open spec fn spec_restore_user_registers(frame: TrapFrame) -> UserRegisters {
    UserRegisters {
        rax: frame.rax,
        rbx: frame.rbx,
        rcx: frame.rcx,
        rdx: frame.rdx,
        rbp: frame.rbp,
        rsi: frame.rsi,
        rdi: frame.rdi,
        r8: frame.r8,
        r9: frame.r9,
        r10: frame.r10,
        r11: frame.r11,
        r12: frame.r12,
        r13: frame.r13,
        r14: frame.r14,
        r15: frame.r15,
        rsp: frame.rsp,
    }
}

/// The pushes of the SYSCALL entry stub, in `TrapFrame` order.
pub fn save_user_registers(regs: &UserRegisters) -> (frame: TrapFrame)
    ensures
        frame == spec_save_user_registers(*regs),
{
    TrapFrame {
        rax: regs.rax,
        rbx: regs.rbx,
        rcx: regs.rcx,
        rdx: regs.rdx,
        rbp: regs.rbp,
        rsi: regs.rsi,
        rdi: regs.rdi,
        r8: regs.r8,
        r9: regs.r9,
        r10: regs.r10,
        r11: regs.r11,
        r12: regs.r12,
        r13: regs.r13,
        r14: regs.r14,
        r15: regs.r15,
        rsp: regs.rsp,
    }
}

/// The pops of the SYSRET exit path, in reverse order.
pub fn restore_user_registers(frame: &TrapFrame) -> (regs: UserRegisters)
    ensures
        regs == spec_restore_user_registers(*frame),
{
    UserRegisters {
        rax: frame.rax,
        rbx: frame.rbx,
        rcx: frame.rcx,
        rdx: frame.rdx,
        rbp: frame.rbp,
        rsi: frame.rsi,
        rdi: frame.rdi,
        r8: frame.r8,
        r9: frame.r9,
        r10: frame.r10,
        r11: frame.r11,
        r12: frame.r12,
        r13: frame.r13,
        r14: frame.r14,
        r15: frame.r15,
        rsp: frame.rsp,
    }
}

/// Trap-frame round trip: saving the user registers on SYSCALL entry,
/// storing the return value, and restoring on SYSRET hands every register
/// back unchanged except `rax`, which carries the return value.
pub proof fn lemma_trap_frame_round_trip(regs: UserRegisters, ret: u64)
    ensures
        spec_restore_user_registers(
            TrapFrame { rax: ret, ..spec_save_user_registers(regs) },
        ) == (UserRegisters { rax: ret, ..regs }),
{
}

} // verus!

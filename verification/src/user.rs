//! The user-space system-call stubs: how a program asks the kernel for
//! work.
//!
//! Each stub marshals its arguments into the register assignment of the
//! SYSCALL ABI: the call number for `rax` and up to three arguments for
//! `rdi`, `rsi`, `rdx`.  The `syscall` instruction itself is the assembly
//! edge outside the library, so each stub returns the request it would
//! issue.  Buffers and out-parameters cross the boundary as addresses in
//! the caller's own space.

use vstd::prelude::*;

verus! {

#[derive(Debug, Clone, Copy, PartialEq, Eq, Structural)]
pub enum SystemCall {
    SysWrite,
    SysExit,
    SysFork,
    SysExec,
    SysYield,
    SysRead,
    SysWaitpid,
}

pub open spec fn spec_system_call_number(c: SystemCall) -> u64 {
    match c {
        SystemCall::SysWrite => 1,
        SystemCall::SysExit => 2,
        SystemCall::SysFork => 3,
        SystemCall::SysExec => 4,
        SystemCall::SysYield => 5,
        SystemCall::SysRead => 6,
        SystemCall::SysWaitpid => 7,
    }
}

impl SystemCall {
    pub fn as_u64(self) -> (r: u64)
        ensures
            r == spec_system_call_number(self),
    {
        match self {
            SystemCall::SysWrite => 1,
            SystemCall::SysExit => 2,
            SystemCall::SysFork => 3,
            SystemCall::SysExec => 4,
            SystemCall::SysYield => 5,
            SystemCall::SysRead => 6,
            SystemCall::SysWaitpid => 7,
        }
    }

    pub fn as_usize(self) -> (r: usize)
        ensures
            r == spec_system_call_number(self),
    {
        self.as_u64() as usize
    }
}

/// One marshalled call: the number for `rax` and the three argument
/// registers.
#[derive(Debug, Clone, Copy)]
pub struct SyscallRequest {
    pub id: usize,
    pub args: [usize; 3],
}

/// Writes `len` bytes at `buffer` to the console.
pub fn write(buffer: usize, len: usize) -> (r: SyscallRequest)
    ensures
        r.id == 1,
        r.args[0] == buffer,
        r.args[1] == len,
        r.args[2] == 0,
{
    SyscallRequest { id: SystemCall::SysWrite.as_usize(), args: [buffer, len, 0] }
}

/// Ends the calling process with `exit_code`.
pub fn exit(exit_code: i32) -> (r: SyscallRequest)
    ensures
        r.id == 2,
        r.args[0] == exit_code as usize,
        r.args[1] == 0,
        r.args[2] == 0,
{
    SyscallRequest {
        id: SystemCall::SysExit.as_usize(),
        args: [#[verifier::truncate] (exit_code as usize), 0, 0],
    }
}

/// Clones the calling process.
pub fn fork() -> (r: SyscallRequest)
    ensures
        r.id == 3,
        r.args[0] == 0,
        r.args[1] == 0,
        r.args[2] == 0,
{
    SyscallRequest { id: SystemCall::SysFork.as_usize(), args: [0, 0, 0] }
}

/// Replaces the calling process's program with the image named by the
/// NUL-terminated string at `path`.
pub fn exec(path: usize) -> (r: SyscallRequest)
    ensures
        r.id == 4,
        r.args[0] == path,
        r.args[1] == 0,
        r.args[2] == 0,
{
    SyscallRequest { id: SystemCall::SysExec.as_usize(), args: [path, 0, 0] }
}

/// Gives the CPU up until everything already waiting has run.
pub fn yield_() -> (r: SyscallRequest)
    ensures
        r.id == 5,
        r.args[0] == 0,
        r.args[1] == 0,
        r.args[2] == 0,
{
    SyscallRequest { id: SystemCall::SysYield.as_usize(), args: [0, 0, 0] }
}

/// Reaps any child; the exit code lands at `exit_code_ptr`.
pub fn wait(exit_code_ptr: usize) -> (r: SyscallRequest)
    ensures
        r.id == 7,
        r.args[0] == (-1isize) as usize,
        r.args[1] == exit_code_ptr,
        r.args[2] == 0,
{
    SyscallRequest {
        id: SystemCall::SysWaitpid.as_usize(),
        args: [#[verifier::truncate] ((-1isize) as usize), exit_code_ptr, 0],
    }
}

/// Reaps the child with PID `pid`; the exit code lands at `exit_code_ptr`.
pub fn waitpid(pid: usize, exit_code_ptr: usize) -> (r: SyscallRequest)
    ensures
        r.id == 7,
        r.args[0] == pid,
        r.args[1] == exit_code_ptr,
        r.args[2] == 0,
{
    SyscallRequest { id: SystemCall::SysWaitpid.as_usize(), args: [pid, exit_code_ptr, 0] }
}

/// Reads `len` bytes of keyboard input into the buffer at `buffer`.
pub fn read(buffer: usize, len: usize) -> (r: SyscallRequest)
    ensures
        r.id == 6,
        r.args[0] == buffer,
        r.args[1] == len,
        r.args[2] == 0,
{
    SyscallRequest { id: SystemCall::SysRead.as_usize(), args: [buffer, len, 0] }
}

} // verus!

//! The numbered system calls and their dispatch.
//!
//! The SYSCALL entry stub saves the user registers as a trap frame on the
//! current kernel stack and calls into `trap_syscall`, which reads the call
//! number from `rax` and the arguments from `rdi`, `rsi`, `rdx`, dispatches,
//! and stores the return value back into the frame's `rax` for SYSRET.
//! A call that blocks hands the CPU back to the idle loop and is re-entered
//! when the process is dispatched again.

use vstd::prelude::*;

use crate::kernel_stack::{spec_kernel_stack_bottom, spec_kernel_stack_top};
use crate::loader::{spec_find_app, AppTable};
use crate::memory::{KERNEL_STACK_SIZE, KERNEL_STACK_SLOTS};
use crate::pcb::{ProcessControlBlock, ProcessStatus};
use crate::process::{
    current_process, exit_current_and_run_next, lemma_wf_proc_fields_update,
    suspend_current_and_run_next, Kernel,
};

verus! {

pub const SYS_WRITE: usize = 1;

pub const SYS_EXIT: usize = 2;

pub const SYS_FORK: usize = 3;

pub const SYS_EXEC: usize = 4;

pub const SYS_YIELD: usize = 5;

pub const SYS_READ: usize = 6;

pub const SYS_WAITPID: usize = 7;

/// A fresh PID's kernel stack slot is free in the kernel address space:
/// every mapped region there belongs to a live process, and distinct slots
/// never share a page.
pub proof fn lemma_fresh_stack_slot_free(k: Kernel)
    requires
        k.wf(),
        k.spec_can_spawn(),
    ensures
        k.pid_allocator.spec_next() < KERNEL_STACK_SLOTS,
        k.pid_allocator.spec_is_free(k.pid_allocator.spec_next()),
        forall|i: int|
            0 <= i < k.kernel_space.areas@.len() ==> !(
            #[trigger] k.kernel_space.areas@[i]).overlaps_range(
                (spec_kernel_stack_top(k.pid_allocator.spec_next() as int)
                    - KERNEL_STACK_SIZE) as u64,
                spec_kernel_stack_top(k.pid_allocator.spec_next() as int) as u64,
            ),
{
    let next = k.pid_allocator.spec_next();
    if k.pid_allocator.recycled@.len() > 0 {
        assert(k.pid_allocator.recycled@.contains(k.pid_allocator.recycled@.last()));
        assert(next < k.pid_allocator.current);
    }
    assert(next < KERNEL_STACK_SLOTS);
    assert(k.pid_allocator.spec_is_free(next));
    assert forall|i: int| 0 <= i < k.kernel_space.areas@.len() implies !(
    #[trigger] k.kernel_space.areas@[i]).overlaps_range(
        (spec_kernel_stack_top(next as int) - KERNEL_STACK_SIZE) as u64,
        spec_kernel_stack_top(next as int) as u64,
    ) by {
        assert(k.spec_stack_area_owned(i));
        let q = choose|q: int|
            k.is_live(q) && k.kernel_space.areas@[i].start_virt_addr == spec_kernel_stack_bottom(q)
                && k.kernel_space.areas@[i].end_virt_addr == spec_kernel_stack_top(q);
        assert(!k.pid_allocator.spec_is_free(q as usize));
        assert(q != next);
        assert(q < k.pid_allocator.current <= KERNEL_STACK_SLOTS);
        crate::kernel_stack::lemma_kernel_stack_pages_disjoint(q as u64, next as u64);
    }
}

/// Relinquishes the CPU voluntarily: the caller goes to the tail of the
/// ready queue and runs again after everything already waiting.  Returns 0.
pub fn sys_yield(k: &mut Kernel) -> (r: isize)
    requires
        old(k).wf(),
        old(k).processor.current is Some,
    ensures
        final(k).wf(),
        r == 0,
        final(k).processor.current is None,
        final(k).manager.ready_queue@ =~= old(k).manager.ready_queue@.push(
            old(k).processor.current.unwrap(),
        ),
        final(k).is_live(old(k).processor.current.unwrap() as int),
        final(k).spec_status(old(k).processor.current.unwrap() as int) is Ready,
        final(k).proc(old(k).processor.current.unwrap() as int) == (ProcessControlBlock {
            inner: crate::pcb::ProcessControlBlockInner {
                process_status: ProcessStatus::Ready,
                ..old(k).proc(old(k).processor.current.unwrap() as int).inner
            },
            ..old(k).proc(old(k).processor.current.unwrap() as int)
        }),
        final(k).procs@.len() == old(k).procs@.len(),
        forall|q: int|
            0 <= q < old(k).procs@.len() && q != old(k).processor.current.unwrap() ==> (
            #[trigger] final(k).procs@[q]) == old(k).procs@[q],
        final(k).console == old(k).console,
        final(k).stdin_buffer == old(k).stdin_buffer,
{
    suspend_current_and_run_next(k);
    0
}

/// Decimal digits of `n`, most significant first.
pub open spec fn spec_decimal_digits(n: nat) -> Seq<u8>
    decreases n,
{
    if n < 10 {
        seq![(0x30 + n) as u8]
    } else {
        spec_decimal_digits(n / 10).push((0x30 + n % 10) as u8)
    }
}

/// Decimal rendering of `v`: a minus sign for negatives, then the digits.
pub open spec fn spec_decimal(v: int) -> Seq<u8> {
    if v < 0 {
        seq![0x2du8] + spec_decimal_digits((-v) as nat)
    } else {
        spec_decimal_digits(v as nat)
    }
}

/// The bytes of "[kernel] Task exited with return code ".
pub open spec fn spec_exit_log_prefix() -> Seq<u8> {
    seq![
        0x5bu8, 0x6bu8, 0x65u8, 0x72u8, 0x6eu8, 0x65u8, 0x6cu8, 0x5du8, 0x20u8, 0x54u8,
        0x61u8, 0x73u8, 0x6bu8, 0x20u8, 0x65u8, 0x78u8, 0x69u8, 0x74u8, 0x65u8, 0x64u8,
        0x20u8, 0x77u8, 0x69u8, 0x74u8, 0x68u8, 0x20u8, 0x72u8, 0x65u8, 0x74u8, 0x75u8,
        0x72u8, 0x6eu8, 0x20u8, 0x63u8, 0x6fu8, 0x64u8, 0x65u8, 0x20u8,
    ]
}

/// The log line the kernel prints when a process exits with `code`.
pub open spec fn spec_exit_log(code: int) -> Seq<u8> {
    spec_exit_log_prefix() + spec_decimal(code) + seq![0x2eu8, 0x0au8]
}

/// Appends the decimal digits of `n` to `out`.
fn push_decimal_digits(out: &mut Vec<u8>, n: u64)
    ensures
        final(out)@ =~= old(out)@ + spec_decimal_digits(n as nat),
{
    let mut rev: Vec<u8> = Vec::new();
    let mut m: u64 = n;
    loop
        invariant_except_break
            spec_decimal_digits(n as nat) =~= spec_decimal_digits(m as nat) + rev@.reverse(),
        ensures
            spec_decimal_digits(n as nat) =~= rev@.reverse(),
        decreases m,
    {
        let ghost rev0 = rev@;
        let ghost m0 = m;
        let d: u8 = 0x30 + (m % 10) as u8;
        rev.push(d);
        proof {
            assert(rev@.reverse() =~= seq![d] + rev0.reverse());
        }
        if m < 10 {
            proof {
                assert(spec_decimal_digits(m as nat) =~= seq![d]);
                assert(spec_decimal_digits(n as nat) =~= rev@.reverse());
            }
            break ;
        }
        m = m / 10;
        proof {
            assert(spec_decimal_digits(m0 as nat) =~= spec_decimal_digits(m as nat).push(d));
            assert(spec_decimal_digits(m as nat).push(d) + rev0.reverse() =~= spec_decimal_digits(
                m as nat,
            ) + (seq![d] + rev0.reverse()));
        }
    }
    let ghost out0 = out@;
    let digits = rev.len();
    let mut idx: usize = 0;
    while idx < digits
        invariant
            digits == rev@.len(),
            idx <= digits,
            out@.len() == out0.len() + idx,
            forall|j: int| 0 <= j < out0.len() ==> (#[trigger] out@[j]) == out0[j],
            forall|j: int|
                0 <= j < idx ==> (#[trigger] out@[out0.len() + j]) == rev@[digits - 1 - j],
            spec_decimal_digits(n as nat) =~= rev@.reverse(),
        decreases digits - idx,
    {
        let byte = rev[digits - 1 - idx];
        out.push(byte);
        idx = idx + 1;
    }
    proof {
        assert(rev@.len() > 0);
        assert(spec_decimal_digits(n as nat).len() == rev@.len());
        assert forall|j: int| 0 <= j < rev@.len() implies out@[out0.len() + j]
            == spec_decimal_digits(n as nat)[j] by {
            assert(out@[out0.len() + j] == rev@[rev@.len() - 1 - j]);
            assert(rev@.reverse()[j] == rev@[rev@.len() - 1 - j]);
        }
        assert(out@ =~= out0 + spec_decimal_digits(n as nat));
    }
}

/// Appends the decimal rendering of `v` to `out`.
fn push_decimal(out: &mut Vec<u8>, v: isize)
    ensures
        final(out)@ =~= old(out)@ + spec_decimal(v as int),
{
    let v64: i64 = v as i64;
    if v64 < 0 {
        out.push(0x2d);
        let magnitude: u64 = if v64 == i64::MIN {
            0x8000_0000_0000_0000u64
        } else {
            (-v64) as u64
        };
        proof {
            assert(magnitude == -(v as int));
        }
        push_decimal_digits(out, magnitude);
        proof {
            assert(out@ =~= old(out)@ + spec_decimal(v as int));
        }
    } else {
        push_decimal_digits(out, v64 as u64);
    }
}

/// Appends the kernel's exit log line for `code` to the console sink.
fn push_exit_log(console: &mut Vec<u8>, code: isize)
    ensures
        final(console)@ =~= old(console)@ + spec_exit_log(code as int),
{
    let mut line: Vec<u8> = Vec::new();
    let prefix: [u8; 38] = [
        0x5bu8, 0x6bu8, 0x65u8, 0x72u8, 0x6eu8, 0x65u8, 0x6cu8, 0x5du8, 0x20u8, 0x54u8,
        0x61u8, 0x73u8, 0x6bu8, 0x20u8, 0x65u8, 0x78u8, 0x69u8, 0x74u8, 0x65u8, 0x64u8,
        0x20u8, 0x77u8, 0x69u8, 0x74u8, 0x68u8, 0x20u8, 0x72u8, 0x65u8, 0x74u8, 0x75u8,
        0x72u8, 0x6eu8, 0x20u8, 0x63u8, 0x6fu8, 0x64u8, 0x65u8, 0x20u8,
    ];
    let mut i: usize = 0;
    while i < 38
        invariant
            i <= 38,
            line@.len() == i,
            prefix@ =~= spec_exit_log_prefix(),
            forall|j: int| 0 <= j < i ==> (#[trigger] line@[j]) == prefix@[j],
        decreases 38 - i,
    {
        let byte = prefix[i];
        line.push(byte);
        i = i + 1;
    }
    proof {
        assert(line@ =~= spec_exit_log_prefix());
    }
    push_decimal(&mut line, code);
    line.push(0x2e);
    line.push(0x0a);
    proof {
        assert(line@ =~= spec_exit_log(code as int));
    }
    let n = line.len();
    let ghost console0 = console@;
    let mut j: usize = 0;
    while j < n
        invariant
            n == line@.len(),
            j <= n,
            console@.len() == console0.len() + j,
            forall|t: int| 0 <= t < console0.len() ==> (#[trigger] console@[t]) == console0[t],
            forall|t: int| 0 <= t < j ==> (#[trigger] console@[console0.len() + t]) == line@[t],
            line@ =~= spec_exit_log(code as int),
        decreases n - j,
    {
        let byte = line[j];
        console.push(byte);
        j = j + 1;
    }
    proof {
        assert forall|t: int| 0 <= t < line@.len() implies console@[console0.len() + t]
            == spec_exit_log(code as int)[t] by {
            assert(console@[console0.len() + t] == line@[t]);
        }
        assert(console@ =~= console0 + spec_exit_log(code as int));
    }
}

/// Terminates the caller with `exit_code`; never returns to it.  The
/// kernel logs the exit on the console, the process turns zombie, its
/// children go to init, and the CPU returns to the idle loop.
pub fn sys_exit(k: &mut Kernel, exit_code: isize)
    requires
        old(k).wf(),
        old(k).processor.current is Some,
        old(k).processor.current.unwrap() != old(k).initproc,
    ensures
        final(k).wf(),
        final(k).processor.current is None,
        final(k).spec_status(old(k).processor.current.unwrap() as int) is Zombie,
        final(k).proc(old(k).processor.current.unwrap() as int).inner.exit_code == exit_code,
        final(k).proc(old(k).processor.current.unwrap() as int).inner.children@.len() == 0,
        final(k).proc(old(k).processor.current.unwrap() as int).inner.parent == old(k).proc(
            old(k).processor.current.unwrap() as int,
        ).inner.parent,
        forall|ci: int|
            0 <= ci < old(k).proc(old(k).processor.current.unwrap() as int).inner.children@.len()
                ==> final(k).proc(
                (#[trigger] old(k).proc(
                    old(k).processor.current.unwrap() as int,
                ).inner.children@[ci]) as int,
            ).inner.parent == Some(old(k).initproc),
        final(k).proc(old(k).initproc as int).inner.children@ =~= old(k).proc(
            old(k).initproc as int,
        ).inner.children@ + old(k).proc(old(k).processor.current.unwrap() as int).inner.children@,
        final(k).manager == old(k).manager,
        final(k).console@ =~= old(k).console@ + spec_exit_log(exit_code as int),
        final(k).stdin_buffer == old(k).stdin_buffer,
{
    let ghost pre = *old(k);
    push_exit_log(&mut k.console, exit_code);
    proof {
        crate::process::lemma_wf_ignores_console(pre, *k);
    }
    exit_current_and_run_next(k, exit_code);
}

/// Writes `len` bytes of the caller's buffer to the console and returns
/// `len`.  The buffer must be mapped user memory; an unmapped one would
/// fault the kernel.
pub fn sys_write(k: &mut Kernel, buffer: u64, len: u64) -> (r: isize)
    requires
        old(k).wf(),
        old(k).processor.current is Some,
        old(k).proc(old(k).processor.current.unwrap() as int).inner.memory_set.can_access_bytes(
            buffer,
            len,
        ),
        len <= isize::MAX,
    ensures
        final(k).wf(),
        r == len as isize,
        final(k).console@.len() == old(k).console@.len() + len,
        forall|j: int|
            0 <= j < old(k).console@.len() ==> (#[trigger] final(k).console@[j])
                == old(k).console@[j],
        forall|b: int|
            0 <= b < len ==> (#[trigger] final(k).console@[old(k).console@.len() + b]) == old(
                k,
            ).proc(old(k).processor.current.unwrap() as int).inner.memory_set.byte_at(
                (buffer + b) as u64,
            ),
        final(k).procs == old(k).procs,
        final(k).manager == old(k).manager,
        final(k).processor == old(k).processor,
        final(k).stdin_buffer == old(k).stdin_buffer,
{
    let p = current_process(k).unwrap();
    let pcb = k.procs[p].as_ref().unwrap();
    let data = pcb.inner.memory_set.read_bytes(buffer, len).unwrap();
    let n = data.len();
    let ghost pre_console = k.console@;
    let mut b: usize = 0;
    while b < n
        invariant
            b <= n,
            n == data@.len(),
            old(k).wf(),
            k.procs == old(k).procs,
            k.manager == old(k).manager,
            k.processor == old(k).processor,
            k.pid_allocator == old(k).pid_allocator,
            k.kernel_space == old(k).kernel_space,
            k.stdin_buffer == old(k).stdin_buffer,
            k.initproc == old(k).initproc,
            k.trap_ret == old(k).trap_ret,
            k.console@.len() == pre_console.len() + b,
            forall|j: int| 0 <= j < pre_console.len() ==> (#[trigger] k.console@[j])
                == pre_console[j],
            forall|j: int|
                0 <= j < b ==> k.console@[pre_console.len() + j] == data@[j],
        decreases n - b,
    {
        let byte = data[b];
        k.console.push(byte);
        b = b + 1;
    }
    proof {
        assert(data@.len() == len);
        crate::process::lemma_wf_ignores_console(*old(k), *k);
        assert forall|bb: int|
            0 <= bb < len implies (#[trigger] k.console@[pre_console.len() + bb]) == old(k).proc(
            old(k).processor.current.unwrap() as int,
        ).inner.memory_set.byte_at((buffer + bb) as u64) by {
            assert(k.console@[pre_console.len() + bb] == data@[bb]);
        }
    }
    len as isize
}

/// Reads one byte of keyboard input into the caller's buffer.  With input
/// pending, the oldest queued byte is delivered and the call completes
/// with 1.  With none, the caller yields its slice and the call is
/// re-entered after the next dispatch; `None` stands for that retry.
pub fn sys_read(k: &mut Kernel, buffer: u64, len: u64) -> (r: Option<isize>)
    requires
        old(k).wf(),
        old(k).processor.current is Some,
        len == 1,
        old(k).proc(old(k).processor.current.unwrap() as int).inner.memory_set.can_access_bytes(
            buffer,
            1,
        ),
    ensures
        final(k).wf(),
        old(k).stdin_buffer@.len() > 0 ==> ({
            let p = old(k).processor.current.unwrap() as int;
            &&& r == Some(1isize)
            &&& final(k).is_live(p)
            &&& final(k).procs@.len() == old(k).procs@.len()
            &&& final(k).stdin_buffer@ =~= old(k).stdin_buffer@.skip(1)
            &&& final(k).processor == old(k).processor
            &&& final(k).manager == old(k).manager
            &&& final(k).proc(p) == (ProcessControlBlock {
                inner: crate::pcb::ProcessControlBlockInner {
                    memory_set: final(k).proc(p).inner.memory_set,
                    ..old(k).proc(p).inner
                },
                ..old(k).proc(p)
            })
            &&& final(k).proc(p).inner.memory_set.page_table_root == old(k).proc(
                p,
            ).inner.memory_set.page_table_root
            &&& final(k).proc(p).inner.memory_set.byte_at(buffer) == old(k).stdin_buffer@[0]
            &&& forall|w: u64|
                w != buffer && old(k).proc(p).inner.memory_set.has_byte(w) ==> final(k).proc(
                    p,
                ).inner.memory_set.byte_at(w) == old(k).proc(p).inner.memory_set.byte_at(w)
            &&& forall|q: int|
                0 <= q < old(k).procs@.len() && q != p ==> (#[trigger] final(k).procs@[q]) == old(
                    k,
                ).procs@[q]
            &&& final(k).console == old(k).console
        }),
        old(k).stdin_buffer@.len() == 0 ==> ({
            &&& r is None
            &&& final(k).stdin_buffer@ =~= old(k).stdin_buffer@
            &&& final(k).processor.current is None
            &&& final(k).manager.ready_queue@ =~= old(k).manager.ready_queue@.push(
                old(k).processor.current.unwrap(),
            )
            &&& final(k).spec_status(old(k).processor.current.unwrap() as int) is Ready
            &&& final(k).console == old(k).console
        }),
{
    let ghost pre = *old(k);
    let popped = if k.stdin_buffer.len() == 0 {
        None
    } else {
        // the buffer is a queue: the oldest byte leaves first
        Some(k.stdin_buffer.remove(0))
    };
    let ghost mid = *k;
    proof {
        crate::process::lemma_wf_ignores_console(pre, mid);
    }
    match popped {
        Some(ch) => {
            let p = current_process(k).unwrap();
            let slot = &mut k.procs[p];
            let mut pcb = slot.take().unwrap();
            let ok = pcb.inner.memory_set.write_byte(buffer, ch);
            k.procs.set(p, Some(pcb));
            proof {
                assert(ok);
                assert(k.procs@ =~= mid.procs@.update(p as int, k.procs@[p as int]));
                lemma_wf_proc_fields_update(mid, *k, p as int);
                assert(k.proc(p as int) == (ProcessControlBlock {
                    inner: crate::pcb::ProcessControlBlockInner {
                        memory_set: k.proc(p as int).inner.memory_set,
                        ..pre.proc(p as int).inner
                    },
                    ..pre.proc(p as int)
                }));
            }
            Some(1)
        },
        None => {
            suspend_current_and_run_next(k);
            None
        },
    }
}

/// A NUL-terminated string stands in the address space at `va`: `n` bytes
/// of name, then the terminator.
pub open spec fn spec_is_cstr(ms: crate::memory_set::MemorySet, va: u64, n: nat) -> bool {
    &&& va + n < crate::memory_set::VA_CEILING
    &&& forall|j: int|
        0 <= j < n ==> (#[trigger] ms.has_byte((va + j) as u64)) && ms.byte_at((va + j) as u64)
            != 0
    &&& ms.has_byte((va + n) as u64)
    &&& ms.byte_at((va + n) as u64) == 0
}

pub open spec fn spec_cstr_exists(ms: crate::memory_set::MemorySet, va: u64) -> bool {
    exists|n: nat| spec_is_cstr(ms, va, n)
}

/// Length of the NUL-terminated string at `va`; the terminator makes it
/// unique.
pub open spec fn spec_cstr_len(ms: crate::memory_set::MemorySet, va: u64) -> nat {
    choose|n: nat| spec_is_cstr(ms, va, n)
}

/// The bytes of the NUL-terminated string at `va`, terminator excluded.
pub open spec fn spec_cstr(ms: crate::memory_set::MemorySet, va: u64) -> Seq<u8> {
    Seq::new(spec_cstr_len(ms, va), |j: int| ms.byte_at((va + j) as u64))
}

/// Replaces the caller's program.  The path is a NUL-terminated name in
/// the caller's own memory; an unknown name returns -1 and changes
/// nothing, else the caller's address space is rebuilt from the named
/// image, the pending SYSRET is redirected at its entry point, and 0 is
/// returned.
pub fn sys_exec(k: &mut Kernel, path: u64, apps: &AppTable) -> (r: isize)
    requires
        old(k).wf(),
        old(k).processor.current is Some,
        apps.wf(),
        spec_cstr_exists(
            old(k).proc(old(k).processor.current.unwrap() as int).inner.memory_set,
            path,
        ),
    ensures
        final(k).wf(),
        ({
            let p = old(k).processor.current.unwrap() as int;
            let name = spec_cstr(old(k).proc(p).inner.memory_set, path);
            match spec_find_app(apps.apps@, name) {
                None => r == -1 && *final(k) == *old(k),
                Some(a) => {
                    let image = apps.apps@[a].data@;
                    &&& r == 0
                    &&& crate::memory_set::spec_is_elf_layout(
                        final(k).proc(p).inner.memory_set,
                        image,
                    )
                    &&& final(k).proc(p).inner.memory_set.page_table_root == old(k).proc(
                        p,
                    ).inner.memory_set.page_table_root
                    &&& final(k).proc(p).inner.trap_frame == (crate::trap::TrapFrame {
                        rsp: crate::memory_set::spec_user_stack_top(image),
                        rcx: crate::elf::spec_entry_point(image),
                        r11: crate::pcb::INITIAL_RFLAGS,
                        ..old(k).proc(p).inner.trap_frame
                    })
                    &&& final(k).proc(p) == (ProcessControlBlock {
                        inner: crate::pcb::ProcessControlBlockInner {
                            memory_set: final(k).proc(p).inner.memory_set,
                            trap_frame: final(k).proc(p).inner.trap_frame,
                            ..old(k).proc(p).inner
                        },
                        ..old(k).proc(p)
                    })
                    &&& final(k).procs@.len() == old(k).procs@.len()
                    &&& forall|q: int|
                        0 <= q < old(k).procs@.len() && q != p ==> (#[trigger] final(k).procs@[q])
                            == old(k).procs@[q]
                    &&& final(k).manager == old(k).manager
                    &&& final(k).processor == old(k).processor
                    &&& final(k).console == old(k).console
                    &&& final(k).stdin_buffer == old(k).stdin_buffer
                },
            }
        }),
{
    let p = current_process(k).unwrap();
    let ghost ms = old(k).proc(p as int).inner.memory_set;
    let ghost n = spec_cstr_len(ms, path);
    let mut name: Vec<u8> = Vec::new();
    let mut j: u64 = 0;
    proof {
        assert(spec_is_cstr(ms, path, n));
        assert forall|n2: nat| spec_is_cstr(ms, path, n2) implies n2 == n by {
            if n2 < n {
                assert(ms.byte_at((path + n2) as u64) != 0);
            }
            if n < n2 {
                assert(ms.byte_at((path + n) as u64) != 0);
            }
        }
    }
    loop
        invariant
            k.wf(),
            *k == *old(k),
            k.processor.current == Some(p),
            ms == k.proc(p as int).inner.memory_set,
            spec_is_cstr(ms, path, n),
            j <= n,
            name@.len() == j,
            forall|i: int| 0 <= i < j ==> name@[i] == ms.byte_at((path + i) as u64),
        ensures
            *k == *old(k),
            j == n,
            name@.len() == n,
            forall|i: int| 0 <= i < n ==> name@[i] == ms.byte_at((path + i) as u64),
        decreases n - j,
    {
        let pcb = k.procs[p].as_ref().unwrap();
        proof {
            assert(ms.has_byte((path + j) as u64));
            if j < n {
                assert(ms.byte_at((path + j) as u64) != 0);
            }
        }
        let byte = pcb.inner.memory_set.read_byte(path + j).unwrap();
        if byte == 0 {
            proof {
                assert(j == n) by {
                    if j < n {
                        assert(ms.byte_at((path + j) as u64) != 0);
                    }
                }
            }
            break ;
        }
        name.push(byte);
        j = j + 1;
        proof {
            assert(j <= n) by {
                if j == n + 1 {
                    assert(ms.byte_at((path + n) as u64) == 0);
                }
            }
        }
    }
    proof {
        assert forall|n2: nat| spec_is_cstr(ms, path, n2) implies n2 == n by {
            if n2 < n {
                assert(ms.byte_at((path + n2) as u64) != 0);
            }
            if n < n2 {
                assert(ms.byte_at((path + n) as u64) != 0);
            }
        }
        assert(spec_cstr_len(ms, path) == n);
        assert(name@ =~= spec_cstr(ms, path));
    }
    let found = apps.get_app_data_by_name(&name);
    match found {
        None => -1,
        Some(data) => {
            let ghost pre = *k;
            proof {
                crate::loader::lemma_find_app_in_range(apps.apps@, name@);
                let a = spec_find_app(apps.apps@, name@).unwrap();
                assert(crate::elf::valid_elf(apps.apps@[a].data@));
            }
            let slot = &mut k.procs[p];
            let mut pcb = slot.take().unwrap();
            pcb.exec(data);
            k.procs.set(p, Some(pcb));
            proof {
                assert(k.procs@ =~= pre.procs@.update(p as int, k.procs@[p as int]));
                lemma_wf_proc_fields_update(pre, *k, p as int);
            }
            0
        },
    }
}

/// Clones the caller.  The child gets a copy-on-create duplicate of the
/// address space, the parent's trap frame with `rax` forced to 0 (what the
/// child sees as return value), joins the ready queue behind everything
/// waiting, and is linked as the caller's child.  The parent receives the
/// child's PID.
pub fn sys_fork(k: &mut Kernel) -> (r: isize)
    requires
        old(k).wf(),
        old(k).processor.current is Some,
        old(k).spec_can_spawn(),
    ensures
        final(k).wf(),
        ({
            let p = old(k).processor.current.unwrap() as int;
            let c = old(k).pid_allocator.spec_next();
            &&& r == c as isize
            &&& old(k).procs@.len() <= final(k).procs@.len() <= old(k).procs@.len() + 1
            &&& final(k).is_live(c as int)
            &&& old(k).pid_allocator.spec_is_free(c)
            &&& final(k).spec_status(c as int) is Ready
            &&& final(k).proc(c as int).inner.parent == Some(p as usize)
            &&& final(k).proc(c as int).inner.children@.len() == 0
            &&& final(k).proc(c as int).inner.trap_frame == (crate::trap::TrapFrame {
                rax: 0,
                ..old(k).proc(p).inner.trap_frame
            })
            &&& crate::memory_set::spec_clones_areas(
                final(k).proc(c as int).inner.memory_set.areas@,
                old(k).proc(p).inner.memory_set.areas@,
            )
            &&& final(k).manager.ready_queue@ =~= old(k).manager.ready_queue@.push(c)
            &&& final(k).processor == old(k).processor
            &&& final(k).proc(p).inner.children@ =~= old(k).proc(p).inner.children@.push(c)
            &&& final(k).proc(p) == (ProcessControlBlock {
                inner: crate::pcb::ProcessControlBlockInner {
                    children: final(k).proc(p).inner.children,
                    ..old(k).proc(p).inner
                },
                ..old(k).proc(p)
            })
            &&& forall|q: int|
                0 <= q < old(k).procs@.len() && q != p && q != c as int ==> (
                #[trigger] final(k).procs@[q]) == old(k).procs@[q]
            &&& final(k).console == old(k).console
            &&& final(k).stdin_buffer == old(k).stdin_buffer
        }),
{
    let ghost pre = *old(k);
    proof {
        lemma_fresh_stack_slot_free(pre);
    }
    let p = current_process(k).unwrap();
    let trap_ret = k.trap_ret;
    let slot = &mut k.procs[p];
    let mut pcb = slot.take().unwrap();
    let mut child = pcb.fork(trap_ret, &mut k.pid_allocator, &mut k.kernel_space);
    let child_pid = child.getpid();
    // the child's view of the call: fork returns zero
    child.inner.trap_frame.rax = 0;
    k.procs.set(p, Some(pcb));
    proof {
        assert(child_pid == pre.pid_allocator.spec_next());
        assert(pre.pid_allocator.spec_is_free(child_pid));
        assert(!pre.is_live(child_pid as int));
        assert(child_pid != p);
        assert(child_pid <= pre.procs@.len()) by {
            if pre.pid_allocator.recycled@.len() > 0 {
                assert(pre.pid_allocator.recycled@.contains(pre.pid_allocator.recycled@.last()));
            }
        }
    }
    if child_pid == k.procs.len() {
        k.procs.push(Some(child));
    } else {
        proof {
            assert(child_pid < k.procs@.len());
            assert(pre.procs@[child_pid as int] is None);
        }
        k.procs.set(child_pid, Some(child));
    }
    crate::manager::add_process(&mut k.manager, child_pid);
    proof {
        lemma_fork_preserves_wf(pre, *k, p as int, child_pid as int);
        assert(child_pid < KERNEL_STACK_SLOTS);
    }
    child_pid as isize
}

/// Whether the caller's `i`-th child is one the `waitpid` argument names:
/// -1 names any child, a non-negative value names that PID.
pub open spec fn spec_wait_matches(k: Kernel, p: int, i: int, pid: int) -> bool {
    pid == -1 || (pid >= 0 && k.spec_child(p, i) == pid)
}

/// Some child of the caller is named by the argument.
pub open spec fn spec_has_wait_match(k: Kernel, p: int, pid: int) -> bool {
    exists|i: int|
        0 <= i < k.proc(p).inner.children@.len() && (pid == -1 || (pid >= 0 && #[trigger] k.spec_child(
            p,
            i,
        ) == pid))
}

/// Index of the first named child that is a zombie, searching from `from`.
pub open spec fn spec_first_matching_zombie(k: Kernel, p: int, pid: int, from: int) -> Option<int>
    decreases k.proc(p).inner.children@.len() - from,
{
    if from < 0 || from >= k.proc(p).inner.children@.len() {
        None
    } else if spec_wait_matches(k, p, from, pid) && k.spec_status(
        k.spec_child(p, from) as int,
    ) is Zombie {
        Some(from)
    } else {
        spec_first_matching_zombie(k, p, pid, from + 1)
    }
}

/// Reaps a zombie child.  With no child named by `pid`, returns -1; with a
/// named child still alive, -2; with a named zombie, removes it from the
/// children list, reclaims its table entry, kernel stack and PID (nothing
/// else refers to a zombie: not the queue, not the CPU, no other parent),
/// writes its exit code through `exit_code_ptr`, and returns its PID.
pub fn sys_waitpid(k: &mut Kernel, pid: isize, exit_code_ptr: u64) -> (r: isize)
    requires
        old(k).wf(),
        old(k).processor.current is Some,
        spec_first_matching_zombie(
            *old(k),
            old(k).processor.current.unwrap() as int,
            pid as int,
            0,
        ) is Some ==> old(k).proc(
            old(k).processor.current.unwrap() as int,
        ).inner.memory_set.can_access_bytes(exit_code_ptr, 8),
    ensures
        final(k).wf(),
        final(k).is_live(old(k).processor.current.unwrap() as int),
        ({
            let p = old(k).processor.current.unwrap() as int;
            let zom = spec_first_matching_zombie(*old(k), p, pid as int, 0);
            &&& (!spec_has_wait_match(*old(k), p, pid as int) ==> (r == -1 && *final(k) == *old(
                k,
            )))
            &&& ((spec_has_wait_match(*old(k), p, pid as int) && zom is None) ==> (r == -2
                && *final(k) == *old(k)))
            &&& (zom is Some ==> ({
                let idx = zom.unwrap();
                let c = old(k).spec_child(p, idx);
                &&& r == c as isize
                &&& final(k).proc(p) == (ProcessControlBlock {
                    inner: crate::pcb::ProcessControlBlockInner {
                        memory_set: final(k).proc(p).inner.memory_set,
                        children: final(k).proc(p).inner.children,
                        ..old(k).proc(p).inner
                    },
                    ..old(k).proc(p)
                })
                &&& final(k).proc(p).inner.memory_set.page_table_root == old(k).proc(
                    p,
                ).inner.memory_set.page_table_root
                &&& final(k).proc(p).inner.children@ =~= old(k).proc(
                    p,
                ).inner.children@.remove(idx)
                &&& final(k).procs@.len() == old(k).procs@.len()
                &&& !final(k).is_live(c as int)
                &&& final(k).pid_allocator.recycled@ =~= old(k).pid_allocator.recycled@.push(c)
                &&& forall|b: int|
                    0 <= b < 8 ==> (#[trigger] final(k).proc(p).inner.memory_set.byte_at(
                        (exit_code_ptr + b) as u64,
                    )) == crate::elf::u64_le_byte(
                        old(k).proc(c as int).inner.exit_code as u64,
                        b,
                    )
                &&& forall|w: u64|
                    !(exit_code_ptr <= w < exit_code_ptr + 8) && old(k).proc(
                        p,
                    ).inner.memory_set.has_byte(w) ==> final(k).proc(
                        p,
                    ).inner.memory_set.byte_at(w) == old(k).proc(p).inner.memory_set.byte_at(w)
                &&& forall|q: int|
                    0 <= q < old(k).procs@.len() && q != p && q != c as int ==> (
                    #[trigger] final(k).procs@[q]) == old(k).procs@[q]
                &&& final(k).manager == old(k).manager
                &&& final(k).processor == old(k).processor
                &&& final(k).console == old(k).console
                &&& final(k).stdin_buffer == old(k).stdin_buffer
            }))
        }),
{
    let p = current_process(k).unwrap();
    let n = k.procs[p].as_ref().unwrap().inner.children.len();
    let mut has_match = false;
    let mut i: usize = 0;
    while i < n
        invariant
            k.wf(),
            *k == *old(k),
            k.processor.current == Some(p),
            k.is_live(p as int),
            n == k.proc(p as int).inner.children@.len(),
            i <= n,
            has_match == exists|j: int|
                0 <= j < i && (pid == -1 || (pid >= 0 && #[trigger] k.spec_child(p as int, j)
                    == pid)),
        decreases n - i,
    {
        let c = k.procs[p].as_ref().unwrap().inner.children[i];
        if pid == -1 || (pid >= 0 && c == pid as usize) {
            proof {
                assert(k.spec_child(p as int, i as int) == c);
                if pid >= 0 {
                    assert(c == pid);
                }
            }
            has_match = true;
        }
        i = i + 1;
    }
    if !has_match {
        proof {
            assert(!spec_has_wait_match(*old(k), p as int, pid as int));
            lemma_no_match_no_zombie(*old(k), p as int, pid as int, 0);
        }
        return -1;
    }
    // find the first named zombie, in list order
    let mut found: Option<usize> = None;
    i = 0;
    while i < n
        invariant
            k.wf(),
            *k == *old(k),
            k.processor.current == Some(p),
            k.is_live(p as int),
            n == k.proc(p as int).inner.children@.len(),
            i <= n,
            found is None ==> spec_first_matching_zombie(*k, p as int, pid as int, 0)
                == spec_first_matching_zombie(*k, p as int, pid as int, i as int),
            found is Some ==> spec_first_matching_zombie(*k, p as int, pid as int, 0) == Some(
                found.unwrap() as int,
            ),
        decreases n - i,
    {
        if found.is_none() {
            let c = k.procs[p].as_ref().unwrap().inner.children[i];
            proof {
                assert(k.spec_child(p as int, i as int) == c);
                assert(k.is_live(c as int));
            }
            let matches = pid == -1 || (pid >= 0 && c == pid as usize);
            if matches && k.procs[c].as_ref().unwrap().inner.is_zombie() {
                found = Some(i);
            }
            proof {
                if pid >= 0 && c == pid as usize {
                    assert(c == pid);
                }
                if pid >= 0 && c != pid as usize && pid <= usize::MAX {
                    assert(c != pid);
                }
            }
        }
        i = i + 1;
    }
    match found {
        None => {
            proof {
                assert(spec_first_matching_zombie(*old(k), p as int, pid as int, 0) is None);
            }
            -2
        },
        Some(idx) => {
            let ghost pre = *old(k);
            proof {
                lemma_first_zombie_props(pre, p as int, pid as int, 0);
            }
            let ghost cg = pre.spec_child(p as int, idx as int);
            // take the zombie out of the children list
            let slot = &mut k.procs[p];
            let mut ppcb = slot.take().unwrap();
            let c = ppcb.inner.children.remove(idx);
            k.procs.set(p, Some(ppcb));
            proof {
                assert(c == cg);
                assert(pre.is_live(c as int));
                assert(c != p);
            }
            // destroy it: the table entry was the last reference, so the
            // kernel stack is unmapped and the PID returns to the pool
            let cslot = &mut k.procs[c];
            let child = cslot.take().unwrap();
            let exit_code = child.inner.exit_code;
            let ProcessControlBlock { pid: child_pid_handle, kernel_stack, inner: _ } = child;
            kernel_stack.release(&mut k.kernel_space);
            k.pid_allocator.dealloc(child_pid_handle.0);
            proof {
                lemma_waitpid_reap_preserves_wf(pre, *k, p as int, c as int, idx as int);
            }
            // deliver the exit code through the caller's pointer
            let ghost mid = *k;
            let slot2 = &mut k.procs[p];
            let mut ppcb2 = slot2.take().unwrap();
            let ok = ppcb2.inner.memory_set.write_u64_le(
                exit_code_ptr,
                #[verifier::truncate] (exit_code as u64),
            );
            k.procs.set(p, Some(ppcb2));
            proof {
                assert(ok);
                assert(k.procs@ =~= mid.procs@.update(p as int, k.procs@[p as int]));
                lemma_wf_proc_fields_update(mid, *k, p as int);
                assert(c < KERNEL_STACK_SLOTS);
            }
            c as isize
        },
    }
}

/// The saved frame a completed call leaves for SYSRET: the frame the
/// handler produced, with the return value stored in `rax` once the
/// dispatch path has written it back.
pub open spec fn spec_with_result(f: crate::trap::TrapFrame, r: Option<isize>, rax_stored: bool) -> crate::trap::TrapFrame {
    if rax_stored && r is Some {
        crate::trap::TrapFrame { rax: r.unwrap() as u64, ..f }
    } else {
        f
    }
}

/// What each numbered call returns and does to the kernel, per the
/// dispatch table.  `rax_stored` says whether the SYSCALL return path has
/// already written the result into the caller's saved `rax`.
#[verifier::opaque]
pub open spec fn spec_syscall_post(
    pre: Kernel,
    post: Kernel,
    id: usize,
    args: [usize; 3],
    apps: AppTable,
    r: Option<isize>,
    rax_stored: bool,
) -> bool {
    let p = pre.processor.current.unwrap() as int;
    let frame0 = pre.proc(p).inner.trap_frame;
    if id == SYS_WRITE {
        &&& r == Some(args[1] as isize)
        &&& post.console@.len() == pre.console@.len() + args[1]
        &&& (forall|j: int|
            0 <= j < pre.console@.len() ==> (#[trigger] post.console@[j]) == pre.console@[j])
        &&& (forall|b: int|
            0 <= b < args[1] ==> (#[trigger] post.console@[pre.console@.len() + b]) == pre.proc(
                p,
            ).inner.memory_set.byte_at((args[0] + b) as u64))
        &&& post.procs@.len() == pre.procs@.len()
        &&& (forall|q: int|
            0 <= q < pre.procs@.len() && q != p ==> (#[trigger] post.procs@[q]) == pre.procs@[q])
        &&& post.proc(p) == (ProcessControlBlock {
            inner: crate::pcb::ProcessControlBlockInner {
                trap_frame: spec_with_result(frame0, r, rax_stored),
                ..pre.proc(p).inner
            },
            ..pre.proc(p)
        })
        &&& post.manager == pre.manager
        &&& post.processor == pre.processor
        &&& post.stdin_buffer == pre.stdin_buffer
    } else if id == SYS_EXIT {
        &&& r is None
        &&& post.processor.current is None
        &&& post.spec_status(p) is Zombie
        &&& post.proc(p).inner.exit_code == args[0] as isize
        &&& post.proc(p).inner.children@.len() == 0
        &&& post.proc(p).inner.parent == pre.proc(p).inner.parent
        &&& (forall|ci: int|
            0 <= ci < pre.proc(p).inner.children@.len() ==> post.proc(
                (#[trigger] pre.proc(p).inner.children@[ci]) as int,
            ).inner.parent == Some(pre.initproc))
        &&& post.proc(pre.initproc as int).inner.children@ =~= pre.proc(
            pre.initproc as int,
        ).inner.children@ + pre.proc(p).inner.children@
        &&& post.manager == pre.manager
        &&& post.console@ =~= pre.console@ + spec_exit_log(args[0] as isize as int)
        &&& post.stdin_buffer == pre.stdin_buffer
    } else if id == SYS_FORK {
        let c = pre.pid_allocator.spec_next();
        &&& r == Some(c as isize)
        &&& pre.procs@.len() <= post.procs@.len() <= pre.procs@.len() + 1
        &&& post.is_live(c as int)
        &&& post.spec_status(c as int) is Ready
        &&& post.proc(c as int).inner.parent == Some(p as usize)
        &&& post.proc(c as int).inner.children@.len() == 0
        &&& post.proc(c as int).inner.trap_frame == (crate::trap::TrapFrame {
            rax: 0,
            ..frame0
        })
        &&& crate::memory_set::spec_clones_areas(
            post.proc(c as int).inner.memory_set.areas@,
            pre.proc(p).inner.memory_set.areas@,
        )
        &&& post.manager.ready_queue@ =~= pre.manager.ready_queue@.push(c)
        &&& post.processor == pre.processor
        &&& post.proc(p) == (ProcessControlBlock {
            inner: crate::pcb::ProcessControlBlockInner {
                trap_frame: spec_with_result(frame0, r, rax_stored),
                children: post.proc(p).inner.children,
                ..pre.proc(p).inner
            },
            ..pre.proc(p)
        })
        &&& post.proc(p).inner.children@ =~= pre.proc(p).inner.children@.push(c)
        &&& (forall|q: int|
            0 <= q < pre.procs@.len() && q != p && q != c as int ==> (#[trigger] post.procs@[q])
                == pre.procs@[q])
        &&& post.console == pre.console
        &&& post.stdin_buffer == pre.stdin_buffer
    } else if id == SYS_EXEC {
        let name = spec_cstr(pre.proc(p).inner.memory_set, args[0] as u64);
        match spec_find_app(apps.apps@, name) {
            None => {
                &&& r == Some(-1isize)
                &&& post.procs@.len() == pre.procs@.len()
                &&& (forall|q: int|
                    0 <= q < pre.procs@.len() && q != p ==> (#[trigger] post.procs@[q])
                        == pre.procs@[q])
                &&& post.proc(p) == (ProcessControlBlock {
                    inner: crate::pcb::ProcessControlBlockInner {
                        trap_frame: spec_with_result(frame0, r, rax_stored),
                        ..pre.proc(p).inner
                    },
                    ..pre.proc(p)
                })
                &&& post.manager == pre.manager
                &&& post.processor == pre.processor
                &&& post.console == pre.console
                &&& post.stdin_buffer == pre.stdin_buffer
            },
            Some(a) => {
                let image = apps.apps@[a].data@;
                &&& r == Some(0isize)
                &&& crate::memory_set::spec_is_elf_layout(post.proc(p).inner.memory_set, image)
                &&& post.proc(p).inner.memory_set.page_table_root == pre.proc(
                    p,
                ).inner.memory_set.page_table_root
                &&& post.proc(p) == (ProcessControlBlock {
                    inner: crate::pcb::ProcessControlBlockInner {
                        memory_set: post.proc(p).inner.memory_set,
                        trap_frame: spec_with_result(
                            crate::trap::TrapFrame {
                                rsp: crate::memory_set::spec_user_stack_top(image),
                                rcx: crate::elf::spec_entry_point(image),
                                r11: crate::pcb::INITIAL_RFLAGS,
                                ..frame0
                            },
                            r,
                            rax_stored,
                        ),
                        ..pre.proc(p).inner
                    },
                    ..pre.proc(p)
                })
                &&& post.procs@.len() == pre.procs@.len()
                &&& (forall|q: int|
                    0 <= q < pre.procs@.len() && q != p ==> (#[trigger] post.procs@[q])
                        == pre.procs@[q])
                &&& post.manager == pre.manager
                &&& post.processor == pre.processor
                &&& post.console == pre.console
                &&& post.stdin_buffer == pre.stdin_buffer
            },
        }
    } else if id == SYS_YIELD {
        &&& r == Some(0isize)
        &&& post.processor.current is None
        &&& post.manager.ready_queue@ =~= pre.manager.ready_queue@.push(p as usize)
        &&& post.is_live(p)
        &&& post.proc(p) == (ProcessControlBlock {
            inner: crate::pcb::ProcessControlBlockInner {
                process_status: ProcessStatus::Ready,
                trap_frame: spec_with_result(frame0, r, rax_stored),
                ..pre.proc(p).inner
            },
            ..pre.proc(p)
        })
        &&& post.procs@.len() == pre.procs@.len()
        &&& (forall|q: int|
            0 <= q < pre.procs@.len() && q != p ==> (#[trigger] post.procs@[q]) == pre.procs@[q])
        &&& post.console == pre.console
        &&& post.stdin_buffer == pre.stdin_buffer
    } else if id == SYS_READ {
        if pre.stdin_buffer@.len() > 0 {
            &&& r == Some(1isize)
            &&& post.stdin_buffer@ =~= pre.stdin_buffer@.skip(1)
            &&& post.is_live(p)
            &&& post.procs@.len() == pre.procs@.len()
            &&& post.proc(p) == (ProcessControlBlock {
                inner: crate::pcb::ProcessControlBlockInner {
                    memory_set: post.proc(p).inner.memory_set,
                    trap_frame: spec_with_result(frame0, r, rax_stored),
                    ..pre.proc(p).inner
                },
                ..pre.proc(p)
            })
            &&& post.proc(p).inner.memory_set.byte_at(args[0] as u64) == pre.stdin_buffer@[0]
            &&& (forall|w: u64|
                w != args[0] as u64 && pre.proc(p).inner.memory_set.has_byte(w) ==> post.proc(
                    p,
                ).inner.memory_set.byte_at(w) == pre.proc(p).inner.memory_set.byte_at(w))
            &&& post.processor == pre.processor
            &&& post.manager == pre.manager
            &&& (forall|q: int|
                0 <= q < pre.procs@.len() && q != p ==> (#[trigger] post.procs@[q])
                    == pre.procs@[q])
            &&& post.console == pre.console
        } else {
            &&& r is None
            &&& post.stdin_buffer@ =~= pre.stdin_buffer@
            &&& post.processor.current is None
            &&& post.manager.ready_queue@ =~= pre.manager.ready_queue@.push(p as usize)
            &&& post.spec_status(p) is Ready
            &&& post.console == pre.console
        }
    } else {
        let zom = spec_first_matching_zombie(pre, p, args[0] as isize as int, 0);
        if !spec_has_wait_match(pre, p, args[0] as isize as int) || zom is None {
            let v: isize = if !spec_has_wait_match(pre, p, args[0] as isize as int) {
                -1isize
            } else {
                -2isize
            };
            &&& r == Some(v)
            &&& post.procs@.len() == pre.procs@.len()
            &&& (forall|q: int|
                0 <= q < pre.procs@.len() && q != p ==> (#[trigger] post.procs@[q])
                    == pre.procs@[q])
            &&& post.proc(p) == (ProcessControlBlock {
                inner: crate::pcb::ProcessControlBlockInner {
                    trap_frame: spec_with_result(frame0, r, rax_stored),
                    ..pre.proc(p).inner
                },
                ..pre.proc(p)
            })
            &&& post.manager == pre.manager
            &&& post.processor == pre.processor
            &&& post.console == pre.console
            &&& post.stdin_buffer == pre.stdin_buffer
        } else {
            let idx = zom.unwrap();
            let c = pre.spec_child(p, idx);
            &&& r == Some(c as isize)
            &&& post.proc(p) == (ProcessControlBlock {
                inner: crate::pcb::ProcessControlBlockInner {
                    memory_set: post.proc(p).inner.memory_set,
                    children: post.proc(p).inner.children,
                    trap_frame: spec_with_result(frame0, r, rax_stored),
                    ..pre.proc(p).inner
                },
                ..pre.proc(p)
            })
            &&& post.proc(p).inner.children@ =~= pre.proc(p).inner.children@.remove(idx)
            &&& post.procs@.len() == pre.procs@.len()
            &&& !post.is_live(c as int)
            &&& post.pid_allocator.recycled@ =~= pre.pid_allocator.recycled@.push(c)
            &&& (forall|b: int|
                0 <= b < 8 ==> (#[trigger] post.proc(p).inner.memory_set.byte_at(
                    (args[1] + b) as u64,
                )) == crate::elf::u64_le_byte(pre.proc(c as int).inner.exit_code as u64, b))
            &&& (forall|q: int|
                0 <= q < pre.procs@.len() && q != p && q != c as int ==> (
                #[trigger] post.procs@[q]) == pre.procs@[q])
            &&& post.manager == pre.manager
            &&& post.processor == pre.processor
            &&& post.console == pre.console
            &&& post.stdin_buffer == pre.stdin_buffer
        }
    }
}

/// What the dispatcher demands of a call before it runs it: a known call
/// number (anything else is a kernel bug and panics), and the handler's own
/// terms.  The pointers a process passes must be mapped in its own space;
/// dereferencing an unmapped one would fault the kernel fatally.
pub open spec fn spec_syscall_ok(k: Kernel, id: usize, args: [usize; 3], apps: AppTable) -> bool {
    let p = k.processor.current.unwrap() as int;
    let ms = k.proc(p).inner.memory_set;
    &&& k.wf()
    &&& k.processor.current is Some
    &&& (id == SYS_WRITE || id == SYS_EXIT || id == SYS_FORK || id == SYS_EXEC || id == SYS_YIELD
        || id == SYS_READ || id == SYS_WAITPID)
    &&& (id == SYS_WRITE ==> ms.can_access_bytes(args[0] as u64, args[1] as u64) && args[1]
        <= isize::MAX)
    &&& (id == SYS_EXIT ==> k.processor.current.unwrap() != k.initproc)
    &&& (id == SYS_FORK ==> k.spec_can_spawn())
    &&& (id == SYS_EXEC ==> apps.wf() && spec_cstr_exists(ms, args[0] as u64))
    &&& (id == SYS_READ ==> args[1] == 1 && ms.can_access_bytes(args[0] as u64, 1))
    &&& (id == SYS_WAITPID ==> (spec_first_matching_zombie(k, p, args[0] as isize as int, 0)
        is Some ==> ms.can_access_bytes(args[1] as u64, 8)))
}

/// Dispatches a numbered system call: `rax` brought the number, `args` the
/// first three argument registers.  `Some(v)` is a completed call returning
/// `v` to the caller on SYSRET; `None` means no value reaches the caller
/// now: `exit` never returns, and a `read` without input parks the caller
/// on the ready queue to retry.  The result and the state change of every
/// number are those of its handler.
#[verifier::rlimit(100)]
pub fn syscall(k: &mut Kernel, syscall_id: usize, args: [usize; 3], apps: &AppTable) -> (r: Option<
    isize,
>)
    requires
        spec_syscall_ok(*old(k), syscall_id, args, *apps),
    ensures
        final(k).wf(),
        spec_syscall_post(*old(k), *final(k), syscall_id, args, *apps, r, false),
{
    let ghost pre = *old(k);
    let ghost p = old(k).processor.current.unwrap() as int;
    if syscall_id == SYS_WRITE {
        let r = sys_write(k, args[0] as u64, args[1] as u64);
        proof {
            assert(k.proc(p) == pre.proc(p));
            assert(spec_syscall_post(pre, *k, syscall_id, args, *apps, Some(r), false)) by {
                reveal(spec_syscall_post);
            }
        }
        Some(r)
    } else if syscall_id == SYS_EXIT {
        sys_exit(k, args[0] as isize);
        proof {
            assert(spec_syscall_post(pre, *k, syscall_id, args, *apps, None, false)) by {
                reveal(spec_syscall_post);
            }
        }
        None
    } else if syscall_id == SYS_FORK {
        let r = sys_fork(k);
        proof {
            assert(spec_with_result(pre.proc(p).inner.trap_frame, Some(r), false) == pre.proc(
                p,
            ).inner.trap_frame);
            assert(k.proc(p) == (ProcessControlBlock {
                inner: crate::pcb::ProcessControlBlockInner {
                    trap_frame: pre.proc(p).inner.trap_frame,
                    children: k.proc(p).inner.children,
                    ..pre.proc(p).inner
                },
                ..pre.proc(p)
            }));
            assert(spec_syscall_post(pre, *k, syscall_id, args, *apps, Some(r), false)) by {
                reveal(spec_syscall_post);
            }
        }
        Some(r)
    } else if syscall_id == SYS_EXEC {
        let r = sys_exec(k, args[0] as u64, apps);
        proof {
            let name = spec_cstr(pre.proc(p).inner.memory_set, args[0] as u64);
            match spec_find_app(apps.apps@, name) {
                None => {
                    assert(*k == pre);
                    assert(k.proc(p) == (ProcessControlBlock {
                        inner: crate::pcb::ProcessControlBlockInner {
                            trap_frame: pre.proc(p).inner.trap_frame,
                            ..pre.proc(p).inner
                        },
                        ..pre.proc(p)
                    }));
                },
                Some(a) => {
                    let image = apps.apps@[a].data@;
                    assert(k.proc(p).inner.trap_frame == (crate::trap::TrapFrame {
                        rsp: crate::memory_set::spec_user_stack_top(image),
                        rcx: crate::elf::spec_entry_point(image),
                        r11: crate::pcb::INITIAL_RFLAGS,
                        ..pre.proc(p).inner.trap_frame
                    }));
                    assert(k.proc(p) == (ProcessControlBlock {
                        inner: crate::pcb::ProcessControlBlockInner {
                            memory_set: k.proc(p).inner.memory_set,
                            trap_frame: k.proc(p).inner.trap_frame,
                            ..pre.proc(p).inner
                        },
                        ..pre.proc(p)
                    }));
                },
            }
            assert(spec_syscall_post(pre, *k, syscall_id, args, *apps, Some(r), false)) by {
                reveal(spec_syscall_post);
            }
        }
        Some(r)
    } else if syscall_id == SYS_YIELD {
        let r = sys_yield(k);
        proof {
            assert(k.proc(p) == (ProcessControlBlock {
                inner: crate::pcb::ProcessControlBlockInner {
                    process_status: ProcessStatus::Ready,
                    trap_frame: pre.proc(p).inner.trap_frame,
                    ..pre.proc(p).inner
                },
                ..pre.proc(p)
            }));
            assert(spec_syscall_post(pre, *k, syscall_id, args, *apps, Some(r), false)) by {
                reveal(spec_syscall_post);
            }
        }
        Some(r)
    } else if syscall_id == SYS_READ {
        let r = sys_read(k, args[0] as u64, args[1] as u64);
        proof {
            assert(spec_syscall_post(pre, *k, syscall_id, args, *apps, r, false)) by {
                reveal(spec_syscall_post);
            }
        }
        r
    } else {
        let r = sys_waitpid(k, args[0] as isize, args[1] as u64);
        proof {
            let zom = spec_first_matching_zombie(pre, p, args[0] as isize as int, 0);
            if spec_has_wait_match(pre, p, args[0] as isize as int) && zom is Some {
                lemma_first_zombie_props(pre, p, args[0] as isize as int, 0);
            } else if zom is Some {
                lemma_first_zombie_props(pre, p, args[0] as isize as int, 0);
                assert(spec_wait_matches(pre, p, zom.unwrap(), args[0] as isize as int));
                assert(spec_has_wait_match(pre, p, args[0] as isize as int));
            }
            if !spec_has_wait_match(pre, p, args[0] as isize as int) || zom is None {
                assert(*k == pre);
            }
            assert(spec_syscall_post(pre, *k, syscall_id, args, *apps, Some(r), false)) by {
                reveal(spec_syscall_post);
            }
        }
        Some(r)
    }
}

/// The `read` case of the return-path store.
#[verifier::rlimit(100)]
proof fn lemma_rax_store_post_read(
    pre: Kernel,
    post1: Kernel,
    post2: Kernel,
    args: [usize; 3],
    apps: AppTable,
    r: Option<isize>,
)
    requires
        pre.wf(),
        pre.processor.current is Some,
        spec_syscall_post(pre, post1, SYS_READ, args, apps, r, false),
        spec_syscall_ok(pre, SYS_READ, args, apps),
        r is Some,
        post1.is_live(pre.processor.current.unwrap() as int),
        post2.procs@.len() == post1.procs@.len(),
        forall|q: int|
            0 <= q < post1.procs@.len() && q != pre.processor.current.unwrap() as int ==> (
            #[trigger] post2.procs@[q]) == post1.procs@[q],
        post2.procs@[pre.processor.current.unwrap() as int] is Some,
        post2.proc(pre.processor.current.unwrap() as int) == (ProcessControlBlock {
            inner: crate::pcb::ProcessControlBlockInner {
                trap_frame: crate::trap::TrapFrame {
                    rax: r.unwrap() as u64,
                    ..post1.proc(pre.processor.current.unwrap() as int).inner.trap_frame
                },
                ..post1.proc(pre.processor.current.unwrap() as int).inner
            },
            ..post1.proc(pre.processor.current.unwrap() as int)
        }),
        post2.pid_allocator == post1.pid_allocator,
        post2.kernel_space == post1.kernel_space,
        post2.manager == post1.manager,
        post2.processor == post1.processor,
        post2.initproc == post1.initproc,
        post2.console == post1.console,
        post2.stdin_buffer == post1.stdin_buffer,
    ensures
        spec_syscall_post(pre, post2, SYS_READ, args, apps, r, true),
{
    reveal(spec_syscall_post);
    let p = pre.processor.current.unwrap() as int;
    let frame0 = pre.proc(p).inner.trap_frame;
    assert(pre.stdin_buffer@.len() > 0);
    assert(post2.proc(p).inner.memory_set == post1.proc(p).inner.memory_set);
    assert(post1.proc(p).inner.trap_frame == frame0);
    assert(post2.proc(p) == (ProcessControlBlock {
        inner: crate::pcb::ProcessControlBlockInner {
            memory_set: post2.proc(p).inner.memory_set,
            trap_frame: spec_with_result(frame0, r, true),
            ..pre.proc(p).inner
        },
        ..pre.proc(p)
    }));
    assert(post2.proc(p).inner.memory_set.byte_at(args[0] as u64) == pre.stdin_buffer@[0]);
    assert forall|q: int|
        0 <= q < pre.procs@.len() && q != p implies (#[trigger] post2.procs@[q])
        == pre.procs@[q] by {
        assert(post1.procs@[q] == pre.procs@[q]);
    }
    assert forall|w: u64|
        w != args[0] as u64 && pre.proc(p).inner.memory_set.has_byte(w) implies post2.proc(
        p,
    ).inner.memory_set.byte_at(w) == pre.proc(p).inner.memory_set.byte_at(w) by {
        assert(post1.proc(p).inner.memory_set.byte_at(w) == pre.proc(
            p,
        ).inner.memory_set.byte_at(w));
    }
}

/// The `waitpid` case of the return-path store.
#[verifier::rlimit(100)]
proof fn lemma_rax_store_post_waitpid(
    pre: Kernel,
    post1: Kernel,
    post2: Kernel,
    args: [usize; 3],
    apps: AppTable,
    r: Option<isize>,
)
    requires
        pre.wf(),
        pre.processor.current is Some,
        spec_syscall_post(pre, post1, SYS_WAITPID, args, apps, r, false),
        spec_syscall_ok(pre, SYS_WAITPID, args, apps),
        r is Some,
        post1.is_live(pre.processor.current.unwrap() as int),
        post2.procs@.len() == post1.procs@.len(),
        forall|q: int|
            0 <= q < post1.procs@.len() && q != pre.processor.current.unwrap() as int ==> (
            #[trigger] post2.procs@[q]) == post1.procs@[q],
        post2.procs@[pre.processor.current.unwrap() as int] is Some,
        post2.proc(pre.processor.current.unwrap() as int) == (ProcessControlBlock {
            inner: crate::pcb::ProcessControlBlockInner {
                trap_frame: crate::trap::TrapFrame {
                    rax: r.unwrap() as u64,
                    ..post1.proc(pre.processor.current.unwrap() as int).inner.trap_frame
                },
                ..post1.proc(pre.processor.current.unwrap() as int).inner
            },
            ..post1.proc(pre.processor.current.unwrap() as int)
        }),
        post2.pid_allocator == post1.pid_allocator,
        post2.kernel_space == post1.kernel_space,
        post2.manager == post1.manager,
        post2.processor == post1.processor,
        post2.initproc == post1.initproc,
        post2.console == post1.console,
        post2.stdin_buffer == post1.stdin_buffer,
    ensures
        spec_syscall_post(pre, post2, SYS_WAITPID, args, apps, r, true),
{
    reveal(spec_syscall_post);
    let p = pre.processor.current.unwrap() as int;
    let frame0 = pre.proc(p).inner.trap_frame;
    let zom = spec_first_matching_zombie(pre, p, args[0] as isize as int, 0);
    if spec_has_wait_match(pre, p, args[0] as isize as int) && zom is Some {
        let idx = zom.unwrap();
        let c = pre.spec_child(p, idx);
        assert(c as int != p && pre.is_live(c as int)) by {
            lemma_first_zombie_props(pre, p, args[0] as isize as int, 0);
            assert(pre.spec_child(p, idx) == c);
        }
        assert(post2.procs@.len() == pre.procs@.len());
        assert(post2.procs@[c as int] == post1.procs@[c as int]);
        assert(!post2.is_live(c as int));
        assert(post2.proc(p).inner.children@ =~= pre.proc(p).inner.children@.remove(idx));
        assert(post2.proc(p).inner.memory_set == post1.proc(p).inner.memory_set);
        assert(post1.proc(p).inner.trap_frame == frame0);
        assert(post2.proc(p) == (ProcessControlBlock {
            inner: crate::pcb::ProcessControlBlockInner {
                memory_set: post2.proc(p).inner.memory_set,
                children: post2.proc(p).inner.children,
                trap_frame: spec_with_result(frame0, r, true),
                ..pre.proc(p).inner
            },
            ..pre.proc(p)
        }));
        assert forall|b: int| 0 <= b < 8 implies (#[trigger] post2.proc(
            p,
        ).inner.memory_set.byte_at((args[1] + b) as u64)) == crate::elf::u64_le_byte(
            pre.proc(c as int).inner.exit_code as u64,
            b,
        ) by {
            assert(post1.proc(p).inner.memory_set.byte_at((args[1] + b) as u64)
                == crate::elf::u64_le_byte(pre.proc(c as int).inner.exit_code as u64, b));
        }
    } else {
        assert(post1.proc(p).inner.trap_frame == frame0);
        assert(post2.proc(p) == (ProcessControlBlock {
            inner: crate::pcb::ProcessControlBlockInner {
                trap_frame: spec_with_result(frame0, r, true),
                ..pre.proc(p).inner
            },
            ..pre.proc(p)
        }));
    }
}

/// Storing a completed call's value into the caller's saved `rax` is all
/// that separates the dispatch from the full SYSCALL return path.
#[verifier::rlimit(100)]
proof fn lemma_rax_store_post(
    pre: Kernel,
    post1: Kernel,
    post2: Kernel,
    id: usize,
    args: [usize; 3],
    apps: AppTable,
    r: Option<isize>,
)
    requires
        pre.wf(),
        pre.processor.current is Some,
        spec_syscall_post(pre, post1, id, args, apps, r, false),
        spec_syscall_ok(pre, id, args, apps),
        r is Some,
        post1.is_live(pre.processor.current.unwrap() as int),
        post2.procs@.len() == post1.procs@.len(),
        forall|q: int|
            0 <= q < post1.procs@.len() && q != pre.processor.current.unwrap() as int ==> (
            #[trigger] post2.procs@[q]) == post1.procs@[q],
        post2.procs@[pre.processor.current.unwrap() as int] is Some,
        post2.proc(pre.processor.current.unwrap() as int) == (ProcessControlBlock {
            inner: crate::pcb::ProcessControlBlockInner {
                trap_frame: crate::trap::TrapFrame {
                    rax: r.unwrap() as u64,
                    ..post1.proc(pre.processor.current.unwrap() as int).inner.trap_frame
                },
                ..post1.proc(pre.processor.current.unwrap() as int).inner
            },
            ..post1.proc(pre.processor.current.unwrap() as int)
        }),
        post2.pid_allocator == post1.pid_allocator,
        post2.kernel_space == post1.kernel_space,
        post2.manager == post1.manager,
        post2.processor == post1.processor,
        post2.initproc == post1.initproc,
        post2.console == post1.console,
        post2.stdin_buffer == post1.stdin_buffer,
    ensures
        spec_syscall_post(pre, post2, id, args, apps, r, true),
{
    reveal(spec_syscall_post);
    let p = pre.processor.current.unwrap() as int;
    assert(pre.is_live(p));
    let f1 = post1.proc(p).inner.trap_frame;
    assert(post2.proc(p) == (ProcessControlBlock {
        inner: crate::pcb::ProcessControlBlockInner {
            trap_frame: crate::trap::TrapFrame { rax: r.unwrap() as u64, ..f1 },
            ..post1.proc(p).inner
        },
        ..post1.proc(p)
    }));
    let frame0 = pre.proc(p).inner.trap_frame;
    if id == SYS_WRITE {
        assert(post1.proc(p).inner.trap_frame == frame0);
        assert(post2.proc(p) == (ProcessControlBlock {
            inner: crate::pcb::ProcessControlBlockInner {
                trap_frame: spec_with_result(frame0, r, true),
                ..pre.proc(p).inner
            },
            ..pre.proc(p)
        }));
        assert(spec_syscall_post(pre, post2, id, args, apps, r, true)) by {
            reveal(spec_syscall_post);
        }
    }
    if id == SYS_EXIT {
        assert(false) by {
            reveal(spec_syscall_post);
        }
    }
    if id == SYS_FORK {
        let c = pre.pid_allocator.spec_next();
        assert(pre.pid_allocator.spec_is_free(c)) by {
            if pre.pid_allocator.recycled@.len() > 0 {
                assert(pre.pid_allocator.recycled@.contains(pre.pid_allocator.recycled@.last()));
            }
        }
        assert(c as int != p);
        assert(post1.is_live(c as int));
        assert(post2.procs@[c as int] == post1.procs@[c as int]);
        assert forall|q: int|
            0 <= q < pre.procs@.len() && q != p && q != c as int implies (
        #[trigger] post2.procs@[q]) == pre.procs@[q] by {
            assert(post1.procs@[q] == pre.procs@[q]);
        }
        assert(post2.proc(p).inner.children@ =~= pre.proc(p).inner.children@.push(c));
        assert(post1.proc(p).inner.trap_frame == frame0);
        assert(post2.proc(p) == (ProcessControlBlock {
            inner: crate::pcb::ProcessControlBlockInner {
                trap_frame: spec_with_result(frame0, r, true),
                children: post2.proc(p).inner.children,
                ..pre.proc(p).inner
            },
            ..pre.proc(p)
        }));
        assert(spec_syscall_post(pre, post2, SYS_FORK, args, apps, r, true)) by {
            reveal(spec_syscall_post);
        }
    }
    if id == SYS_EXEC {
        let name = spec_cstr(pre.proc(p).inner.memory_set, args[0] as u64);
        match spec_find_app(apps.apps@, name) {
            None => {
                assert(post1.proc(p).inner.trap_frame == frame0);
                assert(post2.proc(p) == (ProcessControlBlock {
                    inner: crate::pcb::ProcessControlBlockInner {
                        trap_frame: spec_with_result(frame0, r, true),
                        ..pre.proc(p).inner
                    },
                    ..pre.proc(p)
                }));
            },
            Some(a) => {
                let image = apps.apps@[a].data@;
                let exec_frame = crate::trap::TrapFrame {
                    rsp: crate::memory_set::spec_user_stack_top(image),
                    rcx: crate::elf::spec_entry_point(image),
                    r11: crate::pcb::INITIAL_RFLAGS,
                    ..frame0
                };
                assert(post1.proc(p).inner.trap_frame == exec_frame);
                assert(post2.proc(p).inner.memory_set == post1.proc(p).inner.memory_set);
                assert(post2.proc(p) == (ProcessControlBlock {
                    inner: crate::pcb::ProcessControlBlockInner {
                        memory_set: post2.proc(p).inner.memory_set,
                        trap_frame: spec_with_result(exec_frame, r, true),
                        ..pre.proc(p).inner
                    },
                    ..pre.proc(p)
                }));
            },
        }
        assert(spec_syscall_post(pre, post2, id, args, apps, r, true)) by {
            reveal(spec_syscall_post);
        }
    }
    if id == SYS_YIELD {
        assert(post1.proc(p).inner.trap_frame == frame0);
        assert(post2.proc(p) == (ProcessControlBlock {
            inner: crate::pcb::ProcessControlBlockInner {
                process_status: ProcessStatus::Ready,
                trap_frame: spec_with_result(frame0, r, true),
                ..pre.proc(p).inner
            },
            ..pre.proc(p)
        }));
        assert(spec_syscall_post(pre, post2, id, args, apps, r, true)) by {
            reveal(spec_syscall_post);
        }
    }
    if id == SYS_READ {
        lemma_rax_store_post_read(pre, post1, post2, args, apps, r);
    }
    if id == SYS_WAITPID {
        lemma_rax_store_post_waitpid(pre, post1, post2, args, apps, r);
    }
}

/// The C-side of the SYSCALL entry stub: reads the call number and the
/// arguments out of the saved trap frame, dispatches, and stores a
/// completed call's return value into the frame's `rax`, where SYSRET will
/// hand it to user mode.  No call returns nothing silently: only `exit`
/// (which never returns) and a `read` that parked the caller leave the
/// frame without a stored result.  Register widths are machine words, so
/// the saved argument registers must fit one.
pub fn trap_syscall(k: &mut Kernel, apps: &AppTable) -> (r: Option<isize>)
    requires
        old(k).wf(),
        old(k).processor.current is Some,
        ({
            let frame = old(k).proc(old(k).processor.current.unwrap() as int).inner.trap_frame;
            &&& frame.rax <= usize::MAX
            &&& frame.rdi <= usize::MAX
            &&& frame.rsi <= usize::MAX
            &&& frame.rdx <= usize::MAX
            &&& spec_syscall_ok(
                *old(k),
                frame.rax as usize,
                [frame.rdi as usize, frame.rsi as usize, frame.rdx as usize],
                *apps,
            )
        }),
    ensures
        final(k).wf(),
        ({
            let p = old(k).processor.current.unwrap() as int;
            let frame = old(k).proc(p).inner.trap_frame;
            let id = frame.rax as usize;
            &&& spec_syscall_post(
                *old(k),
                *final(k),
                id,
                [frame.rdi as usize, frame.rsi as usize, frame.rdx as usize],
                *apps,
                r,
                true,
            )
            &&& (r is None <==> (id == SYS_EXIT || (id == SYS_READ && old(
                k,
            ).stdin_buffer@.len() == 0)))
            &&& (r is Some ==> final(k).is_live(p) && final(k).proc(p).inner.trap_frame.rax
                == r.unwrap() as u64)
        }),
{
    let ghost pre = *old(k);
    let p = current_process(k).unwrap();
    let frame = *k.procs[p].as_ref().unwrap().get_trap_frame();
    let syscall_id = frame.rax as usize;
    let args: [usize; 3] = [frame.rdi as usize, frame.rsi as usize, frame.rdx as usize];
    let r = syscall(k, syscall_id, args, apps);
    match r {
        Some(value) => {
            proof {
                assert(k.is_live(p as int)) by {
                    reveal(spec_syscall_post);
                }
            }
            let ghost mid = *k;
            let slot = &mut k.procs[p];
            let mut pcb = slot.take().unwrap();
            pcb.inner.trap_frame.rax = #[verifier::truncate] (value as u64);
            k.procs.set(p, Some(pcb));
            proof {
                assert(k.procs@ =~= mid.procs@.update(p as int, k.procs@[p as int]));
                lemma_wf_proc_fields_update(mid, *k, p as int);
                lemma_rax_store_post(pre, mid, *k, syscall_id, args, *apps, Some(value));
                assert(!(syscall_id == SYS_EXIT || (syscall_id == SYS_READ
                    && pre.stdin_buffer@.len() == 0))) by {
                    reveal(spec_syscall_post);
                }
                assert(k.is_live(p as int) && k.proc(p as int).inner.trap_frame.rax
                    == value as u64) by {
                    reveal(spec_syscall_post);
                }
            }
            Some(value)
        },
        None => {
            proof {
                assert(spec_syscall_post(pre, *k, syscall_id, args, *apps, None, true)) by {
                    reveal(spec_syscall_post);
                }
                assert(syscall_id == SYS_EXIT || (syscall_id == SYS_READ
                    && pre.stdin_buffer@.len() == 0)) by {
                    reveal(spec_syscall_post);
                }
            }
            None
        },
    }
}

/// A found index names a zombie child in range.
proof fn lemma_first_zombie_props(k: Kernel, p: int, pid: int, from: int)
    requires
        from >= 0,
        spec_first_matching_zombie(k, p, pid, from) is Some,
    ensures
        ({
            let idx = spec_first_matching_zombie(k, p, pid, from).unwrap();
            &&& from <= idx < k.proc(p).inner.children@.len()
            &&& spec_wait_matches(k, p, idx, pid)
            &&& k.spec_status(k.spec_child(p, idx) as int) is Zombie
        }),
    decreases k.proc(p).inner.children@.len() - from,
{
    if from < k.proc(p).inner.children@.len() {
        if !(spec_wait_matches(k, p, from, pid) && k.spec_status(
            k.spec_child(p, from) as int,
        ) is Zombie) {
            lemma_first_zombie_props(k, p, pid, from + 1);
        }
    }
}

/// Without a named child there is no named zombie either.
proof fn lemma_no_match_no_zombie(k: Kernel, p: int, pid: int, from: int)
    requires
        !spec_has_wait_match(k, p, pid),
        from >= 0,
    ensures
        spec_first_matching_zombie(k, p, pid, from) is None,
    decreases k.proc(p).inner.children@.len() - from,
{
    if from < k.proc(p).inner.children@.len() {
        assert(!spec_wait_matches(k, p, from, pid)) by {
            if spec_wait_matches(k, p, from, pid) {
                assert(0 <= from < k.proc(p).inner.children@.len() && (pid == -1 || (pid >= 0
                    && k.spec_child(p, from) == pid)));
            }
        }
        lemma_no_match_no_zombie(k, p, pid, from + 1);
    }
}

/// `post` is `pre` after the running process `p` reaped its zombie child
/// `c` (at children index `idx`): the child left the children list, its
/// table entry, kernel stack and PID were reclaimed, and nothing else
/// moved.  All well-formedness clauses survive this step.
proof fn lemma_waitpid_reap_preserves_wf(pre: Kernel, post: Kernel, p: int, c: int, idx: int)
    requires
        pre.wf(),
        pre.processor.current == Some(p as usize),
        0 <= p < pre.procs@.len(),
        0 <= idx < pre.proc(p).inner.children@.len(),
        c == pre.spec_child(p, idx),
        pre.spec_status(c) is Zombie,
        post.procs@.len() == pre.procs@.len(),
        post.procs@[p] is Some,
        post.proc(p).pid == pre.proc(p).pid,
        post.proc(p).kernel_stack == pre.proc(p).kernel_stack,
        post.proc(p).inner.memory_set == pre.proc(p).inner.memory_set,
        post.proc(p).inner.process_status == pre.proc(p).inner.process_status,
        post.proc(p).inner.process_context_ptr == pre.proc(p).inner.process_context_ptr,
        post.proc(p).inner.parent == pre.proc(p).inner.parent,
        post.proc(p).inner.children@ == pre.proc(p).inner.children@.remove(idx),
        post.procs@[c] is None,
        forall|q: int|
            0 <= q < pre.procs@.len() && q != p && q != c ==> (#[trigger] post.procs@[q])
                == pre.procs@[q],
        post.pid_allocator.wf(),
        post.pid_allocator.current == pre.pid_allocator.current,
        post.pid_allocator.spec_is_free(c as usize),
        forall|q: usize|
            q != c ==> post.pid_allocator.spec_is_free(q) == pre.pid_allocator.spec_is_free(q),
        post.kernel_space.wf(),
        match pre.kernel_space.spec_area_with_start(spec_kernel_stack_bottom(c) as u64) {
            Some(ai) => post.kernel_space.areas@ =~= pre.kernel_space.areas@.remove(ai),
            None => post.kernel_space.areas@ =~= pre.kernel_space.areas@,
        },
        post.manager == pre.manager,
        post.processor == pre.processor,
        post.initproc == pre.initproc,
    ensures
        post.wf(),
{
    assert(pre.is_live(c) && c != p && pre.proc(c).inner.parent == Some(p as usize)) by {
        assert(pre.spec_child(p, idx) == c as usize);
    }
    assert(c != pre.initproc as int) by {
        if c == pre.initproc as int {
            assert(!(pre.spec_status(pre.initproc as int) is Zombie));
        }
    }
    // the zombie has no children of its own
    assert(pre.proc(c).inner.children@.len() == 0) by {
        assert(pre.spec_status(c) is Zombie);
    }
    assert(post.wf_table()) by {
        assert forall|q: int|
            0 <= q < post.procs@.len() implies ((#[trigger] post.procs@[q]) is Some
            == post.pid_allocator.spec_is_live(q as usize)) by {
            if q == c {
            } else if q == p {
                assert(pre.is_live(p));
            } else {
                assert(post.procs@[q] == pre.procs@[q]);
            }
        }
        assert forall|q: int|
            #![trigger post.procs@[q]]
            0 <= q < post.procs@.len() && post.procs@[q] is Some implies post.proc(q).wf()
            && post.proc(q).pid.0 == q by {
            assert(q != c);
            assert(pre.proc(q).wf());
        }
    }
    assert(post.wf_stacks()) by {
        assert forall|i: int| 0 <= i < post.kernel_space.areas@.len() implies
            post.spec_stack_area_owned(i) by {
            let pre_i: int = match pre.kernel_space.spec_area_with_start(
                spec_kernel_stack_bottom(c) as u64,
            ) {
                Some(ai) => if i < ai {
                    i
                } else {
                    i + 1
                },
                None => i,
            };
            assert(post.kernel_space.areas@[i] == pre.kernel_space.areas@[pre_i]);
            assert(pre.spec_stack_area_owned(pre_i));
            let q = choose|q: int|
                pre.is_live(q) && pre.kernel_space.areas@[pre_i].start_virt_addr
                    == spec_kernel_stack_bottom(q) && pre.kernel_space.areas@[pre_i].end_virt_addr
                    == spec_kernel_stack_top(q);
            assert(q != c) by {
                if q == c {
                    // an area that still carried the reaped PID's slot would
                    // be the very one the release removed; two such areas
                    // would overlap
                    let w = pre.kernel_space.spec_area_with_start(
                        spec_kernel_stack_bottom(c) as u64,
                    );
                    assert(pre.proc(c).wf());
                    assert(c < KERNEL_STACK_SLOTS) by {
                        assert(pre.proc(c).pid.0 == c);
                    }
                    assert((spec_kernel_stack_bottom(c) as u64) % 4096 == 0) by {
                        assert((c as int) * (crate::memory::KERNEL_STACK_SIZE
                            + crate::memory::GUARD_SIZE) % 4096 == 0) by (nonlinear_arith)
                            requires
                                crate::memory::KERNEL_STACK_SIZE + crate::memory::GUARD_SIZE == 8
                                    * 4096,
                        ;
                    }
                    assert(pre.kernel_space.areas@[pre_i].start_page() * 4096
                        == spec_kernel_stack_bottom(c)) by {
                        assert(pre.kernel_space.areas@[pre_i].start_virt_addr
                            == spec_kernel_stack_bottom(c));
                    }
                    assert(w is Some);
                    let ai = w.unwrap();
                    assert(pre.kernel_space.areas@[ai].start_page() * 4096
                        == spec_kernel_stack_bottom(c));
                    assert(pre_i != ai);
                    assert(pre.kernel_space.areas@[pre_i].contains_page(
                        pre.kernel_space.areas@[pre_i].start_page(),
                    )) by {
                        assert(pre.kernel_space.areas@[pre_i].wf());
                    }
                    assert(pre.kernel_space.areas@[ai].contains_page(
                        pre.kernel_space.areas@[ai].start_page(),
                    )) by {
                        assert(pre.kernel_space.areas@[ai].wf());
                    }
                    assert(pre.kernel_space.areas@[pre_i].start_page()
                        == pre.kernel_space.areas@[ai].start_page());
                    if pre_i < ai {
                        assert(pre.kernel_space.areas@[pre_i].overlaps(
                            pre.kernel_space.areas@[ai],
                        ));
                    } else {
                        assert(pre.kernel_space.areas@[ai].overlaps(
                            pre.kernel_space.areas@[pre_i],
                        ));
                    }
                }
            }
            assert(post.spec_stack_owner(q) == q);
            assert(post.is_live(q));
        }
    }
    assert(post.wf_queue()) by {
        assert forall|j: int| 0 <= j < post.manager.ready_queue@.len() implies post.is_live(
            (#[trigger] post.manager.ready_queue@[j]) as int,
        ) && post.spec_status(post.manager.ready_queue@[j] as int) is Ready by {
            let e = pre.manager.ready_queue@[j];
            assert(pre.is_live(e as int) && pre.spec_status(e as int) is Ready);
            assert(e as int != c);
            assert(Some(e) != pre.processor.current);
            assert(e as int != p);
        }
    }
    assert(post.wf_current()) by {
        assert(pre.is_live(p) && pre.spec_status(p) is Running);
    }
    assert(post.wf_children()) by {
        assert forall|q: int, i: int|
            #![trigger post.spec_child(q, i)]
            post.is_live(q) && 0 <= i < post.proc(q).inner.children@.len() implies {
            &&& post.is_live(post.spec_child(q, i) as int)
            &&& post.proc(post.spec_child(q, i) as int).inner.parent == Some(q as usize)
            &&& post.spec_child(q, i) != q
        } by {
            let pre_i: int = if q == p && i >= idx {
                i + 1
            } else {
                i
            };
            assert(post.spec_child(q, i) == pre.spec_child(q, pre_i));
            let e = pre.spec_child(q, pre_i);
            assert(pre.is_live(e as int) && pre.proc(e as int).inner.parent == Some(q as usize)
                && e != q);
            assert(e as int != c) by {
                if e as int == c {
                    assert(q != c) by {
                        assert(post.procs@[c] is None);
                    }
                    assert(pre.is_live(q)) by {
                        if q != p {
                            assert(post.procs@[q] == pre.procs@[q]);
                        }
                    }
                    assert(0 <= pre_i < pre.proc(q).inner.children@.len());
                    assert(q != p || pre_i != idx);
                    assert(pre.spec_child(q, pre_i) == pre.spec_child(p, idx));
                    crate::process::lemma_children_unique(pre, q, pre_i, p, idx);
                }
            }
            // `e` may be the reaper itself; only its children list changed
            assert(post.is_live(e as int) && post.proc(e as int).inner.parent == Some(
                q as usize,
            )) by {
                if e as int != p {
                    assert(post.procs@[e as int] == pre.procs@[e as int]);
                }
            }
        }
        assert forall|q: int, i: int, q2: int, j2: int|
            #![trigger post.spec_child(q, i), post.spec_child(q2, j2)]
            post.is_live(q) && 0 <= i < post.proc(q).inner.children@.len() && post.is_live(q2) && 0
                <= j2 < post.proc(q2).inner.children@.len() && (q != q2 || i != j2) implies
            post.spec_child(q, i) != post.spec_child(q2, j2) by {
            let pre_i: int = if q == p && i >= idx {
                i + 1
            } else {
                i
            };
            let pre_j: int = if q2 == p && j2 >= idx {
                j2 + 1
            } else {
                j2
            };
            assert(0 <= pre_i < pre.proc(q).inner.children@.len());
            assert(0 <= pre_j < pre.proc(q2).inner.children@.len());
            assert(post.spec_child(q, i) == pre.spec_child(q, pre_i));
            assert(post.spec_child(q2, j2) == pre.spec_child(q2, pre_j));
            assert(q != q2 || pre_i != pre_j);
        }
        assert forall|q: int|
            #![trigger post.spec_status(q)]
            post.is_live(q) && post.spec_status(q) is Zombie implies post.proc(
            q,
        ).inner.children@.len() == 0 by {
            if q == p {
                assert(pre.spec_status(p) is Running);
            } else {
                assert(pre.spec_status(q) is Zombie ==> pre.proc(q).inner.children@.len() == 0);
            }
        }
    }
    assert(post.wf_init()) by {
        assert(pre.is_live(pre.initproc as int));
    }
}

/// `post` is `pre` after the running process `p` forked child `c`: the
/// child is a fresh Ready process linked under `p`, queued at the tail, and
/// nothing else moved.  All well-formedness clauses survive this step.
proof fn lemma_fork_preserves_wf(pre: Kernel, post: Kernel, p: int, c: int)
    requires
        pre.wf(),
        pre.processor.current == Some(p as usize),
        0 <= p < pre.procs@.len(),
        pre.spec_can_spawn(),
        c == pre.pid_allocator.spec_next(),
        // allocator stepped by one allocation
        post.pid_allocator.wf(),
        post.pid_allocator.spec_is_live(c as usize),
        post.pid_allocator.current == pre.pid_allocator.current + if pre
            .pid_allocator.recycled@.len() > 0 {
            0int
        } else {
            1int
        },
        forall|q: usize|
            q != c ==> post.pid_allocator.spec_is_free(q) == pre.pid_allocator.spec_is_free(q),
        // table: child installed, parent's children extended, rest kept
        post.procs@.len() == post.pid_allocator.current,
        post.procs@.len() >= pre.procs@.len(),
        0 <= c < post.procs@.len(),
        post.procs@[c] is Some,
        post.proc(c).wf(),
        post.proc(c).pid.0 == c,
        post.proc(c).inner.process_status is Ready,
        post.proc(c).inner.parent == Some(p as usize),
        post.proc(c).inner.children@.len() == 0,
        post.procs@[p] is Some,
        post.proc(p).pid == pre.proc(p).pid,
        post.proc(p).kernel_stack == pre.proc(p).kernel_stack,
        post.proc(p).inner.memory_set == pre.proc(p).inner.memory_set,
        post.proc(p).inner.process_status == pre.proc(p).inner.process_status,
        post.proc(p).inner.process_context_ptr == pre.proc(p).inner.process_context_ptr,
        post.proc(p).inner.parent == pre.proc(p).inner.parent,
        post.proc(p).inner.children@ == pre.proc(p).inner.children@.push(c as usize),
        forall|q: int|
            0 <= q < pre.procs@.len() && q != p && q != c ==> (#[trigger] post.procs@[q])
                == pre.procs@[q],
        forall|q: int|
            pre.procs@.len() <= q < post.procs@.len() && q != c ==> (#[trigger] post.procs@[q])
                is None,
        // kernel space: the child's stack slot appended
        post.kernel_space.wf(),
        post.kernel_space.areas@.len() == pre.kernel_space.areas@.len() + 1,
        forall|i: int|
            0 <= i < pre.kernel_space.areas@.len() ==> (#[trigger] post.kernel_space.areas@[i])
                == pre.kernel_space.areas@[i],
        post.kernel_space.areas@.last().start_virt_addr == spec_kernel_stack_bottom(c),
        post.kernel_space.areas@.last().end_virt_addr == spec_kernel_stack_top(c),
        // queue: child appended
        post.manager.ready_queue@ == pre.manager.ready_queue@.push(c as usize),
        post.processor == pre.processor,
        post.initproc == pre.initproc,
    ensures
        post.wf(),
{
    assert(!pre.is_live(c)) by {
        assert(pre.pid_allocator.spec_is_free(c as usize));
    }
    assert(c != p);
    assert(c != pre.initproc as int);
    assert(post.is_live(c));
    // liveness: only c changed
    assert forall|q: int| 0 <= q < post.procs@.len() && q != c implies ((
    #[trigger] post.procs@[q]) is Some == pre.is_live(q)) by {
        if q == p {
            assert(post.procs@[p] is Some);
            assert(pre.is_live(p));
        } else if q < pre.procs@.len() {
            assert(post.procs@[q] == pre.procs@[q]);
        } else {
            assert(post.procs@[q] is None);
            assert(!pre.is_live(q));
        }
    }
    assert(post.wf_table()) by {
        assert forall|q: int|
            0 <= q < post.procs@.len() implies ((#[trigger] post.procs@[q]) is Some
            == post.pid_allocator.spec_is_live(q as usize)) by {
            if q == c {
            } else {
                assert(post.pid_allocator.spec_is_free(q as usize) == pre.pid_allocator.spec_is_free(
                    q as usize,
                ));
                if q < pre.procs@.len() {
                } else {
                    assert(pre.pid_allocator.spec_is_free(q as usize));
                }
            }
        }
        assert forall|q: int|
            #![trigger post.procs@[q]]
            0 <= q < post.procs@.len() && post.procs@[q] is Some implies post.proc(q).wf()
            && post.proc(q).pid.0 == q by {
            if q != c && q != p {
                assert(pre.proc(q).wf());
            }
            if q == p {
                assert(pre.proc(p).wf());
            }
        }
    }
    assert(post.wf_stacks()) by {
        assert forall|i: int| 0 <= i < post.kernel_space.areas@.len() implies
            post.spec_stack_area_owned(i) by {
            if i < pre.kernel_space.areas@.len() {
                assert(pre.spec_stack_area_owned(i));
                let q = choose|q: int|
                    pre.is_live(q) && pre.kernel_space.areas@[i].start_virt_addr
                        == spec_kernel_stack_bottom(q) && pre.kernel_space.areas@[i].end_virt_addr
                        == spec_kernel_stack_top(q);
                assert(post.spec_stack_owner(q) == q);
                assert(post.is_live(q));
            } else {
                assert(post.spec_stack_owner(c) == c);
                assert(post.is_live(c));
            }
        }
    }
    assert(post.wf_queue()) by {
        assert forall|j: int| 0 <= j < post.manager.ready_queue@.len() implies post.is_live(
            (#[trigger] post.manager.ready_queue@[j]) as int,
        ) && post.spec_status(post.manager.ready_queue@[j] as int) is Ready && Some(
            post.manager.ready_queue@[j],
        ) != post.processor.current by {
            if j < pre.manager.ready_queue@.len() {
                let e = pre.manager.ready_queue@[j];
                assert(pre.is_live(e as int));
                assert(e as int != c);
            }
        }
        assert forall|j: int, l: int| 0 <= j < l < post.manager.ready_queue@.len() implies
            post.manager.ready_queue@[j] != post.manager.ready_queue@[l] by {
            if l < pre.manager.ready_queue@.len() {
            } else {
                let e = pre.manager.ready_queue@[j];
                assert(pre.is_live(e as int));
            }
        }
    }
    assert(post.wf_current());
    assert(post.wf_children()) by {
        assert forall|q: int, i: int|
            #![trigger post.spec_child(q, i)]
            post.is_live(q) && 0 <= i < post.proc(q).inner.children@.len() implies {
            &&& post.is_live(post.spec_child(q, i) as int)
            &&& post.proc(post.spec_child(q, i) as int).inner.parent == Some(q as usize)
            &&& post.spec_child(q, i) != q
        } by {
            if q == p && i == pre.proc(p).inner.children@.len() {
                assert(post.spec_child(q, i) == c as usize);
            } else if q == p {
                assert(post.spec_child(p, i) == pre.spec_child(p, i));
                assert(pre.is_live(pre.spec_child(p, i) as int));
                assert(pre.spec_child(p, i) as int != c);
            } else if q == c {
                // no children
            } else {
                assert(post.spec_child(q, i) == pre.spec_child(q, i));
                assert(pre.is_live(pre.spec_child(q, i) as int));
                assert(pre.spec_child(q, i) as int != c);
            }
        }
        assert forall|q: int, i: int, q2: int, j2: int|
            #![trigger post.spec_child(q, i), post.spec_child(q2, j2)]
            post.is_live(q) && 0 <= i < post.proc(q).inner.children@.len() && post.is_live(q2) && 0
                <= j2 < post.proc(q2).inner.children@.len() && (q != q2 || i != j2) implies
            post.spec_child(q, i) != post.spec_child(q2, j2) by {
            let new_i = q == p && i == pre.proc(p).inner.children@.len();
            let new_j = q2 == p && j2 == pre.proc(p).inner.children@.len();
            if new_i && new_j {
                assert(q == q2 && i == j2);
            } else if new_i {
                assert(post.spec_child(q, i) == c as usize);
                assert(post.spec_child(q2, j2) == pre.spec_child(q2, j2));
                assert(pre.is_live(pre.spec_child(q2, j2) as int));
            } else if new_j {
                assert(post.spec_child(q2, j2) == c as usize);
                assert(post.spec_child(q, i) == pre.spec_child(q, i));
                assert(pre.is_live(pre.spec_child(q, i) as int));
            } else {
                assert(post.spec_child(q, i) == pre.spec_child(q, i));
                assert(post.spec_child(q2, j2) == pre.spec_child(q2, j2));
            }
        }
        assert forall|q: int|
            #![trigger post.spec_status(q)]
            post.is_live(q) && post.spec_status(q) is Zombie implies post.proc(
            q,
        ).inner.children@.len() == 0 by {
            if q == c {
            } else if q == p {
                assert(pre.spec_status(p) is Running);
            } else {
                assert(pre.spec_status(q) is Zombie ==> pre.proc(q).inner.children@.len() == 0);
            }
        }
    }
    assert(post.wf_init()) by {
        assert(post.is_live(post.initproc as int));
        if pre.initproc as int == p {
            assert(post.proc(p).inner.parent == pre.proc(p).inner.parent);
        }
    }
}

} // verus!

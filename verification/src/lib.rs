//! Core of a minimal x86_64 kernel that hosts ring-3 user processes.
//!
//! The crate verifies the kernel's decision logic over a plain-value model of
//! the machine: PID allocation with recycling, the PID-indexed kernel stack
//! region, per-process address spaces built from ELF images, the process
//! control block lifecycle (fork / exec / wait / exit with zombie reaping and
//! reparenting), the FIFO ready queue and dispatcher, the SYSCALL
//! register-marshalling path, and the VGA console model.  The thin layer
//! that touches hardware (CR3 writes, MSRs, the context-switch trampoline,
//! the memory-mapped devices, the PIC) lives outside the library and only
//! carries values computed here.

pub mod elf;
pub mod gdt;
pub mod interrupts;
pub mod kernel_stack;
pub mod loader;
pub mod manager;
pub mod memory;
pub mod memory_set;
pub mod pcb;
pub mod pid;
pub mod process;
pub mod system_call;
pub mod task;
pub mod trap;
pub mod user;
pub mod vga;

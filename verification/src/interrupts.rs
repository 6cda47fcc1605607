//! Interrupt vector numbers.
//!
//! The two PICs are remapped to vectors 32 and up; the timer and keyboard
//! lines land on the first two.  Vector 0x80 is the legacy software trap.
//! Programming the PIC and the IDT is hardware bring-up outside the
//! library; the keyboard handler's decoded bytes reach the kernel through
//! its input queue.

use vstd::prelude::*;

verus! {

/// Vector base the first PIC is remapped to.
pub const PIC_1_OFFSET: u8 = 32;

pub const PIC_2_OFFSET: u8 = 40;

#[derive(Debug, Clone, Copy, PartialEq, Eq, Structural)]
pub enum Interrupt {
    Timer,
    Keyboard,
    Trap,
}

pub open spec fn spec_interrupt_vector(i: Interrupt) -> u8 {
    match i {
        Interrupt::Timer => 32,
        Interrupt::Keyboard => 33,
        Interrupt::Trap => 0x80,
    }
}

impl Interrupt {
    pub fn as_u8(self) -> (r: u8)
        ensures
            r == spec_interrupt_vector(self),
    {
        match self {
            Interrupt::Timer => PIC_1_OFFSET,
            Interrupt::Keyboard => 33,
            Interrupt::Trap => 0x80,
        }
    }

    pub fn as_usize(self) -> (r: usize)
        ensures
            r == spec_interrupt_vector(self),
    {
        self.as_u8() as usize
    }
}

} // verus!

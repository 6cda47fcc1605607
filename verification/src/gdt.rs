//! Interrupt-stack-table slots of the task state segment.
//!
//! The double fault, non-maskable interrupt and debug handlers each run on
//! a dedicated known-good stack; these are their slot numbers.  Loading
//! the GDT and TSS themselves is hardware bring-up outside the library.

use vstd::prelude::*;

verus! {

#[derive(Debug, Clone, Copy, PartialEq, Eq, Structural)]
pub enum ISTIndex {
    DoubleFault,
    NonMaskableInterrupt,
    Debug,
}

pub open spec fn spec_ist_index(i: ISTIndex) -> u16 {
    match i {
        ISTIndex::DoubleFault => 0,
        ISTIndex::NonMaskableInterrupt => 1,
        ISTIndex::Debug => 2,
    }
}

impl ISTIndex {
    pub fn as_u16(self) -> (r: u16)
        ensures
            r == spec_ist_index(self),
    {
        match self {
            ISTIndex::DoubleFault => 0,
            ISTIndex::NonMaskableInterrupt => 1,
            ISTIndex::Debug => 2,
        }
    }

    pub fn as_usize(self) -> (r: usize)
        ensures
            r == spec_ist_index(self),
    {
        self.as_u16() as usize
    }
}

} // verus!

//! Interrupt numbers of the hardware interrupts.
use vstd::prelude::*;

verus! {

/// First vector of the master interrupt controller after remapping.
pub const MASTER_PIC_OFFSET: u8 = 0x20;

/// First vector of the slave interrupt controller after remapping.
pub const SLAVE_PIC_OFFSET: u8 = 0x28;

/// The hardware interrupt lines the kernel handles.
#[derive(Clone, Copy, Debug, PartialEq, Eq, Structural)]
pub enum InterruptIndex {
    Timer,
    Keyboard,
}

impl InterruptIndex {
    pub open spec fn line(self) -> u8 {
        match self {
            InterruptIndex::Timer => 0,
            InterruptIndex::Keyboard => 1,
        }
    }

    /// The interrupt line.
    pub fn as_u8(self) -> (r: u8)
        ensures
            r == self.line(),
    {
        match self {
            InterruptIndex::Timer => 0,
            InterruptIndex::Keyboard => 1,
        }
    }

    /// The interrupt line, as an index.
    pub fn as_usize(self) -> (r: usize)
        ensures
            r == self.line(),
    {
        self.as_u8() as usize
    }

    /// The vector the line arrives at once the controllers are remapped.
    pub fn as_remapped_idt_number(self) -> (r: u8)
        ensures
            r == self.line() + MASTER_PIC_OFFSET,
    {
        self.as_u8() + MASTER_PIC_OFFSET
    }
}

} // verus!

//! Interrupt vector numbering for the two programmable interrupt
//! controllers.
//!
//! The hardware interrupts are remapped past the CPU exception vectors:
//! the primary controller's lines start at vector 32, the secondary's
//! eight lines follow.  Loading the vector table and driving the
//! controllers is hardware work and stays outside the verified core;
//! the numbering itself is plain arithmetic and lives here.

use vstd::prelude::*;

verus! {

/// First vector of the primary interrupt controller.
pub const PIC1_OFFSET: u8 = 32;

/// First vector of the secondary interrupt controller.
pub const PIC2_OFFSET: u8 = PIC1_OFFSET + 8;

/// The hardware interrupts the kernel handles.
#[derive(Clone, Copy, Debug, PartialEq, Eq, Structural)]
pub enum InterruptIndex {
    /// The timer tick, on the primary controller's first line.
    Timer,
    /// The keyboard, on the line after it.
    Keyboard,
}

impl InterruptIndex {
    /// The interrupt's vector number.
    pub open spec fn spec_vector(self) -> int {
        match self {
            InterruptIndex::Timer => PIC1_OFFSET as int,
            InterruptIndex::Keyboard => PIC1_OFFSET + 1,
        }
    }

    /// The interrupt's vector number as a byte.
    pub fn as_u8(self) -> (r: u8)
        ensures
            r == self.spec_vector(),
    {
        match self {
            InterruptIndex::Timer => PIC1_OFFSET,
            InterruptIndex::Keyboard => PIC1_OFFSET + 1,
        }
    }

    /// The interrupt's vector number as a table index.
    pub fn as_usize(self) -> (r: usize)
        ensures
            r == self.spec_vector(),
    {
        self.as_u8() as usize
    }
}

} // verus!

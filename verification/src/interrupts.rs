//! Interrupt vector numbers used by the external interrupt controller.
//!
//! The handlers themselves are hardware code and live outside this crate;
//! the vector numbering is part of the core's contract with them (the
//! keyboard vector is the one that feeds the interrupt-to-task bridge).

use vstd::prelude::*;

verus! {

/// The interrupt vectors the kernel routes through the interrupt controller.
#[derive(Debug, Clone, Copy, PartialEq, Eq, Structural)]
pub enum InterruptIndex {
    Timer,
    Keyboard,
    Error,
    Spurious,
}

impl InterruptIndex {
    /// The vector number of this interrupt.
    pub fn as_u8(self) -> (v: u8)
        ensures
            v == self.spec_vector(),
    {
        match self {
            InterruptIndex::Timer => 0x20,
            InterruptIndex::Keyboard => 0x21,
            InterruptIndex::Error => 0x70,
            InterruptIndex::Spurious => 0xf0,
        }
    }

    /// The vector number of this interrupt, widened for table indexing.
    pub fn as_usize(self) -> (v: usize)
        ensures
            v == self.spec_vector(),
    {
        self.as_u8() as usize
    }

    /// Vector assignment: distinct vectors in the external-interrupt range.
    pub open spec fn spec_vector(self) -> u8 {
        match self {
            InterruptIndex::Timer => 0x20,
            InterruptIndex::Keyboard => 0x21,
            InterruptIndex::Error => 0x70,
            InterruptIndex::Spurious => 0xf0,
        }
    }
}

} // verus!

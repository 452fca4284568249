//! Interrupt handlers and what the processor hands them.

use vstd::prelude::*;

verus! {

/// The error code that the processor pushes for some exceptions.
#[derive(Copy, Clone, Debug, PartialEq, Eq, Structural)]
pub struct ErrorCode(pub u64);

/// The bits of the error code, from the lowest: the event came from
/// outside, the selector refers to the interrupt table, the table
/// indicator, thirteen... eleven bits of selector index, and reserved bits.
pub proof fn lemma_error_code_bits(w: u64)
    by (bit_vector)
    ensures
        (w & 1 != 0) == (w % 2 == 1),
        ((w >> 1) & 1 != 0) == ((w / 2) % 2 == 1),
        ((w >> 2) & 1 != 0) == ((w / 4) % 2 == 1),
        (w >> 3) & 0x7ff == (w / 8) % 0x800,
        (w >> 14) & 0x3_ffff == (w / 0x4000) % 0x4_0000,
{
}

impl ErrorCode {
    pub fn external_event(&self) -> (r: bool)
        ensures
            r == (self.0 % 2 == 1),
    {
        proof {
            lemma_error_code_bits(self.0);
        }
        self.0 & 1 != 0
    }

    pub fn descriptor_location(&self) -> (r: bool)
        ensures
            r == ((self.0 / 2) % 2 == 1),
    {
        proof {
            lemma_error_code_bits(self.0);
        }
        (self.0 >> 1) & 1 != 0
    }

    pub fn ti(&self) -> (r: bool)
        ensures
            r == ((self.0 / 4) % 2 == 1),
    {
        proof {
            lemma_error_code_bits(self.0);
        }
        (self.0 >> 2) & 1 != 0
    }

    pub fn segment_selector_index(&self) -> (r: u64)
        ensures
            r == (self.0 / 8) % 0x800,
    {
        proof {
            lemma_error_code_bits(self.0);
        }
        (self.0 >> 3) & 0x7ff
    }

    pub fn reserved(&self) -> (r: u64)
        ensures
            r == (self.0 / 0x4000) % 0x4_0000,
    {
        proof {
            lemma_error_code_bits(self.0);
        }
        (self.0 >> 14) & 0x3_ffff
    }
}

/// What the processor pushes when it enters a handler: where the
/// interrupted code ran.
#[derive(Copy, Clone, Debug, PartialEq, Eq, Structural)]
pub struct InterruptFrame {
    pub ip: u64,
    pub cs: u64,
    pub flags: u64,
    pub sp: u64,
    pub ss: u64,
}

/// The address of a handler for a vector without error code.
#[derive(Copy, Clone, Debug, PartialEq, Eq, Structural)]
pub struct Handler {
    pub address: u64,
}

/// The address of a handler for a vector with error code.
#[derive(Copy, Clone, Debug, PartialEq, Eq, Structural)]
pub struct HandlerWithErrorCode {
    pub address: u64,
}

} // verus!

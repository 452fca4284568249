//! The parts of a virtual address.

use crate::memory::address::VirtualAddress;
use vstd::prelude::*;

verus! {

/// The index into the table of the given level, 1 to 4, that an address
/// selects.
pub open spec fn spec_level_index(addr: int, level: int) -> int {
    if level == 4 {
        (addr / 0x80_0000_0000) % 512
    } else if level == 3 {
        (addr / 0x4000_0000) % 512
    } else if level == 2 {
        (addr / 0x20_0000) % 512
    } else {
        (addr / 0x1000) % 512
    }
}

pub proof fn lemma_index_bits(a: u64)
    by (bit_vector)
    ensures
        (a >> 39) & 0o777 == (a / 0x80_0000_0000) % 512,
        (a >> 30) & 0o777 == (a / 0x4000_0000) % 512,
        (a >> 21) & 0o777 == (a / 0x20_0000) % 512,
        (a >> 12) & 0o777 == (a / 0x1000) % 512,
        a & 0xFFF == a % 0x1000,
{
}

pub trait PageIndex: Sized {
    /// The address as a number.
    spec fn spec_address(self) -> int;

    fn level4_index(self) -> (r: usize)
        ensures
            r == spec_level_index(self.spec_address(), 4),
            r < 512,
    ;

    fn level3_index(self) -> (r: usize)
        ensures
            r == spec_level_index(self.spec_address(), 3),
            r < 512,
    ;

    fn level2_index(self) -> (r: usize)
        ensures
            r == spec_level_index(self.spec_address(), 2),
            r < 512,
    ;

    fn level1_index(self) -> (r: usize)
        ensures
            r == spec_level_index(self.spec_address(), 1),
            r < 512,
    ;

    fn offset(self) -> (r: usize)
        ensures
            r == self.spec_address() % 0x1000,
    ;
}

impl PageIndex for VirtualAddress {
    open spec fn spec_address(self) -> int {
        self@
    }

    fn level4_index(self) -> (r: usize) {
        proof {
            lemma_index_bits(self.0);
        }
        ((self.0 >> 39) & 0o777) as usize
    }

    fn level3_index(self) -> (r: usize) {
        proof {
            lemma_index_bits(self.0);
        }
        ((self.0 >> 30) & 0o777) as usize
    }

    fn level2_index(self) -> (r: usize) {
        proof {
            lemma_index_bits(self.0);
        }
        ((self.0 >> 21) & 0o777) as usize
    }

    fn level1_index(self) -> (r: usize) {
        proof {
            lemma_index_bits(self.0);
        }
        ((self.0 >> 12) & 0o777) as usize
    }

    fn offset(self) -> (r: usize) {
        proof {
            lemma_index_bits(self.0);
        }
        (self.0 & 0xFFF) as usize
    }
}

} // verus!

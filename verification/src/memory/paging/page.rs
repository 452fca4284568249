//! A `Page` is a unit of virtual memory, as large as a frame.

use crate::memory::address::VirtualAddress;
use vstd::prelude::*;

verus! {

pub const SIZE: u64 = 4096;

/// The largest page number whose address fits in a machine word.
pub const MAX_NUMBER: u64 = 0xF_FFFF_FFFF_FFFF;

#[derive(Copy, Clone, Debug, PartialEq, Eq, Structural)]
pub struct Page {
    pub number: u64,
}

impl Page {
    /// The address of the page's first byte.
    pub fn address(&self) -> (r: VirtualAddress)
        requires
            self.number <= MAX_NUMBER,
        ensures
            r@ == self.number * SIZE,
    {
        VirtualAddress::new(self.number * SIZE)
    }

    /// The page that holds the address.
    pub fn from_address(addr: VirtualAddress) -> (r: Page)
        ensures
            r.number == addr@ / SIZE as int,
            r.number <= MAX_NUMBER,
    {
        Page { number: addr.into_u64() / SIZE }
    }

    pub fn from_number(n: u64) -> (r: Page)
        ensures
            r.number == n,
    {
        Page { number: n }
    }
}

} // verus!

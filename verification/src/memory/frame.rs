//! A `Frame` describes one unit of physical memory, 4096 bytes that one
//! page maps.

use super::address::PhysicalAddress;
use super::buddy_system::Object;
use vstd::prelude::*;

verus! {

/// The size of a frame in bytes.
pub const SIZE: u64 = 4096;

/// The largest frame number: a physical address has at most 52 bits.
pub const MAX_NUMBER: u64 = 0xFF_FFFF_FFFF;

#[derive(Copy, Clone, Debug, PartialEq, Eq, Structural)]
pub enum State {
    Used,
    Free,
}

/// The descriptor of one frame: its number, the order of the block that it
/// heads, whether that block is free, and whether the descriptor stands in a
/// free list.
#[derive(Copy, Clone, Debug, PartialEq, Eq, Structural)]
pub struct Frame {
    pub number: u64,
    pub order: usize,
    pub state: State,
    pub linked: bool,
}

impl Frame {
    /// The frame that holds the address: free, of order 0, in no list.
    pub fn from_address(addr: PhysicalAddress) -> (r: Frame)
        ensures
            r == (Frame { number: (addr@ / SIZE as int) as u64, order: 0, state: State::Free, linked: false }),
            addr@ < 0x10_0000_0000_0000 ==> r.number <= MAX_NUMBER,
    {
        Frame { number: addr.0 / SIZE, order: 0, state: State::Free, linked: false }
    }

    pub fn set_number(&mut self, i: u64)
        ensures
            *final(self) == (Frame { number: i, ..*old(self) }),
    {
        self.number = i;
    }

    pub fn number(&self) -> (r: u64)
        ensures
            r == self.number,
    {
        self.number
    }

    /// The physical address of the frame's first byte.
    pub fn address(&self) -> (r: PhysicalAddress)
        requires
            self.number <= MAX_NUMBER,
        ensures
            r@ == self.number * SIZE,
            r@ % 4096 == 0,
            r@ < 0x10_0000_0000_0000,
    {
        PhysicalAddress(self.number * SIZE)
    }

    pub fn is_linked(&self) -> (r: bool)
        ensures
            r == self.linked,
    {
        self.linked
    }

    pub fn is_free(&self) -> (r: bool)
        ensures
            r == (self.state == State::Free),
    {
        self.state == State::Free
    }
}

impl Object for Frame {
    open spec fn spec_order(&self) -> usize {
        self.order
    }

    open spec fn spec_is_used(&self) -> bool {
        self.state == State::Used
    }

    open spec fn spec_is_linked(&self) -> bool {
        self.linked
    }

    fn reset_link(&mut self)
        ensures
            *final(self) == (Frame { linked: false, ..*old(self) }),
    {
        self.linked = false;
    }

    fn mark_used(&mut self)
        ensures
            *final(self) == (Frame { state: State::Used, ..*old(self) }),
    {
        self.state = State::Used;
    }

    fn mark_free(&mut self)
        ensures
            *final(self) == (Frame { state: State::Free, ..*old(self) }),
    {
        self.state = State::Free;
    }

    fn is_used(&self) -> (r: bool) {
        self.state == State::Used
    }

    fn order(&self) -> (r: usize) {
        self.order
    }

    fn set_order(&mut self, order: usize)
        ensures
            *final(self) == (Frame { order: order, ..*old(self) }),
    {
        self.order = order;
    }
}

} // verus!

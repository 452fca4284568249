//! `BuddyFrame` is the descriptor of a physical frame in its packed form:
//! one byte for the order and one for the state.

use crate::memory::frame::SIZE;
use vstd::prelude::*;

verus! {

#[derive(Copy, Clone, PartialEq, Eq, Debug, Structural)]
pub enum State {
    Free,
    Alloc,
}

#[derive(Copy, Clone, PartialEq, Eq, Debug, Structural)]
pub struct BuddyFrame {
    pub order: u8,
    pub state: State,
}

/// The number of bytes of a block of the given order.
pub open spec fn spec_block_bytes(order: u8) -> u64 {
    (SIZE * (1u64 << (order as u64))) as u64
}

impl BuddyFrame {
    pub fn order(&self) -> (r: usize)
        ensures
            r == self.order,
    {
        self.order as usize
    }

    pub fn set_order(&mut self, order: usize)
        requires
            order <= u8::MAX,
        ensures
            *final(self) == (BuddyFrame { order: order as u8, ..*old(self) }),
    {
        self.order = order as u8;
    }

    pub fn state(&self) -> (r: State)
        ensures
            r == self.state,
    {
        self.state
    }

    pub fn set_state(&mut self, state: State)
        ensures
            *final(self) == (BuddyFrame { state, ..*old(self) }),
    {
        self.state = state;
    }

    pub fn is_alloc(&self) -> (r: bool)
        ensures
            r == (self.state == State::Alloc),
    {
        self.state == State::Alloc
    }

    pub fn is_free(&self) -> (r: bool)
        ensures
            r == (self.state == State::Free),
    {
        !self.is_alloc()
    }

    /// The size in bytes of the block that the frame heads.
    pub fn size(&self) -> (r: u64)
        requires
            self.order < 52,
        ensures
            r == spec_block_bytes(self.order),
            r == SIZE * vstd::arithmetic::power2::pow2(self.order as nat),
    {
        let order = self.order as u64;
        proof {
            vstd::arithmetic::power2::lemma_pow2_strictly_increases(order as nat, 52);
            vstd::arithmetic::power2::lemma2_to64_rest();
            vstd::bits::lemma_u64_shl_is_mul(1, order);
        }
        SIZE * (1u64 << order)
    }
}

impl Default for BuddyFrame {
    fn default() -> (r: BuddyFrame)
        ensures
            r == (BuddyFrame { order: 0, state: State::Free }),
    {
        BuddyFrame { order: 0, state: State::Free }
    }
}

} // verus!

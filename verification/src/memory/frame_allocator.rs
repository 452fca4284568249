//! What the page tables ask of whoever hands them frames.

use super::buddy_system::allocator::{block_len, BuddyAllocator, MAX_ORDER};
use super::frame::{Frame, State};
use vstd::prelude::*;

verus! {

pub trait FrameAllocator {
    /// The invariant of the allocator.
    spec fn valid(&self) -> bool;

    /// The frame that `alloc_one` hands out next, if it has one.
    spec fn next_frame(&self) -> Option<Frame>;

    /// The frame may be given back.
    spec fn owes(&self, f: Frame) -> bool;

    fn alloc_one(&mut self) -> (r: Option<Frame>)
        requires
            old(self).valid(),
        ensures
            final(self).valid(),
            r == old(self).next_frame(),
    ;

    /// Takes the frame back: it is owed no longer.
    fn free(&mut self, f: Frame)
        requires
            old(self).valid(),
            old(self).owes(f),
        ensures
            final(self).valid(),
            !final(self).owes(f),
    ;
}

impl FrameAllocator for BuddyAllocator {
    open spec fn valid(&self) -> bool {
        self.wf()
    }

    open spec fn next_frame(&self) -> Option<Frame> {
        let from = self@.first_nonempty(0);
        if from >= MAX_ORDER {
            None
        } else {
            Some(self@.descriptor(self@.free_lists[from][0] as int, 0, State::Used))
        }
    }

    open spec fn owes(&self, f: Frame) -> bool {
        self@.base <= f.number && self@.is_allocated(f.number - self@.base)
    }

    /// Hands out one frame: a block of order 0.
    fn alloc_one(&mut self) -> (r: Option<Frame>)
        ensures
            r is Some ==> final(self)@ == old(self)@.allocated(0, old(self)@.first_nonempty(0)),
            r is None ==> final(self)@ == old(self)@,
    {
        proof {
            self@.lemma_first_nonempty(0);
        }
        self.allocate(0)
    }

    /// Gives the block back that the frame heads; it merges with its free
    /// buddies.
    fn free(&mut self, f: Frame)
        ensures
            final(self)@ == old(self)@.released(f.number - old(self)@.base),
    {
        BuddyAllocator::free(self, f);
        proof {
            let index = f.number - old(self)@.base;
            let h = choose|h: int|
                0 <= h < self@.len() && self@.frames[h].state == State::Free && h <= index < h + block_len(
                    #[trigger] self@.frames[h].order,
                );
            if h < index {
                assert(self@.inside(h, index));
            }
        }
    }
}

} // verus!

//! The buddy system: blocks of two to the power of an order many frames,
//! split on allocation and merged again on release.

pub mod allocator;
pub mod buddy_frame;

pub use allocator::BuddyAllocator;
use vstd::arithmetic::power2::pow2;
use vstd::prelude::*;

verus! {

/// What the buddy system keeps of each object that it manages.
pub trait Object: Sized {
    spec fn spec_order(&self) -> usize;

    spec fn spec_is_used(&self) -> bool;

    spec fn spec_is_linked(&self) -> bool;

    /// Takes the object out of whatever list it stood in.
    fn reset_link(&mut self)
        ensures
            !final(self).spec_is_linked(),
            final(self).spec_order() == old(self).spec_order(),
            final(self).spec_is_used() == old(self).spec_is_used(),
    ;

    fn mark_used(&mut self)
        ensures
            final(self).spec_is_used(),
            final(self).spec_order() == old(self).spec_order(),
            final(self).spec_is_linked() == old(self).spec_is_linked(),
    ;

    fn mark_free(&mut self)
        ensures
            !final(self).spec_is_used(),
            final(self).spec_order() == old(self).spec_order(),
            final(self).spec_is_linked() == old(self).spec_is_linked(),
    ;

    fn is_used(&self) -> (r: bool)
        ensures
            r == self.spec_is_used(),
    ;

    fn order(&self) -> (r: usize)
        ensures
            r == self.spec_order(),
    ;

    fn set_order(&mut self, order: usize)
        ensures
            final(self).spec_order() == order,
            final(self).spec_is_used() == old(self).spec_is_used(),
            final(self).spec_is_linked() == old(self).spec_is_linked(),
    ;

    /// The number of objects in the block that this object heads.
    fn size(&self) -> (r: usize)
        requires
            self.spec_order() < 32,
        ensures
            r == pow2(self.spec_order() as nat),
    {
        let order = self.order();
        proof {
            vstd::bits::lemma_usize_pow2_no_overflow(order as nat);
            vstd::arithmetic::power2::lemma_pow2_strictly_increases(order as nat, 32);
            vstd::arithmetic::power2::lemma2_to64();
            vstd::bits::lemma_usize_shl_is_mul(1, order);
        }
        1 << order
    }
}

} // verus!

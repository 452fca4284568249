//! The `EarlyAllocator` is the simplest memory allocator: it cuts pieces off
//! the front of one region and never takes one back.

use super::address::alignment::{lemma_align_up_properties, spec_align_up, Alignment};
use vstd::arithmetic::power2::is_pow2;
use vstd::layout::{align_nonzero, align_of, align_properties, size_of};
use vstd::prelude::*;

verus! {

#[derive(Copy, Clone, Debug, PartialEq, Eq, Structural)]
pub enum AllocationError {
    /// The piece does not fit between the front and the end of the region.
    OutOfSpace,
}

pub struct EarlyAllocator {
    pub addr_begin: usize,
    pub addr_end: usize,
}

impl EarlyAllocator {
    pub open spec fn end(&self) -> usize {
        self.addr_end
    }

    /// The front of the region does not lie behind its end.
    pub open spec fn wf(&self) -> bool {
        self.addr_begin <= self.end()
    }

    pub fn new(addr_begin: usize, addr_end: usize) -> (r: EarlyAllocator)
        requires
            addr_begin < addr_end,
        ensures
            r.addr_begin == addr_begin,
            r.end() == addr_end,
            r.wf(),
    {
        EarlyAllocator { addr_begin, addr_end }
    }

    /// The number of bytes that are left.
    pub fn capacity(&self) -> (r: usize)
        requires
            self.wf(),
        ensures
            r == self.end() - self.addr_begin,
    {
        self.addr_end - self.addr_begin
    }

    /// Moves the front up to the next multiple of `alignment`, unless that
    /// lies behind the end of the region.
    pub fn align_addr_begin(&mut self, alignment: usize) -> (r: Result<(), AllocationError>)
        requires
            old(self).wf(),
            is_pow2(alignment as int),
        ensures
            final(self).end() == old(self).end(),
            final(self).wf(),
            r is Ok <==> spec_align_up(old(self).addr_begin as int, alignment as int) <= old(self).end(),
            r is Ok ==> final(self).addr_begin == spec_align_up(
                old(self).addr_begin as int,
                alignment as int,
            ),
            r is Err ==> final(self).addr_begin == old(self).addr_begin,
    {
        proof {
            super::address::alignment::lemma_mask_is_mod(self.addr_begin, alignment);
            lemma_align_up_properties(self.addr_begin as int, alignment as int);
        }
        if alignment - 1 > usize::MAX - self.addr_begin {
            // The sum that rounds up leaves the machine word: the next
            // multiple is found from the one below.
            let down = self.addr_begin.align_down(alignment);
            if down == self.addr_begin {
                return Ok(());
            }
            if alignment > usize::MAX - down {
                return Err(AllocationError::OutOfSpace);
            }
            let aligned = down + alignment;
            if aligned > self.addr_end {
                return Err(AllocationError::OutOfSpace);
            }
            self.addr_begin = aligned;
            return Ok(());
        }
        let aligned = self.addr_begin.align_up(alignment);
        if aligned > self.addr_end {
            return Err(AllocationError::OutOfSpace);
        }
        self.addr_begin = aligned;
        Ok(())
    }

    /// Cuts `size` bytes off the region, from the next multiple of `align`
    /// on, and returns the address of the piece. The allocator is left as it
    /// was where the piece does not fit.
    pub fn alloc_region(&mut self, size: usize, align: usize) -> (r: Result<usize, AllocationError>)
        requires
            old(self).wf(),
            is_pow2(align as int),
        ensures
            final(self).end() == old(self).end(),
            final(self).wf(),
            r is Ok <==> spec_align_up(old(self).addr_begin as int, align as int) + size <= old(self).end(),
            r matches Ok(addr) ==> addr == spec_align_up(old(self).addr_begin as int, align as int)
                && final(self).addr_begin == addr + size,
            r is Err ==> final(self).addr_begin == old(self).addr_begin,
    {
        let begin = self.addr_begin;
        match self.align_addr_begin(align) {
            Err(e) => Err(e),
            Ok(()) => {
                let addr = self.addr_begin;
                if size > self.addr_end - addr {
                    self.addr_begin = begin;
                    return Err(AllocationError::OutOfSpace);
                }
                self.addr_begin = addr + size;
                Ok(addr)
            },
        }
    }

    /// Cuts room for `count` values of the type `T` off the region, aligned
    /// for the type, and returns its address.
    pub fn allocate<T>(&mut self, count: usize) -> (r: Result<usize, AllocationError>)
        requires
            old(self).wf(),
        ensures
            final(self).end() == old(self).end(),
            final(self).wf(),
            r is Ok <==> spec_align_up(old(self).addr_begin as int, align_of::<T>() as int) + size_of::<
                T,
            >() * count <= old(self).end(),
            r matches Ok(addr) ==> addr == spec_align_up(
                old(self).addr_begin as int,
                align_of::<T>() as int,
            ) && final(self).addr_begin == addr + size_of::<T>() * count,
            r is Err ==> final(self).addr_begin == old(self).addr_begin,
    {
        proof {
            broadcast use align_properties, align_nonzero;

            assert(is_pow2(align_of::<T>() as int));
            lemma_align_up_properties(self.addr_begin as int, align_of::<T>() as int);
        }
        let align = core::mem::align_of::<T>();
        let size = core::mem::size_of::<T>();
        match size.checked_mul(count) {
            None => {
                proof {
                    assert(size_of::<T>() * count > usize::MAX);
                }
                Err(AllocationError::OutOfSpace)
            },
            Some(bytes) => self.alloc_region(bytes, align),
        }
    }

    /// Gives the allocator up for the address of what is left.
    pub fn to_addr_begin(self) -> (r: usize)
        ensures
            r == self.addr_begin,
    {
        self.addr_begin
    }
}

} // verus!

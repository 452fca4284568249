//! The kernel heap: a block of frames from the buddy allocator, mapped to
//! pages in a row, from which pieces are cut off the front.

use super::address::alignment::{lemma_align_up_properties, spec_align_up, Alignment};
use super::address::VirtualAddress;
use super::buddy_system::allocator::{block_len, BuddyAllocator, MAX_ORDER};
use super::frame::Frame;
use super::paging::page::Page;
use super::paging::table::{spec_map_range, ActivePageTable};
use vstd::arithmetic::power2::is_pow2;
use vstd::prelude::*;

verus! {

/// The order of the block of frames that the heap takes: 2^5 frames of 4096
/// bytes are 128 KiB.
pub const HEAP_ORDER: usize = 5;

pub struct HeapAllocator {
    pub addr_begin: u64,
    pub addr_end: u64,
}

impl HeapAllocator {
    /// The heap over a block of `2^HEAP_ORDER` frames from the allocator,
    /// mapped to pages in a row of the table that stands in the window.
    /// `None` where the allocator has no such block or no pages are found;
    /// the block is kept in that case.
    pub fn new(allocator: &mut BuddyAllocator, active_page_table: &mut ActivePageTable) -> (r: Option<
        HeapAllocator,
    >)
        requires
            old(allocator).wf(),
            old(active_page_table).wf(),
        ensures
            final(allocator).wf(),
            final(active_page_table).wf(),
            final(active_page_table).level4_frame() == old(active_page_table).level4_frame(),
            old(active_page_table).self_mapped() ==> final(active_page_table).self_mapped(),
            final(allocator)@.len() == old(allocator)@.len(),
            final(allocator)@.base == old(allocator)@.base,
            old(allocator)@.first_nonempty(HEAP_ORDER as int) >= MAX_ORDER ==> r is None && final(allocator)@
                == old(allocator)@ && final(active_page_table).tables() == old(active_page_table).tables(),
            ({
                let from = old(allocator)@.first_nonempty(HEAP_ORDER as int);
                let f = old(active_page_table).searched(old(allocator)@.allocated(HEAP_ORDER, from), 32);
                &&& r is Some <==> from < MAX_ORDER && f.page is Some
                &&& from < MAX_ORDER ==> final(allocator)@ == f.allocator
                &&& from < MAX_ORDER && f.page is None ==> final(active_page_table).tables() == f.tables
                &&& r matches Some(heap) ==> heap.addr_begin == f.page->0 * 4096
                &&& r is Some ==> final(active_page_table).tables() == spec_map_range(
                    f.tables,
                    f.allocator,
                    old(active_page_table).window()->0,
                    f.page->0,
                    (old(allocator)@.base + old(allocator)@.free_lists[from][0]) * 4096,
                    32,
                ).tables
            }),
            r matches Some(heap) ==> ({
                let from = old(allocator)@.first_nonempty(HEAP_ORDER as int);
                let index = old(allocator)@.free_lists[from][0] as int;
                let number = old(allocator)@.base + index;
                &&& from < MAX_ORDER
                &&& heap.addr_begin % 4096 == 0
                &&& heap.addr_end == heap.addr_begin + 32 * 4096
                &&& forall|k: int|
                    0 <= k < 32 ==> #[trigger] final(active_page_table).resolve(
                        Page { number: (heap.addr_begin / 4096 + k) as u64 },
                    ) == Some(((number + k) * 4096) as u64)
            }),
    {
        proof {
            allocator@.lemma_first_nonempty(HEAP_ORDER as int);
            if allocator@.first_nonempty(HEAP_ORDER as int) < MAX_ORDER {
                allocator@.lemma_allocated(HEAP_ORDER);
                let from = allocator@.first_nonempty(HEAP_ORDER as int);
                assert(allocator@.listed_ok(from, 0));
                assert(allocator@.frame_ok(allocator@.free_lists[from][0] as int));
            }
            assert(1u64 << 5u64 == 32) by (bit_vector);
        }
        let frame = match allocator.allocate(HEAP_ORDER) {
            Some(f) => f,
            None => {
                return None;
            },
        };
        proof {
            assert(allocator@.frame_ok(frame.number - allocator@.base));
        }
        match active_page_table.auto_continuous_map(&frame, allocator) {
            Some((begin, end)) => Some(HeapAllocator { addr_begin: begin.0, addr_end: end.0 }),
            None => None,
        }
    }

    /// Cuts `size` bytes off the heap, from the next multiple of `align` on,
    /// and returns the address of the piece. `None` where the piece does not
    /// end before the end of the heap; the heap stays as it is then.
    pub fn allocate(&mut self, size: u64, align: u64) -> (r: Option<VirtualAddress>)
        requires
            is_pow2(align as int),
        ensures
            final(self).addr_end == old(self).addr_end,
            r is Some <==> spec_align_up(old(self).addr_begin as int, align as int) + size < old(self).addr_end,
            r matches Some(a) ==> a@ == spec_align_up(old(self).addr_begin as int, align as int)
                && final(self).addr_begin == a@ + size,
            r is None ==> final(self).addr_begin == old(self).addr_begin,
    {
        proof {
            super::address::alignment::lemma_mask_is_mod_u64(self.addr_begin, align);
            lemma_align_up_properties(self.addr_begin as int, align as int);
        }
        let down = self.addr_begin.align_down(align);
        let aligned = if down == self.addr_begin {
            down
        } else if align > u64::MAX - down {
            return None;
        } else {
            down + align
        };
        if aligned >= self.addr_end || size >= self.addr_end - aligned {
            return None;
        }
        let addr = aligned;
        self.addr_begin = aligned + size;
        Some(VirtualAddress(addr))
    }

    /// Takes no piece back: the heap only grows.
    pub fn dealloc(&self, _ptr: VirtualAddress, _size: u64, _align: u64) {
    }
}

} // verus!

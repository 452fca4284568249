//! Physical and virtual memory management.

pub mod address;
pub mod buddy_system;
pub mod early_allocator;
pub mod frame;
pub mod frame_allocator;
pub mod global_allocator;
pub mod paging;
pub mod region;

pub use early_allocator::EarlyAllocator;
pub use frame::Frame;
pub use frame_allocator::FrameAllocator;
pub use global_allocator::HeapAllocator;
use paging::table::Error as PageTableError;
pub use region::Region;
use address::alignment::{lemma_align_up_properties, spec_align_up};
use address::{
    spec_wrapping_difference, spec_wrapping_sum, update_kernel_addr_end_physical, KernelLayout, PhysicalAddress,
    VirtualAddress,
};
use buddy_system::allocator::{max_frame_count, BuddyAllocator, BuddyView, MAX_ORDER};
use global_allocator::HEAP_ORDER;
use paging::memory::Tables;
use paging::table::{spec_find_empty_pages, spec_map_range, spec_window};
use early_allocator::AllocationError;
use paging::table::ActivePageTable;
use paging::IdenticalReMapRequest;
use region::{find_region_behind, first_at_or_behind, AdapterIter};
use vstd::layout::size_of;
use vstd::prelude::*;

verus! {

#[derive(Copy, Clone, Debug, PartialEq, Eq, Structural)]
pub enum Error {
    /// The firmware reports no free region behind the kernel, or the frame
    /// allocator cannot serve a request.
    NoUsableMemory,
    /// A page table could not be changed.
    PageTable { inner: PageTableError },
}

impl Error {
    pub fn from_page_table_error(inner: PageTableError) -> (r: Error)
        ensures
            r == (Error::PageTable { inner }),
    {
        Error::PageTable { inner }
    }
}


/// The number of frames that a region of `capacity` bytes gives when room
/// for the descriptors of the frames, each of `descriptor_size` bytes, is
/// taken off it first.
pub open spec fn spec_count_frames(capacity: int, descriptor_size: int) -> int {
    (capacity - (capacity / 4096) * descriptor_size) / 4096
}

/// The layout of a region from `begin` to `end` for descriptors of `size`
/// bytes that are aligned to `align`: where the front of the region stands
/// afterwards, and the address of the descriptors and the number of frames,
/// or nothing where the region is too small.
pub open spec fn spec_frames_layout(begin: int, end: int, size: int, align: int) -> (int, Option<(int, int)>) {
    let first = spec_align_up(begin, 4096);
    let capacity = end - first;
    let count = spec_count_frames(capacity, size);
    let descriptors = spec_align_up(first, align);
    let front = spec_align_up(descriptors + size * count, 4096);
    if first > end {
        (begin, None)
    } else if (capacity / 4096) * size > capacity {
        (first, None)
    } else if descriptors + size * count > end {
        (first, None)
    } else if front > end {
        (descriptors + size * count, None)
    } else {
        (front, Some((descriptors, count)))
    }
}

/// Lays the region of the early allocator out: the front is moved up to the
/// start of a frame, room for the descriptors of the frames is cut off, and
/// the front is moved up to the start of a frame again, from where the
/// frames lie. Returns the address of the descriptors and the number of
/// frames.
pub fn allocate_frames(allocator: &mut EarlyAllocator) -> (r: Result<(usize, usize), AllocationError>)
    requires
        old(allocator).wf(),
    ensures
        final(allocator).wf(),
        final(allocator).end() == old(allocator).end(),
        ({
            let layout = spec_frames_layout(
                old(allocator).addr_begin as int,
                old(allocator).end() as int,
                size_of::<Frame>() as int,
                vstd::layout::align_of::<Frame>() as int,
            );
            &&& final(allocator).addr_begin == layout.0
            &&& r == (match layout.1 {
                Some((descriptors, count)) => Ok::<(usize, usize), AllocationError>(
                    (descriptors as usize, count as usize),
                ),
                None => Err::<(usize, usize), AllocationError>(AllocationError::OutOfSpace),
            })
        }),
        r matches Ok((descriptors, count)) ==> ({
            let begin = spec_align_up(old(allocator).addr_begin as int, 4096);
            let capacity = old(allocator).end() - begin;
            &&& begin <= old(allocator).end()
            &&& descriptors == spec_align_up(begin, vstd::layout::align_of::<Frame>() as int)
            &&& count == spec_count_frames(capacity, size_of::<Frame>() as int)
            &&& final(allocator).addr_begin == spec_align_up(descriptors + count * size_of::<Frame>(), 4096)
            &&& final(allocator).addr_begin % 4096 == 0
        }),
        r is Err ==> r == Err::<(usize, usize), AllocationError>(AllocationError::OutOfSpace),
{
    proof {
        assert(vstd::arithmetic::power2::is_pow2(4096)) by {
            reveal_with_fuel(vstd::arithmetic::power2::is_pow2, 13);
        }
        lemma_align_up_properties(allocator.addr_begin as int, 4096);
    }
    match allocator.align_addr_begin(frame::SIZE as usize) {
        Ok(()) => {},
        Err(e) => {
            return Err(e);
        },
    }
    let struct_size = core::mem::size_of::<Frame>();
    let capacity = allocator.capacity();
    let count_frames = capacity / (frame::SIZE as usize);
    let required_size = match count_frames.checked_mul(struct_size) {
        Some(size) => size,
        None => {
            return Err(AllocationError::OutOfSpace);
        },
    };
    if required_size > capacity {
        return Err(AllocationError::OutOfSpace);
    }
    let capacity = capacity - required_size;
    let count_frames = capacity / (frame::SIZE as usize);

    let frames = match allocator.allocate::<Frame>(count_frames) {
        Ok(address) => address,
        Err(e) => {
            return Err(e);
        },
    };
    proof {
        lemma_align_up_properties(allocator.addr_begin as int, 4096);
        assert(size_of::<Frame>() * count_frames == count_frames * size_of::<Frame>()) by (nonlinear_arith);
    }
    match allocator.align_addr_begin(frame::SIZE as usize) {
        Ok(()) => {},
        Err(e) => {
            return Err(e);
        },
    }
    Ok((frames, count_frames))
}

/// The frames that bring-up hands to the frame allocator: the address of
/// the first and their number. The first free region of the map that starts at
/// or behind the kernel is taken, and what lies from the end of the kernel
/// to the end of that region is laid out. Nothing where the map holds no
/// such region or the region is too small.
pub open spec fn spec_frames_region(regions: Seq<Region>, layout: KernelLayout) -> Option<(u64, usize)> {
    let at = first_at_or_behind(regions, layout.physical_begin@);
    if at >= regions.len() {
        None
    } else {
        let end = regions[at].base_addr@ + regions[at].size;
        let v_begin = spec_wrapping_sum(layout.physical_end@, layout.virtual_offset as int);
        let v_end = spec_wrapping_sum(end, layout.virtual_offset as int);
        if end > u64::MAX || v_begin >= v_end || v_end > usize::MAX {
            None
        } else {
            let laid = spec_frames_layout(
                v_begin,
                v_end,
                size_of::<Frame>() as int,
                vstd::layout::align_of::<Frame>() as int,
            );
            match laid.1 {
                None => None,
                Some((_, count)) => {
                    let base = spec_wrapping_difference(laid.0, layout.virtual_offset as int);
                    if base / 4096 > frame::MAX_NUMBER || count > frame::MAX_NUMBER + 1 - base / 4096 || count
                        > usize::MAX / 0x8000 || base % 4096 != 0 {
                        None
                    } else {
                        Some((base as u64, count as usize))
                    }
                },
            }
        }
    }
}

/// The layout of the kernel, the tables and the table that the processor
/// walks after memory bring-up, and its result: the address of the heap and
/// the frame allocator, or why it failed.
pub struct Initialized {
    pub layout: KernelLayout,
    pub tables: Tables,
    pub level4_frame: u64,
    pub result: Result<(u64, BuddyView), Error>,
}

/// What `init` comes to: the frames behind the kernel go to the frame
/// allocator and the end of the kernel moves behind their descriptors, the
/// kernel's own table is built and takes the place of the table at
/// `level4_frame`, and the heap gets a block of frames and pages in a row.
pub open spec fn spec_init(
    regions: Seq<Region>,
    requests: Seq<IdenticalReMapRequest>,
    layout: KernelLayout,
    tables: Tables,
    level4_frame: u64,
) -> Initialized {
    match spec_frames_region(regions, layout) {
        None => Initialized { layout, tables, level4_frame, result: Err(Error::NoUsableMemory) },
        Some((base, count)) => {
            let moved = KernelLayout { physical_end: PhysicalAddress(base), ..layout };
            let b = paging::spec_init(
                requests,
                moved,
                tables,
                level4_frame,
                BuddyView::initial((base / 4096) as u64, count as int),
            );
            match b.result {
                Err(e) => Initialized {
                    layout: moved,
                    tables: b.tables,
                    level4_frame: b.level4_frame,
                    result: Err(e),
                },
                Ok(_) => {
                    let from = b.allocator.first_nonempty(HEAP_ORDER as int);
                    if from >= MAX_ORDER {
                        Initialized {
                            layout: moved,
                            tables: b.tables,
                            level4_frame: b.level4_frame,
                            result: Err(Error::NoUsableMemory),
                        }
                    } else {
                        let taken = b.allocator.allocated(HEAP_ORDER, from);
                        let addr = (b.allocator.base + b.allocator.free_lists[from][0]) * 4096;
                        match spec_window(b.tables, b.level4_frame) {
                            None => Initialized {
                                layout: moved,
                                tables: b.tables,
                                level4_frame: b.level4_frame,
                                result: Err(Error::NoUsableMemory),
                            },
                            Some(root) => {
                                let f = spec_find_empty_pages(b.tables, taken, root, 32);
                                match f.page {
                                    None => Initialized {
                                        layout: moved,
                                        tables: f.tables,
                                        level4_frame: b.level4_frame,
                                        result: Err(Error::NoUsableMemory),
                                    },
                                    Some(page) => Initialized {
                                        layout: moved,
                                        tables: spec_map_range(f.tables, f.allocator, root, page, addr, 32).tables,
                                        level4_frame: b.level4_frame,
                                        result: Ok(((page * 4096) as u64, f.allocator)),
                                    },
                                }
                            },
                        }
                    }
                },
            }
        },
    }
}

/// What memory bring-up hands over: the frame allocator and the heap.
pub struct Memory {
    pub frame_allocator: BuddyAllocator,
    pub heap: HeapAllocator,
}

/// Brings memory up. The first free region of the map that starts at or behind
/// the kernel is taken; from the end of the kernel to the end of that
/// region room for the descriptors of the frames is laid out and the frames
/// are handed to the buddy allocator; the kernel's own table is built and
/// takes the place of the table that the processor walks; and the heap gets
/// its block. The end of the kernel moves behind the descriptors.
pub fn init(
    regions: &mut AdapterIter,
    remap_requests: Vec<IdenticalReMapRequest>,
    layout: &mut KernelLayout,
    active_page_table: &mut ActivePageTable,
) -> (r: Result<Memory, Error>)
    requires
        old(active_page_table).wf(),
    ensures
        final(active_page_table).wf(),
        final(layout).physical_begin == old(layout).physical_begin,
        final(layout).virtual_offset == old(layout).virtual_offset,
        first_at_or_behind(old(regions).remaining(), old(layout).physical_begin@) == old(regions).remaining().len() ==> r == Err::<Memory, Error>(Error::NoUsableMemory) && *final(layout) == *old(layout),
        ({
            let i = spec_init(
                old(regions).remaining(),
                remap_requests@,
                *old(layout),
                old(active_page_table).tables(),
                old(active_page_table).level4_frame(),
            );
            &&& *final(layout) == i.layout
            &&& final(active_page_table).tables() == i.tables
            &&& final(active_page_table).level4_frame() == i.level4_frame
            &&& r matches Ok(memory) ==> i.result == Ok::<(u64, BuddyView), Error>(
                (memory.heap.addr_begin, memory.frame_allocator@),
            )
            &&& r matches Err(e) ==> i.result == Err::<(u64, BuddyView), Error>(e)
        }),
        r matches Ok(memory) ==> ({
            &&& memory.frame_allocator.wf()
            &&& memory.frame_allocator@.base * 4096 == final(layout).physical_end@
            &&& final(active_page_table).self_mapped()
            &&& memory.heap.addr_end == memory.heap.addr_begin + 32 * 4096
        }),
{
    let kernel_addr_begin_physical = address::kernel_addr_begin_physical(layout);
    let free_memory_region = match find_region_behind(regions, kernel_addr_begin_physical) {
        Some(region) => region,
        None => {
            return Err(Error::NoUsableMemory);
        },
    };

    // The free memory lies from the end of the kernel to the end of the
    // region.
    let free_region_addr_begin = address::kernel_addr_end_virtual(layout);
    let region_end = match free_memory_region.base_addr().0.checked_add(free_memory_region.size()) {
        Some(end) => PhysicalAddress(end),
        None => {
            return Err(Error::NoUsableMemory);
        },
    };
    let free_region_addr_end = region_end.to_virtual(layout);
    if free_region_addr_begin.0 >= free_region_addr_end.0 || free_region_addr_end.0 > usize::MAX as u64 {
        return Err(Error::NoUsableMemory);
    }
    let mut allocator = EarlyAllocator::new(
        free_region_addr_begin.0 as usize,
        free_region_addr_end.0 as usize,
    );

    let (_frames, count_frames) = match allocate_frames(&mut allocator) {
        Ok(found) => found,
        Err(_) => {
            return Err(Error::NoUsableMemory);
        },
    };

    // What was laid out belongs to the kernel from now on.
    let base_addr = VirtualAddress(allocator.to_addr_begin() as u64).to_physical(layout);
    if base_addr.0 / frame::SIZE > frame::MAX_NUMBER || count_frames as u64 > frame::MAX_NUMBER + 1
        - base_addr.0 / frame::SIZE || count_frames > usize::MAX / 0x8000 || base_addr.0 % 4096 != 0 {
        return Err(Error::NoUsableMemory);
    }
    update_kernel_addr_end_physical(layout, base_addr);

    let mut bman = BuddyAllocator::new(base_addr, count_frames);

    match paging::init(remap_requests, active_page_table, &mut bman, layout) {
        Ok(()) => {},
        Err(e) => {
            return Err(e);
        },
    }

    // The heap of the kernel.
    let heap = match HeapAllocator::new(&mut bman, active_page_table) {
        Some(heap) => heap,
        None => {
            return Err(Error::NoUsableMemory);
        },
    };
    Ok(Memory { frame_allocator: bman, heap })
}

} // verus!

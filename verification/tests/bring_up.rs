use axel::memory::address::{kernel_addr_end_physical, KernelLayout, PhysicalAddress, VirtualAddress};
use axel::memory::allocate_frames;
use axel::memory::buddy_system::allocator::BuddyAllocator;
use axel::memory::early_allocator::{AllocationError, EarlyAllocator};
use axel::memory::frame::Frame;
use axel::memory::init as memory_init;
use axel::memory::paging::entry::PageEntryFlags;
use axel::memory::paging::init as paging_init;
use axel::memory::paging::page::Page;
use axel::memory::paging::runtime_test;
use axel::memory::paging::table::{ActivePageTable, Error as PageTableError, TableEdit};
use axel::memory::paging::{IdenticalReMapRequest, KernelRemap};
use axel::memory::region::{find_region_behind, Adapter, AdapterIter, Region, State};
use axel::memory::Error;
use std::mem;

const OFFSET: u64 = 0xffff_8000_0000_0000;

fn layout() -> KernelLayout {
    KernelLayout {
        physical_begin: PhysicalAddress::new(0x10_0000),
        physical_end: PhysicalAddress::new(0x18_0000),
        virtual_begin: VirtualAddress::new(OFFSET + 0x10_0000),
        bss_begin: VirtualAddress::new(OFFSET + 0x17_0000),
        bss_size: 0x1000,
        virtual_offset: OFFSET,
    }
}

fn frame_at(addr: u64) -> Frame {
    Frame::from_address(PhysicalAddress::new(addr))
}

fn walk(table: &ActivePageTable, root: u64, address: u64) -> Option<u64> {
    let page = Page::from_address(VirtualAddress::new(address));
    let memory = table.memory();
    let mut frame = root;
    for shift in [27u32, 18, 9] {
        let entry = memory.read(frame, ((page.number >> shift) & 511) as usize)?;
        let flags = entry.flags();
        if !flags.contains(PageEntryFlags::present()) || flags.contains(PageEntryFlags::huge_page()) {
            return None;
        }
        frame = entry.get_frame_addr()?.into_u64();
    }
    memory.read(frame, (page.number & 511) as usize)?.get_frame_addr().map(|a| a.into_u64())
}

fn requests() -> Vec<IdenticalReMapRequest> {
    vec![
        IdenticalReMapRequest::new(PhysicalAddress::new(0x70000), 4),
        IdenticalReMapRequest::new(PhysicalAddress::new(0xB8000), 1),
        IdenticalReMapRequest::new(PhysicalAddress::new(0x6E000), 1),
    ]
}

struct MemoryMap(Vec<Region>);

impl Adapter for MemoryMap {
    fn iter(&self) -> AdapterIter {
        AdapterIter::new(self.0.clone())
    }
}

fn region(base: u64, size: u64) -> Region {
    Region::new(PhysicalAddress::new(base), size, State::Free)
}

#[test]
fn regions_come_in_the_order_of_the_map() {
    let map = MemoryMap(vec![region(0, 0x9_f000), region(0x10_0000, 0x100_0000)]);
    let mut iter = map.iter();
    assert_eq!(iter.next(), Some(region(0, 0x9_f000)));
    let second = iter.next().unwrap();
    assert_eq!(second.base_addr().into_u64(), 0x10_0000);
    assert_eq!(second.size(), 0x100_0000);
    assert_eq!(second.state(), State::Free);
    assert_eq!(iter.next(), None);
    assert_eq!(iter.next(), None);
    assert_eq!(MemoryMap(vec![]).iter().next(), None);
}

#[test]
fn the_first_region_behind_the_kernel_is_found() {
    let map = MemoryMap(vec![region(0, 0x9_f000), region(0x10_0000, 0x100), region(0x20_0000, 0x200)]);
    assert_eq!(
        find_region_behind(&mut map.iter(), PhysicalAddress::new(0x10_0000)),
        Some(region(0x10_0000, 0x100))
    );
    assert_eq!(
        find_region_behind(&mut map.iter(), PhysicalAddress::new(0x10_0001)),
        Some(region(0x20_0000, 0x200))
    );
    assert_eq!(find_region_behind(&mut map.iter(), PhysicalAddress::new(0x20_0001)), None);
    assert_eq!(find_region_behind(&mut MemoryMap(vec![]).iter(), PhysicalAddress::new(0)), None);
}

#[test]
fn frames_are_laid_out_behind_their_descriptors() {
    let size = mem::size_of::<Frame>();
    let mut allocator = EarlyAllocator::new(0x10_0800, 0x20_0000);
    let (descriptors, count) = allocate_frames(&mut allocator).unwrap();
    assert_eq!(descriptors, 0x10_1000);
    let capacity = 0x20_0000 - 0x10_1000;
    assert_eq!(count, (capacity - (capacity / 4096) * size) / 4096);
    assert_eq!(allocator.addr_begin, (0x10_1000 + count * size + 4095) / 4096 * 4096);
    assert!(count <= allocator.capacity() / 4096);
    let mut small = EarlyAllocator::new(0x10_0800, 0x10_0900);
    assert_eq!(allocate_frames(&mut small), Err(AllocationError::OutOfSpace));
}

#[test]
fn runtime_test_gives_the_frame_back() {
    let mut table = ActivePageTable::fresh(frame_at(0x1000));
    let mut bman = BuddyAllocator::new(PhysicalAddress::new(0x100_0000), 8);
    assert_eq!(runtime_test(&mut table, &mut bman), Ok(()));
    // The three tables on the way to the page stay.
    assert_eq!(bman.count_free_objs(), 5);
    assert_eq!(walk(&table, 0x1000, 0x20_0000), None);
    assert_eq!(runtime_test(&mut table, &mut bman), Ok(()));
    assert_eq!(bman.count_free_objs(), 5);
    let mut none = BuddyAllocator::new(PhysicalAddress::new(0x100_0000), 0);
    assert_eq!(runtime_test(&mut table, &mut none), Err(Error::NoUsableMemory));
    let mut one = BuddyAllocator::new(PhysicalAddress::new(0x200_0000), 1);
    let mut other = ActivePageTable::fresh(frame_at(0x1000));
    assert_eq!(
        runtime_test(&mut other, &mut one),
        Err(Error::PageTable { inner: PageTableError::NoPageTable })
    );
}

#[test]
fn kernel_remap_maps_requests_and_kernel() {
    let mut table = ActivePageTable::fresh(frame_at(0x1000));
    let mut bman = BuddyAllocator::new(PhysicalAddress::new(0x100_0000), 64);
    let edit = KernelRemap { requests: requests(), layout: layout() };
    assert_eq!(edit.apply(&mut table, &mut bman), Ok(()));
    for k in 0..4 {
        assert_eq!(walk(&table, 0x1000, OFFSET + 0x70000 + k * 4096), Some(0x70000 + k * 4096));
    }
    assert_eq!(walk(&table, 0x1000, OFFSET + 0x74000), None);
    assert_eq!(walk(&table, 0x1000, OFFSET + 0xB8000), Some(0xB8000));
    assert_eq!(walk(&table, 0x1000, OFFSET + 0x6E000), Some(0x6E000));
    for k in 0..128 {
        assert_eq!(walk(&table, 0x1000, OFFSET + 0x10_0000 + k * 4096), Some(0x10_0000 + k * 4096));
    }
    assert_eq!(walk(&table, 0x1000, OFFSET + 0x18_0000), None);
}

#[test]
fn kernel_remap_refuses_a_kernel_that_does_not_fit() {
    let mut table = ActivePageTable::fresh(frame_at(0x1000));
    let mut bman = BuddyAllocator::new(PhysicalAddress::new(0x100_0000), 64);
    let mut odd = layout();
    odd.physical_end = PhysicalAddress::new(0x18_0001);
    let edit = KernelRemap { requests: vec![], layout: odd };
    assert_eq!(edit.apply(&mut table, &mut bman), Err(PageTableError::NoPageTable));
    let edit = KernelRemap {
        requests: vec![IdenticalReMapRequest::new(PhysicalAddress::new(0xf_ffff_ffff_f000), 2)],
        layout: layout(),
    };
    assert_eq!(edit.apply(&mut table, &mut bman), Err(PageTableError::NoPageTable));
    assert_eq!(bman.count_free_objs(), 64);
}

#[test]
fn paging_init_switches_to_the_new_table() {
    let mut table = ActivePageTable::fresh(frame_at(0x1000));
    let mut bman = BuddyAllocator::new(PhysicalAddress::new(0x100_0000), 64);
    assert_eq!(paging_init(requests(), &mut table, &mut bman, &layout()), Ok(()));
    let root = table.level4_address().into_u64();
    assert_ne!(root, 0x1000);
    assert_eq!(table.memory().read(root, 511).map(|e| e.0), Some(root | 3));
    assert_eq!(table.memory().read(0x1000, 511).map(|e| e.0), Some(0x1003));
    assert_eq!(walk(&table, root, OFFSET + 0xB8000), Some(0xB8000));
    assert_eq!(walk(&table, root, OFFSET + 0x10_0000), Some(0x10_0000));
    assert_eq!(walk(&table, root, OFFSET + 0x17_f000), Some(0x17_f000));
    assert_eq!(walk(&table, 0x1000, OFFSET + 0xB8000), None);
    assert!(table.map(Page::from_address(VirtualAddress::new(OFFSET + 0xB8000)), frame_at(0), &mut bman).is_err());
}

#[test]
fn paging_init_fails_without_frames() {
    let mut table = ActivePageTable::fresh(frame_at(0x1000));
    let mut bman = BuddyAllocator::new(PhysicalAddress::new(0x100_0000), 0);
    assert_eq!(paging_init(requests(), &mut table, &mut bman, &layout()), Err(Error::NoUsableMemory));
    let mut bman = BuddyAllocator::new(PhysicalAddress::new(0x100_0000), 5);
    assert_eq!(paging_init(requests(), &mut table, &mut bman, &layout()), Err(Error::NoUsableMemory));
    assert_eq!(table.level4_address().into_u64(), 0x1000);
    let mut table = ActivePageTable::fresh(frame_at(0x1000));
    let mut bman = BuddyAllocator::new(PhysicalAddress::new(0x100_0000), 10);
    assert_eq!(
        paging_init(requests(), &mut table, &mut bman, &layout()),
        Err(Error::PageTable { inner: PageTableError::NoPageTable })
    );
    assert_eq!(table.level4_address().into_u64(), 0x1000);
    assert_eq!(table.memory().read(0x1000, 511).map(|e| e.0), Some(0x1003));
}

#[test]
fn memory_init_brings_everything_up() {
    let map = MemoryMap(vec![region(0, 0x9_f000), region(0x10_0000, 0x100_0000)]);
    let mut layout = layout();
    let mut table = ActivePageTable::fresh(frame_at(0x1000));
    let memory = memory_init(&mut map.iter(), requests(), &mut layout, &mut table).unwrap();

    // The frames lie behind their descriptors, which lie behind the kernel.
    let size = mem::size_of::<Frame>() as u64;
    let capacity = 0x110_0000 - 0x18_0000u64;
    let count = (capacity - (capacity / 4096) * size) / 4096;
    let base = (0x18_0000 + count * size + 4095) / 4096 * 4096;
    assert_eq!(kernel_addr_end_physical(&layout).into_u64(), base);
    assert_eq!(memory.frame_allocator.len() as u64, count);
    assert!(memory.frame_allocator.is_managed_obj(&frame_at(base)));
    assert!(!memory.frame_allocator.is_managed_obj(&frame_at(base - 4096)));

    let root = table.level4_address().into_u64();
    assert_eq!(table.memory().read(root, 511).map(|e| e.0), Some(root | 3));
    assert_eq!(walk(&table, root, OFFSET + 0xB8000), Some(0xB8000));
    let heap = memory.heap;
    assert_eq!(heap.addr_end - heap.addr_begin, 32 * 4096);
    let first = walk(&table, root, heap.addr_begin).unwrap();
    for k in 0..32 {
        assert_eq!(walk(&table, root, heap.addr_begin + k * 4096), Some(first + k * 4096));
    }
}

#[test]
fn memory_init_needs_a_region_behind_the_kernel() {
    let mut layout = layout();
    let mut table = ActivePageTable::fresh(frame_at(0x1000));
    let map = MemoryMap(vec![region(0, 0x9_f000)]);
    assert!(matches!(
        memory_init(&mut map.iter(), requests(), &mut layout, &mut table),
        Err(Error::NoUsableMemory)
    ));
    assert!(matches!(
        memory_init(&mut MemoryMap(vec![]).iter(), requests(), &mut layout, &mut table),
        Err(Error::NoUsableMemory)
    ));
    // A region that ends in the kernel leaves nothing.
    let map = MemoryMap(vec![region(0x10_0000, 0x1000)]);
    assert!(matches!(
        memory_init(&mut map.iter(), requests(), &mut layout, &mut table),
        Err(Error::NoUsableMemory)
    ));
    assert_eq!(kernel_addr_end_physical(&layout).into_u64(), 0x18_0000);
}

#[test]
fn kernel_remap_stops_at_the_last_entry_of_a_new_table() {
    // The last entry of a table that mapping makes points to the table
    // itself: the page that it would hold cannot be mapped.
    let mut table = ActivePageTable::fresh(frame_at(0x1000));
    let mut bman = BuddyAllocator::new(PhysicalAddress::new(0x100_0000), 64);
    let mut large = layout();
    large.physical_end = PhysicalAddress::new(0x30_0000);
    let edit = KernelRemap { requests: vec![], layout: large };
    assert_eq!(edit.apply(&mut table, &mut bman), Err(PageTableError::AlreadyMapped));
    // What was mapped before the failure stays mapped.
    assert_eq!(walk(&table, 0x1000, OFFSET + 0x10_0000), Some(0x10_0000));
    assert_eq!(walk(&table, 0x1000, OFFSET + 0x1f_e000), Some(0x1f_e000));
    assert_eq!(bman.count_free_objs(), 61);
}

#[test]
fn regions_that_are_not_free_are_passed_over() {
    let reserved = Region::new(PhysicalAddress::new(0x10_0000), 0x10_0000, State::Reserved);
    let used = Region::new(PhysicalAddress::new(0x20_0000), 0x10_0000, State::Used);
    let free = region(0x40_0000, 0x100_0000);
    let mut iter = AdapterIter::new(vec![region(0, 0x9_f000), reserved, used, free]);
    assert_eq!(find_region_behind(&mut iter, PhysicalAddress::new(0x10_0000)), Some(free));
    assert_eq!(iter.next(), None);
    let mut iter = AdapterIter::new(vec![reserved, used]);
    assert_eq!(find_region_behind(&mut iter, PhysicalAddress::new(0x10_0000)), None);

    let mut layout = layout();
    let mut table = ActivePageTable::fresh(frame_at(0x1000));
    let map = MemoryMap(vec![reserved, used]);
    assert!(matches!(
        memory_init(&mut map.iter(), requests(), &mut layout, &mut table),
        Err(Error::NoUsableMemory)
    ));
}

use axel::memory::address::{PhysicalAddress, VirtualAddress};
use axel::memory::buddy_system::allocator::BuddyAllocator;
use axel::memory::frame::Frame;
use axel::memory::global_allocator::HeapAllocator;
use axel::memory::paging::entry::{PageEntry, PageEntryFlags};
use axel::memory::paging::memory::PhysicalMemory;
use axel::memory::paging::page::Page;
use axel::memory::paging::table::{
    ActivePageTable, Error, InActivePageTable, Level1, Level4, MapPage, Table,
};
use std::marker::PhantomData;

const BASE: u64 = 0x100_0000;

fn frame_at(addr: u64) -> Frame {
    Frame::from_address(PhysicalAddress::new(addr))
}

fn page_at(addr: u64) -> Page {
    Page::from_address(VirtualAddress::new(addr))
}

/// A table that maps only itself, in a frame that no allocator manages, and
/// an allocator over 64 frames.
fn setup() -> (ActivePageTable, BuddyAllocator) {
    (ActivePageTable::fresh(frame_at(0x1000)), BuddyAllocator::new(PhysicalAddress::new(BASE), 64))
}

/// The frame that the walk from the table at `root` finds for the page.
fn walk(table: &ActivePageTable, root: u64, page: Page) -> Option<u64> {
    let memory = table.memory();
    let mut frame = root;
    for shift in [27u32, 18, 9] {
        let entry = memory.read(frame, ((page.number >> shift) & 511) as usize)?;
        let flags = entry.flags();
        if !flags.contains(PageEntryFlags::present()) || flags.contains(PageEntryFlags::huge_page()) {
            return None;
        }
        frame = entry.get_frame_addr()?.into_u64();
    }
    memory.read(frame, (page.number & 511) as usize)?.get_frame_addr().map(|a| a.into_u64())
}

#[test]
fn fresh_table_maps_itself() {
    let (table, _) = setup();
    let entry = table.memory().read(0x1000, 511).unwrap();
    assert_eq!(entry, PageEntry(0x1003));
    assert_eq!(table.memory().read(0x1000, 0), Some(PageEntry(0)));
    assert_eq!(table.memory().read(0x2000, 0), None);
    assert_eq!(table.level4_address().into_u64(), 0x1000);
    let l4 = table.level4_page_table_mut().unwrap();
    assert_eq!(l4.frame, 0x1000);
    assert_eq!(l4.address.into_u64(), 0xffff_ffff_ffff_f000);
}

#[test]
fn map_then_walk_finds_the_frame() {
    let (mut table, mut bman) = setup();
    let page = page_at(0x20_0000);
    let frame = bman.allocate(0).unwrap();
    assert_eq!(walk(&table, 0x1000, page), None);
    assert_eq!(table.map(page, frame, &mut bman), Ok(()));
    assert_eq!(walk(&table, 0x1000, page), Some(frame.address().into_u64()));
    // Three tables were made on the way.
    assert_eq!(bman.count_free_objs(), 64 - 4);
    assert_eq!(table.memory().frame_count(), 4);
    assert_eq!(table.map(page, frame, &mut bman), Err(Error::AlreadyMapped));
    // The neighbour shares the tables.
    let next = page_at(0x20_1000);
    assert_eq!(table.map(next, frame_at(0xb8000), &mut bman), Ok(()));
    assert_eq!(bman.count_free_objs(), 64 - 4);
    assert_eq!(walk(&table, 0x1000, next), Some(0xb8000));
    assert_eq!(walk(&table, 0x1000, page), Some(frame.address().into_u64()));
}

#[test]
fn map_unmap_returns_the_frame() {
    let (mut table, mut bman) = setup();
    let page = page_at(0x20_0000);
    let frame = bman.allocate(0).unwrap();
    assert_eq!(table.map(page, frame, &mut bman), Ok(()));
    let before = bman.count_free_objs();
    assert_eq!(table.unmap(page, &mut bman), Ok(()));
    assert_eq!(bman.count_free_objs(), before + 1);
    assert_eq!(walk(&table, 0x1000, page), None);
    assert_eq!(table.unmap(page, &mut bman), Err(Error::NoEntry));
    assert_eq!(table.unmap(page_at(0x4000_0000_0000), &mut bman), Err(Error::NoEntry));
    assert!(!bman.is_allocated(&frame));
}

#[test]
fn unmap_leaves_a_frame_alone_that_was_not_handed_out() {
    let (mut table, mut bman) = setup();
    let page = page_at(0x20_0000);
    assert_eq!(table.map(page, frame_at(0xb8000), &mut bman), Ok(()));
    let before = bman.count_free_objs();
    assert_eq!(table.unmap(page, &mut bman), Ok(()));
    assert_eq!(bman.count_free_objs(), before);
    assert_eq!(walk(&table, 0x1000, page), None);
}

#[test]
fn map_without_frames_for_the_tables() {
    let mut table = ActivePageTable::fresh(frame_at(0x1000));
    let mut bman = BuddyAllocator::new(PhysicalAddress::new(BASE), 2);
    assert_eq!(table.map(page_at(0x20_0000), frame_at(0xb8000), &mut bman), Err(Error::NoPageTable));
    assert_eq!(bman.count_free_objs(), 0);
    assert_eq!(walk(&table, 0x1000, page_at(0x20_0000)), None);
}

#[test]
fn the_last_entry_of_a_new_table_is_taken() {
    let (mut table, mut bman) = setup();
    // The page whose index into the level 1 table is 511 meets the entry
    // with which the new table maps itself.
    assert_eq!(table.map(page_at(0x3f_f000), frame_at(0xb8000), &mut bman), Err(Error::AlreadyMapped));
}

#[test]
fn find_free_entry_index_skips_the_first_entry() {
    let mut memory = PhysicalMemory::new();
    let table: Table<Level1> = Table { address: VirtualAddress::new(0), frame: 0x5000, level: PhantomData };
    assert_eq!(table.find_free_entry_index(&memory), None);
    table.clear_all_entries(&mut memory);
    assert_eq!(table.find_free_entry_index(&memory), Some(1));
    assert_eq!(table.find_free_entry_index_with(&memory, 511), Some(1));
    assert_eq!(table.find_free_entry_index_with(&memory, 512), None);
    assert!(memory.write(0x5000, 1, PageEntry(1)));
    assert!(memory.write(0x5000, 3, PageEntry(1)));
    assert!(memory.write(0x5000, 6, PageEntry(1)));
    assert_eq!(table.find_free_entry_index(&memory), Some(2));
    assert_eq!(table.find_free_entry_index_with(&memory, 2), Some(4));
    assert_eq!(table.find_free_entry_index_with(&memory, 3), Some(7));
    assert_eq!(table.find_free_entry_index_with(&memory, 505), Some(7));
    assert_eq!(table.find_free_entry_index_with(&memory, 506), None);
    table.clear_all_entries(&mut memory);
    table.clear_all_entries(&mut memory);
    assert_eq!(memory.read(0x5000, 3), Some(PageEntry(0)));
    assert_eq!(memory.frame_count(), 1);
    assert!(!memory.write(0x6000, 0, PageEntry(1)));
    assert!(!memory.write(0x5000, 512, PageEntry(1)));
}

#[test]
fn next_level_address_moves_the_indexes_up() {
    let (mut table, mut bman) = setup();
    let l4: Table<Level4> = table.level4_page_table_mut().unwrap();
    assert!(l4.next_level_table_mut(table.memory(), 5).is_none());
    assert_eq!(table.map(page_at(5 << 39), frame_at(0xb8000), &mut bman), Ok(()));
    let l3 = l4.next_level_table_mut(table.memory(), 5).unwrap();
    assert_eq!(l3.address.into_u64(), 0xffff_ffff_ffe0_5000);
    assert_eq!(l3.frame, BASE);
    assert_eq!(
        l4.next_level_table_address(table.memory(), 5).map(|a| a.into_u64()),
        Some(0xffff_ffff_ffe0_5000)
    );
    let l2 = l3.next_level_table_mut(table.memory(), 0).unwrap();
    assert_eq!(l2.address.into_u64(), 0xffff_ffff_c0a0_0000);
    // The new table maps itself and nothing else.
    assert_eq!(table.memory().read(BASE, 511), Some(PageEntry(BASE | 3)));
    assert_eq!(table.memory().read(BASE, 1), Some(PageEntry(0)));
}

#[test]
fn find_empty_pages_makes_the_tables() {
    let (mut table, mut bman) = setup();
    let page = table.find_empty_pages(4, &mut bman).unwrap();
    assert_eq!(page.number, (1 << 27) + (1 << 18) + (1 << 9) + 1);
    assert_eq!(bman.count_free_objs(), 64 - 3);
    for k in 0..4 {
        assert_eq!(walk(&table, 0x1000, Page::from_number(page.number + k)), None);
        assert_eq!(table.map(Page::from_number(page.number + k), frame_at(0x8000 + k * 0x1000), &mut bman), Ok(()));
    }
    assert_eq!(bman.count_free_objs(), 64 - 3);
    // The first entry of the level 4 table is taken now: the next search
    // goes on behind it.
    let next = table.find_empty_page(&mut bman).unwrap();
    assert_eq!(next.number, (2 << 27) + (1 << 18) + (1 << 9) + 1);
    assert!(table.find_empty_pages(511, &mut bman).is_none());
}

#[test]
fn auto_continuous_map_maps_a_block() {
    let (mut table, mut bman) = setup();
    let block = bman.allocate(3).unwrap();
    let (begin, end) = table.auto_continuous_map(&block, &mut bman).unwrap();
    assert_eq!(end.into_u64() - begin.into_u64(), 8 * 4096);
    assert_eq!(begin.into_u64(), ((1 << 27) + (1 << 18) + (1 << 9) + 1) * 4096);
    for k in 0..8 {
        assert_eq!(
            walk(&table, 0x1000, page_at(begin.into_u64() + k * 4096)),
            Some(block.address().into_u64() + k * 4096)
        );
    }
}

#[test]
fn map_fitting_maps_a_range() {
    let (mut table, mut bman) = setup();
    let v = (VirtualAddress::new(0xffff_8000_0010_0000), VirtualAddress::new(0xffff_8000_0010_5000));
    let p = (PhysicalAddress::new(0x10_0000), PhysicalAddress::new(0x10_5000));
    assert_eq!(table.map_fitting(v, p, &mut bman), Ok(()));
    for k in 0..5 {
        assert_eq!(walk(&table, 0x1000, page_at(0xffff_8000_0010_0000 + k * 4096)), Some(0x10_0000 + k * 4096));
    }
    assert_eq!(walk(&table, 0x1000, page_at(0xffff_8000_0010_5000)), None);
    // A second time the first page is in the way; nothing is taken back.
    assert_eq!(table.map_fitting(v, p, &mut bman), Err(Error::AlreadyMapped));
    assert_eq!(walk(&table, 0x1000, page_at(0xffff_8000_0010_4000)), Some(0x10_4000));
}

#[test]
fn with_edits_the_other_table_only() {
    let (mut table, mut bman) = setup();
    let mut inactive = InActivePageTable::new(&mut table, &mut bman).unwrap();
    let other = inactive.level4_page_table.address().into_u64();
    assert_eq!(table.memory().read(other, 511), Some(PageEntry(other | 3)));
    assert_eq!(table.memory().read(other, 1), Some(PageEntry(0)));

    let page_x = page_at(0x4000_0000);
    let frame_y = frame_at(0xb8000);
    let edit = MapPage { page: page_x, frame: frame_y };
    assert_eq!(table.with(&mut inactive, &mut bman, &edit), Ok(()));

    // The table that the processor walks maps itself again and does not
    // know the page; the other table does.
    assert_eq!(table.memory().read(0x1000, 511), Some(PageEntry(0x1003)));
    assert_eq!(walk(&table, 0x1000, page_x), None);
    assert_eq!(walk(&table, other, page_x), Some(0xb8000));
    assert_eq!(table.level4_address().into_u64(), 0x1000);

    let old = table.switch(inactive);
    assert_eq!(old.level4_page_table.number(), 1);
    assert_eq!(table.level4_address().into_u64(), other);
    assert_eq!(walk(&table, other, page_x), Some(0xb8000));
    assert_eq!(table.map(page_x, frame_y, &mut bman), Err(Error::AlreadyMapped));
    assert_eq!(table.unmap(page_x, &mut bman), Ok(()));
}

#[test]
fn with_hands_the_error_of_the_edit_on() {
    let (mut table, mut bman) = setup();
    let mut inactive = InActivePageTable::new(&mut table, &mut bman).unwrap();
    let edit = MapPage { page: page_at(0x3f_f000), frame: frame_at(0xb8000) };
    assert_eq!(table.with(&mut inactive, &mut bman, &edit), Err(Error::AlreadyMapped));
    assert_eq!(table.memory().read(0x1000, 511), Some(PageEntry(0x1003)));
}

#[test]
fn inactive_table_needs_frames() {
    let mut table = ActivePageTable::fresh(frame_at(0x1000));
    let mut bman = BuddyAllocator::new(PhysicalAddress::new(BASE), 3);
    assert!(InActivePageTable::new(&mut table, &mut bman).is_none());
    // The frame of the table went back; the two tables made on the way to
    // the page stay.
    assert_eq!(bman.count_free_objs(), 1);
}

#[test]
fn heap_cuts_pieces_off_its_front() {
    let (mut table, mut bman) = setup();
    let mut heap = HeapAllocator::new(&mut bman, &mut table).unwrap();
    assert_eq!(heap.addr_end - heap.addr_begin, 32 * 4096);
    let begin = heap.addr_begin;
    assert_eq!(heap.allocate(3, 1).map(|a| a.into_u64()), Some(begin));
    assert_eq!(heap.allocate(8, 8).map(|a| a.into_u64()), Some(begin + 8));
    assert_eq!(heap.addr_begin, begin + 16);
    heap.dealloc(VirtualAddress::new(begin), 3, 1);
    assert_eq!(heap.addr_begin, begin + 16);
    assert_eq!(heap.allocate(32 * 4096, 1), None);
    assert_eq!(heap.allocate(32 * 4096 - 16, 1), None);
    assert_eq!(heap.allocate(32 * 4096 - 17, 1).map(|a| a.into_u64()), Some(begin + 16));
    assert_eq!(heap.allocate(1, 1), None);
    for k in 0..32 {
        assert_eq!(
            walk(&table, 0x1000, page_at(begin + k * 4096)),
            Some(BASE + k * 4096)
        );
    }
}

#[test]
fn heap_needs_a_block() {
    let mut table = ActivePageTable::fresh(frame_at(0x1000));
    let mut bman = BuddyAllocator::new(PhysicalAddress::new(BASE), 16);
    assert!(HeapAllocator::new(&mut bman, &mut table).is_none());
    assert_eq!(bman.count_free_objs(), 16);
}

#[test]
fn frame_words_for_the_machine() {
    let (table, _) = setup();
    let (address, words) = table.memory().frame_words(0);
    assert_eq!(address, 0x1000);
    assert_eq!(words.len(), 512);
    assert_eq!(words[511], 0x1003);
    assert_eq!(words[0], 0);
}

#[test]
fn mapped_entry_is_present_and_writable() {
    let (mut table, mut bman) = setup();
    let page = page_at(0x20_0000);
    let f = bman.allocate(0).unwrap();
    let address = f.address().into_u64();
    assert_eq!(table.map(page, f, &mut bman), Ok(()));
    // The walk ends at the entry of the page.
    let memory = table.memory();
    let l3 = memory.read(0x1000, 0).unwrap().get_frame_addr().unwrap().into_u64();
    let l2 = memory.read(l3, 0).unwrap().get_frame_addr().unwrap().into_u64();
    let l1 = memory.read(l2, 1).unwrap().get_frame_addr().unwrap().into_u64();
    let entry = memory.read(l1, 0).unwrap();
    assert_eq!(entry, PageEntry(address | 3));
    assert!(entry.flags().contains(PageEntryFlags::present()));
    assert!(entry.flags().contains(PageEntryFlags::writable()));
    assert!(!entry.flags().contains(PageEntryFlags::user_accessible()));
    assert_eq!(entry.get_frame_addr().map(|a| a.into_u64()), Some(address));
}

#[test]
fn frame_goes_back_where_it_holds_a_table_already() {
    // The frame that the allocator hands out next holds a table already.
    let mut memory = PhysicalMemory::new();
    memory.install(0x1000, vec![PageEntry(0); 512]);
    memory.install(BASE, vec![PageEntry(0); 512]);
    let mut bman = BuddyAllocator::new(PhysicalAddress::new(BASE), 4);
    let l4: Table<Level4> = Table {
        address: VirtualAddress::new(0xffff_ffff_ffff_f000),
        frame: 0x1000,
        level: PhantomData,
    };
    assert!(l4.next_level_table_create_mut(&mut memory, 3, &mut bman).is_none());
    assert_eq!(bman.count_free_objs(), 4);
    assert_eq!(bman.free_count(2), 1);
    assert_eq!(memory.read(0x1000, 3), Some(PageEntry(0)));

    let mut table = ActivePageTable::new(frame_at(0x1000), memory);
    assert!(InActivePageTable::new(&mut table, &mut bman).is_none());
    assert_eq!(bman.count_free_objs(), 4);
}

#[test]
fn map_fitting_maps_more_than_a_large_page() {
    // Tables of level 1 that are clear to their last entry take a range
    // that is larger than the 512 pages of one of them.
    let mut memory = PhysicalMemory::new();
    let clear = || vec![PageEntry(0); 512];
    let mut l4 = clear();
    l4[511] = PageEntry(0x1003);
    l4[0] = PageEntry(0x2003);
    let mut l3 = clear();
    l3[0] = PageEntry(0x3003);
    let mut l2 = clear();
    l2[0] = PageEntry(0x4003);
    l2[1] = PageEntry(0x5003);
    memory.install(0x1000, l4);
    memory.install(0x2000, l3);
    memory.install(0x3000, l2);
    memory.install(0x4000, clear());
    memory.install(0x5000, clear());
    let mut table = ActivePageTable::new(frame_at(0x1000), memory);
    let mut bman = BuddyAllocator::new(PhysicalAddress::new(BASE), 4);
    let size = 3 * 1024 * 1024 / 2;
    let r = table.map_fitting(
        (VirtualAddress::new(0x10_0000), VirtualAddress::new(0x10_0000 + size)),
        (PhysicalAddress::new(0x800_0000), PhysicalAddress::new(0x800_0000 + size)),
        &mut bman,
    );
    assert_eq!(r, Ok(()));
    for k in [0u64, 1, 255, 256, 383] {
        assert_eq!(walk(&table, 0x1000, page_at(0x10_0000 + k * 4096)), Some(0x800_0000 + k * 4096));
    }
    assert_eq!(walk(&table, 0x1000, page_at(0x10_0000 + 384 * 4096)), None);
    assert_eq!(table.memory().read(0x4000, 511), Some(PageEntry((0x800_0000 + 255 * 4096) | 3)));
    assert_eq!(table.memory().read(0x5000, 0), Some(PageEntry((0x800_0000 + 256 * 4096) | 3)));
    assert_eq!(bman.count_free_objs(), 4);
}

#[test]
fn with_leaves_the_walked_table_its_pages() {
    let (mut table, mut bman) = setup();
    // A page of the walked table from before.
    let kept = page_at(0x7000_0000);
    assert_eq!(table.map(kept, frame_at(0xa0000), &mut bman), Ok(()));
    let mut inactive = InActivePageTable::new(&mut table, &mut bman).unwrap();
    let other = inactive.level4_page_table.address().into_u64();
    let page_x = page_at(0x80_0000_0000);
    assert_eq!(walk(&table, other, page_x), None);
    let edit = MapPage { page: page_x, frame: frame_at(0xb8000) };
    assert_eq!(table.with(&mut inactive, &mut bman, &edit), Ok(()));
    assert_eq!(walk(&table, other, page_x), Some(0xb8000));
    assert_eq!(walk(&table, 0x1000, page_x), None);
    assert_eq!(walk(&table, 0x1000, kept), Some(0xa0000));
    assert_eq!(walk(&table, other, kept), None);
    // The entry that the edit made is present and writable.
    let l3 = table.memory().read(other, 1).unwrap().get_frame_addr().unwrap().into_u64();
    let l2 = table.memory().read(l3, 0).unwrap().get_frame_addr().unwrap().into_u64();
    let l1 = table.memory().read(l2, 0).unwrap().get_frame_addr().unwrap().into_u64();
    assert_eq!(table.memory().read(l1, 0), Some(PageEntry(0xb8003)));
}

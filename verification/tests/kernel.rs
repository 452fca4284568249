use axel::arch::x86_64::interrupt::handler::{Handler, HandlerWithErrorCode, InterruptFrame};
use axel::arch::x86_64::interrupt::pic::{
    init as pic_init, io_wait, timer_handler, PortWrite, IRQ_NUMBER_TIMER,
};
use axel::arch::x86_64::interrupt::pit::init as pit_init;
use axel::arch::x86_64::interrupt::{init as interrupt_init, RUNTIME_TEST_VECTOR, TABLE_ADDRESS};
use axel::arch::x86_64::{Initializer, Thread, VRAM_ADDR};
use axel::arch::{BootInformation, Error as ArchError, Initialize};
use axel::graphic::{CharacterDisplay, Color, Position};
use axel::memory::address::{
    kernel_addr_begin_physical, kernel_addr_begin_virtual, kernel_addr_end_virtual,
    kernel_bss_section_addr_begin, kernel_bss_section_size, KernelLayout, PhysicalAddress,
    VirtualAddress,
};
use axel::memory::buddy_system::allocator::BuddyAllocator;
use axel::memory::frame::Frame;
use axel::memory::frame_allocator::FrameAllocator;
use axel::memory::paging::entry::{PageEntry, PageEntryFlags};
use axel::memory::paging::make_kernel_table;
use axel::memory::paging::memory::PhysicalMemory;
use axel::memory::paging::page::Page;
use axel::memory::paging::table::{ActivePageTable, Error as PageTableError, Level4, Table};
use axel::memory::paging::IdenticalReMapRequest;
use axel::memory::region::{AdapterIter, Region, State};
use axel::memory::Error as MemoryError;
use axel::process::{Process, ProcessManager};
use std::marker::PhantomData;

const OFFSET: u64 = 0xffff_8000_0000_0000;

fn layout() -> KernelLayout {
    KernelLayout {
        physical_begin: PhysicalAddress::new(0x10_0000),
        physical_end: PhysicalAddress::new(0x18_0000),
        virtual_begin: VirtualAddress::new(OFFSET + 0x10_0000),
        bss_begin: VirtualAddress::new(OFFSET + 0x17_0000),
        bss_size: 0x1000,
        virtual_offset: OFFSET,
    }
}

fn frame_at(addr: u64) -> Frame {
    Frame::from_address(PhysicalAddress::new(addr))
}

fn walk(table: &ActivePageTable, root: u64, address: u64) -> Option<u64> {
    let page = Page::from_address(VirtualAddress::new(address));
    let memory = table.memory();
    let mut frame = root;
    for shift in [27u32, 18, 9] {
        let entry = memory.read(frame, ((page.number >> shift) & 511) as usize)?;
        let flags = entry.flags();
        if !flags.contains(PageEntryFlags::present()) || flags.contains(PageEntryFlags::huge_page()) {
            return None;
        }
        frame = entry.get_frame_addr()?.into_u64();
    }
    memory.read(frame, (page.number & 511) as usize)?.get_frame_addr().map(|a| a.into_u64())
}

fn boot(regions: Option<Vec<Region>>) -> BootInformation {
    BootInformation {
        argv: vec![0x9500, 0x70000, 4],
        regions: regions.map(AdapterIter::new),
        layout: layout(),
        table: ActivePageTable::fresh(frame_at(0x1000)),
        default_handler: Handler { address: 0xffff_8000_0010_1000 },
        default_handler_with_error_code: HandlerWithErrorCode { address: 0xffff_8000_0010_2000 },
        timer_handler: Handler { address: 0xffff_8000_0010_3000 },
        code_segment: 8,
    }
}

fn region(base: u64, size: u64) -> Region {
    Region::new(PhysicalAddress::new(base), size, State::Free)
}

fn words(address: u64) -> (u64, u64) {
    (
        (address & 0xffff) | (8 << 16) | (0x8f00 << 32) | (((address >> 16) & 0xffff) << 48),
        address >> 32,
    )
}

#[test]
fn layout_getters_hand_the_fields_out() {
    let l = layout();
    assert_eq!(kernel_addr_begin_virtual(&l), VirtualAddress::new(OFFSET + 0x10_0000));
    assert_eq!(kernel_addr_begin_physical(&l), PhysicalAddress::new(0x10_0000));
    assert_eq!(kernel_addr_end_virtual(&l), VirtualAddress::new(OFFSET + 0x18_0000));
    assert_eq!(kernel_bss_section_addr_begin(&l), VirtualAddress::new(OFFSET + 0x17_0000));
    assert_eq!(kernel_bss_section_size(&l), 0x1000);
}

#[test]
fn remap_requests_name_stack_video_memory_and_table() {
    let requests = Initializer::remap_requests(&vec![0x9500, 0x70000, 4]);
    assert_eq!(
        requests,
        vec![
            IdenticalReMapRequest::new(PhysicalAddress::new(0x70000), 4),
            IdenticalReMapRequest::new(PhysicalAddress::new(VRAM_ADDR), 1),
            IdenticalReMapRequest::new(PhysicalAddress::new(TABLE_ADDRESS), 1),
        ]
    );
    assert_eq!(VRAM_ADDR, 0xB8000);
    assert_eq!(TABLE_ADDRESS, 0x6E000);
}

#[test]
fn bring_up_needs_a_memory_map() {
    assert!(matches!(Initializer::init(boot(None)), Err(ArchError::NoMemoryMap)));
}

#[test]
fn bring_up_hands_the_error_of_memory_on() {
    let r = Initializer::init(boot(Some(vec![region(0, 0x9_f000)])));
    assert!(matches!(r, Err(ArchError::MemoryInitializationFailed(MemoryError::NoUsableMemory))));
    let r = Initializer::init(boot(Some(vec![])));
    assert!(matches!(r, Err(ArchError::MemoryInitializationFailed(MemoryError::NoUsableMemory))));
}

#[test]
fn bring_up_gives_memory_and_interrupts() {
    let kernel = match Initializer::init(boot(Some(vec![region(0, 0x9_f000), region(0x10_0000, 0x100_0000)]))) {
        Ok(kernel) => kernel,
        Err(_) => panic!("bring-up failed"),
    };
    // The kernel's own table is walked, and it maps the three requests.
    let root = kernel.table.level4_address().into_u64();
    assert_ne!(root, 0x1000);
    assert_eq!(kernel.table.memory().read(root, 511).map(|e| e.0), Some(root | 3));
    for k in 0..4 {
        assert_eq!(walk(&kernel.table, root, OFFSET + 0x70000 + k * 4096), Some(0x70000 + k * 4096));
    }
    assert_eq!(walk(&kernel.table, root, OFFSET + 0xB8000), Some(0xB8000));
    assert_eq!(walk(&kernel.table, root, OFFSET + 0x6E000), Some(0x6E000));
    assert_eq!(walk(&kernel.table, root, OFFSET + 0x10_0000), Some(0x10_0000));
    // The end of the kernel moved behind the descriptors of the frames.
    assert!(kernel.layout.physical_end.into_u64() > 0x18_0000);
    assert_eq!(kernel.layout.physical_end.into_u64() % 4096, 0);
    assert_eq!(kernel.layout.physical_begin, PhysicalAddress::new(0x10_0000));
    assert_eq!(kernel.memory.heap.addr_end - kernel.memory.heap.addr_begin, 32 * 4096);
    assert!(walk(&kernel.table, root, kernel.memory.heap.addr_begin).is_some());
    // The interrupts.
    assert_eq!(kernel.interrupts.register.base, OFFSET + 0x6E000);
    assert_eq!(kernel.interrupts.register.limit, 4095);
    assert_eq!(kernel.interrupts.pic_script, pic_init());
    assert_eq!(kernel.interrupts.pit_script, pit_init());
    assert_eq!(kernel.interrupts.table.entry_words(3), words(0xffff_8000_0010_1000));
    assert_eq!(kernel.interrupts.table.entry_words(8), words(0xffff_8000_0010_2000));
    assert_eq!(kernel.interrupts.table.entry_words(IRQ_NUMBER_TIMER), words(0xffff_8000_0010_3000));
}

#[test]
fn kernel_console_is_the_cleared_text_screen() {
    let display: CharacterDisplay = Initializer::obtain_kernel_console(&layout()).unwrap();
    assert_eq!(display.vram_addr as u64, OFFSET + 0xB8000);
    assert_eq!(display.max_position, Position(80, 25));
    assert_eq!(display.current_position, Position(0, 0));
    assert_eq!(display.color_background, Color::Black);
    assert_eq!(display.color_foreground, Color::LightRed);
    assert_eq!(display.vram.len(), 80 * 25);
    assert!(display.vram.iter().all(|cell| *cell == 0x0C20));
}

#[test]
fn put_char_writes_one_cell_and_moves_on() {
    let mut d = CharacterDisplay::new(0xB8000, Position(4, 3));
    d.clear_screen();
    d.put_char('x');
    assert_eq!(d.vram[0], 0x0C78);
    assert_eq!(d.vram[1], 0x0C20);
    assert_eq!(d.current_position, Position(1, 0));
    d.put_char('\n');
    assert_eq!(d.current_position, Position(0, 1));
    d.put_char('y');
    assert_eq!(d.vram[4], 0x0C79);
    assert_eq!(d.current_position, Position(1, 1));
}

#[test]
fn interrupt_init_fills_every_vector() {
    let interrupts = interrupt_init(
        Handler { address: 0xffff_8000_0010_1000 },
        HandlerWithErrorCode { address: 0xffff_8000_0010_2000 },
        Handler { address: 0xffff_8000_0010_3000 },
        8,
        VirtualAddress::new(OFFSET + 0x6E000),
    );
    let with_error_code = [8u8, 10, 11, 12, 13, 14, 17];
    let encoded = interrupts.table.encode();
    assert_eq!(encoded.len(), 512);
    for v in 0..=255u8 {
        let expected = if v == IRQ_NUMBER_TIMER {
            words(0xffff_8000_0010_3000)
        } else if with_error_code.contains(&v) {
            words(0xffff_8000_0010_2000)
        } else {
            words(0xffff_8000_0010_1000)
        };
        assert_eq!(interrupts.table.entry_words(v), expected, "vector {}", v);
        assert_eq!((encoded[2 * v as usize], encoded[2 * v as usize + 1]), expected);
    }
    assert_eq!(RUNTIME_TEST_VECTOR, 0xFA);
    assert_eq!(interrupts.register.base, OFFSET + 0x6E000);
    assert_eq!(interrupts.register.limit, 0xfff);
    assert_eq!(interrupts.pic_script, pic_init());
    assert_eq!(interrupts.pit_script, pit_init());
    assert_eq!(
        interrupts.pit_script,
        vec![
            PortWrite { port: 0x43, value: 0x34 },
            PortWrite { port: 0x40, value: 0x9b },
            PortWrite { port: 0x40, value: 0x2e },
            PortWrite { port: 0x21, value: 0xfe },
        ]
    );
}

#[test]
fn io_wait_writes_to_the_unused_port() {
    assert_eq!(io_wait(), PortWrite { port: 0x80, value: 0 });
}

#[test]
fn timer_tick_switches_and_acknowledges() {
    let mut manager = ProcessManager::new();
    let mut frame = InterruptFrame { ip: 1, cs: 8, flags: 2, sp: 3, ss: 16 };
    let (switched, script) = timer_handler(&mut manager, &mut frame);
    assert!(!switched);
    assert_eq!(frame, InterruptFrame { ip: 1, cs: 8, flags: 2, sp: 3, ss: 16 });
    assert_eq!(script, vec![PortWrite { port: 0x20, value: 0x20 }]);

    manager.processes[0] = Some(Process { thread: Thread {} });
    manager.processes[1] = Some(Process { thread: Thread {} });
    let (switched, script) = timer_handler(&mut manager, &mut frame);
    assert!(switched);
    assert_eq!(frame, InterruptFrame { ip: 1, cs: 27, flags: 2, sp: 3, ss: 35 });
    assert_eq!(script, vec![PortWrite { port: 0x20, value: 0x20 }]);
}

#[test]
fn request_is_mapped_page_by_page() {
    let mut table = ActivePageTable::fresh(frame_at(0x1000));
    let mut bman = BuddyAllocator::new(PhysicalAddress::new(0x100_0000), 64);
    let request = IdenticalReMapRequest::new(PhysicalAddress::new(0x70000), 4);
    assert_eq!(request.remap(&mut table, &mut bman, &layout()), Ok(()));
    for k in 0..4 {
        assert_eq!(walk(&table, 0x1000, OFFSET + 0x70000 + k * 4096), Some(0x70000 + k * 4096));
    }
    assert_eq!(walk(&table, 0x1000, OFFSET + 0x74000), None);
    // Three tables were made on the way.
    assert_eq!(bman.count_free_objs(), 61);
    // The same request finds its first page taken.
    assert_eq!(request.remap(&mut table, &mut bman, &layout()), Err(PageTableError::AlreadyMapped));
    // A request that leaves the physical addresses is not served.
    let far = IdenticalReMapRequest::new(PhysicalAddress::new(0xf_ffff_ffff_f000), 2);
    assert_eq!(far.remap(&mut table, &mut bman, &layout()), Err(PageTableError::NoPageTable));
    // An empty request is served at once.
    let none = IdenticalReMapRequest::new(PhysicalAddress::new(0x70000), 0);
    assert_eq!(none.remap(&mut table, &mut bman, &layout()), Ok(()));
    assert_eq!(bman.count_free_objs(), 61);
}

#[test]
fn request_stops_at_the_first_failure() {
    let mut table = ActivePageTable::fresh(frame_at(0x1000));
    let mut bman = BuddyAllocator::new(PhysicalAddress::new(0x100_0000), 64);
    let page = Page::from_address(VirtualAddress::new(OFFSET + 0x72000));
    assert_eq!(table.map(page, frame_at(0x5000), &mut bman), Ok(()));
    let request = IdenticalReMapRequest::new(PhysicalAddress::new(0x70000), 4);
    assert_eq!(request.remap(&mut table, &mut bman, &layout()), Err(PageTableError::AlreadyMapped));
    assert_eq!(walk(&table, 0x1000, OFFSET + 0x70000), Some(0x70000));
    assert_eq!(walk(&table, 0x1000, OFFSET + 0x71000), Some(0x71000));
    assert_eq!(walk(&table, 0x1000, OFFSET + 0x72000), Some(0x5000));
    assert_eq!(walk(&table, 0x1000, OFFSET + 0x73000), None);
}

#[test]
fn kernel_table_is_made_beside_the_walked_one() {
    let mut table = ActivePageTable::fresh(frame_at(0x1000));
    let mut bman = BuddyAllocator::new(PhysicalAddress::new(0x100_0000), 64);
    let requests = vec![IdenticalReMapRequest::new(PhysicalAddress::new(0xB8000), 1)];
    let made = match make_kernel_table(requests, &mut table, &mut bman, &layout()) {
        Ok(t) => t,
        Err(_) => panic!("no table was made"),
    };
    let root = made.level4_page_table.address().into_u64();
    // The processor walks the old table still, which maps itself.
    assert_eq!(table.level4_address().into_u64(), 0x1000);
    assert_eq!(table.memory().read(0x1000, 511).map(|e| e.0), Some(0x1003));
    // The new table maps itself, the request and the kernel.
    assert_eq!(table.memory().read(root, 511).map(|e| e.0), Some(root | 3));
    assert_eq!(walk(&table, root, OFFSET + 0xB8000), Some(0xB8000));
    assert_eq!(walk(&table, root, OFFSET + 0x10_0000), Some(0x10_0000));
    assert_eq!(walk(&table, root, OFFSET + 0x17_f000), Some(0x17_f000));
    assert_eq!(walk(&table, root, OFFSET + 0x18_0000), None);
    assert_eq!(walk(&table, 0x1000, OFFSET + 0xB8000), None);
}

#[test]
fn kernel_table_needs_a_kernel_that_fits() {
    let mut table = ActivePageTable::fresh(frame_at(0x1000));
    let mut bman = BuddyAllocator::new(PhysicalAddress::new(0x100_0000), 64);
    let mut odd = layout();
    odd.physical_end = PhysicalAddress::new(0x18_0800);
    assert!(matches!(
        make_kernel_table(vec![], &mut table, &mut bman, &odd),
        Err(MemoryError::PageTable { inner: PageTableError::NoPageTable })
    ));
    let mut bman = BuddyAllocator::new(PhysicalAddress::new(0x100_0000), 0);
    assert!(matches!(
        make_kernel_table(vec![], &mut table, &mut bman, &layout()),
        Err(MemoryError::NoUsableMemory)
    ));
    assert_eq!(MemoryError::from_page_table_error(PageTableError::NoEntry), MemoryError::PageTable {
        inner: PageTableError::NoEntry
    });
}

#[test]
fn installed_table_takes_the_place_of_the_old() {
    let mut memory = PhysicalMemory::new();
    assert!(!memory.contains(0x3000));
    assert_eq!(memory.frame_count(), 0);
    assert_eq!(memory.read(0x3000, 0), None);
    assert!(!memory.write(0x3000, 0, PageEntry(1)));
    assert_eq!(memory.frame_count(), 0);
    let mut entries = vec![PageEntry(0); 512];
    entries[7] = PageEntry(0x5003);
    memory.install(0x3000, entries);
    assert!(memory.contains(0x3000));
    assert_eq!(memory.frame_count(), 1);
    assert_eq!(memory.read(0x3000, 7), Some(PageEntry(0x5003)));
    assert_eq!(memory.read(0x3000, 8), Some(PageEntry(0)));
    memory.install(0x3000, vec![PageEntry(0); 512]);
    assert_eq!(memory.frame_count(), 1);
    assert_eq!(memory.read(0x3000, 7), Some(PageEntry(0)));
    memory.install(0x4000, vec![PageEntry(1); 512]);
    assert_eq!(memory.frame_count(), 2);
    assert_eq!(memory.read(0x4000, 511), Some(PageEntry(1)));
    assert_eq!(memory.read(0x3000, 511), Some(PageEntry(0)));
}

#[test]
fn next_level_table_is_made_once() {
    let mut memory = PhysicalMemory::new();
    memory.install(0x1000, vec![PageEntry(0); 512]);
    let mut bman = BuddyAllocator::new(PhysicalAddress::new(0x100_0000), 2);
    let l4: Table<Level4> = Table {
        address: VirtualAddress::new(0xffff_ffff_ffff_f000),
        frame: 0x1000,
        level: PhantomData,
    };
    let made = l4.next_level_table_create_mut(&mut memory, 3, &mut bman).unwrap();
    assert_eq!(made.frame, 0x100_0000);
    assert_eq!(made.address.into_u64(), 0xffff_ffff_ffe0_3000);
    assert_eq!(memory.read(0x1000, 3), Some(PageEntry(0x100_0001)));
    assert_eq!(memory.read(0x100_0000, 0), Some(PageEntry(0)));
    assert_eq!(memory.read(0x100_0000, 511), Some(PageEntry(0x100_0003)));
    assert_eq!(bman.count_free_objs(), 1);
    // The entry is there now: no frame is taken.
    let again = l4.next_level_table_create_mut(&mut memory, 3, &mut bman).unwrap();
    assert_eq!(again.frame, 0x100_0000);
    assert_eq!(bman.count_free_objs(), 1);
    let other = l4.next_level_table_create_mut(&mut memory, 4, &mut bman).unwrap();
    assert_eq!(other.frame, 0x100_1000);
    assert!(l4.next_level_table_create_mut(&mut memory, 5, &mut bman).is_none());
    assert_eq!(memory.read(0x1000, 5), Some(PageEntry(0)));
}

#[test]
fn frame_allocator_hands_single_frames_out() {
    let mut bman = BuddyAllocator::new(PhysicalAddress::new(0x100_0000), 4);
    let a = FrameAllocator::alloc_one(&mut bman).unwrap();
    let b = FrameAllocator::alloc_one(&mut bman).unwrap();
    assert_eq!(a.number(), 0x1000);
    assert_eq!(b.number(), 0x1001);
    assert_eq!(a.order, 0);
    assert_eq!(bman.count_free_objs(), 2);
    FrameAllocator::free(&mut bman, a);
    assert_eq!(bman.count_free_objs(), 3);
    FrameAllocator::free(&mut bman, b);
    assert_eq!(bman.count_free_objs(), 4);
    // The four frames are one block again.
    assert_eq!(bman.free_count(2), 1);
    let c = bman.allocate(2).unwrap();
    assert_eq!(c.number(), 0x1000);
    assert!(FrameAllocator::alloc_one(&mut bman).is_none());
}

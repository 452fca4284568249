//! The x86_64 architecture: interrupts, the task state segment, threads.

pub mod interrupt;
pub mod thread;
pub mod tss;

pub use thread::Thread;

use super::{BootInformation, Error, Initialize, Kernel};
use crate::graphic::{spec_palette, spec_pixel, CharacterDisplay, Color, Position};
use crate::memory::address::{KernelLayout, PhysicalAddress};
use crate::memory::buddy_system::allocator::BuddyView;
use crate::memory::paging::IdenticalReMapRequest;
use vstd::prelude::*;

verus! {

/// The physical address of the text mode video memory.
pub const VRAM_ADDR: u64 = 0xB8000;

pub const TEXT_MODE_WIDTH: usize = 80;

pub const TEXT_MODE_HEIGHT: usize = 25;

pub struct Initializer;

impl Initializer {
    /// The requests for the kernel stack, whose address and number of
    /// frames are the second and the third argument of the entry point, for
    /// the video memory and for the interrupt descriptor table.
    pub open spec fn spec_remap_requests(argv: Seq<u64>) -> Seq<IdenticalReMapRequest> {
        seq![
            IdenticalReMapRequest(PhysicalAddress(argv[1]), argv[2]),
            IdenticalReMapRequest(PhysicalAddress(VRAM_ADDR), 1),
            IdenticalReMapRequest(PhysicalAddress(interrupt::TABLE_ADDRESS), 1),
        ]
    }

    /// The frames that have to stay reachable when the kernel's own table
    /// takes over: the kernel stack, the video memory and the interrupt
    /// descriptor table.
    pub fn remap_requests(argv: &Vec<u64>) -> (r: Vec<IdenticalReMapRequest>)
        requires
            argv@.len() >= 3,
        ensures
            r@ == Self::spec_remap_requests(argv@),
    {
        let mut rs: Vec<IdenticalReMapRequest> = Vec::new();
        // The kernel stack.
        rs.push(IdenticalReMapRequest::new(PhysicalAddress::new(argv[1]), argv[2]));
        rs.push(IdenticalReMapRequest::new(PhysicalAddress::new(VRAM_ADDR), 1));
        rs.push(IdenticalReMapRequest::new(interrupt::table_address(), 1));
        rs
    }
}

impl Initialize for Initializer {
    /// Brings memory and then the interrupts up. Without a memory map
    /// nothing is brought up; where memory cannot be brought up its error
    /// is handed on, and the interrupts are left alone.
    fn init(boot: BootInformation) -> (r: Result<Kernel, Error>)
        ensures
            boot.regions matches Some(regions) ==> ({
                let i = crate::memory::spec_init(
                    regions.remaining(),
                    Self::spec_remap_requests(boot.argv@),
                    boot.layout,
                    boot.table.tables(),
                    boot.table.level4_frame(),
                );
                &&& r matches Err(e) ==> i.result is Err && e == Error::MemoryInitializationFailed(i.result->Err_0)
                &&& r matches Ok(kernel) ==> ({
                    &&& i.result == Ok::<(u64, BuddyView), crate::memory::Error>(
                        (kernel.memory.heap.addr_begin, kernel.memory.frame_allocator@),
                    )
                    &&& kernel.layout == i.layout
                    &&& kernel.table.tables() == i.tables
                    &&& kernel.table.level4_frame() == i.level4_frame
                    &&& kernel.interrupts.register.base == crate::memory::address::spec_wrapping_sum(
                        interrupt::TABLE_ADDRESS as int,
                        boot.layout.virtual_offset as int,
                    )
                    &&& kernel.interrupts.register.limit == interrupt::table::TABLE_BYTES - 1
                    &&& kernel.interrupts.pic_script@ == interrupt::pic::spec_init_script()
                    &&& kernel.interrupts.pit_script@ == interrupt::pit::spec_init_script()
                    &&& forall|v: int|
                        0 <= v < interrupt::table::VECTORS ==> #[trigger] kernel.interrupts.table@[v] == (if v
                            == interrupt::pic::IRQ_NUMBER_TIMER {
                            interrupt::table::spec_entry(false, boot.timer_handler.address, boot.code_segment)
                        } else {
                            interrupt::table::spec_entry(
                                interrupt::table::pushes_error_code(v),
                                if interrupt::table::pushes_error_code(v) {
                                    boot.default_handler_with_error_code.address
                                } else {
                                    boot.default_handler.address
                                },
                                boot.code_segment,
                            )
                        })
                })
            }),
    {
        let BootInformation {
            argv,
            regions,
            layout,
            table,
            default_handler,
            default_handler_with_error_code,
            timer_handler,
            code_segment,
        } = boot;
        let rs = Self::remap_requests(&argv);
        let mut regions = match regions {
            Some(regions) => regions,
            None => {
                return Err(Error::NoMemoryMap);
            },
        };
        let mut layout = layout;
        let mut table = table;
        let memory = match crate::memory::init(&mut regions, rs, &mut layout, &mut table) {
            Ok(memory) => memory,
            Err(e) => {
                return Err(Error::from_memory_error(e));
            },
        };
        let base = interrupt::table_address().to_virtual(&layout);
        let interrupts = interrupt::init(
            default_handler,
            default_handler_with_error_code,
            timer_handler,
            code_segment,
            base,
        );
        Ok(Kernel { layout, table, memory, interrupts })
    }

    /// The text display of 80 columns and 25 rows at the video memory,
    /// cleared. `None` where the address of the video memory is no address
    /// of the machine.
    fn obtain_kernel_console(layout: &KernelLayout) -> (r: Option<CharacterDisplay>)
        ensures
            ({
                let address = crate::memory::address::spec_wrapping_sum(
                    VRAM_ADDR as int,
                    layout.virtual_offset as int,
                );
                &&& r is Some <==> address <= usize::MAX
                &&& r matches Some(display) ==> ({
                    &&& display.vram_addr == address
                    &&& display.max_position == Position(TEXT_MODE_WIDTH, TEXT_MODE_HEIGHT)
                    &&& display.current_position == Position(0, 0)
                    &&& display.color_background == Color::Black
                    &&& display.color_foreground == Color::LightRed
                    &&& display.vram@ == Seq::new(
                        (TEXT_MODE_WIDTH * TEXT_MODE_HEIGHT) as nat,
                        |i: int| spec_pixel(spec_palette(Color::Black), spec_palette(Color::LightRed), ' '),
                    )
                })
            }),
    {
        let address = PhysicalAddress::new(VRAM_ADDR).to_virtual(layout).into_u64();
        if address > usize::MAX as u64 {
            return None;
        }
        let mut display = CharacterDisplay::new(address as usize, Position(TEXT_MODE_WIDTH, TEXT_MODE_HEIGHT));
        display.clear_screen();
        Some(display)
    }
}

} // verus!

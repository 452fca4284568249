//! What depends on the architecture.

pub mod arm11;
pub mod x86_64;

use crate::graphic::CharacterDisplay;
use crate::memory::address::KernelLayout;
use crate::memory::paging::table::ActivePageTable;
use crate::memory::region::AdapterIter;
use crate::memory::Error as MemoryError;
use crate::memory::Memory;
use x86_64::interrupt::handler::{Handler, HandlerWithErrorCode};
use x86_64::interrupt::Interrupts;
use vstd::prelude::*;

verus! {

#[derive(Copy, Clone, Debug, PartialEq, Eq, Structural)]
pub enum Error {
    /// The boot information holds no memory map.
    NoMemoryMap,
    /// Memory could not be set up.
    MemoryInitializationFailed(MemoryError),
}

impl Error {
    pub fn from_memory_error(e: MemoryError) -> (r: Error)
        ensures
            r == Error::MemoryInitializationFailed(e),
    {
        Error::MemoryInitializationFailed(e)
    }
}


/// What the boot code hands over.
pub struct BootInformation {
    /// The arguments of the entry point: the address of the firmware's
    /// information, the address of the kernel stack, and its size in frames.
    pub argv: Vec<u64>,
    /// The memory map of the firmware, if it gave one.
    pub regions: Option<AdapterIter>,
    pub layout: KernelLayout,
    /// The table that the processor walks.
    pub table: ActivePageTable,
    pub default_handler: Handler,
    pub default_handler_with_error_code: HandlerWithErrorCode,
    pub timer_handler: Handler,
    /// The selector of the code segment.
    pub code_segment: u16,
}

/// The kernel after bring-up.
pub struct Kernel {
    pub layout: KernelLayout,
    pub table: ActivePageTable,
    pub memory: Memory,
    pub interrupts: Interrupts,
}

/// What every architecture offers.
pub trait Initialize {
    fn init(boot: BootInformation) -> (r: Result<Kernel, Error>)
        requires
            boot.argv@.len() >= 3,
            boot.table.wf(),
        ensures
            boot.regions is None ==> r is Err && r->Err_0 == Error::NoMemoryMap,
            r matches Ok(kernel) ==> kernel.table.wf() && kernel.table.self_mapped()
                && kernel.memory.frame_allocator.wf() && kernel.interrupts.table.wf(),
    ;

    fn obtain_kernel_console(layout: &KernelLayout) -> (r: Option<CharacterDisplay>)
        ensures
            r matches Some(display) ==> display@.wf() && display.colors_ok(),
    ;
}

} // verus!

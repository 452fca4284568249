//! The interrupt descriptor table and the legacy interrupt hardware.

pub mod descriptor;
pub mod handler;
pub mod pic;
pub mod pit;
pub mod table;

use crate::memory::address::{PhysicalAddress, VirtualAddress};
use handler::{Handler, HandlerWithErrorCode};
use pic::PortWrite;
use table::{pushes_error_code, spec_entry, InterruptDescriptorTableRegister, VECTORS};
pub use handler::InterruptFrame;
pub use table::InterruptDescriptorTable;
use vstd::prelude::*;

verus! {

/// The physical address of the frame that holds the table: it lies in the
/// free low memory of the machine.
pub const TABLE_ADDRESS: u64 = 0x6E000;

pub fn table_address() -> (r: PhysicalAddress)
    ensures
        r@ == TABLE_ADDRESS,
{
    PhysicalAddress::new(TABLE_ADDRESS)
}


/// The vector that bring-up raises to try the table out.
pub const RUNTIME_TEST_VECTOR: u8 = 0xFA;

/// What interrupt bring-up hands over: the table, what the processor is
/// told of it, and the writes that set the interrupt controllers and the
/// timer up.
pub struct Interrupts {
    pub table: InterruptDescriptorTable,
    pub register: InterruptDescriptorTableRegister,
    pub pic_script: Vec<PortWrite>,
    pub pit_script: Vec<PortWrite>,
}

/// Brings the interrupts up: every vector gets the default handler of its
/// kind, and the vector of the timer its own. The caller copies the table
/// to `base`, loads the register, writes the scripts to the ports and
/// enables interrupts.
pub fn init(
    default_handler: Handler,
    default_handler_with_error_code: HandlerWithErrorCode,
    timer_handler: Handler,
    segment_selector: u16,
    base: VirtualAddress,
) -> (r: Interrupts)
    ensures
        r.table.wf(),
        forall|v: int|
            0 <= v < VECTORS ==> #[trigger] r.table@[v] == (if v == pic::IRQ_NUMBER_TIMER {
                spec_entry(false, timer_handler.address, segment_selector)
            } else {
                spec_entry(
                    pushes_error_code(v),
                    if pushes_error_code(v) {
                        default_handler_with_error_code.address
                    } else {
                        default_handler.address
                    },
                    segment_selector,
                )
            }),
        r.register.limit == table::TABLE_BYTES - 1,
        r.register.base == base@,
        r.pic_script@ == pic::spec_init_script(),
        r.pit_script@ == pit::spec_init_script(),
{
    let mut table = InterruptDescriptorTable::empty();
    table.init(default_handler, default_handler_with_error_code, segment_selector);
    pic::set_handlers(&mut table, timer_handler, segment_selector);
    let register = table.load(base);
    Interrupts { table, register, pic_script: pic::init(), pit_script: pit::init() }
}

} // verus!

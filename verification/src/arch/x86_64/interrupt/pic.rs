//! The two cascaded legacy interrupt controllers.

use super::handler::{Handler, InterruptFrame};
use crate::arch::x86_64::thread;
use crate::process::ProcessManager;
use super::table::InterruptDescriptorTable;
use vstd::prelude::*;

verus! {

pub const MASTER_COMMAND_PORT: u16 = 0x20;

pub const MASTER_DATA_PORT: u16 = 0x21;

pub const SLAVE_COMMAND_PORT: u16 = 0xA0;

pub const SLAVE_DATA_PORT: u16 = 0xA1;

/// A write to this port does nothing but take the time of one port access.
pub const WAIT_PORT: u16 = 0x80;

pub const IRQ_OFFSET_MASTER: u8 = 0x20;

pub const IRQ_OFFSET_SLAVE: u8 = IRQ_OFFSET_MASTER + 8;

pub const IRQ_NUMBER_TIMER: u8 = IRQ_OFFSET_MASTER;

pub const END_OF_INTERRUPT: u8 = 0x20;

pub const ICW1_INIT: u8 = 0x10;

pub const ICW1_ICW4_REQUIRED: u8 = 0x01;

pub const ICW4_8086_MODE: u8 = 0x01;

/// One byte for one port.
#[derive(Copy, Clone, Debug, PartialEq, Eq, Structural)]
pub struct PortWrite {
    pub port: u16,
    pub value: u8,
}

/// The write that waits.
pub open spec fn spec_io_wait() -> PortWrite {
    PortWrite { port: WAIT_PORT, value: 0 }
}

pub fn io_wait() -> (r: PortWrite)
    ensures
        r == spec_io_wait(),
{
    PortWrite { port: WAIT_PORT, value: 0 }
}

/// The writes that set both controllers up, in their order.
pub open spec fn spec_init_script() -> Seq<PortWrite> {
    seq![
        PortWrite { port: MASTER_COMMAND_PORT, value: 0x11 },
        spec_io_wait(),
        PortWrite { port: SLAVE_COMMAND_PORT, value: 0x11 },
        spec_io_wait(),
        PortWrite { port: MASTER_DATA_PORT, value: IRQ_OFFSET_MASTER },
        spec_io_wait(),
        PortWrite { port: SLAVE_DATA_PORT, value: IRQ_OFFSET_SLAVE },
        spec_io_wait(),
        PortWrite { port: MASTER_DATA_PORT, value: 4 },
        spec_io_wait(),
        PortWrite { port: SLAVE_DATA_PORT, value: 2 },
        spec_io_wait(),
        PortWrite { port: MASTER_DATA_PORT, value: ICW4_8086_MODE },
        spec_io_wait(),
        PortWrite { port: SLAVE_DATA_PORT, value: ICW4_8086_MODE },
        spec_io_wait(),
        PortWrite { port: MASTER_DATA_PORT, value: 0b1111_1111 },
        PortWrite { port: SLAVE_DATA_PORT, value: 0b1111_1111 },
    ]
}

/// What bring-up writes to the ports of the controllers: the command to
/// initialise, the vector offsets, how the two are wired, the mode, and the
/// masks that shut every interrupt out. Between the steps stands a write
/// that waits.
pub fn init() -> (r: Vec<PortWrite>)
    ensures
        r@ == spec_init_script(),
{
    let mut script: Vec<PortWrite> = Vec::new();
    proof {
        assert(0x10u8 | 0x01u8 == 0x11) by (bit_vector);
    }
    // 1. The command to initialise.
    script.push(PortWrite { port: MASTER_COMMAND_PORT, value: ICW1_INIT | ICW1_ICW4_REQUIRED });
    script.push(io_wait());
    script.push(PortWrite { port: SLAVE_COMMAND_PORT, value: ICW1_INIT | ICW1_ICW4_REQUIRED });
    script.push(io_wait());
    // 2. The vector offsets.
    script.push(PortWrite { port: MASTER_DATA_PORT, value: IRQ_OFFSET_MASTER });
    script.push(io_wait());
    script.push(PortWrite { port: SLAVE_DATA_PORT, value: IRQ_OFFSET_SLAVE });
    script.push(io_wait());
    // 3. How the two are wired: the slave hangs on line 2 of the master.
    script.push(PortWrite { port: MASTER_DATA_PORT, value: 4 });
    script.push(io_wait());
    script.push(PortWrite { port: SLAVE_DATA_PORT, value: 2 });
    script.push(io_wait());
    // 4. The mode.
    script.push(PortWrite { port: MASTER_DATA_PORT, value: ICW4_8086_MODE });
    script.push(io_wait());
    script.push(PortWrite { port: SLAVE_DATA_PORT, value: ICW4_8086_MODE });
    script.push(io_wait());
    // Every interrupt is shut out.
    script.push(PortWrite { port: MASTER_DATA_PORT, value: 0b1111_1111 });
    script.push(PortWrite { port: SLAVE_DATA_PORT, value: 0b1111_1111 });
    proof {
        assert(script@ =~= spec_init_script());
    }
    script
}

/// Puts the handler of the timer into the table.
pub fn set_handlers(idt: &mut InterruptDescriptorTable, timer_handler: Handler, segment_selector: u16)
    requires
        old(idt).wf(),
    ensures
        final(idt).wf(),
        final(idt)@ == old(idt)@.update(
            IRQ_NUMBER_TIMER as int,
            super::table::spec_entry(false, timer_handler.address, segment_selector),
        ),
{
    let _ = idt.set_handler(IRQ_NUMBER_TIMER, timer_handler, segment_selector);
}

/// The writes that end an interrupt: where it came through the slave, the
/// slave is told first, and the master in any case.
pub fn send_end_of_interrupt(irq: u8) -> (r: Vec<PortWrite>)
    ensures
        r@ == if IRQ_OFFSET_SLAVE <= irq {
            seq![
                PortWrite { port: SLAVE_COMMAND_PORT, value: END_OF_INTERRUPT },
                PortWrite { port: MASTER_COMMAND_PORT, value: END_OF_INTERRUPT },
            ]
        } else {
            seq![PortWrite { port: MASTER_COMMAND_PORT, value: END_OF_INTERRUPT }]
        },
{
    let mut script: Vec<PortWrite> = Vec::new();
    if IRQ_OFFSET_SLAVE <= irq {
        script.push(PortWrite { port: SLAVE_COMMAND_PORT, value: END_OF_INTERRUPT });
    }
    script.push(PortWrite { port: MASTER_COMMAND_PORT, value: END_OF_INTERRUPT });
    script
}

/// The write that lets the timer through and nothing else.
pub fn enable_timer_interrupt() -> (r: PortWrite)
    ensures
        r == (PortWrite { port: MASTER_DATA_PORT, value: 0b1111_1110 }),
{
    PortWrite { port: MASTER_DATA_PORT, value: 0b1111_1110 }
}


/// The tick of the timer: the scheduler has its turn, and the interrupt is
/// ended. Returns whether the context goes to user mode and the writes that
/// end the interrupt.
pub fn timer_handler(manager: &mut ProcessManager, frame: &mut InterruptFrame) -> (r: (bool, Vec<PortWrite>))
    requires
        old(manager).wf(),
    ensures
        final(manager).wf(),
        final(manager).processes@ == old(manager).processes@,
        r.0 == old(manager).has_pair(),
        r.0 ==> *final(frame) == (InterruptFrame {
            cs: thread::USER_CODE_SELECTOR,
            ss: thread::USER_DATA_SELECTOR,
            ..*old(frame)
        }),
        !r.0 ==> *final(frame) == *old(frame),
        r.1@ == seq![PortWrite { port: MASTER_COMMAND_PORT, value: END_OF_INTERRUPT }],
{
    let switched = thread::switch_context(manager, frame);
    (switched, send_end_of_interrupt(IRQ_NUMBER_TIMER))
}

} // verus!

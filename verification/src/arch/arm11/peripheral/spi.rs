//! The SPI0 controller and the ILI9340 display behind it.

use super::gpio::{set_pin_function, spec_pin_function, Function, Pin, RegisterUpdate};
use vstd::prelude::*;

verus! {

#[derive(Copy, Clone, Debug, PartialEq, Eq, Structural)]
pub enum Chip {
    Ce0,
    Ce1,
    Ce2,
}

/// The bits of `clobbered_mask` taken from `value`, the others from
/// `current_value`.
pub open spec fn spec_bitmask(current_value: u32, clobbered_mask: u32, value: u32) -> u32 {
    (current_value & !clobbered_mask) | (value & clobbered_mask)
}

pub fn bitmask(current_value: u32, clobbered_mask: u32, value: u32) -> (r: u32)
    ensures
        r == spec_bitmask(current_value, clobbered_mask, value),
{
    (current_value & !clobbered_mask) | (value & clobbered_mask)
}

/// The value of the control register that selects the chip: its two low
/// bits are the number of the chip.
pub fn select_chip(ce: Chip, current_config: u32) -> (r: u32)
    ensures
        r == spec_bitmask(
            current_config,
            0b11,
            match ce {
                Chip::Ce0 => 0b00u32,
                Chip::Ce1 => 0b01u32,
                Chip::Ce2 => 0b10u32,
            },
        ),
{
    let pattern: u32 = match ce {
        Chip::Ce0 => 0b00,
        Chip::Ce1 => 0b01,
        Chip::Ce2 => 0b10,
    };
    bitmask(current_config, 0b11, pattern)
}

/// One step of a transfer by polling.
#[derive(Copy, Clone, Debug, PartialEq, Eq, Structural)]
pub enum TransferStep {
    /// The queues are cleared and the transfer is made active.
    Begin,
    /// The control register is read until the send queue takes a byte.
    AwaitSend,
    /// The byte is written to the queue and the answer read from it.
    Exchange,
    /// The control register is read until the transfer is done.
    AwaitDone,
    /// The transfer is made inactive.
    End,
    /// Nothing is left to do.
    Finished,
}

/// The bit of the control register that says that the send queue takes a
/// byte.
pub const CS_TXD: u32 = 0x4_0000;

/// The bit of the control register that says that the transfer is done.
pub const CS_DONE: u32 = 0x1_0000;

/// The step that follows `step` when the control register reads `cs`: a
/// step that waits is left only when its bit is set.
pub fn spi_transfer(step: TransferStep, cs: u32) -> (r: TransferStep)
    ensures
        r == (match step {
            TransferStep::Begin => TransferStep::AwaitSend,
            TransferStep::AwaitSend => if cs & CS_TXD != 0 {
                TransferStep::Exchange
            } else {
                TransferStep::AwaitSend
            },
            TransferStep::Exchange => TransferStep::AwaitDone,
            TransferStep::AwaitDone => if cs & CS_DONE != 0 {
                TransferStep::End
            } else {
                TransferStep::AwaitDone
            },
            TransferStep::End => TransferStep::Finished,
            TransferStep::Finished => TransferStep::Finished,
        }),
{
    match step {
        TransferStep::Begin => TransferStep::AwaitSend,
        TransferStep::AwaitSend => if cs & CS_TXD != 0 {
            TransferStep::Exchange
        } else {
            TransferStep::AwaitSend
        },
        TransferStep::Exchange => TransferStep::AwaitDone,
        TransferStep::AwaitDone => if cs & CS_DONE != 0 {
            TransferStep::End
        } else {
            TransferStep::AwaitDone
        },
        TransferStep::End => TransferStep::Finished,
        TransferStep::Finished => TransferStep::Finished,
    }
}

/// What to send to the display.
#[derive(Copy, Clone, Debug, PartialEq, Eq, Structural)]
pub enum LcdStep {
    /// A command byte: the data and command pin is low.
    Command(u8),
    /// A data byte: the data and command pin is high.
    Data(u8),
    /// A pause of so many milliseconds.
    Wait(u64),
}

pub fn write_command(command: u8) -> (r: LcdStep)
    ensures
        r == LcdStep::Command(command),
{
    LcdStep::Command(command)
}

pub fn write_data(data: u8) -> (r: LcdStep)
    ensures
        r == LcdStep::Data(data),
{
    LcdStep::Data(data)
}

/// The reset and the settings of power, colour and frame rate.
pub open spec fn spec_settings() -> Seq<LcdStep> {
    seq![
        LcdStep::Command(0x01),
        LcdStep::Wait(5),
        LcdStep::Command(0x28),
        LcdStep::Command(0xC0),
        LcdStep::Data(0x23),
        LcdStep::Command(0xC1),
        LcdStep::Data(0x10),
        LcdStep::Command(0xC5),
        LcdStep::Data(0x3e),
        LcdStep::Data(0x28),
        LcdStep::Command(0xC7),
        LcdStep::Data(0x86),
        LcdStep::Command(0x3A),
        LcdStep::Data(0x55),
        LcdStep::Command(0xB1),
        LcdStep::Data(0x00),
        LcdStep::Data(0x18),
        LcdStep::Command(0xB6),
        LcdStep::Data(0x08),
        LcdStep::Data(0x82),
        LcdStep::Data(0x27),
        LcdStep::Command(0xF2),
        LcdStep::Data(0x00),
        LcdStep::Command(0x26),
        LcdStep::Data(0x01),
    ]
}

/// The reset and the settings of power, colour and frame rate.
pub fn settings() -> (r: Vec<LcdStep>)
    ensures
        r@ == spec_settings(),
{
    let mut steps: Vec<LcdStep> = Vec::new();
    steps.push(write_command(0x01));
    steps.push(LcdStep::Wait(5));
    steps.push(write_command(0x28));
    steps.push(write_command(0xC0));
    steps.push(write_data(0x23));
    steps.push(write_command(0xC1));
    steps.push(write_data(0x10));
    steps.push(write_command(0xC5));
    steps.push(write_data(0x3e));
    steps.push(write_data(0x28));
    steps.push(write_command(0xC7));
    steps.push(write_data(0x86));
    steps.push(write_command(0x3A));
    steps.push(write_data(0x55));
    steps.push(write_command(0xB1));
    steps.push(write_data(0x00));
    steps.push(write_data(0x18));
    steps.push(write_command(0xB6));
    steps.push(write_data(0x08));
    steps.push(write_data(0x82));
    steps.push(write_data(0x27));
    steps.push(write_command(0xF2));
    steps.push(write_data(0x00));
    steps.push(write_command(0x26));
    steps.push(write_data(0x01));
    proof {
        assert(steps@ =~= spec_settings());
    }
    steps
}

/// The table of the positive gamma correction.
pub open spec fn spec_positive_gamma() -> Seq<LcdStep> {
    seq![
        LcdStep::Command(0xE0),
        LcdStep::Data(0x0F),
        LcdStep::Data(0x31),
        LcdStep::Data(0x2B),
        LcdStep::Data(0x0C),
        LcdStep::Data(0x0E),
        LcdStep::Data(0x08),
        LcdStep::Data(0x4E),
        LcdStep::Data(0xF1),
        LcdStep::Data(0x37),
        LcdStep::Data(0x07),
        LcdStep::Data(0x10),
        LcdStep::Data(0x03),
        LcdStep::Data(0x0E),
        LcdStep::Data(0x09),
        LcdStep::Data(0x00),
    ]
}

/// The table of the positive gamma correction.
pub fn positive_gamma() -> (r: Vec<LcdStep>)
    ensures
        r@ == spec_positive_gamma(),
{
    let mut steps: Vec<LcdStep> = Vec::new();
    steps.push(write_command(0xE0));
    steps.push(write_data(0x0F));
    steps.push(write_data(0x31));
    steps.push(write_data(0x2B));
    steps.push(write_data(0x0C));
    steps.push(write_data(0x0E));
    steps.push(write_data(0x08));
    steps.push(write_data(0x4E));
    steps.push(write_data(0xF1));
    steps.push(write_data(0x37));
    steps.push(write_data(0x07));
    steps.push(write_data(0x10));
    steps.push(write_data(0x03));
    steps.push(write_data(0x0E));
    steps.push(write_data(0x09));
    steps.push(write_data(0x00));
    proof {
        assert(steps@ =~= spec_positive_gamma());
    }
    steps
}

/// The table of the negative gamma correction.
pub open spec fn spec_negative_gamma() -> Seq<LcdStep> {
    seq![
        LcdStep::Command(0xE1),
        LcdStep::Data(0x00),
        LcdStep::Data(0x0E),
        LcdStep::Data(0x14),
        LcdStep::Data(0x03),
        LcdStep::Data(0x11),
        LcdStep::Data(0x07),
        LcdStep::Data(0x31),
        LcdStep::Data(0xC1),
        LcdStep::Data(0x48),
        LcdStep::Data(0x08),
        LcdStep::Data(0x0F),
        LcdStep::Data(0x0C),
        LcdStep::Data(0x31),
        LcdStep::Data(0x36),
        LcdStep::Data(0x0F),
    ]
}

/// The table of the negative gamma correction.
pub fn negative_gamma() -> (r: Vec<LcdStep>)
    ensures
        r@ == spec_negative_gamma(),
{
    let mut steps: Vec<LcdStep> = Vec::new();
    steps.push(write_command(0xE1));
    steps.push(write_data(0x00));
    steps.push(write_data(0x0E));
    steps.push(write_data(0x14));
    steps.push(write_data(0x03));
    steps.push(write_data(0x11));
    steps.push(write_data(0x07));
    steps.push(write_data(0x31));
    steps.push(write_data(0xC1));
    steps.push(write_data(0x48));
    steps.push(write_data(0x08));
    steps.push(write_data(0x0F));
    steps.push(write_data(0x0C));
    steps.push(write_data(0x31));
    steps.push(write_data(0x36));
    steps.push(write_data(0x0F));
    proof {
        assert(steps@ =~= spec_negative_gamma());
    }
    steps
}

/// The display leaves sleep and is switched on.
pub open spec fn spec_switch_on() -> Seq<LcdStep> {
    seq![
        LcdStep::Command(0x11),
        LcdStep::Wait(1000),
        LcdStep::Command(0x29),
        LcdStep::Wait(1000),
    ]
}

/// The display leaves sleep and is switched on.
pub fn switch_on() -> (r: Vec<LcdStep>)
    ensures
        r@ == spec_switch_on(),
{
    let mut steps: Vec<LcdStep> = Vec::new();
    steps.push(write_command(0x11));
    steps.push(LcdStep::Wait(1000));
    steps.push(write_command(0x29));
    steps.push(LcdStep::Wait(1000));
    proof {
        assert(steps@ =~= spec_switch_on());
    }
    steps
}

/// The steps that bring the display up.
pub open spec fn spec_init_lcd() -> Seq<LcdStep> {
    spec_settings() + spec_positive_gamma() + spec_negative_gamma() + spec_switch_on()
}

/// The steps that bring the display up: reset, power and colour settings,
/// the two gamma tables, and the display switched on.
pub fn init_lcd() -> (r: Vec<LcdStep>)
    ensures
        r@ == spec_init_lcd(),
{
    let mut steps = settings();
    let mut more = positive_gamma();
    steps.append(&mut more);
    let mut more = negative_gamma();
    steps.append(&mut more);
    let mut more = switch_on();
    steps.append(&mut more);
    steps
}

/// The steps that draw one pixel of the colour `c` at the column `x` and
/// the row `y`: the range of columns, the range of rows, and the colour,
/// each value as its high and its low byte.
pub fn draw(x: u16, y: u16, c: u16) -> (r: Vec<LcdStep>)
    requires
        x < u16::MAX,
        y < u16::MAX,
    ensures
        r@ == seq![
            LcdStep::Command(0x2A),
            LcdStep::Data((x / 256) as u8),
            LcdStep::Data((x % 256) as u8),
            LcdStep::Data(((x + 1) / 256) as u8),
            LcdStep::Data(((x + 1) % 256) as u8),
            LcdStep::Command(0x2B),
            LcdStep::Data((y / 256) as u8),
            LcdStep::Data((y % 256) as u8),
            LcdStep::Data(((y + 1) / 256) as u8),
            LcdStep::Data(((y + 1) % 256) as u8),
            LcdStep::Command(0x2C),
            LcdStep::Data((c / 256) as u8),
            LcdStep::Data((c % 256) as u8),
        ],
{
    let mut x = x;
    let mut y = y;
    let ghost x0 = x;
    let ghost y0 = y;
    proof {
        assert forall|v: u16| (#[trigger] (v >> 8)) == v / 256 && (v & 0xFF) == v % 256 by {
            assert((v >> 8) == v / 256 && (v & 0xFF) == v % 256) by (bit_vector);
        }
    }
    let mut steps: Vec<LcdStep> = Vec::new();
    steps.push(write_command(0x2A));
    steps.push(write_data((x >> 8) as u8));
    steps.push(write_data((x & 0xFF) as u8));
    x += 1;
    steps.push(write_data((x >> 8) as u8));
    steps.push(write_data((x & 0xFF) as u8));

    steps.push(write_command(0x2B));
    steps.push(write_data((y >> 8) as u8));
    steps.push(write_data((y & 0xFF) as u8));
    y += 1;
    steps.push(write_data((y >> 8) as u8));
    steps.push(write_data((y & 0xFF) as u8));

    steps.push(write_command(0x2C));
    steps.push(write_data((c >> 8) as u8));
    steps.push(write_data((c & 0xFF) as u8));
    steps
}

/// The changes that give the pins of the display their functions: the
/// chip select, the data out and the clock go to SPI0, and the data and
/// command pin is an output.
pub fn init_spi0() -> (r: Vec<RegisterUpdate>)
    ensures
        r@ == seq![
            spec_pin_function(Pin::Spi0Ce0N, Function::Alternate0),
            spec_pin_function(Pin::Spi0Mosi, Function::Alternate0),
            spec_pin_function(Pin::Spi0Sclk, Function::Alternate0),
            spec_pin_function(Pin::Ili9340Dc, Function::Output),
        ],
{
    let mut updates: Vec<RegisterUpdate> = Vec::new();
    updates.push(set_pin_function(Pin::Spi0Ce0N, Function::Alternate0));
    updates.push(set_pin_function(Pin::Spi0Mosi, Function::Alternate0));
    updates.push(set_pin_function(Pin::Spi0Sclk, Function::Alternate0));
    updates.push(set_pin_function(Pin::Ili9340Dc, Function::Output));
    updates
}

} // verus!

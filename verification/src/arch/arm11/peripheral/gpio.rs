//! The GPIO pins.

use super::addr::{Addr, GPIO_BASE};
use vstd::prelude::*;

verus! {

#[derive(Copy, Clone, Debug, PartialEq, Eq, Structural)]
pub enum Function {
    Input,
    Output,
    Alternate0,
    Alternate1,
    Alternate2,
    Alternate3,
    Alternate4,
    Alternate5,
}

#[allow(non_camel_case_types)]
#[derive(Copy, Clone, Debug, PartialEq, Eq, Structural)]
pub enum Output {
    CLEAR,
    SET,
}

#[derive(Copy, Clone, Debug, PartialEq, Eq, Structural)]
pub enum Pin {
    OkLed,
    Spi0Ce1N,
    Spi0Ce0N,
    Spi0Miso,
    Spi0Mosi,
    Spi0Sclk,
    /// The data and command pin of the ILI9340 display.
    Ili9340Dc,
    /// The reset pin of the ILI9340 display.
    Ili9340Rst,
}

/// The three bits that select a function.
pub open spec fn spec_function_bits(func: Function) -> u32 {
    match func {
        Function::Input => 0b000,
        Function::Output => 0b001,
        Function::Alternate0 => 0b100,
        Function::Alternate1 => 0b101,
        Function::Alternate2 => 0b110,
        Function::Alternate3 => 0b111,
        Function::Alternate4 => 0b011,
        Function::Alternate5 => 0b010,
    }
}

/// The number of a pin.
pub open spec fn spec_pin_number(pin: Pin) -> usize {
    match pin {
        Pin::OkLed => 47,
        Pin::Spi0Ce1N => 7,
        Pin::Spi0Ce0N => 8,
        Pin::Spi0Miso => 9,
        Pin::Spi0Mosi => 10,
        Pin::Spi0Sclk => 11,
        Pin::Ili9340Dc => 25,
        Pin::Ili9340Rst => 18,
    }
}

impl Function {
    pub fn bits(self) -> (r: u32)
        ensures
            r == spec_function_bits(self),
    {
        match self {
            Function::Input => 0b000,
            Function::Output => 0b001,
            Function::Alternate0 => 0b100,
            Function::Alternate1 => 0b101,
            Function::Alternate2 => 0b110,
            Function::Alternate3 => 0b111,
            Function::Alternate4 => 0b011,
            Function::Alternate5 => 0b010,
        }
    }
}

impl Pin {
    pub fn number(self) -> (r: usize)
        ensures
            r == spec_pin_number(self),
    {
        match self {
            Pin::OkLed => 47,
            Pin::Spi0Ce1N => 7,
            Pin::Spi0Ce0N => 8,
            Pin::Spi0Miso => 9,
            Pin::Spi0Mosi => 10,
            Pin::Spi0Sclk => 11,
            Pin::Ili9340Dc => 25,
            Pin::Ili9340Rst => 18,
        }
    }
}

/// A change of a register: the bits of `mask` become those of `value`, and
/// the other bits stay.
#[derive(Copy, Clone, Debug, PartialEq, Eq, Structural)]
pub struct RegisterUpdate {
    pub address: usize,
    pub mask: u32,
    pub value: u32,
}

impl RegisterUpdate {
    /// The value of the register after the change.
    pub open spec fn spec_apply(self, current: u32) -> u32 {
        (current & !self.mask) | self.value
    }

    pub fn apply(&self, current: u32) -> (r: u32)
        ensures
            r == self.spec_apply(current),
    {
        (current & !self.mask) | self.value
    }
}

/// The change that gives the pin its function.
pub open spec fn spec_pin_function(pin: Pin, func: Function) -> RegisterUpdate {
    RegisterUpdate {
        address: (GPIO_BASE + (spec_pin_number(pin) / 10) * 4) as usize,
        mask: 7u32 << ((3 * (spec_pin_number(pin) % 10)) as u32),
        value: spec_function_bits(func) << ((3 * (spec_pin_number(pin) % 10)) as u32),
    }
}

/// The change that gives the pin its function: each function select
/// register holds the functions of ten pins, three bits for each.
pub fn set_pin_function(pin: Pin, func: Function) -> (r: RegisterUpdate)
    ensures
        r == spec_pin_function(pin, func),
{
    let pin_number = pin.number();
    let gpf_sel_number = pin_number / 10;
    let gpf_sel_addr = Addr::GpioBase.to_usize() + (gpf_sel_number * 0x4);
    let shift = (3 * (pin_number % 10)) as u32;
    let set_value = func.bits() << shift;
    RegisterUpdate { address: gpf_sel_addr, mask: 7u32 << shift, value: set_value }
}

/// The change that sets or clears the output of the pin: the set and the
/// clear registers hold one bit for each of 32 pins.
pub fn write_output_pin(pin: Pin, mode: Output) -> (r: RegisterUpdate)
    ensures
        r.address == (if spec_pin_number(pin) <= 31 {
            match mode {
                Output::SET => GPIO_BASE + 0x1C,
                Output::CLEAR => GPIO_BASE + 0x28,
            }
        } else {
            match mode {
                Output::SET => GPIO_BASE + 0x20,
                Output::CLEAR => GPIO_BASE + 0x2C,
            }
        }),
        r.mask == 1u32 << ((spec_pin_number(pin) % 32) as u32),
        r.value == r.mask,
{
    let pin_number = pin.number();
    let reg_addr = if pin_number <= 31 {
        match mode {
            Output::SET => Addr::GpioGpSet0.to_usize(),
            Output::CLEAR => Addr::GpioGpClr0.to_usize(),
        }
    } else {
        match mode {
            Output::SET => Addr::GpioGpSet1.to_usize(),
            Output::CLEAR => Addr::GpioGpClr1.to_usize(),
        }
    };
    let shift = (pin_number % 32) as u32;
    RegisterUpdate { address: reg_addr, mask: 1u32 << shift, value: 1u32 << shift }
}

} // verus!

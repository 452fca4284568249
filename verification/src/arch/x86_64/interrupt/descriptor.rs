//! The entries of the interrupt descriptor table.

use super::handler::{Handler, HandlerWithErrorCode};
use core::marker::PhantomData;
use vstd::prelude::*;

verus! {

/// The flags of a descriptor, from the lowest bit: three bits of interrupt
/// stack table index, five reserved bits, four bits of gate type, one
/// reserved bit, two bits of privilege level, and the present bit.
#[derive(Copy, Clone, Debug, PartialEq, Eq, Structural)]
pub struct Flags(pub u16);

pub type DescriptorType = u16;

pub const INTERRUPT_GATE: DescriptorType = 0b1110;

pub const TRAP_GATE: DescriptorType = 0b1111;

pub proof fn lemma_flags_fields(w: u16, v: u16)
    by (bit_vector)
    ensures
        w & 0x7 == w % 8,
        (w >> 8) & 0xf == (w / 0x100) % 0x10,
        (w >> 13) & 0x3 == (w / 0x2000) % 4,
        (w & 0x8000 != 0) == (w >= 0x8000),
        ((w & !0x7u16) | (v & 0x7)) % 8 == v % 8,
        ((w & !0x7u16) | (v & 0x7)) / 8 == w / 8,
        (((w & !0xf00u16) | ((v & 0xf) << 8)) / 0x100) % 0x10 == v % 0x10,
        ((w & !0xf00u16) | ((v & 0xf) << 8)) % 0x100 == w % 0x100,
        ((w & !0xf00u16) | ((v & 0xf) << 8)) / 0x1000 == w / 0x1000,
        (((w & !0x6000u16) | ((v & 0x3) << 13)) / 0x2000) % 4 == v % 4,
        ((w & !0x6000u16) | ((v & 0x3) << 13)) % 0x2000 == w % 0x2000,
        ((w & !0x6000u16) | ((v & 0x3) << 13)) / 0x8000 == w / 0x8000,
        (w | 0x8000) >= 0x8000,
        (w | 0x8000) % 0x8000 == w % 0x8000,
        (w & 0x7fff) < 0x8000,
        (w & 0x7fff) % 0x8000 == w % 0x8000,
{
}

impl Flags {
    pub open spec fn spec_interrupt_stack_table(self) -> int {
        self.0 as int % 8
    }

    pub open spec fn spec_descriptor_type(self) -> int {
        (self.0 as int / 0x100) % 0x10
    }

    pub open spec fn spec_privilege_level(self) -> int {
        (self.0 as int / 0x2000) % 4
    }

    pub open spec fn spec_present(self) -> bool {
        self.0 >= 0x8000
    }

    pub fn interrupt_stack_table(&self) -> (r: u16)
        ensures
            r == self.spec_interrupt_stack_table(),
    {
        proof {
            lemma_flags_fields(self.0, 0);
        }
        self.0 & 0x7
    }

    /// Sets the index to the low three bits of `value`; the other bits stay.
    pub fn set_interrupt_stack_table(&mut self, value: u16)
        ensures
            final(self).spec_interrupt_stack_table() == value % 8,
            final(self).0 / 8 == old(self).0 / 8,
    {
        proof {
            lemma_flags_fields(self.0, value);
        }
        self.0 = (self.0 & !0x7u16) | (value & 0x7);
    }

    pub fn descriptor_type(&self) -> (r: DescriptorType)
        ensures
            r == self.spec_descriptor_type(),
    {
        proof {
            lemma_flags_fields(self.0, 0);
        }
        (self.0 >> 8) & 0xf
    }

    /// Sets the type of gate to the low four bits of `value`; the other bits
    /// stay.
    pub fn set_descriptor_type(&mut self, value: DescriptorType)
        ensures
            final(self).spec_descriptor_type() == value % 0x10,
            final(self).0 % 0x100 == old(self).0 % 0x100,
            final(self).0 / 0x1000 == old(self).0 / 0x1000,
    {
        proof {
            lemma_flags_fields(self.0, value);
        }
        self.0 = (self.0 & !0xf00u16) | ((value & 0xf) << 8);
    }

    pub fn privilege_level(&self) -> (r: u16)
        ensures
            r == self.spec_privilege_level(),
    {
        proof {
            lemma_flags_fields(self.0, 0);
        }
        (self.0 >> 13) & 0x3
    }

    /// Sets the privilege level to the low two bits of `value`; the other
    /// bits stay.
    pub fn set_privilege_level(&mut self, value: u16)
        ensures
            final(self).spec_privilege_level() == value % 4,
            final(self).0 % 0x2000 == old(self).0 % 0x2000,
            final(self).0 / 0x8000 == old(self).0 / 0x8000,
    {
        proof {
            lemma_flags_fields(self.0, value);
        }
        self.0 = (self.0 & !0x6000u16) | ((value & 0x3) << 13);
    }

    pub fn present(&self) -> (r: bool)
        ensures
            r == self.spec_present(),
    {
        proof {
            lemma_flags_fields(self.0, 0);
        }
        self.0 & 0x8000 != 0
    }

    pub fn set_present(&mut self, value: bool)
        ensures
            final(self).spec_present() == value,
            final(self).0 % 0x8000 == old(self).0 % 0x8000,
    {
        proof {
            lemma_flags_fields(self.0, 0);
        }
        if value {
            self.0 = self.0 | 0x8000;
        } else {
            self.0 = self.0 & 0x7fff;
        }
    }
}

/// The flags of every descriptor that this kernel builds: present, a trap
/// gate, privilege level 0, no interrupt stack.
pub const TRAP_GATE_FLAGS: u16 = 0x8F00;

/// An entry of the interrupt descriptor table. The type parameter is the
/// kind of handler that the entry's vector calls.
#[derive(Debug)]
pub struct Descriptor<T> {
    pub offset_low: u16,
    pub segment_selector: u16,
    pub flags: Flags,
    pub offset_middle: u16,
    pub offset_high: u32,
    pub reserved: u32,
    pub phantom: PhantomData<T>,
}

impl<T> Clone for Descriptor<T> {
    fn clone(&self) -> (r: Self)
        ensures
            r == *self,
    {
        Descriptor {
            offset_low: self.offset_low,
            segment_selector: self.segment_selector,
            flags: self.flags,
            offset_middle: self.offset_middle,
            offset_high: self.offset_high,
            reserved: self.reserved,
            phantom: PhantomData,
        }
    }
}

impl<T> Copy for Descriptor<T> {

}

pub proof fn lemma_parse_addr(addr: u64)
    by (bit_vector)
    ensures
        (addr & 0xFFFF) == addr % 0x1_0000,
        ((addr >> 16) & 0xFFFF) == (addr / 0x1_0000) % 0x1_0000,
        ((addr >> 32) & 0xFFFF_FFFF) == addr / 0x1_0000_0000,
        (addr & 0xFFFF) <= 0xFFFF,
        ((addr >> 16) & 0xFFFF) <= 0xFFFF,
        ((addr >> 32) & 0xFFFF_FFFF) <= 0xFFFF_FFFF,
{
}

pub proof fn lemma_encode(low: u16, selector: u16, flags: u16, middle: u16, high: u32, reserved: u32)
    by (bit_vector)
    ensures
        (low as u64) | ((selector as u64) << 16) | ((flags as u64) << 32) | ((middle as u64) << 48)
            == low + selector * 0x1_0000 + flags * 0x1_0000_0000 + middle * 0x1_0000_0000_0000,
        (high as u64) | ((reserved as u64) << 32) == high + reserved * 0x1_0000_0000,
{
}

impl<T> Descriptor<T> {
    /// The address of the handler that the descriptor points to.
    pub open spec fn spec_handler_address(self) -> int {
        self.offset_low + self.offset_middle * 0x1_0000 + self.offset_high * 0x1_0000_0000
    }

    /// The descriptor of a trap gate for the handler at `handler_address`,
    /// present, of privilege level 0, in the given code segment.
    pub fn new(handler_address: u64, segment_selector: u16) -> (r: Descriptor<T>)
        ensures
            r.spec_handler_address() == handler_address,
            r.segment_selector == segment_selector,
            r.flags == Flags(TRAP_GATE_FLAGS),
            r.flags.spec_present(),
            r.flags.spec_descriptor_type() == TRAP_GATE,
            r.flags.spec_privilege_level() == 0,
            r.flags.spec_interrupt_stack_table() == 0,
            r.reserved == 0,
    {
        let (offset_low, offset_middle, offset_high) = Self::parse_addr(handler_address);
        let mut flags = Flags(0);
        flags.set_present(true);
        flags.set_descriptor_type(TRAP_GATE);
        proof {
            assert(((0u16 | 0x8000) & !0xf00u16) | ((0b1111u16 & 0xf) << 8) == 0x8F00) by (bit_vector);
        }
        Descriptor {
            offset_low,
            segment_selector,
            flags,
            offset_middle,
            offset_high,
            reserved: 0,
            phantom: PhantomData,
        }
    }

    /// The three parts of an address: its low 16 bits, the next 16 bits and
    /// the high 32 bits.
    pub fn parse_addr(addr: u64) -> (r: (u16, u16, u32))
        ensures
            r.0 == addr % 0x1_0000,
            r.1 == (addr / 0x1_0000) % 0x1_0000,
            r.2 == addr / 0x1_0000_0000,
            r.0 + r.1 * 0x1_0000 + r.2 * 0x1_0000_0000 == addr,
    {
        proof {
            lemma_parse_addr(addr);
        }
        ((addr & 0xFFFF) as u16, ((addr >> 16) & 0xFFFF) as u16, ((addr >> 32) & 0xFFFFFFFF) as u32)
    }

    /// The sixteen bytes of the descriptor as the processor reads them, as
    /// two words.
    pub fn encode(&self) -> (r: (u64, u64))
        ensures
            r.0 == self.offset_low + self.segment_selector * 0x1_0000 + self.flags.0 * 0x1_0000_0000
                + self.offset_middle * 0x1_0000_0000_0000,
            r.1 == self.offset_high + self.reserved * 0x1_0000_0000,
    {
        proof {
            lemma_encode(
                self.offset_low,
                self.segment_selector,
                self.flags.0,
                self.offset_middle,
                self.offset_high,
                self.reserved,
            );
        }
        (
            (self.offset_low as u64) | ((self.segment_selector as u64) << 16) | ((self.flags.0 as u64)
                << 32) | ((self.offset_middle as u64) << 48),
            (self.offset_high as u64) | ((self.reserved as u64) << 32),
        )
    }
}

impl Descriptor<Handler> {
    pub fn with_handler(handler: Handler, segment_selector: u16) -> (r: Descriptor<Handler>)
        ensures
            r.spec_handler_address() == handler.address,
            r.segment_selector == segment_selector,
            r.flags == Flags(TRAP_GATE_FLAGS),
            r.reserved == 0,
    {
        Descriptor::new(handler.address, segment_selector)
    }
}

impl Descriptor<HandlerWithErrorCode> {
    pub fn with_handler_with_error_code(handler: HandlerWithErrorCode, segment_selector: u16) -> (r:
        Descriptor<HandlerWithErrorCode>)
        ensures
            r.spec_handler_address() == handler.address,
            r.segment_selector == segment_selector,
            r.flags == Flags(TRAP_GATE_FLAGS),
            r.reserved == 0,
    {
        Descriptor::new(handler.address, segment_selector)
    }
}

} // verus!

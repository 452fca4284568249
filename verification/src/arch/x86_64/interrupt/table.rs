//! The interrupt descriptor table: 256 entries, one for each vector.

use super::descriptor::{Descriptor, Flags, TRAP_GATE_FLAGS};
use super::handler::{Handler, HandlerWithErrorCode};
use crate::memory::address::VirtualAddress;
use vstd::prelude::*;

verus! {

/// The number of vectors.
pub const VECTORS: usize = 256;

/// The number of bytes of the table.
pub const TABLE_BYTES: usize = 16 * 256;

/// What the processor is told of the table: its last byte's offset and its
/// address.
#[derive(Copy, Clone, Debug, PartialEq, Eq, Structural)]
pub struct InterruptDescriptorTableRegister {
    pub limit: u16,
    pub base: u64,
}

/// What the table holds for one vector.
pub struct Entry {
    /// The vector's handler takes an error code.
    pub with_error_code: bool,
    pub handler_address: int,
    pub segment_selector: u16,
    pub flags: Flags,
    pub reserved: u32,
}

/// The entry that a freshly built trap gate makes.
pub open spec fn spec_entry(with_error_code: bool, handler_address: u64, segment_selector: u16) -> Entry {
    Entry {
        with_error_code,
        handler_address: handler_address as int,
        segment_selector,
        flags: Flags(TRAP_GATE_FLAGS),
        reserved: 0,
    }
}

/// Whether the processor pushes an error code for the vector.
pub open spec fn pushes_error_code(vector: int) -> bool {
    vector == 8 || (10 <= vector <= 14) || vector == 17
}

/// The entry of a vector that is not present.
pub open spec fn spec_absent(with_error_code: bool) -> Entry {
    Entry { with_error_code, handler_address: 0, segment_selector: 0, flags: Flags(0), reserved: 0 }
}

pub open spec fn entry_of<T>(d: Descriptor<T>, with_error_code: bool) -> Entry {
    Entry {
        with_error_code,
        handler_address: d.spec_handler_address(),
        segment_selector: d.segment_selector,
        flags: d.flags,
        reserved: d.reserved,
    }
}

pub struct InterruptDescriptorTable {
    pub divide_error_exception: Descriptor<Handler>,
    pub debug: Descriptor<Handler>,
    pub nonmaskable: Descriptor<Handler>,
    pub breakpoint: Descriptor<Handler>,
    pub overflow: Descriptor<Handler>,
    pub bound_range_exceeded: Descriptor<Handler>,
    pub invalid_opcode: Descriptor<Handler>,
    pub device_not_available: Descriptor<Handler>,
    pub double_fault: Descriptor<HandlerWithErrorCode>,
    pub coprocessor_segment_overrun: Descriptor<Handler>,
    pub invalid_tss: Descriptor<HandlerWithErrorCode>,
    pub segment_not_present: Descriptor<HandlerWithErrorCode>,
    pub stack_segment_not_present: Descriptor<HandlerWithErrorCode>,
    pub general_protection: Descriptor<HandlerWithErrorCode>,
    pub page_fault: Descriptor<HandlerWithErrorCode>,
    pub reserved: Descriptor<Handler>,
    pub x87_pfu_floting_point_error: Descriptor<Handler>,
    pub alignment_check_exception: Descriptor<HandlerWithErrorCode>,
    pub machine_check_exception: Descriptor<Handler>,
    pub simd_floating_point_exception: Descriptor<Handler>,
    pub virtualization_exception: Descriptor<Handler>,
    pub reserveds: Vec<Descriptor<Handler>>,
    pub user_defined_interrupts: Vec<Descriptor<Handler>>,
}

impl View for InterruptDescriptorTable {
    type V = Seq<Entry>;

    /// The entries by vector.
    open spec fn view(&self) -> Seq<Entry> {
        Seq::new(
            VECTORS as nat,
            |v: int|
                if v == 0 {
                    entry_of(self.divide_error_exception, false)
                } else if v == 1 {
                    entry_of(self.debug, false)
                } else if v == 2 {
                    entry_of(self.nonmaskable, false)
                } else if v == 3 {
                    entry_of(self.breakpoint, false)
                } else if v == 4 {
                    entry_of(self.overflow, false)
                } else if v == 5 {
                    entry_of(self.bound_range_exceeded, false)
                } else if v == 6 {
                    entry_of(self.invalid_opcode, false)
                } else if v == 7 {
                    entry_of(self.device_not_available, false)
                } else if v == 8 {
                    entry_of(self.double_fault, true)
                } else if v == 9 {
                    entry_of(self.coprocessor_segment_overrun, false)
                } else if v == 10 {
                    entry_of(self.invalid_tss, true)
                } else if v == 11 {
                    entry_of(self.segment_not_present, true)
                } else if v == 12 {
                    entry_of(self.stack_segment_not_present, true)
                } else if v == 13 {
                    entry_of(self.general_protection, true)
                } else if v == 14 {
                    entry_of(self.page_fault, true)
                } else if v == 15 {
                    entry_of(self.reserved, false)
                } else if v == 16 {
                    entry_of(self.x87_pfu_floting_point_error, false)
                } else if v == 17 {
                    entry_of(self.alignment_check_exception, true)
                } else if v == 18 {
                    entry_of(self.machine_check_exception, false)
                } else if v == 19 {
                    entry_of(self.simd_floating_point_exception, false)
                } else if v == 20 {
                    entry_of(self.virtualization_exception, false)
                } else if v < 32 {
                    entry_of(self.reserveds@[v - 21], false)
                } else {
                    entry_of(self.user_defined_interrupts@[v - 32], false)
                },
        )
    }
}

impl InterruptDescriptorTable {
    /// The table has its 11 reserved and its 224 free vectors.
    pub open spec fn wf(&self) -> bool {
        &&& self.reserveds@.len() == 11
        &&& self.user_defined_interrupts@.len() == 224
    }

    /// A table in which no vector is present: every entry is zero.
    pub fn empty() -> (r: InterruptDescriptorTable)
        ensures
            r.wf(),
            forall|v: int| 0 <= v < VECTORS ==> #[trigger] r@[v] == spec_absent(pushes_error_code(v)),
            forall|v: int| 0 <= v < VECTORS ==> !(#[trigger] r@[v]).flags.spec_present(),
    {
        let plain = Self::absent::<Handler>();
        let coded = Self::absent::<HandlerWithErrorCode>();
        let reserveds = Self::filled(plain, 11);
        let user_defined_interrupts = Self::filled(plain, 224);
        InterruptDescriptorTable {
            divide_error_exception: plain,
            debug: plain,
            nonmaskable: plain,
            breakpoint: plain,
            overflow: plain,
            bound_range_exceeded: plain,
            invalid_opcode: plain,
            device_not_available: plain,
            double_fault: coded,
            coprocessor_segment_overrun: plain,
            invalid_tss: coded,
            segment_not_present: coded,
            stack_segment_not_present: coded,
            general_protection: coded,
            page_fault: coded,
            reserved: plain,
            x87_pfu_floting_point_error: plain,
            alignment_check_exception: coded,
            machine_check_exception: plain,
            simd_floating_point_exception: plain,
            virtualization_exception: plain,
            reserveds,
            user_defined_interrupts,
        }
    }

    fn absent<T>() -> (r: Descriptor<T>)
        ensures
            r.flags == Flags(0),
            forall|w: bool| #[trigger] entry_of(r, w) == spec_absent(w),
    {
        Descriptor {
            offset_low: 0,
            segment_selector: 0,
            flags: Flags(0),
            offset_middle: 0,
            offset_high: 0,
            reserved: 0,
            phantom: core::marker::PhantomData,
        }
    }

    /// Puts the default handler into every vector, for each vector the one
    /// of its kind.
    pub fn init(
        &mut self,
        default_handler: Handler,
        default_handler_with_error_code: HandlerWithErrorCode,
        segment_selector: u16,
    )
        requires
            old(self).wf(),
        ensures
            final(self).wf(),
            forall|v: int|
                0 <= v < VECTORS ==> #[trigger] final(self)@[v] == spec_entry(
                    pushes_error_code(v),
                    if pushes_error_code(v) {
                        default_handler_with_error_code.address
                    } else {
                        default_handler.address
                    },
                    segment_selector,
                ),
    {
        let plain = Descriptor::with_handler(default_handler, segment_selector);
        let coded = Descriptor::with_handler_with_error_code(
            default_handler_with_error_code,
            segment_selector,
        );
        self.divide_error_exception = plain;
        self.debug = plain;
        self.nonmaskable = plain;
        self.breakpoint = plain;
        self.overflow = plain;
        self.bound_range_exceeded = plain;
        self.invalid_opcode = plain;
        self.device_not_available = plain;
        self.double_fault = coded;
        self.coprocessor_segment_overrun = plain;
        self.invalid_tss = coded;
        self.segment_not_present = coded;
        self.stack_segment_not_present = coded;
        self.general_protection = coded;
        self.page_fault = coded;
        self.reserved = plain;
        self.x87_pfu_floting_point_error = plain;
        self.alignment_check_exception = coded;
        self.machine_check_exception = plain;
        self.simd_floating_point_exception = plain;
        self.virtualization_exception = plain;
        self.reserveds = Self::filled(plain, 11);
        self.user_defined_interrupts = Self::filled(plain, 224);
    }

    /// `count` copies of the descriptor.
    fn filled(d: Descriptor<Handler>, count: usize) -> (r: Vec<Descriptor<Handler>>)
        ensures
            r@.len() == count,
            forall|k: int| 0 <= k < count ==> #[trigger] r@[k] == d,
    {
        let mut v: Vec<Descriptor<Handler>> = Vec::new();
        let mut i: usize = 0;
        while i < count
            invariant
                i <= count,
                v@.len() == i,
                forall|k: int| 0 <= k < i ==> #[trigger] v@[k] == d,
            decreases count - i,
        {
            v.push(d);
            i += 1;
        }
        v
    }

    /// Puts a handler into one of the free vectors, those from 32 on.
    /// Returns whether the vector is one of them; the table stays as it is
    /// where it is not.
    pub fn set_handler(&mut self, vector: u8, handler: Handler, segment_selector: u16) -> (r: bool)
        requires
            old(self).wf(),
        ensures
            final(self).wf(),
            r == (vector >= 32),
            r ==> final(self)@ == old(self)@.update(
                vector as int,
                spec_entry(false, handler.address, segment_selector),
            ),
            !r ==> final(self)@ == old(self)@,
    {
        if vector < 32 {
            return false;
        }
        let d = Descriptor::with_handler(handler, segment_selector);
        self.user_defined_interrupts[(vector - 32) as usize] = d;
        proof {
            assert(self@ =~= old(self)@.update(
                vector as int,
                spec_entry(false, handler.address, segment_selector),
            ));
        }
        true
    }

    /// What the processor has to be told to use the table, which stands at
    /// `base`. The caller loads it.
    pub fn load(&self, base: VirtualAddress) -> (r: InterruptDescriptorTableRegister)
        ensures
            r.limit == TABLE_BYTES - 1,
            r.base == base@,
    {
        InterruptDescriptorTableRegister { limit: (TABLE_BYTES - 1) as u16, base: base.0 }
    }
}


/// The two words of an entry as the processor reads them: the low 16 bits
/// of the address, the selector, the flags and the next 16 bits of the
/// address in the first, the high 32 bits of the address and the reserved
/// bits in the second.
pub open spec fn spec_words(e: Entry) -> (int, int) {
    (
        e.handler_address % 0x1_0000 + e.segment_selector * 0x1_0000 + e.flags.0 * 0x1_0000_0000 + ((
        e.handler_address / 0x1_0000) % 0x1_0000) * 0x1_0000_0000_0000,
        e.handler_address / 0x1_0000_0000 + e.reserved * 0x1_0000_0000,
    )
}

/// The words of a descriptor are those of its entry.
pub proof fn lemma_descriptor_words<T>(d: Descriptor<T>, with_error_code: bool)
    ensures
        spec_words(entry_of(d, with_error_code)).0 == d.offset_low + d.segment_selector * 0x1_0000
            + d.flags.0 * 0x1_0000_0000 + d.offset_middle * 0x1_0000_0000_0000,
        spec_words(entry_of(d, with_error_code)).1 == d.offset_high + d.reserved * 0x1_0000_0000,
{
    let low = d.offset_low as int;
    let middle = d.offset_middle as int;
    let high = d.offset_high as int;
    let address = low + middle * 0x1_0000 + high * 0x1_0000_0000;
    assert(address % 0x1_0000 == low);
    assert((address / 0x1_0000) % 0x1_0000 == middle);
    assert(address / 0x1_0000_0000 == high);
}

/// The words of a descriptor.
fn words<T>(d: &Descriptor<T>) -> (r: (u64, u64))
    ensures
        forall|w: bool| r.0 == spec_words(#[trigger] entry_of(*d, w)).0 && r.1 == spec_words(entry_of(*d, w)).1,
{
    proof {
        lemma_descriptor_words(*d, true);
        lemma_descriptor_words(*d, false);
    }
    d.encode()
}

impl InterruptDescriptorTable {
    /// The words of the entry of a vector.
    pub fn entry_words(&self, vector: u8) -> (r: (u64, u64))
        requires
            self.wf(),
        ensures
            r.0 == spec_words(self@[vector as int]).0,
            r.1 == spec_words(self@[vector as int]).1,
    {
        match vector {
            0 => words(&self.divide_error_exception),
            1 => words(&self.debug),
            2 => words(&self.nonmaskable),
            3 => words(&self.breakpoint),
            4 => words(&self.overflow),
            5 => words(&self.bound_range_exceeded),
            6 => words(&self.invalid_opcode),
            7 => words(&self.device_not_available),
            8 => words(&self.double_fault),
            9 => words(&self.coprocessor_segment_overrun),
            10 => words(&self.invalid_tss),
            11 => words(&self.segment_not_present),
            12 => words(&self.stack_segment_not_present),
            13 => words(&self.general_protection),
            14 => words(&self.page_fault),
            15 => words(&self.reserved),
            16 => words(&self.x87_pfu_floting_point_error),
            17 => words(&self.alignment_check_exception),
            18 => words(&self.machine_check_exception),
            19 => words(&self.simd_floating_point_exception),
            20 => words(&self.virtualization_exception),
            _ => if vector < 32 {
                words(&self.reserveds[(vector - 21) as usize])
            } else {
                words(&self.user_defined_interrupts[(vector - 32) as usize])
            },
        }
    }

    /// The table as the processor reads it: two words for each vector.
    pub fn encode(&self) -> (r: Vec<u64>)
        requires
            self.wf(),
        ensures
            r@.len() == 2 * VECTORS,
            forall|v: int|
                0 <= v < VECTORS ==> r@[2 * v] == spec_words(#[trigger] self@[v]).0 && r@[2 * v + 1]
                    == spec_words(self@[v]).1,
    {
        let mut words: Vec<u64> = Vec::new();
        let mut vector: usize = 0;
        while vector < VECTORS
            invariant
                self.wf(),
                vector <= VECTORS,
                words@.len() == 2 * vector,
                forall|v: int|
                    0 <= v < vector ==> words@[2 * v] == spec_words(#[trigger] self@[v]).0 && words@[2 * v
                        + 1] == spec_words(self@[v]).1,
            decreases VECTORS - vector,
        {
            let (low, high) = self.entry_words(vector as u8);
            words.push(low);
            words.push(high);
            vector += 1;
        }
        words
    }
}

} // verus!

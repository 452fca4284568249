//! Typed physical and virtual addresses and the kernel's address layout.
//!
//! A physical and a virtual address never convert into each other silently.
//! The two are related by one offset, fixed when the kernel is linked, which
//! the boot code hands over in a `KernelLayout`.

pub mod alignment;

pub use alignment::Alignment;
use vstd::prelude::*;

verus! {

/// An address in physical memory.
#[derive(Debug, Clone, Copy, PartialEq, Eq, Structural)]
pub struct PhysicalAddress(pub u64);

/// An address in the kernel's virtual address space.
#[derive(Debug, Clone, Copy, PartialEq, Eq, Structural)]
pub struct VirtualAddress(pub u64);

/// The number of values of a machine word.
pub open spec fn word_range() -> int {
    0x1_0000_0000_0000_0000
}

/// `x + y` in a machine word, which drops the carry.
pub open spec fn spec_wrapping_sum(x: int, y: int) -> int {
    (x + y) % word_range()
}

/// `x - y` in a machine word, which drops the borrow.
pub open spec fn spec_wrapping_difference(x: int, y: int) -> int {
    (x - y) % word_range()
}

impl View for PhysicalAddress {
    type V = int;

    open spec fn view(&self) -> int {
        self.0 as int
    }
}

impl View for VirtualAddress {
    type V = int;

    open spec fn view(&self) -> int {
        self.0 as int
    }
}

/// The addresses that the linker script fixes, read by the boot code and
/// handed over as plain values.
#[derive(Debug, Clone, Copy, PartialEq, Eq, Structural)]
pub struct KernelLayout {
    /// The first physical address of the kernel image.
    pub physical_begin: PhysicalAddress,
    /// The physical address behind the kernel; it grows during bring-up.
    pub physical_end: PhysicalAddress,
    /// The first virtual address of the kernel image.
    pub virtual_begin: VirtualAddress,
    /// The first virtual address of the zero-initialised section.
    pub bss_begin: VirtualAddress,
    /// The size of the zero-initialised section, in bytes.
    pub bss_size: u64,
    /// The virtual kernel base minus the physical kernel base.
    pub virtual_offset: u64,
}

impl PhysicalAddress {
    pub fn new(addr: u64) -> (r: PhysicalAddress)
        ensures
            r@ == addr,
    {
        PhysicalAddress(addr)
    }

    /// The virtual address that the kernel's offset mapping gives this
    /// physical address. The sum is taken in a machine word: the conversion
    /// is total.
    pub fn to_virtual(self, layout: &KernelLayout) -> (r: VirtualAddress)
        ensures
            r@ == spec_wrapping_sum(self@, layout.virtual_offset as int),
            self@ + layout.virtual_offset <= u64::MAX ==> r@ == self@ + layout.virtual_offset,
    {
        VirtualAddress(self.0.wrapping_add(layout.virtual_offset))
    }

    pub fn into_u64(self) -> (r: u64)
        ensures
            r == self@,
    {
        self.0
    }
}

impl VirtualAddress {
    pub fn new(addr: u64) -> (r: VirtualAddress)
        ensures
            r@ == addr,
    {
        VirtualAddress(addr)
    }

    /// The physical address behind this virtual address of the kernel's
    /// offset mapping. The difference is taken in a machine word: the
    /// conversion is total.
    pub fn to_physical(self, layout: &KernelLayout) -> (r: PhysicalAddress)
        ensures
            r@ == spec_wrapping_difference(self@, layout.virtual_offset as int),
            self@ >= layout.virtual_offset ==> r@ == self@ - layout.virtual_offset,
    {
        PhysicalAddress(self.0.wrapping_sub(layout.virtual_offset))
    }

    pub fn into_u64(self) -> (r: u64)
        ensures
            r == self@,
    {
        self.0
    }
}

/// Going from a physical address to its virtual address and back gives the
/// address again, for every address and every offset, so in particular for
/// each address of the kernel image.
pub proof fn lemma_physical_virtual_round_trip(address: int, offset: int)
    requires
        0 <= address < word_range(),
        0 <= offset < word_range(),
    ensures
        spec_wrapping_difference(spec_wrapping_sum(address, offset), offset) == address,
{
    let sum = spec_wrapping_sum(address, offset);
    if address + offset < word_range() {
        assert(sum == address + offset);
    } else {
        assert(sum == address + offset - word_range());
    }
}

/// Going from a virtual address to its physical address and back gives the
/// address again.
pub proof fn lemma_virtual_physical_round_trip(address: int, offset: int)
    requires
        0 <= address < word_range(),
        0 <= offset < word_range(),
    ensures
        spec_wrapping_sum(spec_wrapping_difference(address, offset), offset) == address,
{
    let difference = spec_wrapping_difference(address, offset);
    if address - offset >= 0 {
        assert(difference == address - offset);
    } else {
        assert(difference == address - offset + word_range());
    }
}

pub fn kernel_addr_begin_virtual(layout: &KernelLayout) -> (r: VirtualAddress)
    ensures
        r == layout.virtual_begin,
{
    layout.virtual_begin
}

pub fn kernel_addr_begin_physical(layout: &KernelLayout) -> (r: PhysicalAddress)
    ensures
        r == layout.physical_begin,
{
    layout.physical_begin
}

pub fn kernel_addr_end_physical(layout: &KernelLayout) -> (r: PhysicalAddress)
    ensures
        r == layout.physical_end,
{
    layout.physical_end
}

pub fn kernel_addr_end_virtual(layout: &KernelLayout) -> (r: VirtualAddress)
    ensures
        r@ == spec_wrapping_sum(layout.physical_end@, layout.virtual_offset as int),
{
    kernel_addr_end_physical(layout).to_virtual(layout)
}

/// Moves the end of the kernel: what bring-up carves out behind the image
/// belongs to the kernel from then on.
pub fn update_kernel_addr_end_physical(layout: &mut KernelLayout, new_addr: PhysicalAddress)
    ensures
        *final(layout) == (KernelLayout { physical_end: new_addr, ..*old(layout) }),
{
    layout.physical_end = new_addr;
}

pub fn kernel_bss_section_addr_begin(layout: &KernelLayout) -> (r: VirtualAddress)
    ensures
        r == layout.bss_begin,
{
    layout.bss_begin
}

pub fn kernel_bss_section_size(layout: &KernelLayout) -> (r: u64)
    ensures
        r == layout.bss_size,
{
    layout.bss_size
}

} // verus!

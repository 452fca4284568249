//! The entries of the page tables.

use crate::memory::address::PhysicalAddress;
use vstd::prelude::*;

verus! {

/// Bit 0.
pub const PRESENT: u64 = 0x1;

/// Bit 1.
pub const WRITABLE: u64 = 0x2;

/// Bit 2.
pub const USER_ACCESSIBLE: u64 = 0x4;

/// Bit 3.
pub const WRITE_THROUGH: u64 = 0x8;

/// Bit 4.
pub const CACHE_DISABLE: u64 = 0x10;

/// Bit 5.
pub const ACCESSED: u64 = 0x20;

/// Bit 6.
pub const DIRTY: u64 = 0x40;

/// Bit 7.
pub const HUGE_PAGE: u64 = 0x80;

/// Bit 8.
pub const GLOBAL: u64 = 0x100;

/// Bit 63.
pub const NO_EXECUTE: u64 = 0x8000_0000_0000_0000;

/// The bits of an entry that are flags.
pub const ALL_FLAGS: u64 = 0x8000_0000_0000_01FF;

/// The bits of an entry that hold the address of a frame: bits 12 to 51.
pub const ADDRESS_BITS: u64 = 0x000F_FFFF_FFFF_F000;

/// A set of flags of a page table entry.
#[derive(Copy, Clone, Debug, PartialEq, Eq, Structural)]
pub struct PageEntryFlags {
    pub bits: u64,
}

impl PageEntryFlags {
    pub fn present() -> (r: PageEntryFlags)
        ensures
            r.bits == PRESENT,
    {
        PageEntryFlags { bits: PRESENT }
    }

    pub fn writable() -> (r: PageEntryFlags)
        ensures
            r.bits == WRITABLE,
    {
        PageEntryFlags { bits: WRITABLE }
    }

    pub fn user_accessible() -> (r: PageEntryFlags)
        ensures
            r.bits == USER_ACCESSIBLE,
    {
        PageEntryFlags { bits: USER_ACCESSIBLE }
    }

    pub fn write_through() -> (r: PageEntryFlags)
        ensures
            r.bits == WRITE_THROUGH,
    {
        PageEntryFlags { bits: WRITE_THROUGH }
    }

    pub fn cache_disable() -> (r: PageEntryFlags)
        ensures
            r.bits == CACHE_DISABLE,
    {
        PageEntryFlags { bits: CACHE_DISABLE }
    }

    pub fn accessed() -> (r: PageEntryFlags)
        ensures
            r.bits == ACCESSED,
    {
        PageEntryFlags { bits: ACCESSED }
    }

    pub fn dirty() -> (r: PageEntryFlags)
        ensures
            r.bits == DIRTY,
    {
        PageEntryFlags { bits: DIRTY }
    }

    pub fn huge_page() -> (r: PageEntryFlags)
        ensures
            r.bits == HUGE_PAGE,
    {
        PageEntryFlags { bits: HUGE_PAGE }
    }

    pub fn global() -> (r: PageEntryFlags)
        ensures
            r.bits == GLOBAL,
    {
        PageEntryFlags { bits: GLOBAL }
    }

    pub fn no_execute() -> (r: PageEntryFlags)
        ensures
            r.bits == NO_EXECUTE,
    {
        PageEntryFlags { bits: NO_EXECUTE }
    }

    /// Every flag of `other` is in the set.
    pub open spec fn spec_contains(self, other: PageEntryFlags) -> bool {
        self.bits & other.bits == other.bits
    }

    pub fn empty() -> (r: PageEntryFlags)
        ensures
            r.bits == 0,
    {
        PageEntryFlags { bits: 0 }
    }

    pub fn bits(&self) -> (r: u64)
        ensures
            r == self.bits,
    {
        self.bits
    }

    /// The flags among the bits; bits that are no flags are dropped.
    pub fn from_bits_truncate(bits: u64) -> (r: PageEntryFlags)
        ensures
            r.bits == bits & ALL_FLAGS,
    {
        PageEntryFlags { bits: bits & ALL_FLAGS }
    }

    pub fn contains(&self, other: PageEntryFlags) -> (r: bool)
        ensures
            r == self.spec_contains(other),
    {
        self.bits & other.bits == other.bits
    }

    pub fn union(self, other: PageEntryFlags) -> (r: PageEntryFlags)
        ensures
            r.bits == self.bits | other.bits,
    {
        PageEntryFlags { bits: self.bits | other.bits }
    }
}

/// A page table entry: a word of 64 bits, of which bits 0 to 8 and bit 63
/// are flags and bits 12 to 51 the address of a frame.
#[derive(Copy, Clone, Debug, PartialEq, Eq, Structural)]
pub struct PageEntry(pub u64);

/// What setting flags and an address does to the bits of an entry.
pub proof fn lemma_entry_bits(w: u64, addr: u64, f: u64)
    by (bit_vector)
    ensures
        (w & 0x8000_0000_0000_01FF) & 1 == w & 1,
        (w & 0x8000_0000_0000_01FF) & 0x80 == w & 0x80,
        w | ((w & 0x8000_0000_0000_01FF) | f) == w | f,
        (w | f) & 0x000F_FFFF_FFFF_F000 == (w & 0x000F_FFFF_FFFF_F000) | (f & 0x000F_FFFF_FFFF_F000),
        (0u64 & 1) == 0,
        (0u64 & 0x80) == 0,
        (1u64 & 0x8000_0000_0000_01FF) == 1,
        addr & 0xFFF == 0 && addr & 0xFFF0_0000_0000_0000 == 0 ==> ({
            let e = addr | ((w & 0x8000_0000_0000_01FF) | 1);
            &&& e & 1 == 1
            &&& e & 0x000F_FFFF_FFFF_F000 == addr
            &&& e & 0x80 == w & 0x80
            &&& e & 0x8000_0000_0000_01FF == (w & 0x8000_0000_0000_01FF) | 1
            &&& (e | 2) & 1 == 1
            &&& (e | 2) & 2 == 2
            &&& (e | 2) & 0x000F_FFFF_FFFF_F000 == addr
            &&& (e | 2) & 0x80 == w & 0x80
        }),
        (addr & 0xFFF == 0 && addr & 0xFFF0_0000_0000_0000 == 0) <==> (addr % 4096 == 0 && addr
            < 0x10_0000_0000_0000),
        (w & 1 != 0) <==> (w & 1 == 1),
        (w & 0x80 != 0) <==> (w & 0x80 == 0x80),
        (w & 2 != 0) <==> (w & 2 == 2),
        2u64 & 0x8000_0000_0000_01FF == 2,
        (w | (f & 0x8000_0000_0000_01FF)) & 0x000F_FFFF_FFFF_F000 == w & 0x000F_FFFF_FFFF_F000,
        w & 1 == 1 ==> (w | (f & 0x8000_0000_0000_01FF)) & 1 == 1,
        ((w & 0x8000_0000_0000_01FF) | 1) & 0x8000_0000_0000_01FF == (w & 0x8000_0000_0000_01FF) | 1,
        (w | (f & 0x8000_0000_0000_01FF)) & 0x8000_0000_0000_01FF == (w & 0x8000_0000_0000_01FF) | (f
            & 0x8000_0000_0000_01FF),
{
}

impl PageEntry {
    /// The flags of the entry.
    pub open spec fn spec_flags(self) -> PageEntryFlags {
        PageEntryFlags { bits: self.0 & ALL_FLAGS }
    }

    /// The entry points to something.
    pub open spec fn is_present(self) -> bool {
        self.0 & PRESENT != 0
    }

    /// The entry maps a large page and points to no table.
    pub open spec fn is_huge(self) -> bool {
        self.0 & HUGE_PAGE != 0
    }

    pub open spec fn is_writable(self) -> bool {
        self.0 & WRITABLE != 0
    }

    /// The address in the entry.
    pub open spec fn frame_addr(self) -> u64 {
        self.0 & ADDRESS_BITS
    }

    /// The entry points to a table of the next level.
    pub open spec fn points_to_table(self) -> bool {
        self.is_present() && !self.is_huge()
    }

    /// The address can stand in an entry: it is the address of a frame and
    /// has at most 52 bits.
    pub open spec fn valid_frame_addr(addr: int) -> bool {
        addr % 4096 == 0 && 0 <= addr < 0x10_0000_0000_0000
    }

    /// The entry after `set_frame_addr`: the address, the flags that the
    /// entry had, and the present flag.
    pub open spec fn with_frame_addr(self, addr: u64) -> PageEntry {
        PageEntry(addr | ((self.0 & ALL_FLAGS) | PRESENT))
    }

    /// The entry after `set_flags`: the flags are added, and what is no flag
    /// in `flags` is left out, so the address stays.
    pub open spec fn with_flags(self, flags: PageEntryFlags) -> PageEntry {
        PageEntry(self.0 | (flags.bits & ALL_FLAGS))
    }

    /// The entry after a page was mapped to the frame at `addr`: the
    /// address, the flags that the entry had, present and writable.
    pub open spec fn mapped_to(self, addr: u64) -> PageEntry {
        self.with_frame_addr(addr).with_flags(PageEntryFlags { bits: WRITABLE })
    }

    pub fn flags(&self) -> (r: PageEntryFlags)
        ensures
            r == self.spec_flags(),
            r.spec_contains(PageEntryFlags { bits: PRESENT }) == self.is_present(),
            r.spec_contains(PageEntryFlags { bits: HUGE_PAGE }) == self.is_huge(),
    {
        proof {
            lemma_entry_bits(self.0, 0, 0);
        }
        PageEntryFlags::from_bits_truncate(self.0)
    }

    /// Adds the flags to those of the entry. Bits of `flags` that are no
    /// flags are left out: the address in the entry stays.
    pub fn set_flags(&mut self, flags: PageEntryFlags)
        ensures
            *final(self) == old(self).with_flags(flags),
            final(self).frame_addr() == old(self).frame_addr(),
            final(self).spec_flags().bits == old(self).spec_flags().bits | (flags.bits & ALL_FLAGS),
            old(self).is_present() ==> final(self).is_present(),
    {
        proof {
            lemma_entry_bits(self.0, 0, flags.bits);
        }
        self.0 = self.0 | PageEntryFlags::from_bits_truncate(flags.bits).bits();
    }

    /// Clears the entry: no flag, no address.
    pub fn clear_all(&mut self)
        ensures
            final(self).0 == 0,
            !final(self).is_present(),
    {
        proof {
            lemma_entry_bits(0, 0, 0);
        }
        self.0 = 0;
    }

    /// Makes the entry point to the frame at `addr`: the address replaces
    /// the one in the entry, the flags stay, and the entry is present.
    pub fn set_frame_addr(&mut self, addr: PhysicalAddress)
        requires
            Self::valid_frame_addr(addr@),
        ensures
            *final(self) == old(self).with_frame_addr(addr.0),
            final(self).is_present(),
            final(self).frame_addr() == addr@,
            final(self).is_huge() == old(self).is_huge(),
    {
        proof {
            lemma_entry_bits(self.0, addr.0, 0);
            lemma_entry_bits(addr.0, 0, (self.0 & ALL_FLAGS) | PRESENT);
        }
        let flags = self.flags();
        self.0 = addr.0;
        self.set_flags(flags.union(PageEntryFlags::present()));
    }

    /// The address of the frame that the entry points to, if it is present.
    pub fn get_frame_addr(&self) -> (r: Option<PhysicalAddress>)
        ensures
            r == (if self.is_present() {
                Some(PhysicalAddress(self.frame_addr()))
            } else {
                None
            }),
    {
        if self.flags().contains(PageEntryFlags::present()) {
            Some(PhysicalAddress(self.0 & ADDRESS_BITS))
        } else {
            None
        }
    }
}

} // verus!

use axel::memory::address::{PhysicalAddress, VirtualAddress};
use axel::memory::paging::entry::{PageEntry, PageEntryFlags};
use axel::memory::paging::page::Page;
use axel::memory::paging::page_index::PageIndex;

#[test]
fn test_flags() {
    let e = PageEntry(0xFFFF_FFFF_FFFF_FF00);
    assert_eq!(false, e.flags().contains(PageEntryFlags::present()));
}

#[test]
fn test_index_functions() {
    let addr: VirtualAddress = VirtualAddress::new(0o123_456_712_345_1234);

    assert_eq!(addr.offset(), 0o1234);
    assert_eq!(addr.level1_index(), 0o345);
    assert_eq!(addr.level2_index(), 0o712);
    assert_eq!(addr.level3_index(), 0o456);
    assert_eq!(addr.level4_index(), 0o123);
}

#[test]
fn test_invalid_page_table() {
}

#[test]
fn entry_keeps_its_flags_when_a_frame_is_set() {
    let mut e = PageEntry(0);
    e.set_flags(PageEntryFlags::writable().union(PageEntryFlags::no_execute()));
    assert_eq!(e.0, 0x8000_0000_0000_0002);
    assert_eq!(e.get_frame_addr(), None);
    e.set_frame_addr(PhysicalAddress::new(0x1234_5000));
    assert_eq!(e.0, 0x8000_0000_1234_5003);
    assert_eq!(e.get_frame_addr(), Some(PhysicalAddress::new(0x1234_5000)));
    assert!(e.flags().contains(PageEntryFlags::present()));
    assert!(e.flags().contains(PageEntryFlags::writable()));
    assert!(!e.flags().contains(PageEntryFlags::huge_page()));
    e.set_frame_addr(PhysicalAddress::new(0xf_ffff_ffff_f000));
    assert_eq!(e.get_frame_addr(), Some(PhysicalAddress::new(0xf_ffff_ffff_f000)));
    e.clear_all();
    assert_eq!(e.0, 0);
    e.clear_all();
    assert_eq!(e.0, 0);
}

#[test]
fn flags_drop_the_bits_that_are_no_flags() {
    let e = PageEntry(0xFFFF_FFFF_FFFF_FFFF);
    assert_eq!(e.flags().bits(), 0x8000_0000_0000_01FF);
    assert_eq!(PageEntryFlags::from_bits_truncate(0x200).bits(), 0);
    assert_eq!(PageEntryFlags::empty().bits(), 0);
    assert_eq!(PageEntryFlags::global().bits(), 0x100);
    assert_eq!(PageEntryFlags::user_accessible().bits(), 4);
    assert_eq!(PageEntryFlags::write_through().bits(), 8);
    assert_eq!(PageEntryFlags::cache_disable().bits(), 0x10);
    assert_eq!(PageEntryFlags::accessed().bits(), 0x20);
    assert_eq!(PageEntryFlags::dirty().bits(), 0x40);
}

#[test]
fn page_number_and_address() {
    let page = Page::from_address(VirtualAddress::new(0x20_0fff));
    assert_eq!(page.number, 0x200);
    assert_eq!(page.address().into_u64(), 0x20_0000);
    assert_eq!(Page::from_number(3).address().into_u64(), 0x3000);
}

#[test]
fn set_flags_leaves_the_address_alone() {
    let mut e = PageEntry(0);
    e.set_frame_addr(PhysicalAddress::new(0x1234_5000));
    assert_eq!(e, PageEntry(0x1234_5001));
    // Bits that are no flags are left out.
    e.set_flags(PageEntryFlags { bits: 0x0000_0FFF_0000_0E02 });
    assert_eq!(e, PageEntry(0x1234_5003));
    assert_eq!(e.get_frame_addr().map(|a| a.into_u64()), Some(0x1234_5000));
    e.set_flags(PageEntryFlags::no_execute());
    assert_eq!(e, PageEntry(0x8000_0000_1234_5003));
    e.set_flags(PageEntryFlags::empty());
    assert_eq!(e, PageEntry(0x8000_0000_1234_5003));
}

use axel::memory::address::alignment::Alignment;
use axel::memory::address::{
    kernel_addr_end_physical, kernel_addr_end_virtual, update_kernel_addr_end_physical, KernelLayout,
    PhysicalAddress, VirtualAddress,
};

#[test]
fn test_alignment() {
    assert_eq!(0x1000usize.align_up(0x1000), 0x1000);
    assert_eq!(0x1000usize.align_down(0x1000), 0x1000);
    assert_eq!(0x1123usize.align_up(0x1000), 0x2000);
    assert_eq!(0x1123usize.align_down(0x1000), 0x1000);

    assert_eq!(0b1001usize.align_down(2), 0b1000);
    assert_eq!(0b1001usize.align_up(2), 0b1010);

    assert_eq!(0b1001usize.align_up(1), 0b1001);
    assert_eq!(0b1001usize.align_down(1), 0b1001);
}

#[test]
fn alignment_of_one_changes_nothing() {
    assert_eq!(0x1001usize.align_up(1), 0x1001);
    assert_eq!(0usize.align_up(0x1000), 0);
    assert_eq!(1usize.align_up(0x1000), 0x1000);
    assert_eq!(0xfffusize.align_down(0x1000), 0);
}

fn layout() -> KernelLayout {
    KernelLayout {
        physical_begin: PhysicalAddress::new(0x10_0000),
        physical_end: PhysicalAddress::new(0x20_0000),
        virtual_begin: VirtualAddress::new(0xffff_8000_0010_0000),
        bss_begin: VirtualAddress::new(0xffff_8000_0018_0000),
        bss_size: 0x1000,
        virtual_offset: 0xffff_8000_0000_0000,
    }
}

#[test]
fn physical_to_virtual_and_back() {
    let layout = layout();
    let mut addr = 0x10_0000u64;
    while addr < 0x20_0000 {
        let physical = PhysicalAddress::new(addr);
        let virt = physical.to_virtual(&layout);
        assert_eq!(virt.into_u64(), addr + 0xffff_8000_0000_0000);
        assert_eq!(virt.to_physical(&layout), physical);
        addr += 0x1_0000;
    }
}

#[test]
fn conversion_wraps_in_the_machine_word() {
    let layout = layout();
    let physical = PhysicalAddress::new(0x8000_0000_0000_0000);
    let virt = physical.to_virtual(&layout);
    assert_eq!(virt.into_u64(), 0x7fff_8000_0000_0000);
    assert_eq!(virt.to_physical(&layout), physical);
    assert_eq!(VirtualAddress::new(0).to_physical(&layout).into_u64(), 0x0000_8000_0000_0000);
}

#[test]
fn kernel_end_moves() {
    let mut layout = layout();
    assert_eq!(kernel_addr_end_physical(&layout).into_u64(), 0x20_0000);
    update_kernel_addr_end_physical(&mut layout, PhysicalAddress::new(0x30_0000));
    assert_eq!(kernel_addr_end_physical(&layout).into_u64(), 0x30_0000);
    assert_eq!(kernel_addr_end_virtual(&layout).into_u64(), 0xffff_8000_0030_0000);
    assert_eq!(layout.physical_begin.into_u64(), 0x10_0000);
}

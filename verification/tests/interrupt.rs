use axel::arch::x86_64::interrupt::descriptor::{Descriptor, Flags, TRAP_GATE};
use axel::arch::x86_64::interrupt::handler::{ErrorCode, Handler, HandlerWithErrorCode};
use axel::arch::x86_64::interrupt::pic::{
    enable_timer_interrupt, init as pic_init, send_end_of_interrupt, set_handlers, PortWrite,
};
use axel::arch::x86_64::interrupt::pit::{
    init as pit_init, make_asymptotic_counter_value, ModeCommandRegister,
};
use axel::arch::x86_64::interrupt::table::InterruptDescriptorTable;
use axel::arch::x86_64::interrupt::table_address;
use axel::memory::address::VirtualAddress;

#[test]
fn flags_test() {
    assert_eq!(0b101, Flags(0b101).interrupt_stack_table());
    assert_eq!(0b1001, Flags(0b1001_000_00_000).descriptor_type());
    assert_eq!(0b11, Flags(0b11_0_0000_000_00_000).privilege_level());
    assert_eq!(true, Flags(0b1_00_0_0000_000_00_000).present());
}

#[test]
fn descriptor_test() {
    assert_eq!(
        (0x1111, 0x2222, 0x4444_3333),
        Descriptor::<Handler>::parse_addr(0x4444_3333_2222_1111)
    )
}

#[test]
fn flags_setters_change_their_field_only() {
    let mut flags = Flags(0xffff);
    flags.set_interrupt_stack_table(0b010);
    assert_eq!(flags.0, 0xfffa);
    flags.set_descriptor_type(0b0110);
    assert_eq!(flags.0, 0xf6fa);
    flags.set_privilege_level(0b01);
    assert_eq!(flags.0, 0xb6fa);
    flags.set_present(false);
    assert_eq!(flags.0, 0x36fa);
    flags.set_present(true);
    assert_eq!(flags.0, 0xb6fa);
}

#[test]
fn descriptor_of_a_handler() {
    let d = Descriptor::with_handler(Handler { address: 0xffff_8000_0012_3456 }, 0x08);
    assert_eq!(d.offset_low, 0x3456);
    assert_eq!(d.offset_middle, 0x0012);
    assert_eq!(d.offset_high, 0xffff_8000);
    assert_eq!(d.segment_selector, 0x08);
    assert_eq!(d.reserved, 0);
    assert!(d.flags.present());
    assert_eq!(d.flags.descriptor_type(), TRAP_GATE);
    assert_eq!(d.flags.privilege_level(), 0);
    assert_eq!(d.flags.interrupt_stack_table(), 0);
    assert_eq!(d.encode(), (0x0012_8f00_0008_3456, 0x0000_0000_ffff_8000));
    let e = Descriptor::with_handler_with_error_code(HandlerWithErrorCode { address: 0x1_0000 }, 0x10);
    assert_eq!(e.encode(), (0x0001_8f00_0010_0000, 0));
}

#[test]
fn error_code_fields() {
    let code = ErrorCode(0b1010_1010_1010_1101);
    assert!(code.external_event());
    assert!(!code.descriptor_location());
    assert!(code.ti());
    assert_eq!(code.segment_selector_index(), 0b010_1010_1010_1);
    assert_eq!(code.reserved(), 0b10);
}

#[test]
fn table_init_puts_a_handler_of_its_kind_into_every_vector() {
    let mut table = InterruptDescriptorTable::empty();
    assert!(!table.page_fault.flags.present());
    table.init(Handler { address: 0x1000 }, HandlerWithErrorCode { address: 0x2000 }, 8);
    assert_eq!(table.divide_error_exception.offset_low, 0x1000);
    assert_eq!(table.double_fault.offset_low, 0x2000);
    assert_eq!(table.invalid_tss.offset_low, 0x2000);
    assert_eq!(table.segment_not_present.offset_low, 0x2000);
    assert_eq!(table.stack_segment_not_present.offset_low, 0x2000);
    assert_eq!(table.general_protection.offset_low, 0x2000);
    assert_eq!(table.page_fault.offset_low, 0x2000);
    assert_eq!(table.alignment_check_exception.offset_low, 0x2000);
    assert_eq!(table.virtualization_exception.offset_low, 0x1000);
    assert_eq!(table.reserveds.len(), 11);
    assert_eq!(table.user_defined_interrupts.len(), 224);
    for d in table.reserveds.iter().chain(table.user_defined_interrupts.iter()) {
        assert_eq!(d.offset_low, 0x1000);
        assert!(d.flags.present());
        assert_eq!(d.segment_selector, 8);
    }
}

#[test]
fn table_set_handler_and_load() {
    let mut table = InterruptDescriptorTable::empty();
    table.init(Handler { address: 0x1000 }, HandlerWithErrorCode { address: 0x2000 }, 8);
    assert!(!table.set_handler(14, Handler { address: 0x3000 }, 8));
    assert_eq!(table.page_fault.offset_low, 0x2000);
    assert!(table.set_handler(0xfa, Handler { address: 0x3000 }, 8));
    assert_eq!(table.user_defined_interrupts[0xfa - 32].offset_low, 0x3000);
    set_handlers(&mut table, Handler { address: 0x4000 }, 8);
    assert_eq!(table.user_defined_interrupts[0].offset_low, 0x4000);
    assert_eq!(table.user_defined_interrupts[1].offset_low, 0x1000);
    let register = table.load(VirtualAddress::new(0xffff_8000_0006_e000));
    assert_eq!(register.limit, 4095);
    assert_eq!(register.base, 0xffff_8000_0006_e000);
    assert_eq!(table_address().into_u64(), 0x6e000);
}

fn write(port: u16, value: u8) -> PortWrite {
    PortWrite { port, value }
}

#[test]
fn pic_init_script() {
    let wait = write(0x80, 0);
    assert_eq!(
        pic_init(),
        vec![
            write(0x20, 0x11),
            wait,
            write(0xa0, 0x11),
            wait,
            write(0x21, 0x20),
            wait,
            write(0xa1, 0x28),
            wait,
            write(0x21, 4),
            wait,
            write(0xa1, 2),
            wait,
            write(0x21, 1),
            wait,
            write(0xa1, 1),
            wait,
            write(0x21, 0xff),
            write(0xa1, 0xff),
        ]
    );
}

#[test]
fn end_of_interrupt_goes_to_the_slave_first() {
    assert_eq!(send_end_of_interrupt(0x20), vec![write(0x20, 0x20)]);
    assert_eq!(send_end_of_interrupt(0x27), vec![write(0x20, 0x20)]);
    assert_eq!(send_end_of_interrupt(0x28), vec![write(0xa0, 0x20), write(0x20, 0x20)]);
    assert_eq!(enable_timer_interrupt(), write(0x21, 0xfe));
}

#[test]
fn pit_counter_for_the_tick() {
    assert_eq!(make_asymptotic_counter_value(100), (0x2e, 0x9b));
    assert_eq!(make_asymptotic_counter_value(1193180), (0, 1));
    assert_eq!(make_asymptotic_counter_value(19), (0xf5, 0x4f));
    assert_eq!(make_asymptotic_counter_value(18), (0x02, 0xef));
}

#[test]
fn pit_init_script() {
    assert_eq!(
        pit_init(),
        vec![write(0x43, 0x34), write(0x40, 0x9b), write(0x40, 0x2e), write(0x21, 0xfe)]
    );
}

#[test]
fn mode_command_register_fields() {
    let mut r = ModeCommandRegister(0);
    r.set_operating_mode(0b010);
    r.set_access_mode(0b11);
    assert_eq!(r.0, 0x34);
    assert_eq!(r.operating_mode(), 0b010);
    assert_eq!(r.access_mode(), 0b11);
    assert_eq!(r.select_channel(), 0);
    assert_eq!(r.bcd_binary_mode(), 0);
    r.set_select_channnel(0b10);
    assert_eq!(r.0, 0xb4);
    r.set_bcd_binary_mode(1);
    assert_eq!(r.0, 0xb5);
    assert_eq!(r.bcd_binary_mode(), 1);
}

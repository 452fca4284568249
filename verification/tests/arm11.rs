use axel::arch::arm11::peripheral::addr::Addr;
use axel::arch::arm11::peripheral::gpio::{
    set_pin_function, write_output_pin, Function, Output, Pin, RegisterUpdate,
};
use axel::arch::arm11::peripheral::spi::{
    bitmask, draw, init_lcd, init_spi0, negative_gamma, positive_gamma, select_chip, settings,
    spi_transfer, switch_on, write_command, write_data, Chip, LcdStep, TransferStep,
};
use axel::arch::arm11::peripheral::timer::{get_time_counter_value, wait, wait_usec};
use axel::bytes::Bytes;

#[test]
fn addresses_of_the_registers() {
    assert_eq!(Addr::Base.to_usize(), 0x3F000000);
    assert_eq!(Addr::GpioBase.to_usize(), 0x3F200000);
    assert_eq!(Addr::GpioGpfSel4.to_usize(), 0x3F200010);
    assert_eq!(Addr::GpioGpSet1.to_usize(), 0x3F200020);
    assert_eq!(Addr::GpioGpClr0.to_usize(), 0x3F200028);
    assert_eq!(Addr::Spi0RegisterCs.to_usize(), 0x3F204000);
    assert_eq!(Addr::Spi0RegisterClk.to_usize(), 0x3F204008);
    assert_eq!(Addr::AuxIrq.to_usize(), 0x3F215000);
    assert_eq!(Addr::AuxMuBaudReg.to_usize(), 0x3F215068);
    assert_eq!(Addr::AuxSpi2PeekReg.to_usize(), 0x3F2150D4);
}

#[test]
fn pin_function_goes_to_its_select_register() {
    let update = set_pin_function(Pin::OkLed, Function::Output);
    assert_eq!(update, RegisterUpdate { address: 0x3F200010, mask: 7 << 21, value: 1 << 21 });
    assert_eq!(update.apply(0xFFFF_FFFF), 0xFFFF_FFFF & !(7 << 21) | (1 << 21));
    let update = set_pin_function(Pin::Spi0Mosi, Function::Alternate0);
    assert_eq!(update, RegisterUpdate { address: 0x3F200004, mask: 7, value: 4 });
    assert_eq!(Function::Alternate5.bits(), 0b010);
    assert_eq!(Pin::Ili9340Rst.number(), 18);
}

#[test]
fn output_goes_to_the_set_or_clear_register() {
    assert_eq!(
        write_output_pin(Pin::OkLed, Output::SET),
        RegisterUpdate { address: 0x3F200020, mask: 1 << 15, value: 1 << 15 }
    );
    assert_eq!(
        write_output_pin(Pin::OkLed, Output::CLEAR),
        RegisterUpdate { address: 0x3F20002C, mask: 1 << 15, value: 1 << 15 }
    );
    assert_eq!(
        write_output_pin(Pin::Ili9340Dc, Output::SET),
        RegisterUpdate { address: 0x3F20001C, mask: 1 << 25, value: 1 << 25 }
    );
    assert_eq!(
        write_output_pin(Pin::Ili9340Dc, Output::CLEAR),
        RegisterUpdate { address: 0x3F200028, mask: 1 << 25, value: 1 << 25 }
    );
}

#[test]
fn timer_counter_and_waits() {
    assert_eq!(get_time_counter_value(0x89ab_cdef, 0x0123_4567), 0x0123_4567_89ab_cdef);
    assert!(!wait_usec(10, 100, 109));
    assert!(wait_usec(10, 100, 110));
    assert!(!wait(5, 0, 4999));
    assert!(wait(5, 0, 5000));
}

#[test]
fn spi_chip_and_transfer_steps() {
    assert_eq!(bitmask(0b1100, 0b0110, 0b1010), 0b1010);
    assert_eq!(select_chip(Chip::Ce0, 0xff), 0xfc);
    assert_eq!(select_chip(Chip::Ce1, 0xf0), 0xf1);
    assert_eq!(select_chip(Chip::Ce2, 0xff), 0xfe);
    let mut step = TransferStep::Begin;
    step = spi_transfer(step, 0);
    assert_eq!(step, TransferStep::AwaitSend);
    assert_eq!(spi_transfer(step, 1 << 16), TransferStep::AwaitSend);
    step = spi_transfer(step, 1 << 18);
    assert_eq!(step, TransferStep::Exchange);
    step = spi_transfer(step, 0);
    assert_eq!(step, TransferStep::AwaitDone);
    assert_eq!(spi_transfer(step, 1 << 18), TransferStep::AwaitDone);
    step = spi_transfer(step, 1 << 16);
    assert_eq!(step, TransferStep::End);
    step = spi_transfer(step, 0);
    assert_eq!(step, TransferStep::Finished);
    assert_eq!(spi_transfer(step, 0xffff_ffff), TransferStep::Finished);
}

#[test]
fn display_scripts() {
    let steps = init_lcd();
    assert_eq!(steps.len(), 61);
    assert_eq!(steps[0], LcdStep::Command(0x01));
    assert_eq!(steps[1], LcdStep::Wait(5));
    assert_eq!(steps[25], LcdStep::Command(0xE0));
    assert_eq!(steps[41], LcdStep::Command(0xE1));
    assert_eq!(steps[56], LcdStep::Data(0x0F));
    assert_eq!(steps[57], LcdStep::Command(0x11));
    assert_eq!(steps[60], LcdStep::Wait(1000));
    assert_eq!(
        draw(0x00ff, 0x0102, 0x0FF0),
        vec![
            LcdStep::Command(0x2A),
            LcdStep::Data(0x00),
            LcdStep::Data(0xff),
            LcdStep::Data(0x01),
            LcdStep::Data(0x00),
            LcdStep::Command(0x2B),
            LcdStep::Data(0x01),
            LcdStep::Data(0x02),
            LcdStep::Data(0x01),
            LcdStep::Data(0x03),
            LcdStep::Command(0x2C),
            LcdStep::Data(0x0F),
            LcdStep::Data(0xF0),
        ]
    );
    let pins = init_spi0();
    assert_eq!(pins.len(), 4);
    assert_eq!(pins[0], RegisterUpdate { address: 0x3F200000, mask: 7 << 24, value: 4 << 24 });
    assert_eq!(pins[3], RegisterUpdate { address: 0x3F200008, mask: 7 << 15, value: 1 << 15 });
}

#[test]
fn sizes_in_larger_units() {
    let size: usize = 3 * 1024 * 1024 * 1024 + 5;
    assert_eq!(size.kb(), 3 * 1024 * 1024);
    assert_eq!(size.mb(), 3 * 1024);
    assert_eq!(size.gb(), 3);
    assert_eq!(1023usize.kb(), 0);
}

#[test]
fn lcd_steps_are_made_of_commands_and_data() {
    assert_eq!(write_command(0x2C), LcdStep::Command(0x2C));
    assert_eq!(write_data(0x55), LcdStep::Data(0x55));
    let s = settings();
    assert_eq!(&s[0..3], &[LcdStep::Command(0x01), LcdStep::Wait(5), LcdStep::Command(0x28)]);
    let p = positive_gamma();
    assert_eq!(p.len(), 16);
    assert_eq!(p[0], LcdStep::Command(0xE0));
    assert_eq!(p[15], LcdStep::Data(0x00));
    let n = negative_gamma();
    assert_eq!(n.len(), 16);
    assert_eq!(n[0], LcdStep::Command(0xE1));
    let o = switch_on();
    assert_eq!(
        o,
        vec![LcdStep::Command(0x11), LcdStep::Wait(1000), LcdStep::Command(0x29), LcdStep::Wait(1000)]
    );
    let mut all = s.clone();
    all.extend(p);
    all.extend(n);
    all.extend(o);
    assert_eq!(init_lcd(), all);
}

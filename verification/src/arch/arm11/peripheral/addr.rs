//! The addresses of the peripherals of the BCM2835.

use vstd::prelude::*;

verus! {

/// The address at which the peripherals start.
pub const PERIPHERAL_BASE: usize = 0x3F000000;

pub const GPIO_BASE: usize = PERIPHERAL_BASE + 0x00200000;

pub const SPI_BASE: usize = PERIPHERAL_BASE + 0x00204000;

pub const AUX_BASE: usize = PERIPHERAL_BASE + 0x00215000;

#[derive(Copy, Clone, Debug, PartialEq, Eq, Structural)]
pub enum Addr {
    Base,
    GpioBase,
    /// GPIO function select 0 to 5, read and write.
    GpioGpfSel0,
    GpioGpfSel1,
    GpioGpfSel2,
    GpioGpfSel3,
    GpioGpfSel4,
    GpioGpfSel5,
    /// GPIO pin output set 0 to 1, write only.
    GpioGpSet0,
    GpioGpSet1,
    /// GPIO pin output clear 0 to 1, write only.
    GpioGpClr0,
    GpioGpClr1,
    Spi0Base,
    Spi0RegisterCs,
    Spi0RegisterFifo,
    Spi0RegisterClk,
    Spi0RegisterDlen,
    Spi0RegisterLtoh,
    Spi0RegisterDc,
    /// Auxiliary interrupt status.
    AuxIrq,
    /// Auxiliary enables.
    AuxEnables,
    /// Mini UART I/O data.
    AuxMuIoReg,
    /// Mini UART interrupt enable.
    AuxMuIerReg,
    /// Mini UART interrupt identify.
    AuxMuIirReg,
    /// Mini UART line control.
    AuxMuLcrReg,
    /// Mini UART modem control.
    AuxMuMcrReg,
    /// Mini UART line status.
    AuxMuLsrReg,
    /// Mini UART modem status.
    AuxMuMsrReg,
    /// Mini UART scratch.
    AuxMuScratch,
    /// Mini UART extra control.
    AuxMuCntlReg,
    /// Mini UART extra status.
    AuxMuStatReg,
    /// Mini UART baudrate.
    AuxMuBaudReg,
    /// SPI1 control register 0.
    AuxSpi1Cntl0Reg,
    /// SPI1 control register 1.
    AuxSpi1Cntl1Reg,
    /// SPI1 status.
    AuxSpi1StatReg,
    /// SPI1 data.
    AuxSpi1IoReg,
    /// SPI1 peek.
    AuxSpi1PeekReg,
    /// SPI2 control register 0.
    AuxSpi2Cntl0Reg,
    /// SPI2 control register 1.
    AuxSpi2Cntl1Reg,
    /// SPI2 status.
    AuxSpi2StatReg,
    /// SPI2 data.
    AuxSpi2IoReg,
    /// SPI2 peek.
    AuxSpi2PeekReg,
}

/// The offset of a register from the start of its block, and the block.
pub open spec fn spec_offset(addr: Addr) -> (int, int) {
    match addr {
        Addr::Base => (PERIPHERAL_BASE as int, 0x00),
        Addr::GpioBase => (GPIO_BASE as int, 0x00),
        Addr::GpioGpfSel0 => (GPIO_BASE as int, 0x00),
        Addr::GpioGpfSel1 => (GPIO_BASE as int, 0x04),
        Addr::GpioGpfSel2 => (GPIO_BASE as int, 0x08),
        Addr::GpioGpfSel3 => (GPIO_BASE as int, 0x0C),
        Addr::GpioGpfSel4 => (GPIO_BASE as int, 0x10),
        Addr::GpioGpfSel5 => (GPIO_BASE as int, 0x14),
        Addr::GpioGpSet0 => (GPIO_BASE as int, 0x1C),
        Addr::GpioGpSet1 => (GPIO_BASE as int, 0x20),
        Addr::GpioGpClr0 => (GPIO_BASE as int, 0x28),
        Addr::GpioGpClr1 => (GPIO_BASE as int, 0x2C),
        Addr::Spi0Base => (SPI_BASE as int, 0x00),
        Addr::Spi0RegisterCs => (SPI_BASE as int, 0x00),
        Addr::Spi0RegisterFifo => (SPI_BASE as int, 0x04),
        Addr::Spi0RegisterClk => (SPI_BASE as int, 0x08),
        Addr::Spi0RegisterDlen => (SPI_BASE as int, 0x0C),
        Addr::Spi0RegisterLtoh => (SPI_BASE as int, 0x10),
        Addr::Spi0RegisterDc => (SPI_BASE as int, 0x14),
        Addr::AuxIrq => (AUX_BASE as int, 0x00),
        Addr::AuxEnables => (AUX_BASE as int, 0x04),
        Addr::AuxMuIoReg => (AUX_BASE as int, 0x40),
        Addr::AuxMuIerReg => (AUX_BASE as int, 0x44),
        Addr::AuxMuIirReg => (AUX_BASE as int, 0x48),
        Addr::AuxMuLcrReg => (AUX_BASE as int, 0x4C),
        Addr::AuxMuMcrReg => (AUX_BASE as int, 0x50),
        Addr::AuxMuLsrReg => (AUX_BASE as int, 0x54),
        Addr::AuxMuMsrReg => (AUX_BASE as int, 0x58),
        Addr::AuxMuScratch => (AUX_BASE as int, 0x5C),
        Addr::AuxMuCntlReg => (AUX_BASE as int, 0x60),
        Addr::AuxMuStatReg => (AUX_BASE as int, 0x64),
        Addr::AuxMuBaudReg => (AUX_BASE as int, 0x68),
        Addr::AuxSpi1Cntl0Reg => (AUX_BASE as int, 0x80),
        Addr::AuxSpi1Cntl1Reg => (AUX_BASE as int, 0x84),
        Addr::AuxSpi1StatReg => (AUX_BASE as int, 0x88),
        Addr::AuxSpi1IoReg => (AUX_BASE as int, 0x90),
        Addr::AuxSpi1PeekReg => (AUX_BASE as int, 0x94),
        Addr::AuxSpi2Cntl0Reg => (AUX_BASE as int, 0xC0),
        Addr::AuxSpi2Cntl1Reg => (AUX_BASE as int, 0xC4),
        Addr::AuxSpi2StatReg => (AUX_BASE as int, 0xC8),
        Addr::AuxSpi2IoReg => (AUX_BASE as int, 0xD0),
        Addr::AuxSpi2PeekReg => (AUX_BASE as int, 0xD4),
    }
}

impl Addr {
    /// The address of the register.
    pub fn to_usize(&self) -> (r: usize)
        ensures
            r == spec_offset(*self).0 + spec_offset(*self).1,
    {
        let base: usize = PERIPHERAL_BASE;
        let gpio_base = base + 0x00200000;
        let spi_base = base + 0x00204000;
        let aux_base = base + 0x00215000;
        match *self {
            Addr::Base => base,
            Addr::GpioBase => gpio_base,
            Addr::GpioGpfSel0 => gpio_base + 0x00,
            Addr::GpioGpfSel1 => gpio_base + 0x04,
            Addr::GpioGpfSel2 => gpio_base + 0x08,
            Addr::GpioGpfSel3 => gpio_base + 0x0C,
            Addr::GpioGpfSel4 => gpio_base + 0x10,
            Addr::GpioGpfSel5 => gpio_base + 0x14,
            Addr::GpioGpSet0 => gpio_base + 0x1C,
            Addr::GpioGpSet1 => gpio_base + 0x20,
            Addr::GpioGpClr0 => gpio_base + 0x28,
            Addr::GpioGpClr1 => gpio_base + 0x2C,
            Addr::Spi0Base => spi_base,
            Addr::Spi0RegisterCs => spi_base + 0x00,
            Addr::Spi0RegisterFifo => spi_base + 0x04,
            Addr::Spi0RegisterClk => spi_base + 0x08,
            Addr::Spi0RegisterDlen => spi_base + 0x0C,
            Addr::Spi0RegisterLtoh => spi_base + 0x10,
            Addr::Spi0RegisterDc => spi_base + 0x14,
            Addr::AuxIrq => aux_base + 0x00,
            Addr::AuxEnables => aux_base + 0x04,
            Addr::AuxMuIoReg => aux_base + 0x40,
            Addr::AuxMuIerReg => aux_base + 0x44,
            Addr::AuxMuIirReg => aux_base + 0x48,
            Addr::AuxMuLcrReg => aux_base + 0x4C,
            Addr::AuxMuMcrReg => aux_base + 0x50,
            Addr::AuxMuLsrReg => aux_base + 0x54,
            Addr::AuxMuMsrReg => aux_base + 0x58,
            Addr::AuxMuScratch => aux_base + 0x5C,
            Addr::AuxMuCntlReg => aux_base + 0x60,
            Addr::AuxMuStatReg => aux_base + 0x64,
            Addr::AuxMuBaudReg => aux_base + 0x68,
            Addr::AuxSpi1Cntl0Reg => aux_base + 0x80,
            Addr::AuxSpi1Cntl1Reg => aux_base + 0x84,
            Addr::AuxSpi1StatReg => aux_base + 0x88,
            Addr::AuxSpi1IoReg => aux_base + 0x90,
            Addr::AuxSpi1PeekReg => aux_base + 0x94,
            Addr::AuxSpi2Cntl0Reg => aux_base + 0xC0,
            Addr::AuxSpi2Cntl1Reg => aux_base + 0xC4,
            Addr::AuxSpi2StatReg => aux_base + 0xC8,
            Addr::AuxSpi2IoReg => aux_base + 0xD0,
            Addr::AuxSpi2PeekReg => aux_base + 0xD4,
        }
    }
}

} // verus!

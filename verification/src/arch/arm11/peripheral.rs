//! The peripherals of the BCM2835. Nothing here touches a register: the
//! functions compute which register gets which value, and the caller
//! writes.

pub mod addr;
pub mod gpio;
pub mod spi;
pub mod timer;

//! The ARM11 boards: the BCM2835 of the Raspberry Pi family.

pub mod peripheral;

//! Memory management and interrupt dispatch core of the Axel kernel.
//!
//! The crate holds the logic of the kernel as plain values: the buddy-system
//! frame allocator, the recursive four-level page tables, the bring-up
//! allocators and the interrupt tables. Hardware is never touched here; the
//! functions compute what has to be written and the caller writes it.

pub mod alist;
pub mod arch;
pub mod bytes;
pub mod graphic;
pub mod memory;
pub mod process;

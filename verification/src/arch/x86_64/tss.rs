//! The task state segment.

use crate::memory::address::VirtualAddress;
use vstd::prelude::*;

verus! {

#[derive(Copy, Clone, Debug, PartialEq, Eq, Structural)]
pub struct TaskStateSegment {
    pub reserved0: u32,
    pub rsp0: u64,
    pub rsp1: u64,
    pub rsp2: u64,
    pub reserved1: u64,
    pub ist1: u64,
    pub ist2: u64,
    pub ist3: u64,
    pub ist4: u64,
    pub ist5: u64,
    pub ist6: u64,
    pub ist7: u64,
    pub reserved2: u64,
    pub reserved3: u16,
    pub io_map_base_address: u16,
}

impl TaskStateSegment {
    /// The stack that the processor switches to when it enters the kernel.
    pub fn kernel_mode_stack(&self) -> (r: VirtualAddress)
        ensures
            r@ == self.rsp0,
    {
        VirtualAddress::new(self.rsp0)
    }

    pub fn set_kernel_mode_stack(&mut self, addr: u64)
        ensures
            *final(self) == (TaskStateSegment { rsp0: addr, ..*old(self) }),
    {
        self.rsp0 = addr;
    }
}

} // verus!

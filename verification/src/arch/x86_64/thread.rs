//! A thread of execution, and what the timer does to the interrupted one.

use super::interrupt::handler::InterruptFrame;
use crate::process::{self, ProcessManager};
use vstd::prelude::*;

verus! {

/// The selector of the code segment of user mode, with the privilege level
/// of user mode.
pub const USER_CODE_SELECTOR: u64 = 8 * 3 + 3;

/// The selector of the data segment of user mode, with the privilege level
/// of user mode.
pub const USER_DATA_SELECTOR: u64 = 8 * 4 + 3;

#[derive(Copy, Clone, Debug, PartialEq, Eq, Structural)]
pub struct Thread {}

/// The interrupted context continues in user mode: its code and stack
/// segments become those of user mode. The caller loads the data segment
/// registers with the new stack segment.
pub fn enter_user_mode(current_interrupt_frame: &mut InterruptFrame)
    ensures
        *final(current_interrupt_frame) == (InterruptFrame {
            cs: USER_CODE_SELECTOR,
            ss: USER_DATA_SELECTOR,
            ..*old(current_interrupt_frame)
        }),
{
    current_interrupt_frame.cs = USER_CODE_SELECTOR;
    current_interrupt_frame.ss = USER_DATA_SELECTOR;
}


/// What the timer tick does to the interrupted context: where a current and
/// a next process exist, the context continues in user mode. Returns
/// whether they do; the caller then loads the data segment registers with
/// the new stack segment.
pub fn switch_context(manager: &mut ProcessManager, current_interrupt_frame: &mut InterruptFrame) -> (r: bool)
    requires
        old(manager).wf(),
    ensures
        final(manager).wf(),
        final(manager).processes@ == old(manager).processes@,
        r == old(manager).has_pair(),
        r ==> *final(current_interrupt_frame) == (InterruptFrame {
            cs: USER_CODE_SELECTOR,
            ss: USER_DATA_SELECTOR,
            ..*old(current_interrupt_frame)
        }),
        !r ==> *final(current_interrupt_frame) == *old(current_interrupt_frame),
{
    let keep = |current_thread: Thread, next_thread: Thread| -> (r: (Thread, Thread))
        ensures
            r == (current_thread, next_thread),
        { (current_thread, next_thread) };
    let switched = process::switch_context(manager, keep);
    if switched {
        enter_user_mode(current_interrupt_frame);
        proof {
            assert(manager.processes@ =~= old(manager).processes@);
        }
    }
    switched
}

} // verus!

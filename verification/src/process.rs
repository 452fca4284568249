//! The table of processes and the hook that the timer tick calls.

use crate::arch::x86_64::Thread;
use vstd::prelude::*;

verus! {

pub const MAX_PROCESS_COUNT: usize = 16;

#[derive(Copy, Clone, Debug, PartialEq, Eq, Structural)]
pub struct Process {
    pub thread: Thread,
}

pub struct ProcessManager {
    pub processes: Vec<Option<Process>>,
}

impl ProcessManager {
    pub open spec fn wf(&self) -> bool {
        self.processes@.len() == MAX_PROCESS_COUNT
    }

    /// Whether a current and a next process stand in the table: the first
    /// two slots are both taken.
    pub open spec fn has_pair(&self) -> bool {
        self.processes@[0] is Some && self.processes@[1] is Some
    }

    /// A table in which every slot is empty.
    pub fn new() -> (r: ProcessManager)
        ensures
            r.wf(),
            forall|i: int| 0 <= i < MAX_PROCESS_COUNT ==> r.processes@[i] is None,
    {
        let mut processes: Vec<Option<Process>> = Vec::new();
        let mut i: usize = 0;
        while i < MAX_PROCESS_COUNT
            invariant
                i <= MAX_PROCESS_COUNT,
                processes@.len() == i,
                forall|k: int| 0 <= k < i ==> processes@[k] is None,
            decreases MAX_PROCESS_COUNT - i,
        {
            processes.push(None);
            i += 1;
        }
        ProcessManager { processes }
    }
}

/// Calls `switch_thread` with the threads of the current and the next
/// process if both exist, and returns what it made of them; does nothing
/// where one is missing. Returns whether it called.
pub fn switch_context<F>(manager: &mut ProcessManager, switch_thread: F) -> (r: bool) where
    F: FnOnce(Thread, Thread) -> (Thread, Thread),

    requires
        old(manager).wf(),
        forall|current: Thread, next: Thread| switch_thread.requires((current, next)),
    ensures
        final(manager).wf(),
        r == old(manager).has_pair(),
        !r ==> final(manager).processes@ == old(manager).processes@,
        r ==> ({
            let current = old(manager).processes@[0]->0.thread;
            let next = old(manager).processes@[1]->0.thread;
            &&& final(manager).processes@[0] is Some
            &&& final(manager).processes@[1] is Some
            &&& switch_thread.ensures(
                (current, next),
                (final(manager).processes@[0]->0.thread, final(manager).processes@[1]->0.thread),
            )
            &&& forall|i: int|
                2 <= i < MAX_PROCESS_COUNT ==> final(manager).processes@[i] == old(
                    manager,
                ).processes@[i]
        }),
{
    let first = manager.processes[0];
    let second = manager.processes[1];
    match (first, second) {
        (Some(current), Some(next)) => {
            let (current_thread, next_thread) = switch_thread(current.thread, next.thread);
            manager.processes[0] = Some(Process { thread: current_thread });
            manager.processes[1] = Some(Process { thread: next_thread });
            true
        },
        _ => false,
    }
}

} // verus!

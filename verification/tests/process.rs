use axel::arch::x86_64::interrupt::handler::InterruptFrame;
use axel::arch::x86_64::thread::{enter_user_mode, Thread};
use axel::arch::x86_64::tss::TaskStateSegment;
use axel::arch::Error as ArchError;
use axel::memory::buddy_system::buddy_frame::{BuddyFrame, State};
use axel::memory::buddy_system::Object;
use axel::memory::frame::Frame;
use axel::memory::frame_allocator::FrameAllocator;
use axel::memory::address::PhysicalAddress;
use axel::memory::buddy_system::allocator::BuddyAllocator;
use axel::memory::Error as MemoryError;
use axel::process::{switch_context, Process, ProcessManager};

#[test]
fn switch_context_needs_two_processes() {
    let mut manager = ProcessManager::new();
    assert_eq!(manager.processes.len(), 16);
    assert!(manager.processes.iter().all(|p| p.is_none()));
    assert!(!switch_context(&mut manager, |a, b| (b, a)));
    manager.processes[0] = Some(Process { thread: Thread {} });
    assert!(!switch_context(&mut manager, |a, b| (b, a)));
    manager.processes[1] = Some(Process { thread: Thread {} });
    assert!(switch_context(&mut manager, |a, b| (b, a)));
    assert!(manager.processes[0].is_some());
    assert!(manager.processes[2].is_none());
}

#[test]
fn timer_tick_sends_the_context_to_user_mode() {
    let mut frame = InterruptFrame { ip: 1, cs: 8, flags: 2, sp: 3, ss: 16 };
    enter_user_mode(&mut frame);
    assert_eq!(frame, InterruptFrame { ip: 1, cs: 27, flags: 2, sp: 3, ss: 35 });
}

#[test]
fn task_state_segment_stack() {
    let mut tss = TaskStateSegment {
        reserved0: 0,
        rsp0: 0,
        rsp1: 0,
        rsp2: 0,
        reserved1: 0,
        ist1: 0,
        ist2: 0,
        ist3: 0,
        ist4: 0,
        ist5: 0,
        ist6: 0,
        ist7: 0,
        reserved2: 0,
        reserved3: 0,
        io_map_base_address: 0,
    };
    tss.set_kernel_mode_stack(0xffff_8000_0001_0000);
    assert_eq!(tss.kernel_mode_stack().into_u64(), 0xffff_8000_0001_0000);
    assert_eq!(tss.rsp1, 0);
}

#[test]
fn errors_wrap_their_cause() {
    assert_eq!(
        ArchError::from_memory_error(MemoryError::NoUsableMemory),
        ArchError::MemoryInitializationFailed(MemoryError::NoUsableMemory)
    );
}

#[test]
fn packed_frame_descriptor() {
    let mut frame = BuddyFrame::default();
    assert_eq!(frame.order(), 0);
    assert!(frame.is_free());
    assert_eq!(frame.size(), 4096);
    frame.set_order(3);
    frame.set_state(State::Alloc);
    assert_eq!(frame.order(), 3);
    assert_eq!(frame.state(), State::Alloc);
    assert!(frame.is_alloc());
    assert!(!frame.is_free());
    assert_eq!(frame.size(), 8 * 4096);
}

#[test]
fn frame_descriptor_as_object() {
    let mut frame = Frame::from_address(PhysicalAddress::new(0x5123));
    assert_eq!(frame.number(), 5);
    assert_eq!(frame.address().into_u64(), 0x5000);
    assert!(!frame.is_used());
    assert!(frame.is_free());
    frame.mark_used();
    assert!(frame.is_used());
    frame.set_order(4);
    assert_eq!(frame.order(), 4);
    assert_eq!(Object::size(&frame), 16);
    frame.linked = true;
    frame.reset_link();
    assert!(!frame.is_linked());
    frame.mark_free();
    assert!(frame.is_free());
    frame.set_number(9);
    assert_eq!(frame.number(), 9);
}

#[test]
fn frame_allocator_hands_out_single_frames() {
    let mut bman = BuddyAllocator::new(PhysicalAddress::new(0x10_0000), 4);
    let first = bman.alloc_one().unwrap();
    assert_eq!(first.number(), 0x100);
    assert_eq!(first.order(), 0);
    assert_eq!(bman.count_free_objs(), 3);
    FrameAllocator::free(&mut bman, first);
    assert_eq!(bman.count_free_objs(), 4);
    assert_eq!(bman.free_count(2), 1);
}

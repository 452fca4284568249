use axel::memory::address::PhysicalAddress;
use axel::memory::buddy_system::allocator::{BuddyAllocator, MAX_ORDER};
use axel::memory::buddy_system::Object;
use axel::memory::frame::{Frame, State, SIZE};

fn make_frame_allocator(count: usize) -> BuddyAllocator {
    BuddyAllocator::new(PhysicalAddress::new(0), count)
}

fn frame_at(number: u64) -> Frame {
    Frame::from_address(PhysicalAddress::new(number * SIZE))
}

#[test]
fn test_allocate_simple_split() {
    const SIZE: usize = 32;
    let mut allocator = make_frame_allocator(SIZE);

    assert_eq!(SIZE, allocator.count_free_objs());

    let obj = allocator.allocate(4);
    assert!(obj.is_some());
    assert_eq!(SIZE - (1 << 4), allocator.count_free_objs());
    for i in 0..MAX_ORDER {
        if i == 4 {
            assert_eq!(1, allocator.free_count(i));
        } else {
            assert_eq!(0, allocator.free_count(i));
        }
    }

    allocator.free(obj.unwrap());
    assert_eq!(SIZE, allocator.count_free_objs());
    for i in 0..MAX_ORDER {
        if i == 5 {
            assert_eq!(1, allocator.free_count(i));
        } else {
            assert_eq!(0, allocator.free_count(i));
        }
    }
}

#[test]
fn test_allocate_and_free() {
    const SIZE: usize = 32;
    let mut allocator = make_frame_allocator(SIZE);

    assert_eq!(SIZE, allocator.count_free_objs());

    if let Some(obj) = allocator.allocate(2) {
        assert_eq!(2, obj.order());
        assert_eq!(SIZE - 4, allocator.count_free_objs());

        allocator.free(obj);
        assert_eq!(SIZE, allocator.count_free_objs());
    } else {
        assert!(false)
    }
}

#[test]
fn test_try_to_allocate_all() {
    const SIZE: usize = 32;
    let mut allocator = make_frame_allocator(SIZE);

    let mut list = Vec::new();

    // Allocate the all objects.
    while let Some(obj) = allocator.allocate(0) {
        assert_eq!(0, obj.order());
        list.push(obj);
    }

    assert_eq!(true, allocator.allocate(0).is_none());
    assert_eq!(0, allocator.count_free_objs());
    assert_eq!(SIZE, list.iter().count());

    // Deallocate the all objects.
    for obj in list.into_iter() {
        allocator.free(obj);
    }

    assert_eq!(SIZE, allocator.count_free_objs());
}

#[test]
fn test_is_managed_obj() {
    const SIZE: usize = 32;
    let allocator = BuddyAllocator::new(PhysicalAddress::new(4096), SIZE);

    // The first node.
    assert_eq!(true, allocator.is_managed_obj(&frame_at(1)));
    // The last node.
    assert_eq!(true, allocator.is_managed_obj(&frame_at(SIZE as u64)));
    // Invalid nodes.
    assert_eq!(false, allocator.is_managed_obj(&frame_at(0)));
    assert_eq!(false, allocator.is_managed_obj(&frame_at(SIZE as u64 + 1)));
}

#[test]
fn test_buddy() {
    const SIZE: usize = 1 << MAX_ORDER;
    let allocator = make_frame_allocator(SIZE);

    let compare_buddy = |expected: u64, (node, order): (Frame, usize)| -> bool {
        if let Some(buddy) = allocator.buddy(&node, order) {
            expected == buddy.number()
        } else {
            false
        }
    };

    let n0 = frame_at(0);
    for i in 0..MAX_ORDER {
        assert_eq!(true, compare_buddy(1 << i, (n0, i)));
    }
    assert_eq!(false, compare_buddy(0, (n0, MAX_ORDER)));

    let n1 = frame_at(1);
    assert_eq!(true, compare_buddy(0, (n1, 0)));
    for i in 1..MAX_ORDER {
        assert_eq!(true, compare_buddy((1 << i) + 1, (n1, i)));
    }
    assert_eq!(false, compare_buddy(0, (n1, MAX_ORDER)));
}

#[test]
fn buddy_cold_start_collapses_to_one_block() {
    let mut allocator = make_frame_allocator(32);
    let mut numbers = Vec::new();
    for _ in 0..32 {
        let frame = allocator.allocate(0).unwrap();
        assert_eq!(State::Used, frame.state);
        assert!(!numbers.contains(&frame.number()));
        numbers.push(frame.number());
    }
    assert!(allocator.allocate(0).is_none());
    for number in numbers.iter().rev() {
        allocator.free(frame_at(*number));
    }
    assert_eq!(32, allocator.count_free_objs());
    for order in 0..MAX_ORDER {
        assert_eq!(if order == 5 { 1 } else { 0 }, allocator.free_count(order));
    }
}

#[test]
fn buddy_split_hands_out_the_lower_half() {
    let mut allocator = make_frame_allocator(32);
    let frame = allocator.allocate(4).unwrap();
    assert_eq!(4, frame.order());
    assert_eq!(0, frame.number());
    assert_eq!(1, allocator.free_count(4));
    let upper = allocator.allocate(4).unwrap();
    assert_eq!(16, upper.number());
    assert!(allocator.allocate(0).is_none());
    allocator.free(frame);
    allocator.free(upper);
    assert_eq!(1, allocator.free_count(5));
}

#[test]
fn initial_blocks_follow_the_bits_of_the_count() {
    let allocator = make_frame_allocator(0b10110);
    assert_eq!(0, allocator.free_count(0));
    assert_eq!(1, allocator.free_count(1));
    assert_eq!(1, allocator.free_count(2));
    assert_eq!(0, allocator.free_count(3));
    assert_eq!(1, allocator.free_count(4));
    assert_eq!(22, allocator.count_free_objs());
}

#[test]
fn top_order_blocks_do_not_merge() {
    let mut allocator = make_frame_allocator(1 << MAX_ORDER);
    assert_eq!(2, allocator.free_count(MAX_ORDER - 1));
    let frame = allocator.allocate(MAX_ORDER - 1).unwrap();
    assert_eq!(1, allocator.free_count(MAX_ORDER - 1));
    allocator.free(frame);
    assert_eq!(2, allocator.free_count(MAX_ORDER - 1));
    assert_eq!(1 << MAX_ORDER, allocator.count_free_objs());
}

#[test]
fn allocate_rejects_an_order_out_of_range() {
    let mut allocator = make_frame_allocator(8);
    assert!(allocator.allocate(MAX_ORDER).is_none());
    assert_eq!(8, allocator.count_free_objs());
}

#[test]
fn is_allocated_tells_heads_from_inner_frames() {
    let mut allocator = make_frame_allocator(8);
    let frame = allocator.allocate(1).unwrap();
    assert!(allocator.is_allocated(&frame));
    assert!(!allocator.is_allocated(&frame_at(frame.number() + 1)));
    assert!(!allocator.is_allocated(&frame_at(4)));
    assert!(!allocator.is_allocated(&frame_at(100)));
}

#[test]
fn other_blocks_stay_handed_out() {
    let mut bman = BuddyAllocator::new(PhysicalAddress::new(0), 32);
    let a = bman.allocate(0).unwrap();
    let b = bman.allocate(2).unwrap();
    assert!(bman.is_allocated(&a));
    let c = bman.allocate(0).unwrap();
    assert!(bman.is_allocated(&a) && bman.is_allocated(&b) && bman.is_allocated(&c));
    assert_eq!((a.number(), b.number(), c.number()), (0, 4, 1));
    // The descriptor of the block at 4 as its buddy at order 2 sees it.
    assert_eq!(bman.buddy(&a, 2), Some(b));
    bman.free(b);
    assert!(bman.is_allocated(&a) && bman.is_allocated(&c));
    assert!(!bman.is_allocated(&b));
    assert_eq!(bman.buddy(&c, 0), Some(a));
    bman.free(a);
    assert!(bman.is_allocated(&c));
    assert_eq!(bman.count_free_objs(), 31);
    bman.free(c);
    assert_eq!(bman.count_free_objs(), 32);
    assert_eq!(bman.free_count(5), 1);
}

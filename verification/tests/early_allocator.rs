use axel::memory::early_allocator::{AllocationError, EarlyAllocator};
use std::mem;

#[test]
fn test_capacity() {
    let eallocator = EarlyAllocator::new(0x0000, 0x1000);

    assert_eq!(eallocator.capacity(), 0x1000);
}

#[allow(dead_code)]
struct Object {
    hoge: usize,
}

#[test]
fn test_allocate() {
    let mut eallocator = EarlyAllocator::new(0x0000, 0x1000);
    let mut capacity = eallocator.capacity();

    let _ = eallocator.allocate::<Object>(10);
    capacity -= mem::size_of::<Object>() * 10;
    assert_eq!(eallocator.capacity(), capacity);

    let _ = eallocator.allocate::<Object>(50);
    capacity -= mem::size_of::<Object>() * 50;
    assert_eq!(eallocator.capacity(), capacity);
}

#[test]
fn allocate_returns_the_aligned_front() {
    let mut eallocator = EarlyAllocator::new(0x1001, 0x2000);
    assert_eq!(eallocator.allocate::<u64>(2), Ok(0x1008));
    assert_eq!(eallocator.addr_begin, 0x1018);
    assert_eq!(eallocator.allocate::<u8>(1), Ok(0x1018));
    assert_eq!(eallocator.to_addr_begin(), 0x1019);
}

#[test]
fn allocate_fails_when_out_of_space() {
    let mut eallocator = EarlyAllocator::new(0x1000, 0x1010);
    assert_eq!(eallocator.allocate::<u64>(3), Err(AllocationError::OutOfSpace));
    assert_eq!(eallocator.addr_begin, 0x1000);
    assert_eq!(eallocator.allocate::<u64>(2), Ok(0x1000));
    assert_eq!(eallocator.capacity(), 0);
    assert_eq!(eallocator.allocate::<u8>(1), Err(AllocationError::OutOfSpace));
    assert_eq!(eallocator.allocate::<u64>(usize::MAX), Err(AllocationError::OutOfSpace));
}

#[test]
fn align_addr_begin_moves_the_front() {
    let mut eallocator = EarlyAllocator::new(0x1001, 0x3000);
    assert_eq!(eallocator.align_addr_begin(0x1000), Ok(()));
    assert_eq!(eallocator.addr_begin, 0x2000);
    assert_eq!(eallocator.align_addr_begin(0x1000), Ok(()));
    assert_eq!(eallocator.addr_begin, 0x2000);
    assert_eq!(eallocator.alloc_region(1, 1), Ok(0x2000));
    assert_eq!(eallocator.align_addr_begin(0x1000), Ok(()));
    assert_eq!(eallocator.addr_begin, 0x3000);
    assert_eq!(eallocator.alloc_region(1, 1), Err(AllocationError::OutOfSpace));
}

#[test]
fn align_addr_begin_near_the_end_of_the_word() {
    let mut eallocator = EarlyAllocator::new(usize::MAX - 0xfff, usize::MAX);
    assert_eq!(eallocator.align_addr_begin(0x1000), Ok(()));
    assert_eq!(eallocator.addr_begin, usize::MAX - 0xfff);
    let mut eallocator = EarlyAllocator::new(usize::MAX - 0xffe, usize::MAX);
    assert_eq!(eallocator.align_addr_begin(0x1000), Err(AllocationError::OutOfSpace));
    assert_eq!(eallocator.addr_begin, usize::MAX - 0xffe);
}

use stellar_quorum_analyzer::allocator::LimitedAllocator;

#[test]
fn requests_are_served_up_to_the_limit() {
    let mut allocator = LimitedAllocator::new(100);
    assert!(allocator.reserve(60));
    assert_eq!(allocator.allocated, 60);
    // 60 + 60 passes the limit: refused, and not charged
    assert!(!allocator.reserve(60));
    assert_eq!(allocator.allocated, 60);
    assert!(allocator.reserve(40));
    assert_eq!(allocator.allocated, 100);
    assert!(!allocator.reserve(1));
    assert_eq!(allocator.allocated, 100);
    assert!(allocator.reserve(0));
    assert_eq!(allocator.allocated, 100);
    allocator.release(60);
    assert_eq!(allocator.allocated, 40);
    assert!(allocator.reserve(60));
    assert_eq!(allocator.allocated, 100);
    assert_eq!(allocator.limit, 100);
}

#[test]
fn a_request_is_weighed_with_what_is_in_use() {
    let allocator = LimitedAllocator::new(10);
    assert!(allocator.admits(0, 10));
    assert!(allocator.admits(10, 0));
    assert!(allocator.admits(3, 7));
    assert!(!allocator.admits(3, 8));
    assert!(!allocator.admits(11, 0));
    assert!(!allocator.admits(0, 11));
    // a sum that no counter can hold passes every limit
    assert!(!allocator.admits(usize::MAX, 1));
    assert!(!allocator.admits(1, usize::MAX));
    let unlimited = LimitedAllocator::new(usize::MAX);
    assert!(unlimited.admits(usize::MAX, 0));
    assert!(unlimited.admits(usize::MAX - 5, 5));
    assert!(!unlimited.admits(usize::MAX, 1));
    let none = LimitedAllocator::new(0);
    assert!(none.admits(0, 0));
    assert!(!none.admits(0, 1));
}

#[test]
fn a_full_counter_refuses_without_wrapping() {
    let mut allocator = LimitedAllocator::new(usize::MAX);
    assert!(allocator.reserve(usize::MAX));
    assert!(!allocator.reserve(1));
    assert_eq!(allocator.allocated, usize::MAX);
    allocator.release(usize::MAX);
    assert_eq!(allocator.allocated, 0);
    // a release of what was never reserved wraps the count
    allocator.release(1);
    assert_eq!(allocator.allocated, usize::MAX);
}

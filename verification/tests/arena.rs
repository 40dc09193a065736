use web::arena::Allocator;
use web::err::Error;

#[test]
fn new_arena_is_empty() {
    let a = Allocator::new(100);
    assert_eq!(a.capacity(), 100);
    assert_eq!(a.free_size(), 100);
    assert_eq!(a.bytes(), 0);
}

#[test]
fn reserve_advances_cursor() {
    let mut a = Allocator::new(100);
    assert_eq!(a.reserve(40), Ok(0));
    assert_eq!(a.free_size(), 60);
    assert_eq!(a.reserve(10), Ok(40));
    assert_eq!(a.free_size(), 50);
}

#[test]
fn exhaustion_fails_without_partial_allocation() {
    let mut a = Allocator::new(64);
    assert!(a.reserve(60).is_ok());
    assert_eq!(a.reserve(5), Err(Error::Allocation));
    // no partial allocation: the cursor did not move
    assert_eq!(a.free_size(), 4);
    assert_eq!(a.reserve(4), Ok(60));
    assert_eq!(a.free_size(), 0);
    assert_eq!(a.reserve(1), Err(Error::Allocation));
}

#[test]
fn lifo_dealloc_reclaims_top_block() {
    let mut a = Allocator::new(100);
    let _h1 = a.reserve(30).unwrap();
    let h2 = a.reserve(20).unwrap();
    assert_eq!(a.free_size(), 50);
    a.dealloc(h2, 20);
    assert_eq!(a.free_size(), 70);
}

#[test]
fn dealloc_non_top_is_silent_noop() {
    let mut a = Allocator::new(100);
    let h1 = a.reserve(30).unwrap();
    let h2 = a.reserve(20).unwrap();
    a.dealloc(h1, 30);
    assert_eq!(a.free_size(), 50);
    // freeing in reverse order works
    a.dealloc(h2, 20);
    a.dealloc(h1, 30);
    assert_eq!(a.free_size(), 100);
}

#[test]
fn clear_resets_cursor() {
    let mut a = Allocator::new(100);
    let _ = a.reserve(80).unwrap();
    a.clear();
    assert_eq!(a.free_size(), 100);
}

#[test]
fn child_carves_from_parent() {
    let mut a = Allocator::new(100);
    let _ = a.reserve(10).unwrap();
    let child = a.child(40).unwrap();
    assert_eq!(a.free_size(), 50);
    assert_eq!(child.capacity(), 40);
    assert_eq!(child.free_size(), 40);
    assert_eq!(child.bytes(), 10);
}

#[test]
fn child_too_large_fails() {
    let mut a = Allocator::new(100);
    assert!(a.child(101).is_err());
    assert_eq!(a.free_size(), 100);
}

use web::arena::Allocator;
use web::collection::Array;
use web::err::Error;

#[test]
fn push_fills_exactly_capacity() {
    let mut a = Allocator::new(100);
    let mut arr: Array<u8> = Array::new(4, &mut a).unwrap();
    for i in 0..4u8 {
        assert_eq!(arr.push(i), Ok(()));
    }
    assert_eq!(arr.push(4), Err(Error::OutOfBounds));
    assert_eq!(arr.len(), 4);
    assert_eq!(arr.cap(), 4);
}

#[test]
fn pop_returns_in_reverse_order_and_nothing_when_empty() {
    let mut a = Allocator::new(100);
    let mut arr: Array<u8> = Array::new(3, &mut a).unwrap();
    assert_eq!(arr.pop(), None);
    arr.push(1).unwrap();
    arr.push(2).unwrap();
    assert_eq!(arr.pop(), Some(2));
    assert_eq!(arr.pop(), Some(1));
    assert_eq!(arr.pop(), None);
}

#[test]
fn array_new_charges_the_arena() {
    let mut a = Allocator::new(10);
    let arr: Array<u8> = Array::new(6, &mut a).unwrap();
    assert_eq!(a.free_size(), 4);
    assert_eq!(arr.len(), 0);
    let too_big: Result<Array<u8>, Error> = Array::new(5, &mut a);
    assert_eq!(too_big.err(), Some(Error::Allocation));
    assert_eq!(a.free_size(), 4);
}

#[test]
fn at_reads_only_the_initialized_prefix() {
    let mut a = Allocator::new(100);
    let mut arr: Array<u8> = Array::new(4, &mut a).unwrap();
    arr.push(7).unwrap();
    assert_eq!(arr.at(0), Ok(7));
    assert_eq!(arr.at(1), Err(Error::OutOfBounds));
    assert_eq!(arr.at(4), Err(Error::OutOfBounds));
}

#[test]
fn insert_overwrites_in_place() {
    let mut a = Allocator::new(100);
    let mut arr: Array<u8> = Array::new(3, &mut a).unwrap();
    arr.push(1).unwrap();
    arr.push(2).unwrap();
    arr.push(3).unwrap();
    assert_eq!(arr.insert(1, 9), Ok(()));
    assert_eq!(arr.at(1), Ok(9));
    assert_eq!(arr.insert(3, 9), Err(Error::OutOfBounds));
}

#[test]
fn copy_and_append_slice_append_bytes() {
    let mut a = Allocator::new(100);
    let mut arr: Array<u8> = Array::new(8, &mut a).unwrap();
    arr.copy(b"abc").unwrap();
    arr.append_slice(b"de").unwrap();
    assert_eq!(arr.slice(), b"abcde");
    assert_eq!(arr.append_slice(b"fghi"), Err(Error::OutOfBounds));
    assert_eq!(arr.slice(), b"abcde");
}

#[test]
fn zero_fills_whole_capacity() {
    let mut a = Allocator::new(100);
    let mut arr: Array<u8> = Array::new(5, &mut a).unwrap();
    arr.push(9).unwrap();
    arr.zero();
    assert_eq!(arr.len(), 5);
    assert_eq!(arr.slice(), &[0, 0, 0, 0, 0]);
}

#[test]
fn eq_compares_initialized_prefixes() {
    let mut a = Allocator::new(100);
    let mut x: Array<u8> = Array::new(8, &mut a).unwrap();
    let mut y: Array<u8> = Array::new(4, &mut a).unwrap();
    x.copy(b"abc").unwrap();
    y.copy(b"abc").unwrap();
    assert!(x.eq(&y));
    y.push(b'd').unwrap();
    assert!(!x.eq(&y));
}

#[test]
fn is_null_means_no_storage() {
    let mut a = Allocator::new(100);
    let arr: Array<u8> = Array::new(1, &mut a).unwrap();
    assert!(!arr.is_null());
    let null: Array<u8> = Array::null();
    assert!(null.is_null());
}

#[test]
fn parse_pushes_decimal_digits_least_significant_first() {
    let mut a = Allocator::new(100);
    let mut arr: Array<u8> = Array::new(8, &mut a).unwrap();
    arr.parse(1234).unwrap();
    assert_eq!(arr.slice(), &[4, 3, 2, 1]);
}

#[test]
fn parse_of_zero_pushes_nothing() {
    let mut a = Allocator::new(100);
    let mut arr: Array<u8> = Array::new(8, &mut a).unwrap();
    arr.parse(0).unwrap();
    assert_eq!(arr.len(), 0);
}

#[test]
fn parse_fails_when_digits_do_not_fit() {
    let mut a = Allocator::new(100);
    let mut arr: Array<u8> = Array::new(2, &mut a).unwrap();
    assert_eq!(arr.parse(12345), Err(Error::OutOfBounds));
    // the digits that did fit stay appended
    assert_eq!(arr.slice(), &[5, 4]);
}

use web::arena::Allocator;
use web::collection::HashMap;
use web::manager::Mapping;
use web::request::{HttpMethod, RequestHeader};

fn key(path: &[u8], arena: &mut Allocator) -> RequestHeader {
    RequestHeader::new(HttpMethod::Get, path, 1, arena).unwrap()
}

#[test]
fn round_trip_returns_the_inserted_value() {
    let mut a = Allocator::new(8192);
    let mut map: HashMap<RequestHeader, Mapping> = HashMap::new(8, &mut a).unwrap();
    map.insert(key(b"/hello", &mut a), Mapping { file_index: 3 }).unwrap();
    map.insert(key(b"/", &mut a), Mapping { file_index: 5 }).unwrap();
    let got = map.get(&key(b"/hello", &mut a));
    assert_eq!(got, Some(Mapping { file_index: 3 }));
    let got_root = map.get(&key(b"/", &mut a));
    assert_eq!(got_root, Some(Mapping { file_index: 5 }));
}

#[test]
fn absent_key_returns_nothing() {
    let mut a = Allocator::new(8192);
    let mut map: HashMap<RequestHeader, Mapping> = HashMap::new(8, &mut a).unwrap();
    map.insert(key(b"/hello", &mut a), Mapping { file_index: 0 }).unwrap();
    assert_eq!(map.get(&key(b"/missing", &mut a)), None);
}

#[test]
fn no_false_positives_over_many_samples() {
    let mut a = Allocator::new(2_000_000);
    let mut map: HashMap<RequestHeader, Mapping> = HashMap::new(32, &mut a).unwrap();
    map.insert(key(b"/hello", &mut a), Mapping { file_index: 0 }).unwrap();
    map.insert(key(b"/", &mut a), Mapping { file_index: 1 }).unwrap();
    for i in 0..10_000usize {
        let path = format!("/probe{}", i);
        assert_eq!(map.get(&key(path.as_bytes(), &mut a)), None);
    }
}

#[test]
fn capacity_margin_one_slot_stays_empty() {
    // all four keys land in the same bucket of a table of four slots:
    // the byte sums of the paths agree modulo four
    let mut a = Allocator::new(8192);
    let mut map: HashMap<RequestHeader, Mapping> = HashMap::new(4, &mut a).unwrap();
    // capacity - 1 distinct keys all fit ...
    map.insert(key(b"/a", &mut a), Mapping { file_index: 0 }).unwrap();
    map.insert(key(b"/e", &mut a), Mapping { file_index: 1 }).unwrap();
    map.insert(key(b"/i", &mut a), Mapping { file_index: 2 }).unwrap();
    // ... and the capacity-th is rejected by the early wrap detection,
    // which fires one slot before the probe start
    assert!(map.insert(key(b"/m", &mut a), Mapping { file_index: 3 }).is_err());
    // the three stored keys are still all reachable
    assert_eq!(map.get(&key(b"/a", &mut a)), Some(Mapping { file_index: 0 }));
    assert_eq!(map.get(&key(b"/e", &mut a)), Some(Mapping { file_index: 1 }));
    assert_eq!(map.get(&key(b"/i", &mut a)), Some(Mapping { file_index: 2 }));
}

#[test]
fn key_identity_ignores_the_version_but_not_the_path() {
    let mut a = Allocator::new(8192);
    let h1 = key(b"/x", &mut a);
    let h2 = key(b"/x", &mut a);
    let h3 = key(b"/y", &mut a);
    assert!(web::collection::Hash::eq(&h1, &h2));
    assert!(!web::collection::Hash::eq(&h1, &h3));
    assert_eq!(
        web::collection::Hash::hash(&h1),
        web::collection::Hash::hash(&h2)
    );
}

#[test]
fn zero_key_marks_an_empty_slot() {
    let mut a = Allocator::new(8192);
    let zero = <RequestHeader as web::collection::Hash>::zero();
    assert!(web::collection::Hash::is_zero(&zero));
    let real = key(b"/x", &mut a);
    assert!(!web::collection::Hash::is_zero(&real));
}

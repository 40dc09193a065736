use web::arena::Allocator;
use web::err::Error;
use web::http::{Method, Version};
use web::request::{HttpMethod, HttpProtocolVersion, RequestHeader};

#[test]
fn method_accepts_get_and_post() {
    assert!(matches!(Method::from_bytes(Some(b"GET")), Ok(Method::Get)));
    assert!(matches!(Method::from_bytes(Some(b"POST")), Ok(Method::Post)));
}

#[test]
fn method_rejects_everything_else() {
    assert_eq!(Method::from_bytes(Some(b"DELETE")).err(), Some(Error::HttpMethod));
    assert_eq!(Method::from_bytes(Some(b"get")).err(), Some(Error::HttpMethod));
    assert_eq!(Method::from_bytes(Some(b"")).err(), Some(Error::HttpMethod));
    assert_eq!(Method::from_bytes(None).err(), Some(Error::Parsing));
}

#[test]
fn method_eq_compares_variants() {
    assert!(Method::Get.eq(&Method::Get));
    assert!(!Method::Get.eq(&Method::Post));
    assert!(HttpMethod::Post.eq(&HttpMethod::Post));
    assert!(!HttpMethod::Post.eq(&HttpMethod::Get));
}

#[test]
fn version_accepts_both_http_versions() {
    assert!(matches!(Version::from_bytes(Some(b"HTTP/1.1")), Ok(Version::OneOne)));
    assert!(matches!(Version::from_bytes(Some(b"HTTP/1.0")), Ok(Version::One)));
}

#[test]
fn version_reports_each_failure_kind() {
    assert_eq!(Version::from_bytes(None).err(), Some(Error::Parsing));
    assert_eq!(Version::from_bytes(Some(b"HTTP")).err(), Some(Error::Parsing));
    assert_eq!(Version::from_bytes(Some(b"XTTP/1.1")).err(), Some(Error::Protocol));
    assert_eq!(Version::from_bytes(Some(b"HTTP/2.0")).err(), Some(Error::HttpVersion));
}

#[test]
fn protocol_version_number_is_one_for_both() {
    let v10 = HttpProtocolVersion::from_bytes(Some(b"HTTP/1.0")).unwrap();
    let v11 = HttpProtocolVersion::from_bytes(Some(b"HTTP/1.1")).unwrap();
    assert_eq!(v10.0, 1);
    assert_eq!(v11.0, 1);
    assert_eq!(HttpProtocolVersion::from_bytes(Some(b"HTTP/3")).err(), Some(Error::HttpVersion));
}

#[test]
fn request_line_parses_into_a_routing_key() {
    let mut a = Allocator::new(4096);
    let parsed = RequestHeader::from_bytes(b"GET /hello HTTP/1.1\r\n\r\n", &mut a).unwrap();
    let built = RequestHeader::new(HttpMethod::Get, b"/hello", 1, &mut a).unwrap();
    assert!(web::collection::Hash::eq(&parsed, &built));
    assert_eq!(
        web::collection::Hash::hash(&parsed),
        web::collection::Hash::hash(&built)
    );
}

#[test]
fn request_line_failures_are_reported_by_kind() {
    let mut a = Allocator::new(4096);
    assert_eq!(
        RequestHeader::from_bytes(b"DELETE /x HTTP/1.1\r\n\r\n", &mut a).err(),
        Some(Error::HttpMethod)
    );
    assert_eq!(RequestHeader::from_bytes(b"GET", &mut a).err(), Some(Error::Parsing));
    assert_eq!(RequestHeader::from_bytes(b"GET /x", &mut a).err(), Some(Error::Parsing));
    assert_eq!(
        RequestHeader::from_bytes(b"GET /x SMTP/1.1\r\n", &mut a).err(),
        Some(Error::Protocol)
    );
    assert_eq!(
        RequestHeader::from_bytes(b"GET /x HTTP/9.9\r\n", &mut a).err(),
        Some(Error::HttpVersion)
    );
}

#[test]
fn request_line_needs_room_for_the_path() {
    let mut tiny = Allocator::new(2);
    assert_eq!(
        RequestHeader::from_bytes(b"GET /hello HTTP/1.1\r\n", &mut tiny).err(),
        Some(Error::Allocation)
    );
    // a failed parse leaves the arena untouched
    assert_eq!(tiny.free_size(), 2);
}

use web::arena::Allocator;
use web::err::Error;
use web::http::{Content, Version};
use web::response::{HttpResponse, HttpStatus};

fn expected(status_line: &[u8], body: &[u8], length_digits: &[u8]) -> Vec<u8> {
    let mut v = Vec::new();
    v.extend_from_slice(status_line);
    v.extend_from_slice(b"\r\nContent-Type: text/html\r\nContent-Length: ");
    v.extend_from_slice(length_digits);
    v.extend_from_slice(b"\r\n\r\n");
    v.extend_from_slice(body);
    v
}

#[test]
fn success_response_is_formatted_exactly() {
    let mut a = Allocator::new(8192);
    let r = HttpResponse::new(
        Version::OneOne,
        HttpStatus::Success,
        Content::Html(b"hello"),
        &mut a,
    )
    .unwrap();
    // the content length of the five-byte body is the decimal text "5"
    assert_eq!(r.body(), expected(b"HTTP/1.1 200 OK", b"hello", b"5").as_slice());
    assert!(r.body().starts_with(b"HTTP/1.1 200 OK"));
}

#[test]
fn error_response_is_formatted_exactly() {
    let mut a = Allocator::new(8192);
    let r = HttpResponse::new(
        Version::OneOne,
        HttpStatus::Error,
        Content::Html(b"oops!"),
        &mut a,
    )
    .unwrap();
    assert_eq!(r.body(), expected(b"HTTP/1.1 404 ERROR", b"oops!", b"5").as_slice());
    assert!(r.body().starts_with(b"HTTP/1.1 404 ERROR"));
}

#[test]
fn content_length_is_decimal_text_most_significant_first() {
    let mut a = Allocator::new(8192);
    let r = HttpResponse::new(
        Version::OneOne,
        HttpStatus::Success,
        Content::Html(b"hello, world!"),
        &mut a,
    )
    .unwrap();
    // thirteen bytes of body: the text "13", not the reversed raw digits
    assert_eq!(
        r.body(),
        expected(b"HTTP/1.1 200 OK", b"hello, world!", b"13").as_slice()
    );
}

#[test]
fn empty_content_is_just_the_status_line() {
    let mut a = Allocator::new(8192);
    let r = HttpResponse::new(Version::OneOne, HttpStatus::Success, Content::Empty, &mut a)
        .unwrap();
    assert_eq!(r.body(), b"HTTP/1.1 200 OK");
}

#[test]
fn old_http_version_is_rejected() {
    let mut a = Allocator::new(8192);
    let r = HttpResponse::new(Version::One, HttpStatus::Success, Content::Html(b"x"), &mut a);
    assert_eq!(r.err(), Some(Error::HttpVersion));
}

#[test]
fn json_content_is_rejected() {
    let mut a = Allocator::new(8192);
    let r = HttpResponse::new(Version::OneOne, HttpStatus::Success, Content::Json(b"{}"), &mut a);
    assert_eq!(r.err(), Some(Error::Parsing));
}

#[test]
fn response_needs_its_array_in_the_arena() {
    let mut a = Allocator::new(100);
    let r = HttpResponse::new(Version::OneOne, HttpStatus::Success, Content::Html(b"x"), &mut a);
    assert_eq!(r.err(), Some(Error::Allocation));
    assert_eq!(a.free_size(), 100);
}

#[test]
fn overlong_body_is_rejected() {
    let mut a = Allocator::new(8192);
    let big = vec![b'x'; 1000];
    let r = HttpResponse::new(
        Version::OneOne,
        HttpStatus::Success,
        Content::Html(big.as_slice()),
        &mut a,
    );
    assert_eq!(r.err(), Some(Error::OutOfBounds));
}

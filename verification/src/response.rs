use crate::arena::Allocator;
use crate::collection::{
    lemma_dec_digits_reverse, lemma_digits_rev_bounded, spec_dec_digits, spec_digits_rev, Array,
};
use crate::err::Error;
use crate::http::{Content, Version};
use vstd::prelude::*;

verus! {

broadcast use vstd::layout::layout_of_primitives;

/// The response status lines the server produces.
#[derive(Debug, Clone, Copy, PartialEq, Eq, Structural)]
pub enum HttpStatus {
    Success,
    Error,
}

/// One formatted response: the status line and, when there is content, the
/// headers and body, all in one arena-accounted byte array.
pub struct HttpResponse {
    status: HttpStatus,
    version: Version,
    body: Array<u8>,
}

/// The bytes of `HTTP/`.
pub open spec fn lit_http_slash() -> Seq<u8> {
    seq![72u8, 84u8, 84u8, 80u8, 47u8]
}

/// The bytes of `1.1 `.
pub open spec fn lit_v11_space() -> Seq<u8> {
    seq![49u8, 46u8, 49u8, 32u8]
}

/// The bytes of `200 OK`.
pub open spec fn lit_status_ok() -> Seq<u8> {
    seq![50u8, 48u8, 48u8, 32u8, 79u8, 75u8]
}

/// The bytes of `404 ERROR`.
pub open spec fn lit_status_error() -> Seq<u8> {
    seq![52u8, 48u8, 52u8, 32u8, 69u8, 82u8, 82u8, 79u8, 82u8]
}

/// The bytes of `\r\n`.
pub open spec fn lit_crlf() -> Seq<u8> {
    seq![13u8, 10u8]
}

/// The bytes of `Content-Type: text/html\r\n`.
pub open spec fn lit_content_type() -> Seq<u8> {
    seq![
        67u8,
        111u8,
        110u8,
        116u8,
        101u8,
        110u8,
        116u8,
        45u8,
        84u8,
        121u8,
        112u8,
        101u8,
        58u8,
        32u8,
        116u8,
        101u8,
        120u8,
        116u8,
        47u8,
        104u8,
        116u8,
        109u8,
        108u8,
        13u8,
        10u8,
    ]
}

/// The bytes of `Content-Length: `.
pub open spec fn lit_content_length() -> Seq<u8> {
    seq![
        67u8,
        111u8,
        110u8,
        116u8,
        101u8,
        110u8,
        116u8,
        45u8,
        76u8,
        101u8,
        110u8,
        103u8,
        116u8,
        104u8,
        58u8,
        32u8,
    ]
}

/// The status line for `status`, version `1.1`, without a line ending.
pub open spec fn spec_status_line(status: HttpStatus) -> Seq<u8> {
    lit_http_slash() + lit_v11_space() + match status {
        HttpStatus::Success => lit_status_ok(),
        HttpStatus::Error => lit_status_error(),
    }
}

/// A full response with an HTML body: status line, content headers, a blank
/// line, then the body. The length stands as decimal text, most significant
/// digit first: the digits a length loop yields come least significant
/// first (see [`spec_digits_rev`]), so the formatter reverses them and
/// offsets them into ASCII before they reach the wire.
pub open spec fn spec_response(status: HttpStatus, body: Seq<u8>) -> Seq<u8> {
    spec_status_line(status) + lit_crlf() + lit_content_type() + lit_content_length()
        + spec_dec_digits(body.len()) + lit_crlf() + lit_crlf() + body
}

impl HttpResponse {
    /// The formatted bytes.
    pub closed spec fn spec_body(&self) -> Seq<u8> {
        self.body@
    }

    /// The response status.
    pub closed spec fn spec_status(&self) -> HttpStatus {
        self.status
    }

    /// Formats a response into a fresh 1024-byte array carved from the
    /// arena. Fails with `Error::Allocation`, leaving the arena untouched,
    /// when the array does not fit; with `Error::HttpVersion` for a version
    /// other than `1.1`; with `Error::Parsing` for content that is not HTML;
    /// and with `Error::OutOfBounds` when the formatted response exceeds the
    /// array. Every failure after the carve leaves the carve in place.
    pub fn new(version: Version, status: HttpStatus, content: Content, allocator: &mut Allocator)
        -> (r: Result<HttpResponse, Error>)
        requires
            old(allocator).wf(),
        ensures
            final(allocator).wf(),
            final(allocator).spec_base() == old(allocator).spec_base(),
            final(allocator).spec_cap() == old(allocator).spec_cap(),
            1024 > old(allocator).spec_free() ==> r == Err::<HttpResponse, Error>(
                Error::Allocation,
            ) && final(allocator).spec_end() == old(allocator).spec_end(),
            1024 <= old(allocator).spec_free() ==> final(allocator).spec_end() == old(
                allocator,
            ).spec_end() + 1024 && match version {
                Version::One => r == Err::<HttpResponse, Error>(Error::HttpVersion),
                Version::OneOne => match content {
                    Content::Empty => r is Ok && r.unwrap().spec_body() == spec_status_line(
                        status,
                    ) && r.unwrap().spec_status() == status,
                    Content::Json(_) => r == Err::<HttpResponse, Error>(Error::Parsing),
                    Content::Html(b) => {
                        if spec_response(status, b@).len() <= 1024 {
                            r is Ok && r.unwrap().spec_body() == spec_response(status, b@)
                                && r.unwrap().spec_status() == status
                        } else {
                            r == Err::<HttpResponse, Error>(Error::OutOfBounds)
                        }
                    },
                },
            },
    {
        let mut body: Array<u8> = Array::new(1024, allocator)?;
        let http_slash: [u8; 5] = [72, 84, 84, 80, 47];
        let v11_space: [u8; 4] = [49, 46, 49, 32];
        let status_ok: [u8; 6] = [50, 48, 48, 32, 79, 75];
        let status_error: [u8; 9] = [52, 48, 52, 32, 69, 82, 82, 79, 82];
        let crlf: [u8; 2] = [13, 10];
        let content_type: [u8; 25] = [
            67,
            111,
            110,
            116,
            101,
            110,
            116,
            45,
            84,
            121,
            112,
            101,
            58,
            32,
            116,
            101,
            120,
            116,
            47,
            104,
            116,
            109,
            108,
            13,
            10,
        ];
        let content_length: [u8; 16] = [
            67,
            111,
            110,
            116,
            101,
            110,
            116,
            45,
            76,
            101,
            110,
            103,
            116,
            104,
            58,
            32,
        ];
        proof {
            assert(http_slash@ =~= lit_http_slash());
            assert(v11_space@ =~= lit_v11_space());
            assert(status_ok@ =~= lit_status_ok());
            assert(status_error@ =~= lit_status_error());
            assert(crlf@ =~= lit_crlf());
            assert(content_type@ =~= lit_content_type());
            assert(content_length@ =~= lit_content_length());
        }
        let _ = body.append_slice(http_slash.as_slice());
        match version {
            Version::OneOne => {
                let _ = body.append_slice(v11_space.as_slice());
            },
            _ => {
                return Err(Error::HttpVersion);
            },
        }
        match status {
            HttpStatus::Success => {
                let _ = body.append_slice(status_ok.as_slice());
            },
            HttpStatus::Error => {
                let _ = body.append_slice(status_error.as_slice());
            },
        }
        proof {
            assert(body@ == spec_status_line(status));
        }
        if let Some(b) = content.bytes() {
            let _ = body.append_slice(crlf.as_slice());
            match content {
                Content::Html(_) => {
                    let _ = body.append_slice(content_type.as_slice());
                },
                _ => {
                    return Err(Error::Parsing);
                },
            }
            body.append_slice(content_length.as_slice())?;
            // gather the raw digits least significant first, then emit them
            // reversed and offset into ASCII
            let mut digits: Vec<u8> = Vec::new();
            let mut n = b.len();
            while n > 0
                invariant
                    spec_digits_rev(b@.len()) == digits@ + spec_digits_rev(n as nat),
                decreases n,
            {
                let rest = n % 10;
                n = n / 10;
                proof {
                    assert(spec_digits_rev((10 * (n as nat) + rest as nat) as nat) == seq![
                        rest as u8,
                    ] + spec_digits_rev(n as nat));
                    assert(digits@.push(rest as u8) + spec_digits_rev(n as nat) == digits@
                        + (seq![rest as u8] + spec_digits_rev(n as nat)));
                }
                digits.push(rest as u8);
            }
            proof {
                assert(digits@ =~= spec_digits_rev(b@.len()));
            }
            let ghost before_digits = body@;
            let mut k: usize = 0;
            while k < digits.len()
                invariant
                    k <= digits@.len(),
                    digits@ == spec_digits_rev(b@.len()),
                    body.wf(),
                    body.spec_cap() == 1024,
                    body@ == before_digits + spec_dec_digits(b@.len()).take(k as int),
                    before_digits == spec_status_line(status) + lit_crlf() + lit_content_type()
                        + lit_content_length(),
                    version is OneOne,
                    content matches Content::Html(bb) && bb == b,
                    allocator.wf(),
                    allocator.spec_base() == old(allocator).spec_base(),
                    allocator.spec_cap() == old(allocator).spec_cap(),
                    allocator.spec_end() == old(allocator).spec_end() + 1024,
                    1024 <= old(allocator).spec_free(),
                decreases digits@.len() - k,
            {
                proof {
                    lemma_dec_digits_reverse(b@.len());
                    lemma_digits_rev_bounded(b@.len());
                }
                let d = digits[digits.len() - 1 - k];
                proof {
                    assert(d < 10);
                    assert(spec_dec_digits(b@.len())[k as int] == d + 48);
                    assert(spec_dec_digits(b@.len()).take(k + 1) =~= spec_dec_digits(
                        b@.len(),
                    ).take(k as int).push((d + 48) as u8));
                }
                body.push(d + 48)?;
                proof {
                    assert(body@ =~= before_digits + spec_dec_digits(b@.len()).take(k + 1));
                }
                k = k + 1;
            }
            proof {
                lemma_dec_digits_reverse(b@.len());
                assert(spec_dec_digits(b@.len()).take(spec_dec_digits(b@.len()).len() as int)
                    =~= spec_dec_digits(b@.len()));
            }
            body.append_slice(crlf.as_slice())?;
            body.append_slice(crlf.as_slice())?;
            body.append_slice(b)?;
            proof {
                assert(body@ == spec_response(status, b@));
            }
        }
        Ok(HttpResponse { status, version, body })
    }

    /// The formatted bytes, ready to write to a socket.
    pub fn body(&self) -> (r: &[u8])
        ensures
            r@ == self.spec_body(),
    {
        self.body.slice()
    }
}

} // verus!

use crate::arena::Allocator;
use crate::collection::Array;
use crate::err::Error;
use crate::http::{range_eq, spec_version};
use vstd::prelude::*;

verus! {

broadcast use vstd::layout::layout_of_primitives;

/// The routing key of one request: what the request line holds.
pub struct RequestHeader {
    method: HttpMethod,
    end_point: EndPoint,
    version: HttpProtocolVersion,
}

/// The request methods the routing key distinguishes.
#[derive(Debug, Clone, Copy, PartialEq, Eq, Structural)]
pub enum HttpMethod {
    Get,
    Post,
}

/// The path token of a request line, held in an arena-accounted byte array.
pub struct EndPoint(pub Array<u8>);

/// The numeric protocol version of a request line.
pub struct HttpProtocolVersion(pub u32);

/// Whether `b` separates the tokens of a request line.
pub open spec fn is_sep(b: u8) -> bool {
    b == 32 || b == 13
}

/// The position of the first separator at or after `from`, or the length
/// when none follows.
pub open spec fn sep_idx(s: Seq<u8>, from: int) -> int
    decreases s.len() - from,
{
    if from < 0 || from >= s.len() {
        s.len() as int
    } else if is_sep(s[from]) {
        from
    } else {
        sep_idx(s, from + 1)
    }
}

/// What parsing a method token yields: `GET`, `POST`, or `Error::HttpMethod`.
pub open spec fn spec_req_method(s: Seq<u8>) -> Result<HttpMethod, Error> {
    if s == seq![71u8, 69u8, 84u8] {
        Ok(HttpMethod::Get)
    } else if s == seq![80u8, 79u8, 83u8, 84u8] {
        Ok(HttpMethod::Post)
    } else {
        Err(Error::HttpMethod)
    }
}

/// What parsing a version token yields: `1` for both accepted versions,
/// or the error [`spec_version`] reports.
pub open spec fn spec_req_version(s: Seq<u8>) -> Result<u32, Error> {
    match spec_version(s) {
        Ok(_) => Ok(1u32),
        Err(e) => Err(e),
    }
}

/// What parsing a whole request line yields: the method and the path, split
/// on spaces and carriage returns as `<METHOD> <PATH> HTTP/<VERSION>`.
/// A missing path or version token is `Error::Parsing`; the method and
/// version tokens carry their own errors.
pub open spec fn spec_request(s: Seq<u8>) -> Result<(HttpMethod, Seq<u8>), Error> {
    let e1 = sep_idx(s, 0);
    match spec_req_method(s.subrange(0, e1)) {
        Err(e) => Err(e),
        Ok(m) => {
            if e1 == s.len() {
                Err(Error::Parsing)
            } else {
                let e2 = sep_idx(s, e1 + 1);
                if e2 == s.len() {
                    Err(Error::Parsing)
                } else {
                    let e3 = sep_idx(s, e2 + 1);
                    match spec_req_version(s.subrange(e2 + 1, e3)) {
                        Err(e) => Err(e),
                        Ok(_) => Ok((m, s.subrange(e1 + 1, e2))),
                    }
                }
            }
        },
    }
}

/// The sum of the endpoint bytes, wrapping as machine addition does.
pub open spec fn byte_sum(s: Seq<u8>) -> usize
    decreases s.len(),
{
    if s.len() == 0 {
        0usize
    } else {
        vstd::wrapping::usize_specs::wrapping_add(byte_sum(s.drop_last()), s.last() as usize)
    }
}

/// Finds the first separator at or after `from`.
fn find_sep(bytes: &[u8], from: usize) -> (r: usize)
    requires
        from <= bytes@.len(),
    ensures
        r == sep_idx(bytes@, from as int),
        from <= r <= bytes@.len(),
{
    let mut i = from;
    while i < bytes.len()
        invariant
            from <= i <= bytes@.len(),
            sep_idx(bytes@, from as int) == sep_idx(bytes@, i as int),
        decreases bytes@.len() - i,
    {
        if bytes[i] == 32 || bytes[i] == 13 {
            return i;
        }
        i = i + 1;
    }
    i
}

impl HttpMethod {
    /// Parses a method token: `GET`, `POST`, a missing token is
    /// `Error::Parsing`, anything else `Error::HttpMethod`.
    pub fn from_bytes(opt: Option<&[u8]>) -> (r: Result<HttpMethod, Error>)
        ensures
            opt is None ==> r == Err::<HttpMethod, Error>(Error::Parsing),
            opt matches Some(bytes) ==> r == spec_req_method(bytes@),
    {
        let bytes = match opt {
            Some(b) => b,
            None => {
                return Err(Error::Parsing);
            },
        };
        let get_lit: [u8; 3] = [71, 69, 84];
        let post_lit: [u8; 4] = [80, 79, 83, 84];
        proof {
            assert(get_lit@ =~= seq![71u8, 69u8, 84u8]);
            assert(post_lit@ =~= seq![80u8, 79u8, 83u8, 84u8]);
            assert(bytes@.subrange(0, bytes@.len() as int) =~= bytes@);
        }
        if range_eq(bytes, 0, bytes.len(), get_lit.as_slice()) {
            Ok(HttpMethod::Get)
        } else if range_eq(bytes, 0, bytes.len(), post_lit.as_slice()) {
            Ok(HttpMethod::Post)
        } else {
            Err(Error::HttpMethod)
        }
    }

    /// Whether two methods are the same.
    pub fn eq(&self, other: &HttpMethod) -> (r: bool)
        ensures
            r == (*self == *other),
    {
        match (self, other) {
            (HttpMethod::Get, HttpMethod::Get) => true,
            (HttpMethod::Post, HttpMethod::Post) => true,
            _ => false,
        }
    }
}

impl EndPoint {
    /// Copies a path token into an arena-accounted byte array. A missing
    /// token is `Error::Parsing`; a full arena is `Error::Allocation`.
    pub fn from_bytes(opt: Option<&[u8]>, allocator: &mut Allocator) -> (r: Result<
        EndPoint,
        Error,
    >)
        requires
            old(allocator).wf(),
        ensures
            final(allocator).wf(),
            final(allocator).spec_base() == old(allocator).spec_base(),
            final(allocator).spec_cap() == old(allocator).spec_cap(),
            opt is None ==> r == Err::<EndPoint, Error>(Error::Parsing)
                && final(allocator).spec_end() == old(allocator).spec_end(),
            opt matches Some(bytes) ==> {
                &&& bytes@.len() > old(allocator).spec_free() ==> r == Err::<EndPoint, Error>(
                    Error::Allocation,
                ) && final(allocator).spec_end() == old(allocator).spec_end()
                &&& bytes@.len() <= old(allocator).spec_free() ==> r is Ok && r.unwrap().0@
                    == bytes@ && r.unwrap().0.spec_cap() == bytes@.len() && r.unwrap().0.wf()
                    && final(allocator).spec_end() == old(allocator).spec_end() + bytes@.len()
            },
    {
        let bytes = match opt {
            Some(b) => b,
            None => {
                return Err(Error::Parsing);
            },
        };
        let mut string: Array<u8> = Array::new(bytes.len(), allocator)?;
        let _ = string.copy(bytes);
        Ok(EndPoint(string))
    }
}

impl HttpProtocolVersion {
    /// Parses a `HTTP/<version>` token as [`spec_req_version`] describes;
    /// both accepted versions carry the number `1`.
    pub fn from_bytes(opt: Option<&[u8]>) -> (r: Result<HttpProtocolVersion, Error>)
        ensures
            opt is None ==> r == Err::<HttpProtocolVersion, Error>(Error::Parsing),
            opt matches Some(bytes) ==> match spec_req_version(bytes@) {
                Ok(v) => r is Ok && r.unwrap().0 == v,
                Err(e) => r == Err::<HttpProtocolVersion, Error>(e),
            },
    {
        match crate::http::Version::from_bytes(opt) {
            Ok(_) => Ok(HttpProtocolVersion(1)),
            Err(e) => Err(e),
        }
    }
}

impl RequestHeader {
    /// The parsed method.
    pub closed spec fn spec_method(&self) -> HttpMethod {
        self.method
    }

    /// The bytes of the parsed path.
    pub closed spec fn spec_endpoint(&self) -> Seq<u8> {
        self.end_point.0@
    }

    /// The capacity of the path array; zero only in the zero state.
    pub closed spec fn spec_endpoint_cap(&self) -> int {
        self.end_point.0.spec_cap()
    }

    /// The numeric version.
    pub closed spec fn spec_version_num(&self) -> u32 {
        self.version.0
    }

    /// Builds a routing key from its parts, copying the path into the arena.
    /// Fails with `Error::Allocation`, leaving the arena untouched, exactly
    /// when the path does not fit.
    pub fn new(method: HttpMethod, end: &[u8], version: u32, allocator: &mut Allocator) -> (r:
        Result<RequestHeader, Error>)
        requires
            old(allocator).wf(),
        ensures
            final(allocator).wf(),
            final(allocator).spec_base() == old(allocator).spec_base(),
            final(allocator).spec_cap() == old(allocator).spec_cap(),
            end@.len() > old(allocator).spec_free() ==> r == Err::<RequestHeader, Error>(
                Error::Allocation,
            ) && final(allocator).spec_end() == old(allocator).spec_end(),
            end@.len() <= old(allocator).spec_free() ==> r is Ok && r.unwrap().spec_method()
                == method && r.unwrap().spec_endpoint() == end@ && r.unwrap().spec_endpoint_cap()
                == end@.len() && r.unwrap().spec_version_num() == version
                && final(allocator).spec_end() == old(allocator).spec_end() + end@.len(),
    {
        let end_point = EndPoint::from_bytes(Some(end), allocator)?;
        Ok(RequestHeader { method, end_point, version: HttpProtocolVersion(version) })
    }

    /// Parses a whole request line as [`spec_request`] describes, then copies
    /// the path into the arena. On any parse error, and on an arena too full
    /// for the path, the arena is left untouched.
    pub fn from_bytes(bytes: &[u8], allocator: &mut Allocator) -> (r: Result<
        RequestHeader,
        Error,
    >)
        requires
            old(allocator).wf(),
        ensures
            final(allocator).wf(),
            final(allocator).spec_base() == old(allocator).spec_base(),
            final(allocator).spec_cap() == old(allocator).spec_cap(),
            match spec_request(bytes@) {
                Err(e) => r == Err::<RequestHeader, Error>(e) && final(allocator).spec_end()
                    == old(allocator).spec_end(),
                Ok((m, ep)) => {
                    &&& ep.len() > old(allocator).spec_free() ==> r == Err::<
                        RequestHeader,
                        Error,
                    >(Error::Allocation) && final(allocator).spec_end()
                        == old(allocator).spec_end()
                    &&& ep.len() <= old(allocator).spec_free() ==> r is Ok
                        && r.unwrap().spec_method() == m && r.unwrap().spec_endpoint() == ep
                        && r.unwrap().spec_endpoint_cap() == ep.len()
                        && r.unwrap().spec_version_num() == 1 && final(allocator).spec_end()
                        == old(allocator).spec_end() + ep.len()
                },
            },
    {
        let e1 = find_sep(bytes, 0);
        let method = HttpMethod::from_bytes(Some(&bytes[0..e1]))?;
        if e1 == bytes.len() {
            return Err(Error::Parsing);
        }
        let e2 = find_sep(bytes, e1 + 1);
        if e2 == bytes.len() {
            return Err(Error::Parsing);
        }
        let e3 = find_sep(bytes, e2 + 1);
        let version = HttpProtocolVersion::from_bytes(Some(&bytes[e2 + 1..e3]))?;
        let end_point = EndPoint::from_bytes(Some(&bytes[e1 + 1..e2]), allocator)?;
        Ok(RequestHeader { method, end_point, version })
    }
}

impl crate::collection::Hash for RequestHeader {
    /// Two keys match when method and path match; the version is not part
    /// of the identity.
    open spec fn eq_spec(&self, other: &Self) -> bool {
        self.spec_method() == other.spec_method() && self.spec_endpoint()
            == other.spec_endpoint()
    }

    /// The zero state is a key whose path array has no storage.
    open spec fn is_zero_spec(&self) -> bool {
        self.spec_endpoint_cap() == 0
    }

    /// The wrapping sum of the path bytes, with the version folded into the
    /// high bits. Equality ignores the version, but the hash does not: two
    /// keys equal under `eq` probe from the same slot only when their
    /// versions agree. Every key a parsed request line yields carries the
    /// version number `1`, so parsed lookups always probe where a
    /// registration with version `1` put its key.
    open spec fn hash_spec(&self) -> usize {
        byte_sum(self.spec_endpoint()) | (((self.spec_version_num() << 30u32) as usize))
    }

    fn hash(&self) -> (r: usize) {
        let slice = self.end_point.0.slice();
        let mut count: usize = 0;
        let mut i: usize = 0;
        while i < slice.len()
            invariant
                i <= slice@.len(),
                slice@ == self.spec_endpoint(),
                count == byte_sum(slice@.take(i as int)),
            decreases slice@.len() - i,
        {
            proof {
                assert(slice@.take(i + 1).drop_last() =~= slice@.take(i as int));
                assert(slice@.take(i + 1).last() == slice@[i as int]);
            }
            count = count.wrapping_add(slice[i] as usize);
            i = i + 1;
        }
        proof {
            assert(slice@.take(slice@.len() as int) =~= slice@);
        }
        let version: u32 = self.version.0 << 30u32;
        count | (version as usize)
    }

    fn eq(&self, other: &Self) -> (r: bool) {
        self.method.eq(&other.method) && self.end_point.0.eq(&other.end_point.0)
    }

    fn is_zero(&self) -> (r: bool) {
        self.end_point.0.cap() == 0
    }

    fn zero() -> (r: Self) {
        RequestHeader {
            method: HttpMethod::Get,
            end_point: EndPoint(Array::null()),
            version: HttpProtocolVersion(0),
        }
    }

    proof fn lemma_eq_reflexive(&self) {
    }
}

} // verus!

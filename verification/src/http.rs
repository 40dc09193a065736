use crate::err::Error;
use vstd::prelude::*;

verus! {

/// The HTTP protocol versions the server accepts.
#[derive(Debug, Clone, Copy, PartialEq, Eq, Structural)]
pub enum Version {
    One,
    OneOne,
}

/// The request methods the server accepts.
#[derive(Debug, Clone, Copy, PartialEq, Eq, Structural)]
pub enum Method {
    Get,
    Post,
}

/// A response payload: either nothing or a borrowed body with its type.
pub enum Content<'a> {
    Empty,
    Html(&'a [u8]),
    Json(&'a [u8]),
}

/// The bytes of `HTTP`.
pub open spec fn lit_http() -> Seq<u8> {
    seq![72u8, 84u8, 84u8, 80u8]
}

/// The bytes of `1.1`.
pub open spec fn lit_v11() -> Seq<u8> {
    seq![49u8, 46u8, 49u8]
}

/// The bytes of `1.0`.
pub open spec fn lit_v10() -> Seq<u8> {
    seq![49u8, 46u8, 48u8]
}

/// The position of the first `/` at or after `from`, or the length when no
/// slash follows.
pub open spec fn slash_idx(s: Seq<u8>, from: int) -> int
    decreases s.len() - from,
{
    if from < 0 || from >= s.len() {
        s.len() as int
    } else if s[from] == 47 {
        from
    } else {
        slash_idx(s, from + 1)
    }
}

/// The position [`slash_idx`] reports is the first slash in the range.
pub proof fn lemma_slash_idx_props(s: Seq<u8>, from: int)
    requires
        0 <= from <= s.len(),
    ensures
        from <= slash_idx(s, from) <= s.len(),
        slash_idx(s, from) < s.len() ==> s[slash_idx(s, from)] == 47,
        forall|j: int| from <= j < slash_idx(s, from) ==> s[j] != 47,
    decreases s.len() - from,
{
    if from < s.len() && s[from] != 47 {
        lemma_slash_idx_props(s, from + 1);
    }
}

/// What parsing `<proto>/<version>` from `s` yields: the token before the
/// first slash must read `HTTP` (else `Error::Protocol`), the token between
/// the first and second slash selects the version (`1.1` or `1.0`, else
/// `Error::HttpVersion`); a missing slash is `Error::Parsing`.
pub open spec fn spec_version(s: Seq<u8>) -> Result<Version, Error> {
    let e1 = slash_idx(s, 0);
    if e1 == s.len() {
        Err(Error::Parsing)
    } else {
        let t1 = s.subrange(0, e1);
        let t2 = s.subrange(e1 + 1, slash_idx(s, e1 + 1));
        if t1 != lit_http() {
            Err(Error::Protocol)
        } else if t2 == lit_v11() {
            Ok(Version::OneOne)
        } else if t2 == lit_v10() {
            Ok(Version::One)
        } else {
            Err(Error::HttpVersion)
        }
    }
}

/// What parsing a method token yields: `GET`, `POST`, or `Error::HttpMethod`.
pub open spec fn spec_method(s: Seq<u8>) -> Result<Method, Error> {
    if s == seq![71u8, 69u8, 84u8] {
        Ok(Method::Get)
    } else if s == seq![80u8, 79u8, 83u8, 84u8] {
        Ok(Method::Post)
    } else {
        Err(Error::HttpMethod)
    }
}

/// Finds the first `/` at or after `from`.
pub(crate) fn find_slash(bytes: &[u8], from: usize) -> (r: usize)
    requires
        from <= bytes@.len(),
    ensures
        r == slash_idx(bytes@, from as int),
        from <= r <= bytes@.len(),
{
    proof {
        lemma_slash_idx_props(bytes@, from as int);
    }
    let mut i = from;
    while i < bytes.len()
        invariant
            from <= i <= bytes@.len(),
            slash_idx(bytes@, from as int) == slash_idx(bytes@, i as int),
        decreases bytes@.len() - i,
    {
        if bytes[i] == 47 {
            return i;
        }
        i = i + 1;
    }
    i
}

/// Whether `bytes[start..end]` holds exactly the bytes of `expected`.
pub(crate) fn range_eq(bytes: &[u8], start: usize, end: usize, expected: &[u8]) -> (r: bool)
    requires
        start <= end <= bytes@.len(),
    ensures
        r == (bytes@.subrange(start as int, end as int) == expected@),
{
    if end - start != expected.len() {
        proof {
            assert(bytes@.subrange(start as int, end as int).len() != expected@.len());
        }
        false
    } else {
        let mut j: usize = 0;
        while j < expected.len()
            invariant
                j <= expected@.len(),
                start + expected@.len() == end <= bytes@.len(),
                forall|t: int| 0 <= t < j ==> bytes@[start + t] == expected@[t],
            decreases expected@.len() - j,
        {
            if bytes[start + j] != expected[j] {
                proof {
                    assert(bytes@.subrange(start as int, end as int)[j as int]
                        != expected@[j as int]);
                }
                return false;
            }
            j = j + 1;
        }
        proof {
            assert(bytes@.subrange(start as int, end as int) =~= expected@);
        }
        true
    }
}

impl Version {
    /// Parses a `HTTP/<version>` token. A missing token or a missing slash
    /// is `Error::Parsing`; a prefix other than `HTTP` is `Error::Protocol`;
    /// a version other than `1.1` or `1.0` is `Error::HttpVersion`.
    pub fn from_bytes(opt: Option<&[u8]>) -> (r: Result<Version, Error>)
        ensures
            opt is None ==> r == Err::<Version, Error>(Error::Parsing),
            opt matches Some(bytes) ==> r == spec_version(bytes@),
    {
        let bytes = match opt {
            Some(b) => b,
            None => {
                return Err(Error::Parsing);
            },
        };
        let e1 = find_slash(bytes, 0);
        if e1 == bytes.len() {
            return Err(Error::Parsing);
        }
        let e2 = find_slash(bytes, e1 + 1);
        let http_lit: [u8; 4] = [72, 84, 84, 80];
        let v11: [u8; 3] = [49, 46, 49];
        let v10: [u8; 3] = [49, 46, 48];
        if !range_eq(bytes, 0, e1, http_lit.as_slice()) {
            proof {
                assert(http_lit@ =~= lit_http());
            }
            return Err(Error::Protocol);
        }
        proof {
            assert(http_lit@ =~= lit_http());
            assert(v11@ =~= lit_v11());
            assert(v10@ =~= lit_v10());
        }
        if range_eq(bytes, e1 + 1, e2, v11.as_slice()) {
            Ok(Version::OneOne)
        } else if range_eq(bytes, e1 + 1, e2, v10.as_slice()) {
            Ok(Version::One)
        } else {
            Err(Error::HttpVersion)
        }
    }
}

impl Method {
    /// Parses a method token: `GET`, `POST`, a missing token is
    /// `Error::Parsing`, anything else `Error::HttpMethod`.
    pub fn from_bytes(opt: Option<&[u8]>) -> (r: Result<Method, Error>)
        ensures
            opt is None ==> r == Err::<Method, Error>(Error::Parsing),
            opt matches Some(bytes) ==> r == spec_method(bytes@),
    {
        let bytes = match opt {
            Some(b) => b,
            None => {
                return Err(Error::Parsing);
            },
        };
        let get_lit: [u8; 3] = [71, 69, 84];
        let post_lit: [u8; 4] = [80, 79, 83, 84];
        proof {
            assert(get_lit@ =~= seq![71u8, 69u8, 84u8]);
            assert(post_lit@ =~= seq![80u8, 79u8, 83u8, 84u8]);
        }
        if range_eq(bytes, 0, bytes.len(), get_lit.as_slice()) {
            proof {
                assert(bytes@.subrange(0, bytes@.len() as int) =~= bytes@);
            }
            Ok(Method::Get)
        } else if range_eq(bytes, 0, bytes.len(), post_lit.as_slice()) {
            proof {
                assert(bytes@.subrange(0, bytes@.len() as int) =~= bytes@);
            }
            Ok(Method::Post)
        } else {
            proof {
                assert(bytes@.subrange(0, bytes@.len() as int) =~= bytes@);
            }
            Err(Error::HttpMethod)
        }
    }

    /// Whether two methods are the same.
    pub fn eq(&self, other: &Method) -> (r: bool)
        ensures
            r == (*self == *other),
    {
        match (self, other) {
            (Method::Get, Method::Get) => true,
            (Method::Post, Method::Post) => true,
            _ => false,
        }
    }
}

impl<'a> Content<'a> {
    /// The borrowed body bytes, when the content carries any.
    pub fn bytes(&self) -> (r: Option<&'a [u8]>)
        ensures
            match *self {
                Content::Html(b) => r == Some(b),
                Content::Json(b) => r == Some(b),
                Content::Empty => r is None,
            },
    {
        match self {
            Content::Html(b) => Some(b),
            Content::Json(b) => Some(b),
            Content::Empty => None,
        }
    }
}

} // verus!

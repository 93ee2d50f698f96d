//! The parts of HTTP requests and responses that the cache reads and writes.
//!
//! Header names that the caching rules look at have variants of their own;
//! every other name is carried as text. Header values are raw bytes, as on
//! the wire.

use vstd::prelude::*;

verus! {

/// Request method, as far as caching is concerned.
pub enum Method {
    Get,
    Head,
    Other(String),
}

/// A header name.
pub enum HeaderName {
    Accept,
    AcceptEncoding,
    AcceptLanguage,
    ContentLength,
    ETag,
    IfNoneMatch,
    LastModified,
    Vary,
    /// Any other name, in lower case.
    Other(String),
}

/// One header line.
pub struct Header {
    pub name: HeaderName,
    pub value: Vec<u8>,
}

/// Method, URI and headers of a request.
pub struct RequestHead {
    pub method: Method,
    /// The request URI as text.
    pub uri: Vec<u8>,
    /// The headers in the order they were received.
    pub headers: Vec<Header>,
}

/// Status and headers of a response.
pub struct ResponseHead {
    pub status: u16,
    /// The headers in the order they will be sent.
    pub headers: Vec<Header>,
}

/// Two header names denote the same header.
pub open spec fn same_name(a: HeaderName, b: HeaderName) -> bool {
    match (a, b) {
        (HeaderName::Other(x), HeaderName::Other(y)) => x@ == y@,
        (HeaderName::Other(_), _) => false,
        (_, HeaderName::Other(_)) => false,
        _ => a == b,
    }
}

/// The values of every header named `n`, in order of appearance.
pub open spec fn header_values(hs: Seq<Header>, n: HeaderName) -> Seq<Seq<u8>>
    decreases hs.len(),
{
    if hs.len() == 0 {
        Seq::empty()
    } else {
        let rest = header_values(hs.drop_last(), n);
        if same_name(hs.last().name, n) {
            rest.push(hs.last().value@)
        } else {
            rest
        }
    }
}

/// Whether some header is named `n`.
pub open spec fn has_header(hs: Seq<Header>, n: HeaderName) -> bool {
    exists|i: int| 0 <= i < hs.len() && same_name(#[trigger] hs[i].name, n)
}

/// A header built from a name and a value in model form.
pub open spec fn header_is(h: Header, n: HeaderName, v: Seq<u8>) -> bool {
    same_name(h.name, n) && h.value@ == v
}

/// The byte strings of a list of values.
pub open spec fn views(r: Seq<Vec<u8>>) -> Seq<Seq<u8>> {
    r.map_values(|v: Vec<u8>| v@)
}

/// Bytes that `HeaderValue::to_str` accepts: visible ASCII and tab.
pub open spec fn is_visible_ascii(v: Seq<u8>) -> bool {
    forall|i: int| 0 <= i < v.len() ==> (32 <= #[trigger] v[i] < 127 || v[i] == 9)
}

/// Copies a byte string.
pub fn copy_bytes(v: &Vec<u8>) -> (r: Vec<u8>)
    ensures
        r@ == v@,
{
    let mut r: Vec<u8> = Vec::new();
    let mut i: usize = 0;
    while i < v.len()
        invariant
            i <= v@.len(),
            r@ == v@.subrange(0, i as int),
        decreases v@.len() - i,
    {
        r.push(v[i]);
        i = i + 1;
    }
    assert(r@ == v@);
    r
}

/// Whether two byte strings are equal.
pub fn bytes_eq(a: &Vec<u8>, b: &Vec<u8>) -> (r: bool)
    ensures
        r == (a@ == b@),
{
    if a.len() != b.len() {
        return false;
    }
    let mut i: usize = 0;
    while i < a.len()
        invariant
            a@.len() == b@.len(),
            i <= a@.len(),
            forall|j: int| 0 <= j < i ==> a@[j] == b@[j],
        decreases a@.len() - i,
    {
        if a[i] != b[i] {
            return false;
        }
        i = i + 1;
    }
    assert(a@ == b@);
    true
}

/// Whether a header value is visible ASCII text.
pub fn visible_ascii(v: &Vec<u8>) -> (r: bool)
    ensures
        r == is_visible_ascii(v@),
{
    let mut i: usize = 0;
    while i < v.len()
        invariant
            i <= v@.len(),
            forall|j: int| 0 <= j < i ==> (32 <= #[trigger] v@[j] < 127 || v@[j] == 9),
        decreases v@.len() - i,
    {
        let b = v[i];
        if !((32 <= b && b < 127) || b == 9) {
            return false;
        }
        i = i + 1;
    }
    true
}

impl HeaderName {
    /// Copies the name.
    pub fn copy(&self) -> (r: HeaderName)
        ensures
            same_name(r, *self),
    {
        match self {
            HeaderName::Accept => HeaderName::Accept,
            HeaderName::AcceptEncoding => HeaderName::AcceptEncoding,
            HeaderName::AcceptLanguage => HeaderName::AcceptLanguage,
            HeaderName::ContentLength => HeaderName::ContentLength,
            HeaderName::ETag => HeaderName::ETag,
            HeaderName::IfNoneMatch => HeaderName::IfNoneMatch,
            HeaderName::LastModified => HeaderName::LastModified,
            HeaderName::Vary => HeaderName::Vary,
            HeaderName::Other(s) => HeaderName::Other(s.clone()),
        }
    }

    /// Whether `self` and `other` denote the same header.
    pub fn is(&self, other: &HeaderName) -> (r: bool)
        ensures
            r == same_name(*self, *other),
    {
        match (self, other) {
            (HeaderName::Accept, HeaderName::Accept) => true,
            (HeaderName::AcceptEncoding, HeaderName::AcceptEncoding) => true,
            (HeaderName::AcceptLanguage, HeaderName::AcceptLanguage) => true,
            (HeaderName::ContentLength, HeaderName::ContentLength) => true,
            (HeaderName::ETag, HeaderName::ETag) => true,
            (HeaderName::IfNoneMatch, HeaderName::IfNoneMatch) => true,
            (HeaderName::LastModified, HeaderName::LastModified) => true,
            (HeaderName::Vary, HeaderName::Vary) => true,
            (HeaderName::Other(x), HeaderName::Other(y)) => x.eq(y),
            _ => false,
        }
    }
}

/// The values of every header named `n`, in order of appearance
/// (`HeaderMap::get_all`).
pub fn get_all(hs: &Vec<Header>, n: &HeaderName) -> (r: Vec<Vec<u8>>)
    ensures
        views(r@) == header_values(hs@, *n),
{
    let mut r: Vec<Vec<u8>> = Vec::new();
    let mut i: usize = 0;
    while i < hs.len()
        invariant
            i <= hs@.len(),
            views(r@) == header_values(hs@.subrange(0, i as int), *n),
        decreases hs@.len() - i,
    {
        let ghost pre = hs@.subrange(0, i as int);
        let ghost next = hs@.subrange(0, i as int + 1);
        assert(next.drop_last() == pre);
        if hs[i].name.is(n) {
            let v = copy_bytes(&hs[i].value);
            let ghost before = views(r@);
            r.push(v);
            assert(views(r@) =~= before.push(hs@[i as int].value@));
        }
        assert(views(r@) =~= header_values(next, *n));
        i = i + 1;
    }
    assert(hs@.subrange(0, hs@.len() as int) == hs@);
    r
}

/// Whether some header is named `n` (`HeaderMap::contains_key`).
pub fn contains_key(hs: &Vec<Header>, n: &HeaderName) -> (r: bool)
    ensures
        r == has_header(hs@, *n),
{
    let mut i: usize = 0;
    while i < hs.len()
        invariant
            i <= hs@.len(),
            forall|j: int| 0 <= j < i ==> !same_name(#[trigger] hs@[j].name, *n),
        decreases hs@.len() - i,
    {
        if hs[i].name.is(n) {
            return true;
        }
        i = i + 1;
    }
    false
}

} // verus!

//! Content ETags: the base64 text of the BLAKE3 digest of a response body.

use vstd::prelude::*;
use crate::headers::is_visible_ascii;

verus! {

/// The BLAKE3 digest of a byte string.
pub uninterp spec fn blake3_digest(b: Seq<u8>) -> Seq<u8>;

/// The base64 symbol of a 6-bit value: `A-Z`, `a-z`, `0-9`, `+`, `/`.
pub open spec fn base64_symbol(v: int) -> u8 {
    if v < 26 {
        (65 + v) as u8
    } else if v < 52 {
        (97 + v - 26) as u8
    } else if v < 62 {
        (48 + v - 52) as u8
    } else if v == 62 {
        43
    } else {
        47
    }
}

/// The padding symbol `=`.
pub const BASE64_PAD: u8 = 61;

/// The padded RFC 4648 base64 text of a byte string, as ASCII bytes: each
/// group of three bytes gives four symbols of six bits each, and a last
/// group of one or two bytes is padded with `=`.
pub open spec fn base64_text(b: Seq<u8>) -> Seq<u8>
    decreases b.len(),
{
    if b.len() == 0 {
        Seq::empty()
    } else if b.len() == 1 {
        seq![base64_symbol((b[0] as int) / 4), base64_symbol(((b[0] as int) % 4) * 16), BASE64_PAD, BASE64_PAD]
    } else if b.len() == 2 {
        seq![
            base64_symbol((b[0] as int) / 4),
            base64_symbol(((b[0] as int) % 4) * 16 + (b[1] as int) / 16),
            base64_symbol(((b[1] as int) % 16) * 4),
            BASE64_PAD,
        ]
    } else {
        seq![
            base64_symbol((b[0] as int) / 4),
            base64_symbol(((b[0] as int) % 4) * 16 + (b[1] as int) / 16),
            base64_symbol(((b[1] as int) % 16) * 4 + (b[2] as int) / 64),
            base64_symbol((b[2] as int) % 64),
        ] + base64_text(b.subrange(3, b.len() as int))
    }
}

/// Symbols of the padded base64 alphabet, padding included.
pub open spec fn is_base64_symbol(c: u8) -> bool {
    (65 <= c <= 90) || (97 <= c <= 122) || (48 <= c <= 57) || c == 43 || c == 47 || c == 61
}

/// Base64 text has four symbols for every three bytes or fewer, all of the
/// alphabet, and ends in `=` when the length is not a multiple of three.
pub proof fn lemma_base64_text(b: Seq<u8>)
    ensures
        base64_text(b).len() == 4 * ((b.len() + 2) / 3),
        forall|i: int| 0 <= i < base64_text(b).len() ==> is_base64_symbol(#[trigger] base64_text(b)[i]),
        b.len() % 3 != 0 ==> base64_text(b).last() == BASE64_PAD,
    decreases b.len(),
{
    if b.len() >= 3 {
        let rest = b.subrange(3, b.len() as int);
        lemma_base64_text(rest);
        let head = seq![
            base64_symbol((b[0] as int) / 4),
            base64_symbol(((b[0] as int) % 4) * 16 + (b[1] as int) / 16),
            base64_symbol(((b[1] as int) % 16) * 4 + (b[2] as int) / 64),
            base64_symbol((b[2] as int) % 64),
        ];
        assert(base64_text(b) == head + base64_text(rest));
        assert forall|i: int| 0 <= i < base64_text(b).len() implies is_base64_symbol(#[trigger] base64_text(b)[i]) by {
            if i >= 4 {
                assert(base64_text(b)[i] == base64_text(rest)[i - 4]);
            }
        }
        if b.len() % 3 != 0 {
            assert(rest.len() > 0);
        }
    }
}

/// Relies on `blake3::hash`: the 32-byte digest, a function of the input alone.
#[verifier::external_body]
fn blake3_hash(b: &[u8]) -> (r: Vec<u8>)
    ensures
        r@ == blake3_digest(b@),
        r@.len() == 32,
{
    blake3::hash(b).as_bytes().to_vec()
}

/// Relies on `data_encoding::BASE64.encode`: RFC 4648 base64 with the
/// `A-Z a-z 0-9 + /` alphabet and `=` padding; it panics on inputs longer
/// than `usize::MAX / 512`.
#[verifier::external_body]
fn base64_encode(b: &[u8]) -> (r: Vec<u8>)
    requires
        b@.len() <= usize::MAX / 512,
    ensures
        r@ == base64_text(b@),
{
    data_encoding::BASE64.encode(b).into_bytes()
}

/// The ETag of a body.
pub open spec fn body_etag(body: Seq<u8>) -> Seq<u8> {
    base64_text(blake3_digest(body))
}

/// ETags are 44 symbols of the base64 alphabet ending in `=`, visible
/// ASCII, so every ETag is a valid header value.
pub proof fn lemma_body_etag_text(body: Seq<u8>)
    requires
        blake3_digest(body).len() == 32,
    ensures
        body_etag(body).len() == 44,
        forall|i: int| 0 <= i < 44 ==> is_base64_symbol(#[trigger] body_etag(body)[i]),
        body_etag(body)[43] == BASE64_PAD,
        is_visible_ascii(body_etag(body)),
{
    lemma_base64_text(blake3_digest(body));
    let r = body_etag(body);
    assert forall|i: int| 0 <= i < r.len() implies (32 <= #[trigger] r[i] < 127 || r[i] == 9) by {
        assert(is_base64_symbol(r[i]));
    }
}

/// Computes the ETag value of a body: the base64 text of its BLAKE3 digest.
/// It is 44 symbols of the base64 alphabet, the last one `=`, so it is always
/// a valid header value.
pub fn base64_blake3_body_etag(body: &[u8]) -> (r: Vec<u8>)
    ensures
        r@ == body_etag(body@),
        r@.len() == 44,
        forall|i: int| 0 <= i < 44 ==> is_base64_symbol(#[trigger] r@[i]),
        r@[43] == BASE64_PAD,
        is_visible_ascii(r@),
{
    let digest = blake3_hash(body);
    let r = base64_encode(digest.as_slice());
    proof {
        lemma_body_etag_text(body@);
    }
    r
}

/// Determinism: the ETag depends on the body bytes alone, so equal bodies
/// get equal ETags.
pub proof fn lemma_etag_deterministic(a: Seq<u8>, b: Seq<u8>)
    requires
        a == b,
    ensures
        body_etag(a) == body_etag(b),
{
}

} // verus!

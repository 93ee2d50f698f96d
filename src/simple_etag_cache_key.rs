//! The structured cache key: the request URI plus the sorted values of the
//! content negotiation headers `Accept`, `Accept-Encoding` and
//! `Accept-Language`. Sorting makes the key insensitive to the order in which
//! a client sent the values of one header, while distinct value sets still
//! give distinct keys.

use vstd::prelude::*;
use vstd::bytes::{lemma_auto_spec_u64_to_from_le_bytes, spec_u64_to_le_bytes, u64_to_le_bytes};
use crate::headers::{copy_bytes, get_all, header_values, views, Header, HeaderName, RequestHead};

verus! {

broadcast use vstd::seq_lib::group_to_multiset_ensures;

/// Byte-wise lexicographic order, the order of `HeaderValue`.
pub open spec fn lex_le(a: Seq<u8>, b: Seq<u8>) -> bool
    decreases a.len(),
{
    if a.len() == 0 {
        true
    } else if b.len() == 0 {
        false
    } else if a[0] != b[0] {
        a[0] < b[0]
    } else {
        lex_le(a.drop_first(), b.drop_first())
    }
}

/// `s` is in ascending order.
pub open spec fn sorted(s: Seq<Seq<u8>>) -> bool {
    forall|i: int, j: int| 0 <= i < j < s.len() ==> lex_le(#[trigger] s[i], #[trigger] s[j])
}

/// `out` holds the values of `vals`, sorted.
pub open spec fn sorted_values_of(out: Seq<Seq<u8>>, vals: Seq<Seq<u8>>) -> bool {
    sorted(out) && out.to_multiset() == vals.to_multiset()
}

pub proof fn lemma_lex_total(a: Seq<u8>, b: Seq<u8>)
    ensures
        lex_le(a, b) || lex_le(b, a),
    decreases a.len(),
{
    if a.len() > 0 && b.len() > 0 && a[0] == b[0] {
        lemma_lex_total(a.drop_first(), b.drop_first());
    }
}

pub proof fn lemma_lex_trans(a: Seq<u8>, b: Seq<u8>, c: Seq<u8>)
    requires
        lex_le(a, b),
        lex_le(b, c),
    ensures
        lex_le(a, c),
    decreases a.len(),
{
    if a.len() > 0 && b.len() > 0 && c.len() > 0 && a[0] == b[0] && b[0] == c[0] {
        lemma_lex_trans(a.drop_first(), b.drop_first(), c.drop_first());
    }
}

pub proof fn lemma_lex_antisym(a: Seq<u8>, b: Seq<u8>)
    requires
        lex_le(a, b),
        lex_le(b, a),
    ensures
        a == b,
    decreases a.len(),
{
    if a.len() > 0 && b.len() > 0 {
        lemma_lex_antisym(a.drop_first(), b.drop_first());
        assert(a == seq![a[0]] + a.drop_first());
        assert(b == seq![b[0]] + b.drop_first());
    }
}

/// Compares two byte strings in lexicographic order.
pub fn bytes_le(a: &Vec<u8>, b: &Vec<u8>) -> (r: bool)
    ensures
        r == lex_le(a@, b@),
{
    let mut i: usize = 0;
    assert(a@.subrange(0, a@.len() as int) == a@);
    assert(b@.subrange(0, b@.len() as int) == b@);
    while i < a.len() && i < b.len()
        invariant
            i <= a@.len(),
            i <= b@.len(),
            lex_le(a@, b@) == lex_le(a@.subrange(i as int, a@.len() as int), b@.subrange(i as int, b@.len() as int)),
        decreases a@.len() - i,
    {
        let ghost sa = a@.subrange(i as int, a@.len() as int);
        let ghost sb = b@.subrange(i as int, b@.len() as int);
        assert(sa[0] == a@[i as int] && sb[0] == b@[i as int]);
        if a[i] != b[i] {
            return a[i] < b[i];
        }
        assert(sa.drop_first() == a@.subrange(i + 1, a@.len() as int));
        assert(sb.drop_first() == b@.subrange(i + 1, b@.len() as int));
        i = i + 1;
    }
    i == a.len()
}

/// Sorts values in ascending lexicographic order.
pub fn sort_values(vs: Vec<Vec<u8>>) -> (r: Vec<Vec<u8>>)
    ensures
        sorted_values_of(views(r@), views(vs@)),
{
    let mut out: Vec<Vec<u8>> = Vec::new();
    let mut i: usize = 0;
    while i < vs.len()
        invariant
            i <= vs@.len(),
            sorted(views(out@)),
            views(out@).to_multiset() == views(vs@).subrange(0, i as int).to_multiset(),
        decreases vs@.len() - i,
    {
        let x = copy_bytes(&vs[i]);
        let mut pos: usize = 0;
        while pos < out.len() && bytes_le(&out[pos], &x)
            invariant
                pos <= out@.len(),
                forall|k: int| 0 <= k < pos ==> lex_le(#[trigger] views(out@)[k], x@),
            decreases out@.len() - pos,
        {
            pos = pos + 1;
        }
        let ghost before = views(out@);
        proof {
            if pos < before.len() {
                lemma_lex_total(before[pos as int], x@);
            }
            assert forall|k: int| pos <= k < before.len() implies lex_le(x@, #[trigger] before[k]) by {
                if k > pos {
                    lemma_lex_trans(x@, before[pos as int], before[k]);
                }
            }
        }
        out.insert(pos, x);
        assert(views(out@) =~= before.insert(pos as int, vs@[i as int]@));
        assert(views(vs@).subrange(0, i + 1) =~= views(vs@).subrange(0, i as int).push(views(vs@)[i as int]));
        assert(sorted(views(out@))) by {
            let s = views(out@);
            assert forall|a: int, b: int| 0 <= a < b < s.len() implies lex_le(#[trigger] s[a], #[trigger] s[b]) by {
                if b < pos {
                } else if a > pos {
                    assert(s[a] == before[a - 1] && s[b] == before[b - 1]);
                } else if a == pos {
                    assert(s[b] == before[b - 1]);
                } else if b == pos {
                    assert(s[a] == before[a]);
                } else {
                    assert(s[a] == before[a] && s[b] == before[b - 1]);
                    lemma_lex_trans(s[a], x@, s[b]);
                }
            }
        }
        i = i + 1;
    }
    assert(views(vs@).subrange(0, vs@.len() as int) == views(vs@));
    out
}

/// Cache key derived from the URI, varying by the values of the `Accept`,
/// `Accept-Encoding` and `Accept-Language` request headers. Several values of
/// one header are kept sorted. `Cache-Control: private` is ignored.
pub struct SimpleEtagCacheKey {
    pub uri: Vec<u8>,
    pub accept: Vec<Vec<u8>>,
    pub accept_encoding: Vec<Vec<u8>>,
    pub accept_language: Vec<Vec<u8>>,
}

/// Model of a key: URI and the three sorted value lists.
pub type KeyModel = (Seq<u8>, Seq<Seq<u8>>, Seq<Seq<u8>>, Seq<Seq<u8>>);

impl View for SimpleEtagCacheKey {
    type V = KeyModel;

    open spec fn view(&self) -> KeyModel {
        (self.uri@, views(self.accept@), views(self.accept_encoding@), views(self.accept_language@))
    }
}

/// The headers a key varies by.
pub open spec fn is_negotiation_header(n: HeaderName) -> bool {
    n is Accept || n is AcceptEncoding || n is AcceptLanguage
}

/// The part of a key that holds the values of negotiation header `n`.
pub open spec fn key_component(k: KeyModel, n: HeaderName) -> Seq<Seq<u8>> {
    match n {
        HeaderName::Accept => k.1,
        HeaderName::AcceptEncoding => k.2,
        _ => k.3,
    }
}

/// `k` is the key of request `req`.
pub open spec fn is_key_of(k: KeyModel, req: RequestHead) -> bool {
    &&& k.0 == req.uri@
    &&& sorted_values_of(k.1, header_values(req.headers@, HeaderName::Accept))
    &&& sorted_values_of(k.2, header_values(req.headers@, HeaderName::AcceptEncoding))
    &&& sorted_values_of(k.3, header_values(req.headers@, HeaderName::AcceptLanguage))
}

/// Order insensitivity: a sorted arrangement of a collection of values is
/// unique, so the order in which values were sent does not change the key.
pub proof fn lemma_sorted_unique(a: Seq<Seq<u8>>, b: Seq<Seq<u8>>)
    requires
        sorted(a),
        sorted(b),
        a.to_multiset() == b.to_multiset(),
    ensures
        a == b,
    decreases a.len(),
{
    a.to_multiset_ensures();
    b.to_multiset_ensures();
    assert(a.len() == b.len());
    if a.len() > 0 {
        lemma_lex_total(a[0], a[0]);
        lemma_lex_total(b[0], b[0]);
        assert(a.to_multiset().count(a[0]) > 0);
        assert(b.contains(a[0]));
        let j = choose|j: int| 0 <= j < b.len() && b[j] == a[0];
        assert(b.to_multiset().count(b[0]) > 0);
        assert(a.contains(b[0]));
        let i = choose|i: int| 0 <= i < a.len() && a[i] == b[0];
        if j > 0 {
            assert(lex_le(b[0], b[j]));
        }
        if i > 0 {
            assert(lex_le(a[0], a[i]));
        }
        lemma_lex_antisym(a[0], b[0]);
        assert(a.remove(0) == a.drop_first());
        assert(b.remove(0) == b.drop_first());
        let ta = a.drop_first();
        let tb = b.drop_first();
        assert(sorted(ta)) by {
            assert forall|x: int, y: int| 0 <= x < y < ta.len() implies lex_le(#[trigger] ta[x], #[trigger] ta[y]) by {
                assert(ta[x] == a[x + 1] && ta[y] == a[y + 1]);
            }
        }
        assert(sorted(tb)) by {
            assert forall|x: int, y: int| 0 <= x < y < tb.len() implies lex_le(#[trigger] tb[x], #[trigger] tb[y]) by {
                assert(tb[x] == b[x + 1] && tb[y] == b[y + 1]);
            }
        }
        lemma_sorted_unique(ta, tb);
        assert(a == seq![a[0]] + ta);
        assert(b == seq![b[0]] + tb);
    } else {
        assert(a == b);
    }
}

/// The key of a request.
pub open spec fn calc_key_spec(req: RequestHead) -> KeyModel {
    choose|k: KeyModel| is_key_of(k, req)
}

/// A request has exactly one key.
pub proof fn lemma_key_of_unique(k: KeyModel, req: RequestHead)
    requires
        is_key_of(k, req),
    ensures
        k == calc_key_spec(req),
{
    let c = calc_key_spec(req);
    assert(is_key_of(c, req));
    lemma_sorted_unique(k.1, c.1);
    lemma_sorted_unique(k.2, c.2);
    lemma_sorted_unique(k.3, c.3);
}

/// The sorted values of every header named `n`.
fn calc_header_key_component(headers: &Vec<Header>, n: &HeaderName) -> (r: Vec<Vec<u8>>)
    ensures
        sorted_values_of(views(r@), header_values(headers@, *n)),
{
    sort_values(get_all(headers, n))
}

/// Derives the key of a request.
pub fn calc_simple_etag_cache_key(req: &RequestHead) -> (r: SimpleEtagCacheKey)
    ensures
        is_key_of(r@, *req),
        r@ == calc_key_spec(*req),
{
    let r = SimpleEtagCacheKey {
        uri: copy_bytes(&req.uri),
        accept: calc_header_key_component(&req.headers, &HeaderName::Accept),
        accept_encoding: calc_header_key_component(&req.headers, &HeaderName::AcceptEncoding),
        accept_language: calc_header_key_component(&req.headers, &HeaderName::AcceptLanguage),
    };
    proof {
        lemma_key_of_unique(r@, *req);
    }
    r
}

/// `accept`, `accept-encoding`, `accept-language` as ASCII bytes.
pub open spec fn vary_names() -> Seq<Seq<u8>> {
    seq![
        seq![97u8, 99, 99, 101, 112, 116],
        seq![97u8, 99, 99, 101, 112, 116, 45, 101, 110, 99, 111, 100, 105, 110, 103],
        seq![97u8, 99, 99, 101, 112, 116, 45, 108, 97, 110, 103, 117, 97, 103, 101],
    ]
}

/// The `Vary` headers that name the headers a key varies by.
pub open spec fn vary_headers_added(old_hs: Seq<Header>, new_hs: Seq<Header>) -> bool {
    &&& new_hs.len() == old_hs.len() + 3
    &&& new_hs.subrange(0, old_hs.len() as int) == old_hs
    &&& forall|i: int|
        0 <= i < 3 ==> {
            &&& (#[trigger] new_hs[old_hs.len() + i]).name is Vary
            &&& new_hs[old_hs.len() + i].value@ == vary_names()[i]
        }
}

impl SimpleEtagCacheKey {
    /// Appends the `Vary` response headers that a response cached under this
    /// kind of key must carry: `Accept`, `Accept-Encoding`, `Accept-Language`.
    pub fn set_response_headers(headers_mut: &mut Vec<Header>)
        ensures
            vary_headers_added(old(headers_mut)@, final(headers_mut)@),
    {
        headers_mut.push(Header { name: HeaderName::Vary, value: vec![97u8, 99, 99, 101, 112, 116] });
        headers_mut.push(
            Header {
                name: HeaderName::Vary,
                value: vec![97u8, 99, 99, 101, 112, 116, 45, 101, 110, 99, 111, 100, 105, 110, 103],
            },
        );
        headers_mut.push(
            Header {
                name: HeaderName::Vary,
                value: vec![97u8, 99, 99, 101, 112, 116, 45, 108, 97, 110, 103, 117, 97, 103, 101],
            },
        );
        assert(headers_mut@.subrange(0, old(headers_mut)@.len() as int) =~= old(headers_mut)@);
    }
}

/// A byte string prefixed by its length as 8 little-endian bytes.
pub open spec fn enc_bytes(b: Seq<u8>) -> Seq<u8> {
    spec_u64_to_le_bytes(b.len() as u64) + b
}

/// The length-prefixed byte strings of `l`, one after the other.
pub open spec fn enc_items(l: Seq<Seq<u8>>) -> Seq<u8>
    decreases l.len(),
{
    if l.len() == 0 {
        Seq::empty()
    } else {
        enc_bytes(l[0]) + enc_items(l.drop_first())
    }
}

/// A list prefixed by its number of items.
pub open spec fn enc_list(l: Seq<Seq<u8>>) -> Seq<u8> {
    spec_u64_to_le_bytes(l.len() as u64) + enc_items(l)
}

/// The bytes under which the cache stores a key.
pub open spec fn key_bytes(k: KeyModel) -> Seq<u8> {
    enc_bytes(k.0) + (enc_list(k.1) + (enc_list(k.2) + enc_list(k.3)))
}

/// Every length in a list fits in 64 bits.
pub open spec fn list_fits(l: Seq<Seq<u8>>) -> bool {
    l.len() <= u64::MAX && forall|i: int| 0 <= i < l.len() ==> #[trigger] l[i].len() <= u64::MAX
}

/// Every length in a key fits in 64 bits, as it does for any key in memory.
pub open spec fn key_fits(k: KeyModel) -> bool {
    k.0.len() <= u64::MAX && list_fits(k.1) && list_fits(k.2) && list_fits(k.3)
}

proof fn lemma_u64_prefix(x: u64, y: u64, r1: Seq<u8>, r2: Seq<u8>)
    requires
        spec_u64_to_le_bytes(x) + r1 == spec_u64_to_le_bytes(y) + r2,
    ensures
        x == y,
        r1 == r2,
{
    lemma_auto_spec_u64_to_from_le_bytes();
    let s1 = spec_u64_to_le_bytes(x) + r1;
    assert(s1.subrange(0, 8) == spec_u64_to_le_bytes(x));
    assert((spec_u64_to_le_bytes(y) + r2).subrange(0, 8) == spec_u64_to_le_bytes(y));
    assert(s1.subrange(8, s1.len() as int) == r1);
    assert((spec_u64_to_le_bytes(y) + r2).subrange(8, s1.len() as int) == r2);
}

proof fn lemma_enc_bytes_prefix(a: Seq<u8>, b: Seq<u8>, r1: Seq<u8>, r2: Seq<u8>)
    requires
        a.len() <= u64::MAX,
        b.len() <= u64::MAX,
        enc_bytes(a) + r1 == enc_bytes(b) + r2,
    ensures
        a == b,
        r1 == r2,
{
    assert(enc_bytes(a) + r1 == spec_u64_to_le_bytes(a.len() as u64) + (a + r1));
    assert(enc_bytes(b) + r2 == spec_u64_to_le_bytes(b.len() as u64) + (b + r2));
    lemma_u64_prefix(a.len() as u64, b.len() as u64, a + r1, b + r2);
    assert((a + r1).subrange(0, a.len() as int) == a);
    assert((b + r2).subrange(0, a.len() as int) == b);
    assert((a + r1).subrange(a.len() as int, (a + r1).len() as int) == r1);
    assert((b + r2).subrange(a.len() as int, (b + r2).len() as int) == r2);
}

proof fn lemma_enc_items_prefix(l1: Seq<Seq<u8>>, l2: Seq<Seq<u8>>, r1: Seq<u8>, r2: Seq<u8>)
    requires
        list_fits(l1),
        list_fits(l2),
        l1.len() == l2.len(),
        enc_items(l1) + r1 == enc_items(l2) + r2,
    ensures
        l1 == l2,
        r1 == r2,
    decreases l1.len(),
{
    if l1.len() > 0 {
        let t1 = l1.drop_first();
        let t2 = l2.drop_first();
        assert(enc_items(l1) + r1 == enc_bytes(l1[0]) + (enc_items(t1) + r1));
        assert(enc_items(l2) + r2 == enc_bytes(l2[0]) + (enc_items(t2) + r2));
        lemma_enc_bytes_prefix(l1[0], l2[0], enc_items(t1) + r1, enc_items(t2) + r2);
        assert(list_fits(t1)) by {
            assert forall|i: int| 0 <= i < t1.len() implies #[trigger] t1[i].len() <= u64::MAX by {
                assert(t1[i] == l1[i + 1]);
            }
        }
        assert(list_fits(t2)) by {
            assert forall|i: int| 0 <= i < t2.len() implies #[trigger] t2[i].len() <= u64::MAX by {
                assert(t2[i] == l2[i + 1]);
            }
        }
        lemma_enc_items_prefix(t1, t2, r1, r2);
        assert(l1 == seq![l1[0]] + t1);
        assert(l2 == seq![l2[0]] + t2);
    } else {
        assert(l1 == l2);
    }
}

proof fn lemma_enc_list_prefix(l1: Seq<Seq<u8>>, l2: Seq<Seq<u8>>, r1: Seq<u8>, r2: Seq<u8>)
    requires
        list_fits(l1),
        list_fits(l2),
        enc_list(l1) + r1 == enc_list(l2) + r2,
    ensures
        l1 == l2,
        r1 == r2,
{
    assert(enc_list(l1) + r1 == spec_u64_to_le_bytes(l1.len() as u64) + (enc_items(l1) + r1));
    assert(enc_list(l2) + r2 == spec_u64_to_le_bytes(l2.len() as u64) + (enc_items(l2) + r2));
    lemma_u64_prefix(l1.len() as u64, l2.len() as u64, enc_items(l1) + r1, enc_items(l2) + r2);
    lemma_enc_items_prefix(l1, l2, r1, r2);
}

/// Distinct keys are stored under distinct bytes.
pub proof fn lemma_key_bytes_injective(k1: KeyModel, k2: KeyModel)
    requires
        key_fits(k1),
        key_fits(k2),
        key_bytes(k1) == key_bytes(k2),
    ensures
        k1 == k2,
{
    let e = Seq::<u8>::empty();
    assert(enc_list(k1.3) == enc_list(k1.3) + e);
    assert(enc_list(k2.3) == enc_list(k2.3) + e);
    lemma_enc_bytes_prefix(k1.0, k2.0, enc_list(k1.1) + (enc_list(k1.2) + enc_list(k1.3)), enc_list(k2.1) + (enc_list(k2.2) + enc_list(k2.3)));
    lemma_enc_list_prefix(k1.1, k2.1, enc_list(k1.2) + enc_list(k1.3), enc_list(k2.2) + enc_list(k2.3));
    lemma_enc_list_prefix(k1.2, k2.2, enc_list(k1.3), enc_list(k2.3));
    lemma_enc_list_prefix(k1.3, k2.3, e, e);
}

/// Vary sensitivity: two requests whose values of a negotiation header differ
/// (as collections of values) get different keys, stored under different
/// bytes, so one never hits the other's cache entry.
pub proof fn lemma_vary_sensitivity(
    req1: RequestHead,
    req2: RequestHead,
    k1: KeyModel,
    k2: KeyModel,
    n: HeaderName,
)
    requires
        is_key_of(k1, req1),
        is_key_of(k2, req2),
        key_fits(k1),
        key_fits(k2),
        is_negotiation_header(n),
        header_values(req1.headers@, n).to_multiset() != header_values(req2.headers@, n).to_multiset(),
    ensures
        k1 != k2,
        key_bytes(k1) != key_bytes(k2),
{
    assert(key_component(k1, n) != key_component(k2, n));
    if key_bytes(k1) == key_bytes(k2) {
        lemma_key_bytes_injective(k1, k2);
    }
}

/// Appends the length-prefixed encoding of `b` to `out`.
fn push_enc_bytes(out: &mut Vec<u8>, b: &Vec<u8>)
    ensures
        final(out)@ == old(out)@ + enc_bytes(b@),
{
    let mut len = u64_to_le_bytes(b.len() as u64);
    out.append(&mut len);
    let mut copy = copy_bytes(b);
    out.append(&mut copy);
    assert(out@ =~= old(out)@ + enc_bytes(b@));
}

/// Appends the encoding of a list of values to `out`.
fn push_enc_list(out: &mut Vec<u8>, l: &Vec<Vec<u8>>)
    ensures
        final(out)@ == old(out)@ + enc_list(views(l@)),
{
    let mut count = u64_to_le_bytes(l.len() as u64);
    out.append(&mut count);
    let ghost start = out@;
    let mut i: usize = 0;
    assert(views(l@).subrange(0, l@.len() as int) == views(l@));
    while i < l.len()
        invariant
            i <= l@.len(),
            start == old(out)@ + spec_u64_to_le_bytes(l@.len() as u64),
            out@ + enc_items(views(l@).subrange(i as int, l@.len() as int)) == start + enc_items(views(l@)),
        decreases l@.len() - i,
    {
        let ghost rest = views(l@).subrange(i as int, l@.len() as int);
        let ghost before = out@;
        assert(rest.drop_first() == views(l@).subrange(i + 1, l@.len() as int));
        assert(rest[0] == l@[i as int]@);
        push_enc_bytes(out, &l[i]);
        assert(before + enc_items(rest) == before + enc_bytes(rest[0]) + enc_items(rest.drop_first()));
        i = i + 1;
    }
    assert(views(l@).subrange(l@.len() as int, l@.len() as int) == Seq::<Seq<u8>>::empty());
    assert(out@ + Seq::<u8>::empty() == out@);
    assert(start + enc_items(views(l@)) =~= old(out)@ + enc_list(views(l@)));
}

impl SimpleEtagCacheKey {
    /// The bytes under which the cache stores this key.
    pub fn to_bytes(&self) -> (r: Vec<u8>)
        ensures
            r@ == key_bytes(self@),
    {
        let mut out: Vec<u8> = Vec::new();
        push_enc_bytes(&mut out, &self.uri);
        push_enc_list(&mut out, &self.accept);
        push_enc_list(&mut out, &self.accept_encoding);
        push_enc_list(&mut out, &self.accept_language);
        assert(out@ =~= key_bytes(self@));
        out
    }
}

} // verus!

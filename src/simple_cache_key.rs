//! The concatenating cache key: the request URI and, when the request
//! carries `Vary`, a separator followed by the values of every header that
//! `Vary` names, in the order they appear. The key is sensitive to the order
//! of the names in `Vary` and to the order of the values of one header.
//!
//! `Vary` is read from the request itself, as the key's input signal.

use vstd::prelude::*;
use vstd::utf8::encode_utf8;
use crate::headers::{copy_bytes, get_all, header_values, is_visible_ascii, views, visible_ascii, Header, HeaderName, RequestHead};

verus! {

/// A header value that the key needs is not visible ASCII text.
pub struct ToStrError;

/// The concatenating key strategy; its keys are byte strings.
pub struct VaryConcatCacheKey;

/// The byte between the URI and the values of the headers `Vary` names.
pub const KEY_SEPARATOR: u8 = 10;

/// Bytes that separate names in a `Vary` value.
pub open spec fn is_name_separator(b: u8) -> bool {
    b == 44 || b == 32 || b == 9
}

/// ASCII lower case of a byte.
pub open spec fn ascii_lower(b: u8) -> u8 {
    if 65 <= b <= 90 {
        (b + 32) as u8
    } else {
        b
    }
}

/// The names found in the prefix read so far, and the name being read.
pub open spec fn names_scan(v: Seq<u8>) -> (Seq<Seq<u8>>, Seq<u8>)
    decreases v.len(),
{
    if v.len() == 0 {
        (Seq::empty(), Seq::empty())
    } else {
        let (done, cur) = names_scan(v.drop_last());
        let b = v.last();
        if is_name_separator(b) {
            if cur.len() > 0 {
                (done.push(cur), Seq::empty())
            } else {
                (done, Seq::empty())
            }
        } else {
            (done, cur.push(ascii_lower(b)))
        }
    }
}

/// The header names that one `Vary` value lists, in lower case.
pub open spec fn vary_value_names(v: Seq<u8>) -> Seq<Seq<u8>> {
    let (done, cur) = names_scan(v);
    if cur.len() > 0 {
        done.push(cur)
    } else {
        done
    }
}

/// The header names that a list of `Vary` values lists, in order.
pub open spec fn vary_names_of(vs: Seq<Seq<u8>>) -> Seq<Seq<u8>>
    decreases vs.len(),
{
    if vs.len() == 0 {
        Seq::empty()
    } else {
        vary_names_of(vs.drop_last()) + vary_value_names(vs.last())
    }
}

/// The lower-case text of a header name.
pub open spec fn name_text(n: HeaderName) -> Seq<u8> {
    match n {
        HeaderName::Accept => seq![97u8, 99, 99, 101, 112, 116],
        HeaderName::AcceptEncoding => seq![97u8, 99, 99, 101, 112, 116, 45, 101, 110, 99, 111, 100, 105, 110, 103],
        HeaderName::AcceptLanguage => seq![97u8, 99, 99, 101, 112, 116, 45, 108, 97, 110, 103, 117, 97, 103, 101],
        HeaderName::ContentLength => seq![99u8, 111, 110, 116, 101, 110, 116, 45, 108, 101, 110, 103, 116, 104],
        HeaderName::ETag => seq![101u8, 116, 97, 103],
        HeaderName::IfNoneMatch => seq![105u8, 102, 45, 110, 111, 110, 101, 45, 109, 97, 116, 99, 104],
        HeaderName::LastModified => seq![108u8, 97, 115, 116, 45, 109, 111, 100, 105, 102, 105, 101, 100],
        HeaderName::Vary => seq![118u8, 97, 114, 121],
        HeaderName::Other(s) => encode_utf8(s@),
    }
}

/// The values of every header whose name reads `t`, in order of appearance.
pub open spec fn values_named(hs: Seq<Header>, t: Seq<u8>) -> Seq<Seq<u8>>
    decreases hs.len(),
{
    if hs.len() == 0 {
        Seq::empty()
    } else {
        let rest = values_named(hs.drop_last(), t);
        if name_text(hs.last().name) == t {
            rest.push(hs.last().value@)
        } else {
            rest
        }
    }
}

/// Byte strings joined end to end.
pub open spec fn concat_all(vs: Seq<Seq<u8>>) -> Seq<u8>
    decreases vs.len(),
{
    if vs.len() == 0 {
        Seq::empty()
    } else {
        concat_all(vs.drop_last()) + vs.last()
    }
}

/// The values, in order, that the key of a request with headers `hs` reads
/// for the names `names`.
pub open spec fn named_values(hs: Seq<Header>, names: Seq<Seq<u8>>) -> Seq<Seq<u8>>
    decreases names.len(),
{
    if names.len() == 0 {
        Seq::empty()
    } else {
        named_values(hs, names.drop_last()) + values_named(hs, names.last())
    }
}

/// Every value is visible ASCII text.
pub open spec fn all_text(vs: Seq<Seq<u8>>) -> bool {
    forall|i: int| 0 <= i < vs.len() ==> is_visible_ascii(#[trigger] vs[i])
}

/// The key of a request, or `None` where a value it reads is not text.
pub open spec fn simple_key_spec(req: RequestHead) -> Option<Seq<u8>> {
    let vary = header_values(req.headers@, HeaderName::Vary);
    if vary.len() == 0 {
        Some(req.uri@)
    } else if !all_text(vary) {
        None
    } else {
        let vals = named_values(req.headers@, vary_names_of(vary));
        if !all_text(vals) {
            None
        } else {
            Some(req.uri@ + seq![KEY_SEPARATOR] + concat_all(vals))
        }
    }
}

/// The lower-case text of a header name.
fn name_bytes(n: &HeaderName) -> (r: Vec<u8>)
    ensures
        r@ == name_text(*n),
{
    match n {
        HeaderName::Accept => vec![97u8, 99, 99, 101, 112, 116],
        HeaderName::AcceptEncoding => vec![97u8, 99, 99, 101, 112, 116, 45, 101, 110, 99, 111, 100, 105, 110, 103],
        HeaderName::AcceptLanguage => vec![97u8, 99, 99, 101, 112, 116, 45, 108, 97, 110, 103, 117, 97, 103, 101],
        HeaderName::ContentLength => vec![99u8, 111, 110, 116, 101, 110, 116, 45, 108, 101, 110, 103, 116, 104],
        HeaderName::ETag => vec![101u8, 116, 97, 103],
        HeaderName::IfNoneMatch => vec![105u8, 102, 45, 110, 111, 110, 101, 45, 109, 97, 116, 99, 104],
        HeaderName::LastModified => vec![108u8, 97, 115, 116, 45, 109, 111, 100, 105, 102, 105, 101, 100],
        HeaderName::Vary => vec![118u8, 97, 114, 121],
        HeaderName::Other(s) => {
            let b = s.as_str().as_bytes();
            let mut r: Vec<u8> = Vec::new();
            let mut i: usize = 0;
            while i < b.len()
                invariant
                    i <= b@.len(),
                    r@ == b@.subrange(0, i as int),
                decreases b@.len() - i,
            {
                r.push(b[i]);
                i = i + 1;
            }
            assert(r@ == b@);
            r
        },
    }
}

/// The header names listed in one `Vary` value, appended to `out`.
fn push_vary_value_names(out: &mut Vec<Vec<u8>>, v: &Vec<u8>)
    ensures
        views(final(out)@) == views(old(out)@) + vary_value_names(v@),
{
    let mut cur: Vec<u8> = Vec::new();
    let mut i: usize = 0;
    let ghost start = views(out@);
    while i < v.len()
        invariant
            i <= v@.len(),
            views(out@) == start + names_scan(v@.subrange(0, i as int)).0,
            cur@ == names_scan(v@.subrange(0, i as int)).1,
        decreases v@.len() - i,
    {
        let ghost pre = v@.subrange(0, i as int);
        assert(v@.subrange(0, i + 1).drop_last() == pre);
        let b = v[i];
        if b == 44 || b == 32 || b == 9 {
            if cur.len() > 0 {
                let done = cur;
                let ghost before = views(out@);
                out.push(done);
                assert(views(out@) =~= before.push(done@));
                cur = Vec::new();
            }
        } else {
            let l = if 65 <= b && b <= 90 { b + 32 } else { b };
            cur.push(l);
        }
        i = i + 1;
    }
    assert(v@.subrange(0, v@.len() as int) == v@);
    if cur.len() > 0 {
        let ghost before = views(out@);
        out.push(cur);
        assert(views(out@) =~= before.push(cur@));
    }
}

/// Appends the values of every header whose name reads `t` to `out`, or
/// reports a value that is not text.
fn push_values_named(out: &mut Vec<u8>, hs: &Vec<Header>, t: &Vec<u8>) -> (ok: bool)
    ensures
        ok == all_text(values_named(hs@, t@)),
        ok ==> final(out)@ == old(out)@ + concat_all(values_named(hs@, t@)),
{
    let mut i: usize = 0;
    let ghost start = out@;
    while i < hs.len()
        invariant
            i <= hs@.len(),
            all_text(values_named(hs@.subrange(0, i as int), t@)),
            out@ == start + concat_all(values_named(hs@.subrange(0, i as int), t@)),
        decreases hs@.len() - i,
    {
        let ghost pre = hs@.subrange(0, i as int);
        let ghost next = hs@.subrange(0, i + 1);
        assert(next.drop_last() == pre);
        let n = name_bytes(&hs[i].name);
        if crate::headers::bytes_eq(&n, t) {
            let v = &hs[i].value;
            if !visible_ascii(v) {
                assert(values_named(next, t@).last() == v@);
                assert(!all_text(values_named(next, t@)));
                proof {
                    lemma_values_named_prefix(hs@, t@, i + 1);
                }
                return false;
            }
            let mut c = copy_bytes(v);
            let ghost before = out@;
            out.append(&mut c);
            assert(values_named(next, t@).drop_last() == values_named(pre, t@));
            assert(out@ =~= start + concat_all(values_named(next, t@)));
        }
        i = i + 1;
    }
    assert(hs@.subrange(0, hs@.len() as int) == hs@);
    true
}

/// A value that is not text in a prefix is not text in the whole list.
proof fn lemma_values_named_prefix(hs: Seq<Header>, t: Seq<u8>, k: int)
    requires
        0 <= k <= hs.len(),
        !all_text(values_named(hs.subrange(0, k), t)),
    ensures
        !all_text(values_named(hs, t)),
    decreases hs.len() - k,
{
    if k < hs.len() {
        let next = hs.subrange(0, k + 1);
        assert(next.drop_last() == hs.subrange(0, k));
        let bad = choose|i: int| 0 <= i < values_named(hs.subrange(0, k), t).len() && !is_visible_ascii(#[trigger] values_named(hs.subrange(0, k), t)[i]);
        assert(values_named(next, t)[bad] == values_named(hs.subrange(0, k), t)[bad]);
        lemma_values_named_prefix(hs, t, k + 1);
    } else {
        assert(hs.subrange(0, k) == hs);
    }
}

proof fn lemma_concat_all_add(a: Seq<Seq<u8>>, b: Seq<Seq<u8>>)
    ensures
        concat_all(a + b) == concat_all(a) + concat_all(b),
    decreases b.len(),
{
    if b.len() == 0 {
        assert(a + b == a);
        assert(concat_all(a) + Seq::<u8>::empty() == concat_all(a));
    } else {
        lemma_concat_all_add(a, b.drop_last());
        assert((a + b).drop_last() == a + b.drop_last());
        assert((a + b).last() == b.last());
        assert(concat_all(a) + concat_all(b.drop_last()) + b.last() == concat_all(a) + (concat_all(b.drop_last()) + b.last()));
    }
}

proof fn lemma_named_values_add(hs: Seq<Header>, a: Seq<Seq<u8>>, b: Seq<Seq<u8>>)
    ensures
        named_values(hs, a + b) == named_values(hs, a) + named_values(hs, b),
    decreases b.len(),
{
    if b.len() == 0 {
        assert(a + b == a);
        assert(named_values(hs, a) + Seq::<Seq<u8>>::empty() == named_values(hs, a));
    } else {
        lemma_named_values_add(hs, a, b.drop_last());
        assert((a + b).drop_last() == a + b.drop_last());
        assert((a + b).last() == b.last());
        assert(named_values(hs, a) + named_values(hs, b.drop_last()) + values_named(hs, b.last())
            == named_values(hs, a) + (named_values(hs, b.drop_last()) + values_named(hs, b.last())));
    }
}

proof fn lemma_all_text_add(a: Seq<Seq<u8>>, b: Seq<Seq<u8>>)
    ensures
        all_text(a + b) <==> all_text(a) && all_text(b),
{
    if all_text(a + b) {
        assert forall|i: int| 0 <= i < a.len() implies is_visible_ascii(#[trigger] a[i]) by {
            assert((a + b)[i] == a[i]);
        }
        assert forall|i: int| 0 <= i < b.len() implies is_visible_ascii(#[trigger] b[i]) by {
            assert((a + b)[a.len() + i] == b[i]);
        }
    }
    if all_text(a) && all_text(b) {
        assert forall|i: int| 0 <= i < (a + b).len() implies is_visible_ascii(#[trigger] (a + b)[i]) by {
            if i < a.len() {
                assert((a + b)[i] == a[i]);
            } else {
                assert((a + b)[i] == b[i - a.len()]);
            }
        }
    }
}

/// Derives the concatenating key of a request: its URI, then, when it
/// carries `Vary`, a newline and the values of every header that `Vary`
/// names. Fails when a `Vary` value or a value it names is not visible ASCII.
/// `Cache-Control: private` is ignored.
pub fn simple_etag_cache_key(req: &RequestHead) -> (r: Result<Vec<u8>, ToStrError>)
    ensures
        match simple_key_spec(*req) {
            Some(k) => r matches Ok(v) && v@ == k,
            None => r is Err,
        },
{
    let vary = get_all(&req.headers, &HeaderName::Vary);
    if vary.len() == 0 {
        return Ok(copy_bytes(&req.uri));
    }
    let mut names: Vec<Vec<u8>> = Vec::new();
    let mut i: usize = 0;
    while i < vary.len()
        invariant
            i <= vary@.len(),
            views(vary@) == header_values(req.headers@, HeaderName::Vary),
            all_text(views(vary@).subrange(0, i as int)),
            views(names@) == vary_names_of(views(vary@).subrange(0, i as int)),
        decreases vary@.len() - i,
    {
        let ghost pre = views(vary@).subrange(0, i as int);
        let ghost next = views(vary@).subrange(0, i + 1);
        assert(next.drop_last() == pre);
        if !visible_ascii(&vary[i]) {
            assert(!is_visible_ascii(views(vary@)[i as int]));
            return Err(ToStrError);
        }
        push_vary_value_names(&mut names, &vary[i]);
        assert(all_text(next)) by {
            assert forall|j: int| 0 <= j < next.len() implies is_visible_ascii(#[trigger] next[j]) by {
                if j < i {
                    assert(next[j] == pre[j]);
                }
            }
        }
        i = i + 1;
    }
    assert(views(vary@).subrange(0, vary@.len() as int) == views(vary@));
    let mut out = copy_bytes(&req.uri);
    out.push(KEY_SEPARATOR);
    let ghost head = req.uri@ + seq![KEY_SEPARATOR];
    assert(out@ == head + concat_all(named_values(req.headers@, Seq::empty())));
    let mut j: usize = 0;
    while j < names.len()
        invariant
            j <= names@.len(),
            views(names@) == vary_names_of(header_values(req.headers@, HeaderName::Vary)),
            all_text(header_values(req.headers@, HeaderName::Vary)),
            header_values(req.headers@, HeaderName::Vary).len() > 0,
            all_text(named_values(req.headers@, views(names@).subrange(0, j as int))),
            out@ == head + concat_all(named_values(req.headers@, views(names@).subrange(0, j as int))),
        decreases names@.len() - j,
    {
        let ghost pre = views(names@).subrange(0, j as int);
        let ghost next = views(names@).subrange(0, j + 1);
        assert(next.drop_last() == pre);
        let ghost before = out@;
        let ok = push_values_named(&mut out, &req.headers, &names[j]);
        proof {
            lemma_all_text_add(named_values(req.headers@, pre), values_named(req.headers@, next.last()));
            lemma_named_values_add(req.headers@, next, views(names@).subrange(j + 1, names@.len() as int));
            assert(next + views(names@).subrange(j + 1, names@.len() as int) == views(names@));
            lemma_all_text_add(named_values(req.headers@, next), named_values(req.headers@, views(names@).subrange(j + 1, names@.len() as int)));
        }
        if !ok {
            return Err(ToStrError);
        }
        proof {
            lemma_concat_all_add(named_values(req.headers@, pre), values_named(req.headers@, next.last()));
        }
        assert(out@ == head + concat_all(named_values(req.headers@, next)));
        j = j + 1;
    }
    assert(views(names@).subrange(0, names@.len() as int) == views(names@));
    Ok(out)
}

} // verus!

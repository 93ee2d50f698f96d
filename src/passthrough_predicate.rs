//! Decisions on which requests and responses bypass the cache.

use vstd::prelude::*;
use crate::headers::{
    contains_key, get_all, has_header, header_values, is_visible_ascii, visible_ascii, HeaderName,
    Method, RequestHead, ResponseHead,
};

verus! {

/// Decides which requests and responses skip the cache. Implementations may
/// look at anything in the request or response.
pub trait PassthroughPredicate {
    /// The request rule.
    spec fn req_passthrough(&self, req: RequestHead) -> bool;

    /// The response rule.
    spec fn resp_passthrough(&self, resp: ResponseHead) -> bool;

    /// Returns true if the request should only be handled by the inner
    /// service, without looking it up in the cache.
    fn should_passthrough_req(&mut self, req: &RequestHead) -> (r: bool)
        ensures
            r == old(self).req_passthrough(*req),
    ;

    /// Returns true if the inner service's response should not get an ETag
    /// nor be cached.
    fn should_passthrough_resp(&mut self, resp: &ResponseHead) -> (r: bool)
        ensures
            r == old(self).resp_passthrough(*resp),
    ;
}

/// The default policy: cache GET and HEAD requests, and 2XX responses other
/// than 204 that carry no ETag yet and whose `Content-Length` is not 0.
#[derive(Clone, Copy, Debug, Default)]
pub struct DefaultPredicate;

/// Value of the decimal digits `s`.
pub open spec fn decimal_value(s: Seq<u8>) -> int
    decreases s.len(),
{
    if s.len() == 0 {
        0
    } else {
        decimal_value(s.drop_last()) * 10 + (s.last() - 48)
    }
}

/// Every byte of `s` is an ASCII digit.
pub open spec fn all_digits(s: Seq<u8>) -> bool {
    forall|i: int| 0 <= i < s.len() ==> 48 <= #[trigger] s[i] <= 57
}

/// The digits of a number text, after an optional leading `+`.
pub open spec fn unsigned_digits(s: Seq<u8>) -> Seq<u8> {
    if s.len() > 0 && s[0] == 43 {
        s.subrange(1, s.len() as int)
    } else {
        s
    }
}

/// What `str::parse::<usize>` gives for the text `s`: an optional `+`, then
/// at least one digit, with a value that fits in `usize`.
pub open spec fn parse_usize_spec(s: Seq<u8>) -> Option<usize> {
    let d = unsigned_digits(s);
    if d.len() > 0 && all_digits(d) && decimal_value(d) <= usize::MAX {
        Some(decimal_value(d) as usize)
    } else {
        None
    }
}

proof fn lemma_decimal_value_grows(s: Seq<u8>, k: int)
    requires
        all_digits(s),
        0 <= k <= s.len(),
    ensures
        decimal_value(s.subrange(0, k)) <= decimal_value(s),
        0 <= decimal_value(s),
    decreases s.len(),
{
    if s.len() > 0 {
        let p = s.drop_last();
        assert(all_digits(p)) by {
            assert forall|i: int| 0 <= i < p.len() implies 48 <= #[trigger] p[i] <= 57 by {
                assert(p[i] == s[i]);
            }
        }
        if k < s.len() {
            lemma_decimal_value_grows(p, k);
            assert(p.subrange(0, k) == s.subrange(0, k));
        } else {
            lemma_decimal_value_grows(p, 0);
            assert(s.subrange(0, k) == s);
        }
        assert(48 <= s[s.len() - 1] <= 57);
    }
}

/// Parses a decimal number as `str::parse::<usize>` does.
pub fn parse_usize(s: &Vec<u8>) -> (r: Option<usize>)
    ensures
        r == parse_usize_spec(s@),
{
    let start: usize = if s.len() > 0 && s[0] == 43 { 1 } else { 0 };
    let ghost d = unsigned_digits(s@);
    assert(d == s@.subrange(start as int, s@.len() as int));
    if start >= s.len() {
        return None;
    }
    let mut acc: usize = 0;
    let mut i: usize = start;
    while i < s.len()
        invariant
            start <= i <= s@.len(),
            d == s@.subrange(start as int, s@.len() as int),
            d == unsigned_digits(s@),
            all_digits(d.subrange(0, i - start)),
            acc == decimal_value(d.subrange(0, i - start)),
        decreases s@.len() - i,
    {
        let ghost pre = d.subrange(0, i - start);
        let ghost next = d.subrange(0, i - start + 1);
        assert(next.drop_last() == pre);
        assert(next.last() == s@[i as int]);
        let b = s[i];
        if b < 48 || b > 57 {
            assert(d[i - start] == s@[i as int]);
            assert(!(48 <= d[i - start] <= 57));
            assert(!all_digits(d));
            return None;
        }
        assert(all_digits(next)) by {
            assert forall|j: int| 0 <= j < next.len() implies 48 <= #[trigger] next[j] <= 57 by {
                if j < pre.len() {
                    assert(next[j] == pre[j]);
                }
            }
        }
        let m = acc.checked_mul(10);
        if m.is_none() {
            proof {
                if all_digits(d) {
                    lemma_decimal_value_grows(d, i - start + 1);
                    assert(d.subrange(0, i - start + 1) == next);
                }
            }
            return None;
        }
        let m = m.unwrap();
        let a = m.checked_add((b - 48) as usize);
        if a.is_none() {
            proof {
                if all_digits(d) {
                    lemma_decimal_value_grows(d, i - start + 1);
                    assert(d.subrange(0, i - start + 1) == next);
                }
            }
            return None;
        }
        acc = a.unwrap();
        i = i + 1;
    }
    assert(d.subrange(0, d.len() as int) == d);
    Some(acc)
}

/// Statuses whose responses are cached: 2XX but 204 No Content.
pub open spec fn cacheable_status(status: u16) -> bool {
    (200 <= status <= 203) || (205 <= status <= 299)
}

/// The first `Content-Length` value reads as the number 0.
pub open spec fn content_length_is_zero(resp: ResponseHead) -> bool {
    let vs = header_values(resp.headers@, HeaderName::ContentLength);
    vs.len() > 0 && is_visible_ascii(vs[0]) && parse_usize_spec(vs[0]) == Some(0usize)
}

/// The default request rule: everything but GET and HEAD passes through.
pub open spec fn default_passthrough_req(req: RequestHead) -> bool {
    !(req.method is Get || req.method is Head)
}

/// The default response rule.
pub open spec fn default_passthrough_resp(resp: ResponseHead) -> bool {
    ||| !cacheable_status(resp.status)
    ||| has_header(resp.headers@, HeaderName::ETag)
    ||| content_length_is_zero(resp)
}

impl DefaultPredicate {
    /// Only GET and HEAD requests go through the cache.
    pub fn passthrough_req(&self, req: &RequestHead) -> (r: bool)
        ensures
            r == default_passthrough_req(*req),
    {
        match req.method {
            Method::Get => false,
            Method::Head => false,
            Method::Other(_) => true,
        }
    }

    /// Only these responses are cached:
    /// - 2XX responses but 204 No Content,
    /// - that do not carry an ETag header yet,
    /// - whose first Content-Length is absent, not a number, or not 0.
    pub fn passthrough_resp(&self, resp: &ResponseHead) -> (r: bool)
        ensures
            r == default_passthrough_resp(*resp),
    {
        let s = resp.status;
        if !((200 <= s && s <= 203) || (205 <= s && s <= 299)) {
            return true;
        }
        if contains_key(&resp.headers, &HeaderName::ETag) {
            return true;
        }
        let lengths = get_all(&resp.headers, &HeaderName::ContentLength);
        if lengths.len() == 0 {
            return false;
        }
        let first = &lengths[0];
        assert(first@ == header_values(resp.headers@, HeaderName::ContentLength)[0]);
        if !visible_ascii(first) {
            return false;
        }
        match parse_usize(first) {
            Some(n) => n == 0,
            None => false,
        }
    }
}

impl PassthroughPredicate for DefaultPredicate {
    open spec fn req_passthrough(&self, req: RequestHead) -> bool {
        default_passthrough_req(req)
    }

    open spec fn resp_passthrough(&self, resp: ResponseHead) -> bool {
        default_passthrough_resp(resp)
    }

    fn should_passthrough_req(&mut self, req: &RequestHead) -> bool {
        self.passthrough_req(req)
    }

    fn should_passthrough_resp(&mut self, resp: &ResponseHead) -> bool {
        self.passthrough_resp(resp)
    }
}

} // verus!

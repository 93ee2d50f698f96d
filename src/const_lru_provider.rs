//! The cache store: a bounded LRU table from cache keys to ETags and storage
//! times, with the lookup and insertion operations of the cache pipeline.
//!
//! The store is owned by one task; every lookup and insertion goes through
//! `ConstLruProvider::on_get_request` and `ConstLruProvider::on_put_request`.

use vstd::prelude::*;
use crate::base64_blake3_body_etag::{base64_blake3_body_etag, body_etag};
use crate::headers::{
    bytes_eq, contains_key, copy_bytes, get_all, has_header, header_values, is_visible_ascii,
    views, visible_ascii, Header, HeaderName, RequestHead, ResponseHead,
};
use crate::lru::{
    has_key, lemma_get_wf, lemma_insert_wf, lemma_key_index, lru_get, lru_insert,
    lru_value, lru_wf,
    lemma_unique_index, EntryModel, EntryValue, LruTable, LRU_CAPACITY,
};
use crate::simple_etag_cache_key::{
    calc_key_spec, calc_simple_etag_cache_key, key_bytes, vary_headers_added, KeyModel,
    SimpleEtagCacheKey,
};

verus! {

/// The last second that an RFC 2822 date can show: 9999-12-31 23:59:59 UTC.
pub const RFC2822_MAX_SECS: u64 = 253402300799;

/// The RFC 2822 text of a time given in seconds since the Unix epoch, in UTC.
pub uninterp spec fn rfc2822_date(secs: u64) -> Seq<u8>;

/// Relies on `time::OffsetDateTime::from_unix_timestamp`, which accepts
/// times up to the end of year 9999, and on its `format(&Rfc2822)`, which
/// succeeds for a UTC time in the years 1900 to 9999 and writes ASCII day and
/// month names, digits, spaces, `,`, `:` and the offset sign.
#[verifier::external_body]
fn format_rfc2822(secs: u64) -> (r: Vec<u8>)
    requires
        secs <= RFC2822_MAX_SECS,
    ensures
        r@ == rfc2822_date(secs),
        is_visible_ascii(r@),
{
    let t = time::OffsetDateTime::from_unix_timestamp(secs as i64).unwrap();
    t.format(&time::format_description::well_known::Rfc2822).unwrap().into_bytes()
}

/// Relies on `time::OffsetDateTime::now_utc`: the current time, in seconds
/// since the Unix epoch. Nothing is known of its value.
#[verifier::external_body]
fn now_unix_secs() -> (r: i64) {
    time::OffsetDateTime::now_utc().unix_timestamp()
}

/// Result of a cache lookup.
pub enum CacheGetResponseResult<Key> {
    /// Not cached, or no `If-None-Match` value matches: the key under which
    /// the response can be stored later on.
    Miss(Key),
    /// Cached and matched: the headers of the `304 Not Modified` response.
    Hit(Vec<Header>),
}

/// A cache lookup hands the request back along with its result, so that
/// the inner service can process it.
pub struct CacheGetResponse<Req, Key> {
    pub req: Req,
    pub result: CacheGetResponseResult<Key>,
}

/// Entries are unique, at most `cap` of them, and each holds a visible-ASCII
/// ETag and a time that an RFC 2822 date can show.
pub open spec fn store_wf(s: Seq<EntryModel>, cap: nat) -> bool {
    &&& lru_wf(s, cap)
    &&& forall|i: int|
        0 <= i < s.len() ==> (#[trigger] s[i]).1.1 <= RFC2822_MAX_SECS && is_visible_ascii(s[i].1.0)
}

/// One of the `If-None-Match` values `inm` is text and equals `etag`, byte
/// for byte; values that are not text are skipped.
pub open spec fn etag_matches(inm: Seq<Seq<u8>>, etag: Seq<u8>) -> bool {
    exists|i: int| 0 <= i < inm.len() && is_visible_ascii(#[trigger] inm[i]) && inm[i] == etag
}

/// The stored ETag and time that a lookup of `k` with `If-None-Match`
/// values `inm` hits, if any.
pub open spec fn get_outcome(s: Seq<EntryModel>, k: KeyModel, inm: Seq<Seq<u8>>) -> Option<
    (Seq<u8>, u64),
> {
    match lru_value(s, key_bytes(k)) {
        Some(e) => if etag_matches(inm, e.0) {
            Some(e)
        } else {
            None
        },
        None => None,
    }
}

/// What a lookup of `req` answering `r` does, from table `s` to table `t`:
/// the key's entry, if any, becomes the most recently used; on a hit the
/// answer holds the headers of the `304`, else the request's key.
pub open spec fn get_done(
    s: Seq<EntryModel>,
    t: Seq<EntryModel>,
    req: RequestHead,
    r: CacheGetResponse<RequestHead, SimpleEtagCacheKey>,
) -> bool {
    let k = calc_key_spec(req);
    &&& r.req == req
    &&& t == lru_get(s, key_bytes(k))
    &&& match get_outcome(s, k, header_values(req.headers@, HeaderName::IfNoneMatch)) {
        Some(e) => r.result matches CacheGetResponseResult::Hit(hs) && cache_headers_added(
            Seq::empty(),
            hs@,
            e.0,
            rfc2822_date(e.1),
        ),
        None => r.result matches CacheGetResponseResult::Miss(key) && key@ == k,
    }
}

/// `new_hs` is `old_hs` followed by `ETag: etag`, `Last-Modified: date` and
/// the `Vary` headers of the key.
pub open spec fn cache_headers_added(
    old_hs: Seq<Header>,
    new_hs: Seq<Header>,
    etag: Seq<u8>,
    date: Seq<u8>,
) -> bool {
    let n = old_hs.len() as int;
    &&& new_hs.len() == n + 5
    &&& new_hs.subrange(0, n) == old_hs
    &&& new_hs[n].name is ETag
    &&& new_hs[n].value@ == etag
    &&& new_hs[n + 1].name is LastModified
    &&& new_hs[n + 1].value@ == date
    &&& vary_headers_added(new_hs.subrange(0, n + 2), new_hs)
}

/// A response that already carries `Vary` or `ETag` is passed on as it is.
pub open spec fn put_passthrough(resp: ResponseHead) -> bool {
    has_header(resp.headers@, HeaderName::Vary) || has_header(resp.headers@, HeaderName::ETag)
}

/// What a store insertion does: a response that already carries `Vary` or
/// `ETag`, or that is stored at a time before 1970 or after year 9999 (which
/// an RFC 2822 date cannot show), is
/// passed on unchanged and the table is left alone. Otherwise the body's ETag
/// is stored under the key's bytes together with `now`, and the response gets
/// the `ETag`, `Last-Modified` and `Vary` headers.
pub open spec fn put_done(
    s: Seq<EntryModel>,
    t: Seq<EntryModel>,
    cap: nat,
    k: KeyModel,
    resp: ResponseHead,
    body: Seq<u8>,
    now: i64,
    r: ResponseHead,
) -> bool {
    if put_passthrough(resp) || now < 0 || now > RFC2822_MAX_SECS {
        t == s && r == resp
    } else {
        &&& t == lru_insert(s, cap, key_bytes(k), (body_etag(body), now as u64))
        &&& r.status == resp.status
        &&& cache_headers_added(resp.headers@, r.headers@, body_etag(body), rfc2822_date(now as u64))
    }
}

/// What an insertion at the time the clock reads does: `put_done` for some
/// reading of the clock.
pub open spec fn put_now_done(
    s: Seq<EntryModel>,
    t: Seq<EntryModel>,
    cap: nat,
    k: KeyModel,
    resp: ResponseHead,
    body: Seq<u8>,
    r: ResponseHead,
) -> bool {
    exists|now: i64| put_done(s, t, cap, k, resp, body, now, r)
}

/// An in-memory cache store backed by a `const_lru` table, keyed by
/// `SimpleEtagCacheKey`, with a capacity of 1 to 255 entries fixed when it is
/// made. It stores the time an entry was created, which is also the
/// `Last-Modified` value of the response.
pub struct ConstLruProvider {
    lru: LruTable,
    capacity: usize,
}

impl View for ConstLruProvider {
    type V = Seq<EntryModel>;

    closed spec fn view(&self) -> Seq<EntryModel> {
        crate::lru::lru_entries(self.lru)
    }
}

impl ConstLruProvider {
    #[verifier::type_invariant]
    closed spec fn inv(&self) -> bool {
        &&& 1 <= self.capacity <= LRU_CAPACITY
        &&& store_wf(self@, self.capacity as nat)
    }

    /// The number of entries the store holds before it evicts.
    pub closed spec fn cap(&self) -> nat {
        self.capacity as nat
    }

    /// An empty store of the largest capacity, 255 entries.
    pub fn new() -> (r: ConstLruProvider)
        ensures
            r@ == Seq::<EntryModel>::empty(),
            r.cap() == LRU_CAPACITY,
            store_wf(r@, r.cap()),
    {
        ConstLruProvider { lru: LruTable::new(), capacity: LRU_CAPACITY }
    }

    /// An empty store of capacity `capacity`, which must be 1 to 255.
    pub fn with_capacity(capacity: usize) -> (r: Option<ConstLruProvider>)
        ensures
            r is Some <==> 1 <= capacity <= LRU_CAPACITY,
            r matches Some(p) ==> p@ == Seq::<EntryModel>::empty() && p.cap() == capacity,
    {
        if capacity < 1 || capacity > LRU_CAPACITY {
            return None;
        }
        Some(ConstLruProvider { lru: LruTable::new(), capacity })
    }

    /// The store's capacity.
    pub fn capacity(&self) -> (r: usize)
        ensures
            r == self.cap(),
            1 <= r <= LRU_CAPACITY,
    {
        proof { use_type_invariant(self); }
        self.capacity
    }

    /// Inserts an entry, evicting the least recently used one first when the
    /// key is new and the store is full.
    fn store_entry(&mut self, kb: Vec<u8>, v: EntryValue)
        requires
            v.1 <= RFC2822_MAX_SECS,
            is_visible_ascii(v.0@),
        ensures
            final(self)@ == lru_insert(old(self)@, old(self).cap(), kb@, (v.0@, v.1)),
            final(self).cap() == old(self).cap(),
            store_wf(final(self)@, final(self).cap()),
    {
        proof { use_type_invariant(&*self); }
        let ghost s = self@;
        let ghost cap = self.capacity as nat;
        let ghost e = (v.0@, v.1);
        proof {
            lemma_key_index(s, kb@);
            lemma_insert_wf(s, cap, kb@, e);
            let t = lru_insert(s, cap, kb@, e);
            assert forall|a: int| 0 <= a < t.len() implies (#[trigger] t[a]).1.1 <= RFC2822_MAX_SECS && is_visible_ascii(t[a].1.0) by {
                if a > 0 {
                    assert(s.contains(t[a]));
                }
            }
        }
        let present = self.lru.peek(&kb);
        if present.is_none() && self.lru.len() >= self.capacity {
            let last = self.lru.lru_key();
            let last = last.unwrap();
            proof {
                lemma_unique_index(s, cap, last@, s.len() - 1);
                assert(s.remove(s.len() - 1) == s.drop_last());
                assert forall|a: int, b: int| 0 <= a < s.drop_last().len() && 0 <= b < s.drop_last().len() && a != b implies #[trigger] s.drop_last()[a].0 != #[trigger] s.drop_last()[b].0 by {
                    assert(s.drop_last()[a] == s[a] && s.drop_last()[b] == s[b]);
                }
                assert forall|a: int| 0 <= a < s.drop_last().len() implies (#[trigger] s.drop_last()[a]).1.1 <= RFC2822_MAX_SECS && is_visible_ascii(s.drop_last()[a].1.0) by {
                    assert(s.drop_last()[a] == s[a]);
                }
            }
            self.lru.remove(&last);
            proof {
                let d = s.drop_last();
                lemma_key_index(d, kb@);
                if has_key(d, kb@) {
                    let i = choose|i: int| 0 <= i < d.len() && #[trigger] d[i].0 == kb@;
                    assert(s[i].0 == kb@);
                }
                assert(lru_insert(d, LRU_CAPACITY as nat, kb@, e) == lru_insert(s, cap, kb@, e));
            }
        }
        self.lru.insert(kb, v);
    }

    /// Appends `ETag`, `Last-Modified` and the key's `Vary` headers.
    fn set_response_headers(headers_mut: &mut Vec<Header>, etag_val: Vec<u8>, last_modified_val: Vec<u8>)
        ensures
            cache_headers_added(old(headers_mut)@, final(headers_mut)@, etag_val@, last_modified_val@),
    {
        let ghost e = etag_val@;
        let ghost d = last_modified_val@;
        headers_mut.push(Header { name: HeaderName::ETag, value: etag_val });
        headers_mut.push(Header { name: HeaderName::LastModified, value: last_modified_val });
        let ghost mid = headers_mut@;
        SimpleEtagCacheKey::set_response_headers(headers_mut);
        let ghost n = old(headers_mut)@.len() as int;
        assert(headers_mut@.subrange(0, n + 2) == mid);
        assert(headers_mut@.subrange(0, n) =~= old(headers_mut)@) by {
            assert(mid.subrange(0, n) =~= old(headers_mut)@);
        }
        assert(headers_mut@[n] == mid[n]);
        assert(headers_mut@[n + 1] == mid[n + 1]);
    }

    /// Looks a request up. On a hit (the key is stored and one of the
    /// request's `If-None-Match` values is text equal to the stored ETag), the
    /// result holds the headers of the `304` response: that ETag, the storage
    /// time as `Last-Modified`, and the key's `Vary` headers. The `Vary`
    /// headers are there because a `304` must carry the `Vary` that the full
    /// response to the same request would carry (RFC 9110, section 15.4.5).
    /// Otherwise the result holds the key. A lookup makes a stored key the
    /// most recently used.
    pub fn on_get_request(&mut self, req: RequestHead) -> (r: CacheGetResponse<RequestHead, SimpleEtagCacheKey>)
        ensures
            get_done(old(self)@, final(self)@, req, r),
            final(self).cap() == old(self).cap(),
            store_wf(final(self)@, final(self).cap()),
    {
        proof { use_type_invariant(&*self); }
        let key = calc_simple_etag_cache_key(&req);
        let kb = key.to_bytes();
        let ghost s = old(self)@;
        proof {
            lemma_get_wf(s, self.capacity as nat, kb@);
            lemma_key_index(s, kb@);
            let t = lru_get(s, kb@);
            assert forall|a: int| 0 <= a < t.len() implies (#[trigger] t[a]).1.1 <= RFC2822_MAX_SECS && is_visible_ascii(t[a].1.0) by {
                assert(s.contains(t[a]));
            }
        }
        let found = self.lru.get(&kb);
        assert(self@ == lru_get(s, kb@));
        assert(kb@ == key_bytes(calc_key_spec(req)));
        let (cache_etag, last_modified) = match found {
            Some(e) => e,
            None => {
                return CacheGetResponse { req, result: CacheGetResponseResult::Miss(key) };
            },
        };
        proof {
            let idx = crate::lru::key_index(s, kb@);
            assert(cache_etag@ == s[idx].1.0 && last_modified == s[idx].1.1);
            assert(is_visible_ascii(cache_etag@) && last_modified <= RFC2822_MAX_SECS);
        }
        let inm = get_all(&req.headers, &HeaderName::IfNoneMatch);
        let mut i: usize = 0;
        while i < inm.len()
            invariant
                i <= inm@.len(),
                is_visible_ascii(cache_etag@),
                last_modified <= RFC2822_MAX_SECS,
                views(inm@) == header_values(req.headers@, HeaderName::IfNoneMatch),
                self@ == lru_get(s, kb@),
                store_wf(self@, self.capacity as nat),
                self.capacity == old(self).capacity,
                s == old(self)@,
                lru_value(s, kb@) == Some((cache_etag@, last_modified)),
                kb@ == key_bytes(calc_key_spec(req)),
                key@ == calc_key_spec(req),
                forall|j: int| 0 <= j < i ==> !(is_visible_ascii(#[trigger] views(inm@)[j]) && views(inm@)[j] == cache_etag@),
            decreases inm@.len() - i,
        {
            let etag = &inm[i];
            if visible_ascii(etag) && bytes_eq(etag, &cache_etag) {
                assert(is_visible_ascii(views(inm@)[i as int]) && views(inm@)[i as int] == cache_etag@);
                let mut header_map: Vec<Header> = Vec::new();
                let date = format_rfc2822(last_modified);
                Self::set_response_headers(&mut header_map, copy_bytes(etag), date);
                return CacheGetResponse { req, result: CacheGetResponseResult::Hit(header_map) };
            }
            assert(!(is_visible_ascii(views(inm@)[i as int]) && views(inm@)[i as int] == cache_etag@));
            i = i + 1;
        }
        CacheGetResponse { req, result: CacheGetResponseResult::Miss(key) }
    }

    /// Stores the response to the request with key `key`, created at `now`
    /// (seconds since the Unix epoch), and returns it with its cache headers;
    /// see `put_done`. The body has been read whole beforehand.
    pub fn on_put_request_at(&mut self, key: SimpleEtagCacheKey, resp: ResponseHead, body: &[u8], now: i64) -> (r: ResponseHead)
        ensures
            put_done(old(self)@, final(self)@, old(self).cap(), key@, resp, body@, now, r),
            final(self).cap() == old(self).cap(),
            store_wf(final(self)@, final(self).cap()),
    {
        proof { use_type_invariant(&*self); }
        if contains_key(&resp.headers, &HeaderName::Vary) || contains_key(&resp.headers, &HeaderName::ETag) {
            return resp;
        }
        if now < 0 || now > RFC2822_MAX_SECS as i64 {
            return resp;
        }
        let now = now as u64;
        let date = format_rfc2822(now);
        let etag = base64_blake3_body_etag(body);
        let kb = key.to_bytes();
        let stored = copy_bytes(&etag);
        self.store_entry(kb, (stored, now));
        let mut resp = resp;
        Self::set_response_headers(&mut resp.headers, etag, date);
        resp
    }

    /// Stores the response at the time the clock reads; see
    /// `on_put_request_at`.
    pub fn on_put_request(&mut self, key: SimpleEtagCacheKey, resp: ResponseHead, body: &[u8]) -> (r: ResponseHead)
        ensures
            put_now_done(old(self)@, final(self)@, old(self).cap(), key@, resp, body@, r),
            final(self).cap() == old(self).cap(),
            store_wf(final(self)@, final(self).cap()),
    {
        let now = now_unix_secs();
        self.on_put_request_at(key, resp, body, now)
    }
}

/// Round trip: the first lookup of a key that is not stored misses; once
/// the response to the request is stored at time `now` (and so carries the
/// body's ETag and `now` as `Last-Modified`), a lookup of a request with the
/// same key whose `If-None-Match` values include that ETag hits, and answers
/// with that ETag and that `Last-Modified`.
pub proof fn lemma_round_trip(
    s: Seq<EntryModel>,
    t: Seq<EntryModel>,
    cap: nat,
    req: RequestHead,
    resp: ResponseHead,
    body: Seq<u8>,
    now: i64,
    r: ResponseHead,
    req2: RequestHead,
    u: Seq<EntryModel>,
    r2: CacheGetResponse<RequestHead, SimpleEtagCacheKey>,
)
    requires
        cap > 0,
        store_wf(s, cap),
        store_wf(t, cap),
        put_done(s, t, cap, calc_key_spec(req), resp, body, now, r),
        !put_passthrough(resp),
        0 <= now <= RFC2822_MAX_SECS,
        calc_key_spec(req2) == calc_key_spec(req),
        header_values(req2.headers@, HeaderName::IfNoneMatch).contains(body_etag(body)),
        get_done(t, u, req2, r2),
    ensures
        lru_value(s, key_bytes(calc_key_spec(req))) is None ==> get_outcome(
            s,
            calc_key_spec(req),
            header_values(req.headers@, HeaderName::IfNoneMatch),
        ) is None,
        cache_headers_added(resp.headers@, r.headers@, body_etag(body), rfc2822_date(now as u64)),
        r2.result matches CacheGetResponseResult::Hit(hs) && cache_headers_added(
            Seq::empty(),
            hs@,
            body_etag(body),
            rfc2822_date(now as u64),
        ),
{
    let kb = key_bytes(calc_key_spec(req));
    lemma_insert_wf(s, cap, kb, (body_etag(body), now as u64));
    assert(t[0] == (kb, (body_etag(body), now as u64)));
    assert(is_visible_ascii(t[0].1.0));
    let inm = header_values(req2.headers@, HeaderName::IfNoneMatch);
    let i = choose|i: int| 0 <= i < inm.len() && inm[i] == body_etag(body);
    assert(is_visible_ascii(inm[i]) && inm[i] == body_etag(body));
    assert(etag_matches(inm, body_etag(body)));
}

/// Stale client ETag: a lookup whose `If-None-Match` values all differ from
/// the stored ETag misses.
pub proof fn lemma_stale_etag(s: Seq<EntryModel>, k: KeyModel, inm: Seq<Seq<u8>>)
    requires
        lru_value(s, key_bytes(k)) matches Some(e) && forall|i: int| 0 <= i < inm.len() ==> inm[i] != e.0,
    ensures
        get_outcome(s, k, inm) is None,
{
}

/// No cross hits: storing a response under one key never makes a lookup of
/// a key stored under other bytes hit.
pub proof fn lemma_no_cross_hit(
    s: Seq<EntryModel>,
    cap: nat,
    k1: KeyModel,
    k2: KeyModel,
    v: (Seq<u8>, u64),
    inm: Seq<Seq<u8>>,
)
    requires
        cap > 0,
        store_wf(s, cap),
        key_bytes(k1) != key_bytes(k2),
        lru_value(s, key_bytes(k2)) is None,
    ensures
        get_outcome(lru_insert(s, cap, key_bytes(k1), v), k2, inm) is None,
{
    let t = lru_insert(s, cap, key_bytes(k1), v);
    lemma_insert_wf(s, cap, key_bytes(k1), v);
    lemma_key_index(s, key_bytes(k2));
    lemma_key_index(t, key_bytes(k2));
    if has_key(t, key_bytes(k2)) {
        let i = choose|i: int| 0 <= i < t.len() && #[trigger] t[i].0 == key_bytes(k2);
        if i > 0 {
            assert(s.contains(t[i]));
            let j = choose|j: int| 0 <= j < s.len() && s[j] == t[i];
            assert(s[j].0 == key_bytes(k2));
        }
    }
}

} // verus!

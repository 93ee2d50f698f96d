//! The interface between the middleware and a cache store.

use vstd::prelude::*;
use crate::const_lru_provider::{get_done, put_now_done, CacheGetResponse, ConstLruProvider};
use crate::headers::{RequestHead, ResponseHead};
use crate::simple_cache_key::{simple_etag_cache_key, simple_key_spec, ToStrError, VaryConcatCacheKey};
use crate::simple_etag_cache_key::{calc_key_spec, calc_simple_etag_cache_key, SimpleEtagCacheKey};

verus! {

/// A strategy for deriving cache keys from requests. A key should be the
/// same for requests with the same URI and the same values of the headers the
/// strategy varies by.
pub trait DeriveEtagCacheKey {
    /// The key type.
    type Key;

    /// Why a key could not be derived.
    type Error;

    /// The strategy's rule: `r` is what deriving the key of `req` gives.
    spec fn derived(req: RequestHead, r: Result<Self::Key, Self::Error>) -> bool;

    /// Derives the key of a request.
    fn derive_etag_cache_key(req: &RequestHead) -> (r: Result<Self::Key, Self::Error>)
        ensures
            Self::derived(*req, r),
    ;
}

/// The lookup of a cache store: it either answers with the headers of a
/// `304`, or hands back the request with the key to store its response under.
pub trait CacheGetProvider {
    /// The cache key type.
    type Key;

    /// What a lookup of `req` answering `r` does, from store `self` to
    /// store `after`.
    spec fn lookup_done(&self, after: &Self, req: RequestHead, r: CacheGetResponse<RequestHead, Self::Key>) -> bool;

    /// Looks a request up.
    fn cache_get(&mut self, req: RequestHead) -> (r: CacheGetResponse<RequestHead, Self::Key>)
        ensures
            old(self).lookup_done(final(self), req, r),
    ;
}

/// The insertion of a cache store: it decides whether a response is stored,
/// and returns it with its cache headers, or unchanged.
pub trait CachePutProvider {
    /// The cache key type.
    type Key;

    /// What storing the response `resp` with body `body` under `key` and
    /// answering `r` does, from store `self` to store `after`.
    spec fn store_done(
        &self,
        after: &Self,
        key: Self::Key,
        resp: ResponseHead,
        body: Seq<u8>,
        r: ResponseHead,
    ) -> bool;

    /// Stores the response (head and whole body) to a request that missed.
    fn cache_put(&mut self, key: Self::Key, resp: ResponseHead, body: &[u8]) -> (r: ResponseHead)
        ensures
            old(self).store_done(final(self), key, resp, body@, r),
    ;
}

/// A cache store with both operations over one key type.
pub trait CacheProvider: CacheGetProvider + CachePutProvider<Key = <Self as CacheGetProvider>::Key> {
}

impl DeriveEtagCacheKey for SimpleEtagCacheKey {
    type Key = SimpleEtagCacheKey;

    type Error = ToStrError;

    open spec fn derived(req: RequestHead, r: Result<SimpleEtagCacheKey, ToStrError>) -> bool {
        r matches Ok(k) && k@ == calc_key_spec(req)
    }

    fn derive_etag_cache_key(req: &RequestHead) -> Result<SimpleEtagCacheKey, ToStrError> {
        Ok(calc_simple_etag_cache_key(req))
    }
}

impl DeriveEtagCacheKey for VaryConcatCacheKey {
    type Key = Vec<u8>;

    type Error = ToStrError;

    open spec fn derived(req: RequestHead, r: Result<Vec<u8>, ToStrError>) -> bool {
        match simple_key_spec(req) {
            Some(k) => r matches Ok(v) && v@ == k,
            None => r is Err,
        }
    }

    fn derive_etag_cache_key(req: &RequestHead) -> Result<Vec<u8>, ToStrError> {
        simple_etag_cache_key(req)
    }
}

impl CacheGetProvider for ConstLruProvider {
    type Key = SimpleEtagCacheKey;

    open spec fn lookup_done(
        &self,
        after: &Self,
        req: RequestHead,
        r: CacheGetResponse<RequestHead, SimpleEtagCacheKey>,
    ) -> bool {
        get_done(self@, after@, req, r)
    }

    fn cache_get(&mut self, req: RequestHead) -> CacheGetResponse<RequestHead, SimpleEtagCacheKey> {
        self.on_get_request(req)
    }
}

impl CachePutProvider for ConstLruProvider {
    type Key = SimpleEtagCacheKey;

    open spec fn store_done(
        &self,
        after: &Self,
        key: SimpleEtagCacheKey,
        resp: ResponseHead,
        body: Seq<u8>,
        r: ResponseHead,
    ) -> bool {
        put_now_done(self@, after@, self.cap(), key@, resp, body, r)
    }

    fn cache_put(&mut self, key: SimpleEtagCacheKey, resp: ResponseHead, body: &[u8]) -> ResponseHead {
        self.on_put_request(key, resp, body)
    }
}

impl CacheProvider for ConstLruProvider {
}

} // verus!

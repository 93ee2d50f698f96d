//! ETag caching middleware: content-addressed ETags, a bounded LRU table of
//! them, and the decisions that turn a matching conditional request into a
//! `304 Not Modified`.

pub mod base64_blake3_body_etag;
pub mod cache_provider;
pub mod const_lru_provider;
pub mod err;
pub mod future;
pub mod headers;
pub mod lru;
pub mod passthrough_predicate;
pub mod response;
pub mod simple_cache_key;
pub mod simple_etag_cache_key;

use vstd::prelude::*;
use crate::future::{EtagCacheServiceFuture, EtagCacheServiceFutureState, passthrough_state};
use crate::headers::RequestHead;
use crate::passthrough_predicate::{DefaultPredicate, PassthroughPredicate};

verus! {

/// The middleware: a cache store, a passthrough predicate and the inner
/// service it wraps.
#[derive(Clone, Copy, Debug)]
pub struct EtagCache<C, P, S> {
    pub cache_provider: C,
    pub passthrough_predicate: P,
    pub inner: S,
}

impl<C, P, S> EtagCache<C, P, S> {
    pub fn new(cache_provider: C, passthrough_predicate: P, inner: S) -> (r: Self)
        ensures
            r.cache_provider == cache_provider,
            r.passthrough_predicate == passthrough_predicate,
            r.inner == inner,
    {
        EtagCache { cache_provider, passthrough_predicate, inner }
    }
}

impl<C, S> EtagCache<C, DefaultPredicate, S> {
    pub fn with_default_predicate(cache_provider: C, inner: S) -> (r: Self)
        ensures
            r.cache_provider == cache_provider,
            r.inner == inner,
    {
        EtagCache { cache_provider, passthrough_predicate: DefaultPredicate, inner }
    }
}

impl<C: Clone, P: PassthroughPredicate + Clone, S: Clone> EtagCache<C, P, S> {
    /// Starts the pipeline of a request: straight to the inner service when
    /// the request passthrough predicate says so, else with a cache lookup.
    pub fn call<K>(&mut self, req: &RequestHead) -> (r: EtagCacheServiceFuture<C, P, S, K>)
        ensures
            r.state == if old(self).passthrough_predicate.req_passthrough(*req) {
                passthrough_state::<K>()
            } else {
                EtagCacheServiceFutureState::<K>::CacheGetBefore
            },
            cloned(old(self).cache_provider, r.cache_provider),
            cloned(old(self).inner, r.inner),
            cloned(final(self).passthrough_predicate, r.passthrough_predicate),
            final(self).cache_provider == old(self).cache_provider,
            final(self).inner == old(self).inner,
    {
        if self.passthrough_predicate.should_passthrough_req(req) {
            EtagCacheServiceFuture::passthrough(
                self.cache_provider.clone(),
                self.passthrough_predicate.clone(),
                self.inner.clone(),
            )
        } else {
            EtagCacheServiceFuture::start(
                self.cache_provider.clone(),
                self.passthrough_predicate.clone(),
                self.inner.clone(),
            )
        }
    }
}

/// Layer that wraps services in an `EtagCache`.
#[derive(Clone, Copy, Debug)]
pub struct EtagCacheLayer<C, P> {
    pub cache_provider: C,
    pub passthrough_predicate: P,
}

impl<C, P> EtagCacheLayer<C, P> {
    pub fn new(cache_provider: C, passthrough_predicate: P) -> (r: Self)
        ensures
            r.cache_provider == cache_provider,
            r.passthrough_predicate == passthrough_predicate,
    {
        EtagCacheLayer { cache_provider, passthrough_predicate }
    }
}

impl<C> EtagCacheLayer<C, DefaultPredicate> {
    pub fn with_default_predicate(cache_provider: C) -> (r: Self)
        ensures
            r.cache_provider == cache_provider,
    {
        EtagCacheLayer { cache_provider, passthrough_predicate: DefaultPredicate }
    }
}

impl<C: Clone, P: Clone> EtagCacheLayer<C, P> {
    /// Wraps `inner` with clones of this layer's store handle and predicate.
    pub fn layer<S>(&self, inner: S) -> (r: EtagCache<C, P, S>)
        ensures
            r.inner == inner,
            cloned(self.cache_provider, r.cache_provider),
            cloned(self.passthrough_predicate, r.passthrough_predicate),
    {
        EtagCache::new(self.cache_provider.clone(), self.passthrough_predicate.clone(), inner)
    }
}

} // verus!

//! Errors of the caching pipeline, tagged with the stage that failed.

use vstd::prelude::*;

verus! {

#[verifier::external_type_specification]
#[verifier::external_body]
pub struct ExHttpError(http::Error);

/// Failure of one pipeline stage. Callers can tell a failing cache from a
/// failing application and, for instance, serve the request uncached.
pub enum EtagCacheServiceError<CacheGetError, InnerError, CachePutError> {
    /// The cache lookup failed.
    CacheGetError(CacheGetError),
    /// The inner service failed.
    InnerError(InnerError),
    /// The cache insertion failed.
    CachePutError(CachePutError),
    /// The `304` response could not be built.
    ResponseError(http::Error),
}

} // verus!

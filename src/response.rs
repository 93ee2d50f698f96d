//! The response body of the cache middleware: one type for the three ways a
//! request can be answered.

use vstd::prelude::*;
use crate::headers::{Header, ResponseHead};

verus! {

/// A response: status and headers, and a body.
pub struct Response<B> {
    pub head: ResponseHead,
    pub body: B,
}

/// Response body of the middleware. Exactly one variant is live for the
/// whole life of a response.
pub enum EtagCacheResBody<ResBody, TResBody> {
    /// The body of a response that was stored in the cache on its way out.
    Miss(TResBody),
    /// The inner service's body, untouched.
    Passthrough(ResBody),
    /// `304 Not Modified`: no body at all.
    Hit,
}

/// A chunk of body data, from either kind of body.
pub enum EtagCacheResBodyData<ResBodyData, TResBodyData> {
    Miss(TResBodyData),
    Passthrough(ResBodyData),
}

/// An error from either kind of body.
pub enum EtagCacheResBodyError<ResBodyError, TResBodyError> {
    Miss(TResBodyError),
    Passthrough(ResBodyError),
}

/// The status of a response answered from the cache.
pub const NOT_MODIFIED: u16 = 304;

impl<ResBody, TResBody> EtagCacheResBody<ResBody, TResBody> {
    /// The `304 Not Modified` response with the given headers and no body.
    pub fn hit_resp(headers: Vec<Header>) -> (r: Response<Self>)
        ensures
            r.head.status == NOT_MODIFIED,
            r.head.headers == headers,
            (r.body is Hit),
    {
        Response { head: ResponseHead { status: NOT_MODIFIED, headers }, body: EtagCacheResBody::Hit }
    }

    /// The inner service's response, passed on as it is.
    pub fn passthrough_resp(resp: Response<ResBody>) -> (r: Response<Self>)
        ensures
            r.head == resp.head,
            r.body == EtagCacheResBody::<ResBody, TResBody>::Passthrough(resp.body),
    {
        Response { head: resp.head, body: EtagCacheResBody::Passthrough(resp.body) }
    }

    /// The response that the cache insertion returned.
    pub fn miss_resp(resp: Response<TResBody>) -> (r: Response<Self>)
        ensures
            r.head == resp.head,
            r.body == EtagCacheResBody::<ResBody, TResBody>::Miss(resp.body),
    {
        Response { head: resp.head, body: EtagCacheResBody::Miss(resp.body) }
    }

    /// A `304` body ends at once; the others end when their inner body does.
    pub fn is_hit(&self) -> (r: bool)
        ensures
            r == (self is Hit),
    {
        match self {
            EtagCacheResBody::Hit => true,
            _ => false,
        }
    }
}

} // verus!

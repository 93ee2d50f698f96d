//! The pipeline of one request, as an explicit state machine.
//!
//! A driver feeds the machine the outcome of each step (a service reporting
//! readiness, a call completing) and carries out the action it answers with.
//! The request, the key and the response move from state to state; none is
//! ever copied.

use vstd::prelude::*;
use crate::const_lru_provider::CacheGetResponseResult;
use crate::err::EtagCacheServiceError;
use crate::headers::{Header, ResponseHead};
use crate::passthrough_predicate::PassthroughPredicate;

verus! {

/// Where the pipeline of a request stands.
pub enum EtagCacheServiceFutureState<Key> {
    /// Waiting for the cache lookup service to be ready.
    CacheGetBefore,
    /// The request is with the cache lookup.
    CacheGet,
    /// Waiting for the inner service to be ready. `None` marks a request
    /// that passes through: only the inner service handles it.
    InnerBefore { key: Option<Key> },
    /// The request is with the inner service.
    Inner { key: Option<Key> },
    /// Waiting for the cache insertion service to be ready.
    CachePutBefore { key: Key, resp: ResponseHead },
    /// The response is with the cache insertion.
    CachePut,
    /// The pipeline has answered.
    Done,
}

/// What the driver observed.
pub enum StageEvent<Key, CacheGetError, InnerError, CachePutError> {
    /// The cache lookup service is ready, or failed.
    CacheGetReady(Result<(), CacheGetError>),
    /// The cache lookup completed.
    CacheGetDone(Result<CacheGetResponseResult<Key>, CacheGetError>),
    /// The inner service is ready, or failed.
    InnerReady(Result<(), InnerError>),
    /// The inner service answered.
    InnerDone(Result<ResponseHead, InnerError>),
    /// The cache insertion service is ready, or failed.
    CachePutReady(Result<(), CachePutError>),
    /// The cache insertion completed.
    CachePutDone(Result<ResponseHead, CachePutError>),
}

/// What the driver does next.
pub enum StageAction<Key, CacheGetError, InnerError, CachePutError> {
    /// Hand the request to the cache lookup.
    CallCacheGet,
    /// Hand the request, unmodified, to the inner service.
    CallInner,
    /// Hand the key and the inner service's response to the cache insertion.
    CallCachePut(Key, ResponseHead),
    /// Poll the stage the pipeline moved to.
    Continue,
    /// Answer `304 Not Modified` with these headers and an empty body.
    Hit(Vec<Header>),
    /// Answer with the inner service's response as it is.
    Passthrough(ResponseHead),
    /// Answer with the response the cache insertion returned.
    Miss(ResponseHead),
    /// Answer with the error of the failed stage.
    Fail(EtagCacheServiceError<CacheGetError, InnerError, CachePutError>),
    /// The event does not belong to the current state; nothing changed.
    Ignore,
}

/// One transition. `resp_passthrough` is the response passthrough
/// predicate's verdict on the inner service's response, consulted only when
/// that response arrives.
pub open spec fn transition_spec<K, GE, IE, PE>(
    st: EtagCacheServiceFutureState<K>,
    ev: StageEvent<K, GE, IE, PE>,
    resp_passthrough: bool,
) -> (EtagCacheServiceFutureState<K>, StageAction<K, GE, IE, PE>) {
    match (st, ev) {
        (EtagCacheServiceFutureState::CacheGetBefore, StageEvent::CacheGetReady(r)) => match r {
            Ok(_) => (EtagCacheServiceFutureState::CacheGet, StageAction::CallCacheGet),
            Err(e) => (EtagCacheServiceFutureState::Done, StageAction::Fail(EtagCacheServiceError::CacheGetError(e))),
        },
        (EtagCacheServiceFutureState::CacheGet, StageEvent::CacheGetDone(r)) => match r {
            Ok(CacheGetResponseResult::Hit(h)) => (EtagCacheServiceFutureState::Done, StageAction::Hit(h)),
            Ok(CacheGetResponseResult::Miss(k)) => (
                EtagCacheServiceFutureState::InnerBefore { key: Some(k) },
                StageAction::Continue,
            ),
            Err(e) => (EtagCacheServiceFutureState::Done, StageAction::Fail(EtagCacheServiceError::CacheGetError(e))),
        },
        (EtagCacheServiceFutureState::InnerBefore { key }, StageEvent::InnerReady(r)) => match r {
            Ok(_) => (EtagCacheServiceFutureState::Inner { key }, StageAction::CallInner),
            Err(e) => (EtagCacheServiceFutureState::Done, StageAction::Fail(EtagCacheServiceError::InnerError(e))),
        },
        (EtagCacheServiceFutureState::Inner { key }, StageEvent::InnerDone(r)) => match r {
            Ok(resp) => if resp_passthrough {
                (EtagCacheServiceFutureState::Done, StageAction::Passthrough(resp))
            } else {
                match key {
                    Some(k) => (
                        EtagCacheServiceFutureState::CachePutBefore { key: k, resp },
                        StageAction::Continue,
                    ),
                    None => (EtagCacheServiceFutureState::Done, StageAction::Passthrough(resp)),
                }
            },
            Err(e) => (EtagCacheServiceFutureState::Done, StageAction::Fail(EtagCacheServiceError::InnerError(e))),
        },
        (EtagCacheServiceFutureState::CachePutBefore { key, resp }, StageEvent::CachePutReady(r)) => match r {
            Ok(_) => (EtagCacheServiceFutureState::CachePut, StageAction::CallCachePut(key, resp)),
            Err(e) => (EtagCacheServiceFutureState::Done, StageAction::Fail(EtagCacheServiceError::CachePutError(e))),
        },
        (EtagCacheServiceFutureState::CachePut, StageEvent::CachePutDone(r)) => match r {
            Ok(resp) => (EtagCacheServiceFutureState::Done, StageAction::Miss(resp)),
            Err(e) => (EtagCacheServiceFutureState::Done, StageAction::Fail(EtagCacheServiceError::CachePutError(e))),
        },
        (st, _) => (st, StageAction::Ignore),
    }
}

/// Advances the pipeline by one event.
pub fn transition<K, GE, IE, PE>(
    st: EtagCacheServiceFutureState<K>,
    ev: StageEvent<K, GE, IE, PE>,
    resp_passthrough: bool,
) -> (r: (EtagCacheServiceFutureState<K>, StageAction<K, GE, IE, PE>))
    ensures
        r == transition_spec(st, ev, resp_passthrough),
{
    match (st, ev) {
        (EtagCacheServiceFutureState::CacheGetBefore, StageEvent::CacheGetReady(r)) => match r {
            Ok(_) => (EtagCacheServiceFutureState::CacheGet, StageAction::CallCacheGet),
            Err(e) => (EtagCacheServiceFutureState::Done, StageAction::Fail(EtagCacheServiceError::CacheGetError(e))),
        },
        (EtagCacheServiceFutureState::CacheGet, StageEvent::CacheGetDone(r)) => match r {
            Ok(CacheGetResponseResult::Hit(h)) => (EtagCacheServiceFutureState::Done, StageAction::Hit(h)),
            Ok(CacheGetResponseResult::Miss(k)) => (
                EtagCacheServiceFutureState::InnerBefore { key: Some(k) },
                StageAction::Continue,
            ),
            Err(e) => (EtagCacheServiceFutureState::Done, StageAction::Fail(EtagCacheServiceError::CacheGetError(e))),
        },
        (EtagCacheServiceFutureState::InnerBefore { key }, StageEvent::InnerReady(r)) => match r {
            Ok(_) => (EtagCacheServiceFutureState::Inner { key }, StageAction::CallInner),
            Err(e) => (EtagCacheServiceFutureState::Done, StageAction::Fail(EtagCacheServiceError::InnerError(e))),
        },
        (EtagCacheServiceFutureState::Inner { key }, StageEvent::InnerDone(r)) => match r {
            Ok(resp) => if resp_passthrough {
                (EtagCacheServiceFutureState::Done, StageAction::Passthrough(resp))
            } else {
                match key {
                    Some(k) => (
                        EtagCacheServiceFutureState::CachePutBefore { key: k, resp },
                        StageAction::Continue,
                    ),
                    None => (EtagCacheServiceFutureState::Done, StageAction::Passthrough(resp)),
                }
            },
            Err(e) => (EtagCacheServiceFutureState::Done, StageAction::Fail(EtagCacheServiceError::InnerError(e))),
        },
        (EtagCacheServiceFutureState::CachePutBefore { key, resp }, StageEvent::CachePutReady(r)) => match r {
            Ok(_) => (EtagCacheServiceFutureState::CachePut, StageAction::CallCachePut(key, resp)),
            Err(e) => (EtagCacheServiceFutureState::Done, StageAction::Fail(EtagCacheServiceError::CachePutError(e))),
        },
        (EtagCacheServiceFutureState::CachePut, StageEvent::CachePutDone(r)) => match r {
            Ok(resp) => (EtagCacheServiceFutureState::Done, StageAction::Miss(resp)),
            Err(e) => (EtagCacheServiceFutureState::Done, StageAction::Fail(EtagCacheServiceError::CachePutError(e))),
        },
        (st, _) => (st, StageAction::Ignore),
    }
}

/// The response passthrough verdict that a transition consults: the
/// predicate's rule on the inner service's response, when that is the event.
pub open spec fn resp_verdict<P: PassthroughPredicate, K, GE, IE, PE>(
    pred: P,
    st: EtagCacheServiceFutureState<K>,
    ev: StageEvent<K, GE, IE, PE>,
) -> bool {
    match (st, ev) {
        (EtagCacheServiceFutureState::Inner { .. }, StageEvent::InnerDone(Ok(resp))) => pred.resp_passthrough(resp),
        _ => false,
    }
}

/// The state of a request that passes through, before the inner service runs.
pub open spec fn passthrough_state<K>() -> EtagCacheServiceFutureState<K> {
    EtagCacheServiceFutureState::InnerBefore { key: None }
}

/// A state of the inner service stage without a key: the request passes
/// through.
pub open spec fn is_keyless<K>(st: EtagCacheServiceFutureState<K>) -> bool {
    ||| st matches EtagCacheServiceFutureState::InnerBefore { key: None }
    ||| st matches EtagCacheServiceFutureState::Inner { key: None }
}

/// The pipeline of one request: the services it uses and where it stands.
pub struct EtagCacheServiceFuture<C, P, S, K> {
    pub cache_provider: C,
    pub passthrough_predicate: P,
    pub inner: S,
    pub state: EtagCacheServiceFutureState<K>,
}

impl<C, P: PassthroughPredicate, S, K> EtagCacheServiceFuture<C, P, S, K> {
    /// A pipeline that starts with the cache lookup.
    pub fn start(cache_provider: C, passthrough_predicate: P, inner: S) -> (r: Self)
        ensures
            r.cache_provider == cache_provider,
            r.passthrough_predicate == passthrough_predicate,
            r.inner == inner,
            (r.state is CacheGetBefore),
    {
        EtagCacheServiceFuture {
            cache_provider,
            passthrough_predicate,
            inner,
            state: EtagCacheServiceFutureState::CacheGetBefore,
        }
    }

    /// A pipeline for a request that passes through: only the inner service
    /// handles it.
    pub fn passthrough(cache_provider: C, passthrough_predicate: P, inner: S) -> (r: Self)
        ensures
            r.cache_provider == cache_provider,
            r.passthrough_predicate == passthrough_predicate,
            r.inner == inner,
            r.state == passthrough_state::<K>(),
    {
        EtagCacheServiceFuture {
            cache_provider,
            passthrough_predicate,
            inner,
            state: EtagCacheServiceFutureState::InnerBefore { key: None },
        }
    }

    /// Feeds one event to the pipeline and returns what to do next. The
    /// response passthrough predicate is asked about the inner service's
    /// response when it arrives.
    pub fn poll_event<GE, IE, PE>(&mut self, ev: StageEvent<K, GE, IE, PE>) -> (r: StageAction<K, GE, IE, PE>)
        ensures
            (final(self).state, r) == transition_spec(
                old(self).state,
                ev,
                resp_verdict(old(self).passthrough_predicate, old(self).state, ev),
            ),
            final(self).cache_provider == old(self).cache_provider,
            final(self).inner == old(self).inner,
    {
        let mut st = EtagCacheServiceFutureState::Done;
        std::mem::swap(&mut st, &mut self.state);
        let verdict = match (&st, &ev) {
            (EtagCacheServiceFutureState::Inner { .. }, StageEvent::InnerDone(Ok(resp))) => {
                self.passthrough_predicate.should_passthrough_resp(resp)
            },
            _ => false,
        };
        let (next, action) = transition(st, ev, verdict);
        self.state = next;
        action
    }
}

/// A request that passes through never reaches the cache: from a pipeline
/// state without a key, every event leads to such a state or to the end, and
/// no action looks the request up, stores its response, or answers from the
/// cache; the answer is the inner service's response as it is.
pub proof fn lemma_passthrough_never_caches<K, GE, IE, PE>(
    st: EtagCacheServiceFutureState<K>,
    ev: StageEvent<K, GE, IE, PE>,
    resp_passthrough: bool,
)
    requires
        is_keyless(st),
    ensures
        ({
            let (next, action) = transition_spec(st, ev, resp_passthrough);
            &&& (is_keyless(next) || next is Done)
            &&& !(action is CallCacheGet || action is CallCachePut || action is Hit || action is Miss)
        }),
{
}

/// A cache miss runs the inner service: after the lookup misses, the
/// pipeline keeps the key and, once the inner service is ready, hands it the
/// request.
pub proof fn lemma_miss_runs_inner<K, GE, IE, PE>(k: K)
    ensures
        (transition_spec(
            EtagCacheServiceFutureState::<K>::CacheGet,
            StageEvent::<K, GE, IE, PE>::CacheGetDone(Ok(CacheGetResponseResult::Miss(k))),
            false,
        ) == (EtagCacheServiceFutureState::<K>::InnerBefore { key: Some(k) }, StageAction::<K, GE, IE, PE>::Continue)),
        (transition_spec(
            EtagCacheServiceFutureState::<K>::InnerBefore { key: Some(k) },
            StageEvent::<K, GE, IE, PE>::InnerReady(Ok(())),
            false,
        ) == (EtagCacheServiceFutureState::<K>::Inner { key: Some(k) }, StageAction::<K, GE, IE, PE>::CallInner)),
{
}

/// A hit answers at once: the lookup's `304` headers end the pipeline and
/// the inner service never runs.
pub proof fn lemma_hit_answers<K, GE, IE, PE>(headers: Vec<Header>)
    ensures
        (transition_spec(
            EtagCacheServiceFutureState::<K>::CacheGet,
            StageEvent::<K, GE, IE, PE>::CacheGetDone(Ok(CacheGetResponseResult::Hit(headers))),
            false,
        ) == (EtagCacheServiceFutureState::<K>::Done, StageAction::<K, GE, IE, PE>::Hit(headers))),
{
}

} // verus!

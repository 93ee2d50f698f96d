use tower_etag_cache::base64_blake3_body_etag::base64_blake3_body_etag;
use tower_etag_cache::const_lru_provider::{CacheGetResponseResult, ConstLruProvider, RFC2822_MAX_SECS};
use tower_etag_cache::err::EtagCacheServiceError;
use tower_etag_cache::future::{
    transition, EtagCacheServiceFuture, EtagCacheServiceFutureState, StageAction, StageEvent,
};
use tower_etag_cache::headers::{Header, HeaderName, Method, RequestHead, ResponseHead};
use tower_etag_cache::lru::LRU_CAPACITY;
use tower_etag_cache::passthrough_predicate::{parse_usize, DefaultPredicate, PassthroughPredicate};
use tower_etag_cache::response::{EtagCacheResBody, Response};
use tower_etag_cache::simple_etag_cache_key::{calc_simple_etag_cache_key, SimpleEtagCacheKey};
use tower_etag_cache::{EtagCache, EtagCacheLayer};

const EMPTY_BODY_ETAG: &str = "rxNJufX5oaagQE3qNtzJSZvLJcmtwRK3zJqTyuQfMmI=";

fn header(name: HeaderName, value: &str) -> Header {
    Header { name, value: value.as_bytes().to_vec() }
}

fn request(method: Method, uri: &str, headers: Vec<Header>) -> RequestHead {
    RequestHead { method, uri: uri.as_bytes().to_vec(), headers }
}

fn get(uri: &str, headers: Vec<Header>) -> RequestHead {
    request(Method::Get, uri, headers)
}

fn ok_response(headers: Vec<Header>) -> ResponseHead {
    ResponseHead { status: 200, headers }
}

fn is_name(h: &Header, n: HeaderName) -> bool {
    h.name.is(&n)
}

fn values(hs: &[Header], n: HeaderName) -> Vec<String> {
    hs.iter()
        .filter(|h| is_name(h, n.copy()))
        .map(|h| String::from_utf8(h.value.clone()).unwrap())
        .collect()
}

type Event = StageEvent<SimpleEtagCacheKey, &'static str, &'static str, &'static str>;
type Action = StageAction<SimpleEtagCacheKey, &'static str, &'static str, &'static str>;

#[test]
fn etag_of_empty_body() {
    let etag = base64_blake3_body_etag(&[]);
    assert_eq!(etag, EMPTY_BODY_ETAG.as_bytes().to_vec());
}

#[test]
fn etag_is_deterministic_and_content_only() {
    let a = base64_blake3_body_etag(b"hello world");
    let b = base64_blake3_body_etag(b"hello world");
    let c = base64_blake3_body_etag(b"hello worle");
    assert_eq!(a, b);
    assert_ne!(a, c);
    assert_eq!(a.len(), 44);
    assert!(a.iter().all(|&x| x.is_ascii_graphic()));
}

#[test]
fn default_predicate_requests() {
    let mut p = DefaultPredicate;
    assert!(!p.should_passthrough_req(&get("/x", vec![])));
    assert!(!p.should_passthrough_req(&request(Method::Head, "/x", vec![])));
    assert!(p.should_passthrough_req(&request(Method::Other("POST".to_string()), "/x", vec![])));
    assert!(p.should_passthrough_req(&request(Method::Other("DELETE".to_string()), "/x", vec![])));
}

#[test]
fn default_predicate_statuses() {
    let mut p = DefaultPredicate;
    for s in [200u16, 201, 203, 205, 250, 299] {
        assert!(!p.should_passthrough_resp(&ResponseHead { status: s, headers: vec![] }), "{}", s);
    }
    for s in [100u16, 199, 204, 300, 304, 404, 500] {
        assert!(p.should_passthrough_resp(&ResponseHead { status: s, headers: vec![] }), "{}", s);
    }
}

#[test]
fn default_predicate_etag_and_content_length() {
    let mut p = DefaultPredicate;
    assert!(p.should_passthrough_resp(&ok_response(vec![header(HeaderName::ETag, "abc")])));
    assert!(p.should_passthrough_resp(&ok_response(vec![header(HeaderName::ContentLength, "0")])));
    assert!(p.should_passthrough_resp(&ok_response(vec![header(HeaderName::ContentLength, "+000")])));
    assert!(!p.should_passthrough_resp(&ok_response(vec![header(HeaderName::ContentLength, "12")])));
    assert!(!p.should_passthrough_resp(&ok_response(vec![header(HeaderName::ContentLength, "zero")])));
    assert!(!p.should_passthrough_resp(&ok_response(vec![header(HeaderName::ContentLength, "")])));
    assert!(!p.should_passthrough_resp(&ok_response(vec![header(HeaderName::ContentLength, "-0")])));
    let non_ascii = Header { name: HeaderName::ContentLength, value: vec![0x30, 0xff] };
    assert!(!p.should_passthrough_resp(&ok_response(vec![non_ascii])));
    // only the first Content-Length counts
    assert!(!p.should_passthrough_resp(&ok_response(vec![
        header(HeaderName::ContentLength, "7"),
        header(HeaderName::ContentLength, "0"),
    ])));
}

#[test]
fn parse_usize_like_std() {
    for s in ["0", "123", "+7", "007", "18446744073709551615", "4294967295"] {
        let expected: Option<usize> = s.parse().ok();
        assert_eq!(parse_usize(&s.as_bytes().to_vec()), expected, "{}", s);
    }
    for s in ["", "+", "-1", "1a", " 1", "18446744073709551616", "99999999999999999999999"] {
        assert_eq!(parse_usize(&s.as_bytes().to_vec()), None, "{}", s);
    }
    assert_eq!(parse_usize(&b"42".to_vec()), Some(42));
}

#[test]
fn key_sorts_negotiation_values() {
    let req = get(
        "/x?y=1",
        vec![
            header(HeaderName::Accept, "text/html"),
            header(HeaderName::AcceptLanguage, "fr"),
            header(HeaderName::Accept, "application/json"),
            header(HeaderName::Other("x-other".to_string()), "ignored"),
        ],
    );
    let key = calc_simple_etag_cache_key(&req);
    assert_eq!(key.uri, b"/x?y=1".to_vec());
    assert_eq!(key.accept, vec![b"application/json".to_vec(), b"text/html".to_vec()]);
    assert!(key.accept_encoding.is_empty());
    assert_eq!(key.accept_language, vec![b"fr".to_vec()]);
}

#[test]
fn key_ignores_value_order() {
    let a = get("/x", vec![header(HeaderName::Accept, "b"), header(HeaderName::Accept, "a")]);
    let b = get("/x", vec![header(HeaderName::Accept, "a"), header(HeaderName::Accept, "b")]);
    let ka = calc_simple_etag_cache_key(&a);
    let kb = calc_simple_etag_cache_key(&b);
    assert_eq!(ka.accept, kb.accept);
    assert_eq!(ka.to_bytes(), kb.to_bytes());
}

#[test]
fn vary_sensitivity_gives_distinct_keys() {
    let a = get("/x", vec![header(HeaderName::AcceptEncoding, "gzip")]);
    let b = get("/x", vec![header(HeaderName::AcceptEncoding, "br")]);
    let c = get("/x", vec![header(HeaderName::Accept, "gzip")]);
    let ka = calc_simple_etag_cache_key(&a).to_bytes();
    let kb = calc_simple_etag_cache_key(&b).to_bytes();
    let kc = calc_simple_etag_cache_key(&c).to_bytes();
    assert_ne!(ka, kb);
    assert_ne!(ka, kc);

    let mut store = ConstLruProvider::new();
    let key = calc_simple_etag_cache_key(&a);
    let stored = store.on_put_request_at(key, ok_response(vec![]), b"body", 1000);
    let etag = values(&stored.headers, HeaderName::ETag)[0].clone();
    let r = store.on_get_request(get(
        "/x",
        vec![header(HeaderName::AcceptEncoding, "br"), header(HeaderName::IfNoneMatch, &etag)],
    ));
    assert!(matches!(r.result, CacheGetResponseResult::Miss(_)));
    let r = store.on_get_request(get(
        "/x",
        vec![header(HeaderName::AcceptEncoding, "gzip"), header(HeaderName::IfNoneMatch, &etag)],
    ));
    assert!(matches!(r.result, CacheGetResponseResult::Hit(_)));
}

#[test]
fn key_bytes_encoding() {
    let key = SimpleEtagCacheKey {
        uri: b"/a".to_vec(),
        accept: vec![b"x".to_vec()],
        accept_encoding: vec![],
        accept_language: vec![],
    };
    let mut expected = vec![2u8, 0, 0, 0, 0, 0, 0, 0, b'/', b'a'];
    expected.extend_from_slice(&[1, 0, 0, 0, 0, 0, 0, 0, 1, 0, 0, 0, 0, 0, 0, 0, b'x']);
    expected.extend_from_slice(&[0; 16]);
    assert_eq!(key.to_bytes(), expected);
}

#[test]
fn set_vary_response_headers() {
    let mut hs = vec![header(HeaderName::Other("server".to_string()), "s")];
    SimpleEtagCacheKey::set_response_headers(&mut hs);
    assert_eq!(hs.len(), 4);
    assert_eq!(values(&hs, HeaderName::Vary), vec!["accept", "accept-encoding", "accept-language"]);
}

#[test]
fn round_trip_caching() {
    let mut store = ConstLruProvider::new();
    let first = store.on_get_request(get("/x", vec![]));
    let key = match first.result {
        CacheGetResponseResult::Miss(k) => k,
        CacheGetResponseResult::Hit(_) => panic!("empty store hit"),
    };
    let resp = ok_response(vec![header(HeaderName::Other("content-type".to_string()), "text/plain")]);
    let stored = store.on_put_request_at(key, resp, b"", 784111777);
    assert_eq!(stored.status, 200);
    assert_eq!(values(&stored.headers, HeaderName::ETag), vec![EMPTY_BODY_ETAG]);
    assert_eq!(
        values(&stored.headers, HeaderName::LastModified),
        vec!["Sun, 06 Nov 1994 08:49:37 +0000"]
    );
    assert_eq!(values(&stored.headers, HeaderName::Vary).len(), 3);
    assert_eq!(values(&stored.headers, HeaderName::Other("content-type".to_string())), vec!["text/plain"]);

    let second = store.on_get_request(get("/x", vec![header(HeaderName::IfNoneMatch, EMPTY_BODY_ETAG)]));
    let hs = match second.result {
        CacheGetResponseResult::Hit(hs) => hs,
        CacheGetResponseResult::Miss(_) => panic!("expected a hit"),
    };
    assert_eq!(values(&hs, HeaderName::ETag), vec![EMPTY_BODY_ETAG]);
    assert_eq!(values(&hs, HeaderName::LastModified), vec!["Sun, 06 Nov 1994 08:49:37 +0000"]);
    let resp: Response<EtagCacheResBody<(), ()>> = EtagCacheResBody::hit_resp(hs);
    assert_eq!(resp.head.status, 304);
    assert!(resp.body.is_hit());
}

#[test]
fn hit_among_several_if_none_match_values() {
    let mut store = ConstLruProvider::new();
    let key = calc_simple_etag_cache_key(&get("/x", vec![]));
    store.on_put_request_at(key, ok_response(vec![]), b"", 0);
    let r = store.on_get_request(get(
        "/x",
        vec![
            header(HeaderName::IfNoneMatch, "other"),
            Header { name: HeaderName::IfNoneMatch, value: vec![0xfe] },
            header(HeaderName::IfNoneMatch, EMPTY_BODY_ETAG),
        ],
    ));
    match r.result {
        CacheGetResponseResult::Hit(hs) => {
            assert_eq!(values(&hs, HeaderName::LastModified), vec!["Thu, 01 Jan 1970 00:00:00 +0000"]);
        }
        CacheGetResponseResult::Miss(_) => panic!("expected a hit"),
    }
}

#[test]
fn stale_client_etag_misses() {
    let mut store = ConstLruProvider::new();
    let key = calc_simple_etag_cache_key(&get("/x", vec![]));
    store.on_put_request_at(key, ok_response(vec![]), b"B", 10);
    let r = store.on_get_request(get("/x", vec![header(HeaderName::IfNoneMatch, "\"stale\"")]));
    assert!(matches!(r.result, CacheGetResponseResult::Miss(_)));
    let r = store.on_get_request(get("/x", vec![]));
    assert!(matches!(r.result, CacheGetResponseResult::Miss(_)));
    // ETag comparison is case-sensitive
    let etag = String::from_utf8(base64_blake3_body_etag(b"B")).unwrap();
    let r = store.on_get_request(get("/x", vec![header(HeaderName::IfNoneMatch, &etag.to_lowercase())]));
    assert!(matches!(r.result, CacheGetResponseResult::Miss(_)));
    let r = store.on_get_request(get("/x", vec![header(HeaderName::IfNoneMatch, &etag)]));
    assert!(matches!(r.result, CacheGetResponseResult::Hit(_)));
}

#[test]
fn capacity_eviction() {
    let mut store = ConstLruProvider::new();
    let n = LRU_CAPACITY;
    for i in 0..=n {
        let key = calc_simple_etag_cache_key(&get(&format!("/k{}", i), vec![]));
        store.on_put_request_at(key, ok_response(vec![]), b"", 5);
    }
    for i in 0..=n {
        let r = store.on_get_request(get(
            &format!("/k{}", i),
            vec![header(HeaderName::IfNoneMatch, EMPTY_BODY_ETAG)],
        ));
        let hit = matches!(r.result, CacheGetResponseResult::Hit(_));
        assert_eq!(hit, i != 0, "key {}", i);
    }
}

#[test]
fn capacity_set_at_construction() {
    assert!(ConstLruProvider::with_capacity(0).is_none());
    assert!(ConstLruProvider::with_capacity(256).is_none());
    let mut store = ConstLruProvider::with_capacity(3).unwrap();
    assert_eq!(store.capacity(), 3);
    assert_eq!(ConstLruProvider::new().capacity(), 255);
    for i in 0..4 {
        let key = calc_simple_etag_cache_key(&get(&format!("/c{}", i), vec![]));
        store.on_put_request_at(key, ok_response(vec![]), b"", 5);
    }
    let inm = || vec![header(HeaderName::IfNoneMatch, EMPTY_BODY_ETAG)];
    assert!(matches!(store.on_get_request(get("/c0", inm())).result, CacheGetResponseResult::Miss(_)));
    for i in 1..4 {
        let r = store.on_get_request(get(&format!("/c{}", i), inm()));
        assert!(matches!(r.result, CacheGetResponseResult::Hit(_)), "key {}", i);
    }
    // /c1 is now the least recently used: a new key evicts it
    let key = calc_simple_etag_cache_key(&get("/c4", vec![]));
    store.on_put_request_at(key, ok_response(vec![]), b"", 5);
    assert!(matches!(store.on_get_request(get("/c1", inm())).result, CacheGetResponseResult::Miss(_)));
    assert!(matches!(store.on_get_request(get("/c2", inm())).result, CacheGetResponseResult::Hit(_)));
    assert!(matches!(store.on_get_request(get("/c4", inm())).result, CacheGetResponseResult::Hit(_)));
}

#[test]
fn capacity_one_keeps_the_last_entry() {
    let mut store = ConstLruProvider::with_capacity(1).unwrap();
    for i in 0..3 {
        let key = calc_simple_etag_cache_key(&get(&format!("/o{}", i), vec![]));
        store.on_put_request_at(key, ok_response(vec![]), b"", 5);
    }
    let inm = || vec![header(HeaderName::IfNoneMatch, EMPTY_BODY_ETAG)];
    assert!(matches!(store.on_get_request(get("/o1", inm())).result, CacheGetResponseResult::Miss(_)));
    assert!(matches!(store.on_get_request(get("/o2", inm())).result, CacheGetResponseResult::Hit(_)));
}

#[test]
fn lookup_makes_an_entry_recently_used() {
    let mut store = ConstLruProvider::new();
    for i in 0..LRU_CAPACITY {
        let key = calc_simple_etag_cache_key(&get(&format!("/k{}", i), vec![]));
        store.on_put_request_at(key, ok_response(vec![]), b"", 5);
    }
    // touch the oldest entry, so that the next insertion evicts the second oldest
    let r = store.on_get_request(get("/k0", vec![]));
    assert!(matches!(r.result, CacheGetResponseResult::Miss(_)));
    let key = calc_simple_etag_cache_key(&get("/new", vec![]));
    store.on_put_request_at(key, ok_response(vec![]), b"", 5);
    let inm = || vec![header(HeaderName::IfNoneMatch, EMPTY_BODY_ETAG)];
    assert!(matches!(store.on_get_request(get("/k0", inm())).result, CacheGetResponseResult::Hit(_)));
    assert!(matches!(store.on_get_request(get("/k1", inm())).result, CacheGetResponseResult::Miss(_)));
    assert!(matches!(store.on_get_request(get("/new", inm())).result, CacheGetResponseResult::Hit(_)));
    // storing an existing key again replaces its entry
    let key = calc_simple_etag_cache_key(&get("/new", vec![]));
    store.on_put_request_at(key, ok_response(vec![]), b"changed", 6);
    assert!(matches!(store.on_get_request(get("/new", inm())).result, CacheGetResponseResult::Miss(_)));
    assert!(matches!(store.on_get_request(get("/k2", inm())).result, CacheGetResponseResult::Hit(_)));
}

#[test]
fn put_passes_through_responses_with_etag_or_vary() {
    let mut store = ConstLruProvider::new();
    let key = calc_simple_etag_cache_key(&get("/x", vec![]));
    let resp = ok_response(vec![header(HeaderName::ETag, "\"mine\"")]);
    let out = store.on_put_request_at(key, resp, b"", 5);
    assert_eq!(out.headers.len(), 1);
    assert_eq!(values(&out.headers, HeaderName::ETag), vec!["\"mine\""]);
    let r = store.on_get_request(get("/x", vec![header(HeaderName::IfNoneMatch, EMPTY_BODY_ETAG)]));
    assert!(matches!(r.result, CacheGetResponseResult::Miss(_)));

    let key = calc_simple_etag_cache_key(&get("/y", vec![]));
    let out = store.on_put_request_at(key, ok_response(vec![header(HeaderName::Vary, "cookie")]), b"", 5);
    assert_eq!(out.headers.len(), 1);
}

#[test]
fn put_at_unrepresentable_time_passes_through() {
    let mut store = ConstLruProvider::new();
    let key = calc_simple_etag_cache_key(&get("/x", vec![]));
    let out = store.on_put_request_at(key, ok_response(vec![]), b"", (RFC2822_MAX_SECS + 1) as i64);
    assert!(out.headers.is_empty());
    let key = calc_simple_etag_cache_key(&get("/x", vec![]));
    let out = store.on_put_request_at(key, ok_response(vec![]), b"", RFC2822_MAX_SECS as i64);
    assert_eq!(values(&out.headers, HeaderName::LastModified), vec!["Fri, 31 Dec 9999 23:59:59 +0000"]);
}

#[test]
fn put_before_1970_passes_through() {
    let mut store = ConstLruProvider::new();
    let key = calc_simple_etag_cache_key(&get("/x", vec![]));
    let out = store.on_put_request_at(key, ok_response(vec![]), b"", -1);
    assert!(out.headers.is_empty());
    let r = store.on_get_request(get("/x", vec![header(HeaderName::IfNoneMatch, EMPTY_BODY_ETAG)]));
    assert!(matches!(r.result, CacheGetResponseResult::Miss(_)));
}

#[test]
fn put_with_clock_stores() {
    let mut store = ConstLruProvider::new();
    let key = calc_simple_etag_cache_key(&get("/x", vec![]));
    let out = store.on_put_request(key, ok_response(vec![]), b"");
    assert_eq!(values(&out.headers, HeaderName::ETag), vec![EMPTY_BODY_ETAG]);
    let r = store.on_get_request(get("/x", vec![header(HeaderName::IfNoneMatch, EMPTY_BODY_ETAG)]));
    assert!(matches!(r.result, CacheGetResponseResult::Hit(_)));
}

#[test]
fn post_request_passes_through() {
    let mut svc = EtagCache::with_default_predicate((), ());
    let post = request(Method::Other("POST".to_string()), "/x", vec![]);
    let mut fut = svc.call::<SimpleEtagCacheKey>(&post);
    assert!(matches!(fut.state, EtagCacheServiceFutureState::InnerBefore { key: None }));
    let a: Action = fut.poll_event(Event::InnerReady(Ok(())));
    assert!(matches!(a, StageAction::CallInner));
    let a: Action = fut.poll_event(Event::InnerDone(Ok(ok_response(vec![]))));
    match a {
        StageAction::Passthrough(resp) => assert!(resp.headers.is_empty()),
        _ => panic!("expected passthrough"),
    }
    assert!(matches!(fut.state, EtagCacheServiceFutureState::Done));

    let mut fut = svc.call::<SimpleEtagCacheKey>(&get("/x", vec![]));
    assert!(matches!(fut.state, EtagCacheServiceFutureState::CacheGetBefore));
    let a: Action = fut.poll_event(Event::CacheGetReady(Ok(())));
    assert!(matches!(a, StageAction::CallCacheGet));
}

#[test]
fn pipeline_miss_then_put() {
    let key = calc_simple_etag_cache_key(&get("/x", vec![]));
    let mut fut: EtagCacheServiceFuture<(), DefaultPredicate, (), SimpleEtagCacheKey> =
        EtagCacheServiceFuture::start((), DefaultPredicate, ());
    assert!(matches!(fut.poll_event(Event::CacheGetReady(Ok(()))), StageAction::CallCacheGet));
    assert!(matches!(
        fut.poll_event(Event::CacheGetDone(Ok(CacheGetResponseResult::Miss(key)))),
        StageAction::Continue
    ));
    assert!(matches!(fut.poll_event(Event::InnerReady(Ok(()))), StageAction::CallInner));
    assert!(matches!(fut.poll_event(Event::InnerDone(Ok(ok_response(vec![])))), StageAction::Continue));
    match fut.poll_event(Event::CachePutReady(Ok(()))) {
        StageAction::CallCachePut(k, resp) => {
            assert_eq!(k.uri, b"/x".to_vec());
            assert_eq!(resp.status, 200);
        }
        _ => panic!("expected the cache insertion"),
    }
    match fut.poll_event(Event::CachePutDone(Ok(ResponseHead { status: 201, headers: vec![] }))) {
        StageAction::Miss(resp) => assert_eq!(resp.status, 201),
        _ => panic!("expected a miss answer"),
    }
    assert!(matches!(fut.poll_event(Event::InnerReady(Ok(()))), StageAction::Ignore));
}

#[test]
fn pipeline_hit_and_response_passthrough() {
    let mut fut: EtagCacheServiceFuture<(), DefaultPredicate, (), SimpleEtagCacheKey> =
        EtagCacheServiceFuture::start((), DefaultPredicate, ());
    fut.poll_event(Event::CacheGetReady(Ok(())));
    match fut.poll_event(Event::CacheGetDone(Ok(CacheGetResponseResult::Hit(vec![header(HeaderName::ETag, "e")])))) {
        StageAction::Hit(hs) => assert_eq!(hs.len(), 1),
        _ => panic!("expected a hit"),
    }
    let key = calc_simple_etag_cache_key(&get("/x", vec![]));
    let mut fut: EtagCacheServiceFuture<(), DefaultPredicate, (), SimpleEtagCacheKey> =
        EtagCacheServiceFuture::start((), DefaultPredicate, ());
    fut.poll_event(Event::CacheGetReady(Ok(())));
    fut.poll_event(Event::CacheGetDone(Ok(CacheGetResponseResult::Miss(key))));
    fut.poll_event(Event::InnerReady(Ok(())));
    let not_found = ResponseHead { status: 404, headers: vec![] };
    match fut.poll_event(Event::InnerDone(Ok(not_found))) {
        StageAction::Passthrough(resp) => assert_eq!(resp.status, 404),
        _ => panic!("a 404 is not cached"),
    }
}

#[test]
fn pipeline_errors_name_their_stage() {
    let (_, a): (_, Action) = transition(EtagCacheServiceFutureState::CacheGetBefore, Event::CacheGetReady(Err("get")), false);
    assert!(matches!(a, StageAction::Fail(EtagCacheServiceError::CacheGetError("get"))));
    let (s, a): (_, Action) = transition(EtagCacheServiceFutureState::Inner { key: None }, Event::InnerDone(Err("inner")), false);
    assert!(matches!(a, StageAction::Fail(EtagCacheServiceError::InnerError("inner"))));
    assert!(matches!(s, EtagCacheServiceFutureState::Done));
    let (_, a): (_, Action) = transition(EtagCacheServiceFutureState::CachePut, Event::CachePutDone(Err("put")), false);
    assert!(matches!(a, StageAction::Fail(EtagCacheServiceError::CachePutError("put"))));
    let (s, a): (_, Action) = transition(EtagCacheServiceFutureState::CacheGet, Event::InnerReady(Ok(())), false);
    assert!(matches!(a, StageAction::Ignore));
    assert!(matches!(s, EtagCacheServiceFutureState::CacheGet));
}

#[test]
fn layer_wraps_services() {
    let layer = EtagCacheLayer::with_default_predicate(7u8);
    let svc = layer.layer("inner");
    assert_eq!(svc.cache_provider, 7);
    assert_eq!(svc.inner, "inner");
    let custom = EtagCacheLayer::new(1u8, DefaultPredicate).layer(2u8);
    assert_eq!(custom.inner, 2);
    let direct = EtagCache::new(3u8, DefaultPredicate, 4u8);
    assert_eq!(direct.cache_provider + direct.inner, 7);
}

#[test]
fn passthrough_and_miss_responses_keep_heads() {
    let head = ok_response(vec![header(HeaderName::ETag, "x")]);
    let r: Response<EtagCacheResBody<&str, ()>> =
        EtagCacheResBody::passthrough_resp(Response { head, body: "untouched" });
    assert_eq!(r.head.status, 200);
    assert!(matches!(r.body, EtagCacheResBody::Passthrough("untouched")));
    let r: Response<EtagCacheResBody<(), Vec<u8>>> =
        EtagCacheResBody::miss_resp(Response { head: ok_response(vec![]), body: vec![1, 2] });
    assert!(!r.body.is_hit());
    assert!(matches!(r.body, EtagCacheResBody::Miss(ref b) if b == &vec![1, 2]));
}

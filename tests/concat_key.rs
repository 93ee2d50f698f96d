use tower_etag_cache::cache_provider::{CacheGetProvider, CachePutProvider, DeriveEtagCacheKey};
use tower_etag_cache::const_lru_provider::{CacheGetResponseResult, ConstLruProvider};
use tower_etag_cache::headers::{Header, HeaderName, Method, RequestHead, ResponseHead};
use tower_etag_cache::simple_cache_key::{simple_etag_cache_key, VaryConcatCacheKey};
use tower_etag_cache::simple_etag_cache_key::SimpleEtagCacheKey;

fn header(name: HeaderName, value: &str) -> Header {
    Header { name, value: value.as_bytes().to_vec() }
}

fn get(uri: &str, headers: Vec<Header>) -> RequestHead {
    RequestHead { method: Method::Get, uri: uri.as_bytes().to_vec(), headers }
}

fn key(req: &RequestHead) -> Option<String> {
    simple_etag_cache_key(req).ok().map(|k| String::from_utf8(k).unwrap())
}

#[test]
fn concat_key_without_vary_is_the_uri() {
    let req = get("/x?q=1", vec![header(HeaderName::Accept, "text/html")]);
    assert_eq!(key(&req).as_deref(), Some("/x?q=1"));
}

#[test]
fn concat_key_follows_vary_order() {
    let hs = vec![
        header(HeaderName::Accept, "text/html"),
        header(HeaderName::AcceptEncoding, "gzip"),
    ];
    let mut a = hs.clone_headers();
    a.push(header(HeaderName::Vary, "Accept-Encoding, accept"));
    assert_eq!(key(&get("/x", a)).as_deref(), Some("/x\ngziptext/html"));
    let mut b = hs.clone_headers();
    b.push(header(HeaderName::Vary, "accept"));
    b.push(header(HeaderName::Vary, "accept-encoding"));
    assert_eq!(key(&get("/x", b)).as_deref(), Some("/x\ntext/htmlgzip"));
}

#[test]
fn concat_key_keeps_value_order() {
    let a = get("/x", vec![
        header(HeaderName::Vary, "accept"),
        header(HeaderName::Accept, "a"),
        header(HeaderName::Accept, "b"),
    ]);
    let b = get("/x", vec![
        header(HeaderName::Vary, "accept"),
        header(HeaderName::Accept, "b"),
        header(HeaderName::Accept, "a"),
    ]);
    assert_eq!(key(&a).as_deref(), Some("/x\nab"));
    assert_eq!(key(&b).as_deref(), Some("/x\nba"));
}

#[test]
fn concat_key_reads_other_headers() {
    let req = get("/x", vec![
        header(HeaderName::Vary, "x-mode,\tcookie"),
        header(HeaderName::Other("x-mode".to_string()), "dark"),
    ]);
    assert_eq!(key(&req).as_deref(), Some("/x\ndark"));
    let nothing = get("/x", vec![header(HeaderName::Vary, " , ")]);
    assert_eq!(key(&nothing).as_deref(), Some("/x\n"));
}

#[test]
fn concat_key_rejects_values_that_are_not_text() {
    let bad_vary = get("/x", vec![Header { name: HeaderName::Vary, value: vec![b'a', 0x80] }]);
    assert!(simple_etag_cache_key(&bad_vary).is_err());
    let bad_value = get("/x", vec![
        header(HeaderName::Vary, "accept"),
        Header { name: HeaderName::Accept, value: vec![0xff] },
    ]);
    assert!(simple_etag_cache_key(&bad_value).is_err());
    let unread = get("/x", vec![
        header(HeaderName::Vary, "accept"),
        Header { name: HeaderName::AcceptLanguage, value: vec![0xff] },
    ]);
    assert_eq!(key(&unread).as_deref(), Some("/x\n"));
}

trait CloneHeaders {
    fn clone_headers(&self) -> Vec<Header>;
}

impl CloneHeaders for Vec<Header> {
    fn clone_headers(&self) -> Vec<Header> {
        self.iter().map(|h| Header { name: h.name.copy(), value: h.value.clone() }).collect()
    }
}

#[test]
fn key_strategies_are_pluggable() {
    let req = get("/x", vec![header(HeaderName::Vary, "accept"), header(HeaderName::Accept, "b"), header(HeaderName::Accept, "a")]);
    let concat = VaryConcatCacheKey::derive_etag_cache_key(&req).ok().unwrap();
    assert_eq!(concat, b"/x\nba".to_vec());
    let structured = SimpleEtagCacheKey::derive_etag_cache_key(&req).ok().unwrap();
    assert_eq!(structured.accept, vec![b"a".to_vec(), b"b".to_vec()]);
}

#[test]
fn provider_traits_reach_the_store() {
    let mut store = ConstLruProvider::new();
    let miss = store.cache_get(get("/p", vec![]));
    let key = match miss.result {
        CacheGetResponseResult::Miss(k) => k,
        CacheGetResponseResult::Hit(_) => panic!("empty store hit"),
    };
    let out = store.cache_put(key, ResponseHead { status: 200, headers: vec![] }, b"");
    assert_eq!(out.headers.len(), 5);
    let etag = String::from_utf8(out.headers[0].value.clone()).unwrap();
    let hit = store.cache_get(get("/p", vec![header(HeaderName::IfNoneMatch, &etag)]));
    assert!(matches!(hit.result, CacheGetResponseResult::Hit(_)));
}

use bytes::Bytes;
use cicache::entry::{Entry, EntryError};
use cicache::headers::sanitize;
use cicache::passage::{Body, Fetching, Found, Handling, Head, Kept, Pending, Reading};
use cicache::policy::{Policy, Reject};
use cicache::proxy::{Proxy, Response};
use cicache::stats::Stats;
use cicache::url::Url;
use hyper::header::{HeaderMap, HeaderValue};

fn proxy() -> Proxy {
    let policy = Policy {
        min_size: 4,
        max_size: 100,
        min_max_age: 3600,
        cache_all: false,
        cache_authorized: false,
        extra_bypass: vec![],
        key_prefix: "p".to_string(),
    };
    Proxy::new(policy, vec![443])
}

fn artifact() -> Url {
    Url::parse("https://static.crates.io/crates/a.crate").unwrap()
}

fn client_headers() -> HeaderMap {
    let mut headers = HeaderMap::new();
    headers.append("host", "static.crates.io".parse().unwrap());
    headers.append("accept-encoding", "gzip".parse().unwrap());
    headers.append("proxy-connection", "keep-alive".parse().unwrap());
    headers.append("user-agent", "cargo".parse().unwrap());
    headers
}

fn response_headers() -> HeaderMap {
    let mut headers = HeaderMap::new();
    headers.append("content-type", "application/gzip".parse().unwrap());
    headers.append("content-length", "999".parse().unwrap());
    headers.append("etag", "\"x\"".parse().unwrap());
    headers.append("keep-alive", "timeout=5".parse().unwrap());
    headers
}

fn pending() -> Pending {
    match proxy().handle("GET", artifact(), client_headers()) {
        Handling::Lookup(pending) => pending,
        Handling::Forward(_) => panic!("forwarded"),
    }
}

fn fetching() -> Fetching {
    match pending().looked_up(&mut Stats::default(), None) {
        Found::Fetch { fetching, note: None } => fetching,
        _ => panic!("not fetched"),
    }
}

fn reading(status: u16, headers: &HeaderMap) -> Reading {
    let mut stats = Stats::default();
    match fetching().responded(&proxy().policy, &mut stats, status, headers, None, 0) {
        Head::Read(reading) => reading,
        _ => panic!("not read"),
    }
}

fn miss(stats: &mut Stats, body: &'static [u8]) -> (Option<(String, Entry)>, Response, String) {
    let reading = reading(200, &response_headers());
    match reading.read(&proxy().policy, Bytes::from_static(body)) {
        Body::Store { key, entry, answering } => {
            let (response, line) = answering.answer(stats, Kept::Stored, 7).unwrap();
            (Some((key, entry)), response, line)
        }
        Body::Drop { reject, answering } => {
            let (response, line) = answering.answer(stats, Kept::Rejected(reject), 7).unwrap();
            (None, response, line)
        }
    }
}

#[test]
fn requests_are_looked_up_or_forwarded() {
    let pending = pending();
    assert_eq!(pending.method, "GET");
    assert_eq!(pending.key, proxy().policy.key(&artifact()));
    assert_eq!(pending.headers, client_headers());
    match proxy().handle("POST", artifact(), client_headers()) {
        Handling::Forward(forwarding) => {
            assert_eq!(forwarding.method, "POST");
            assert_eq!(forwarding.url.as_str(), artifact().as_str());
            assert_eq!(forwarding.reject, Reject::NotGet);
            assert_eq!(forwarding.headers, sanitize(&client_headers()));
        }
        Handling::Lookup(_) => panic!("looked up"),
    }
}

#[test]
fn forwarded_requests_are_counted_as_passed_through() {
    let mut stats = Stats::default();
    let forwarding = match proxy().handle("POST", artifact(), client_headers()) {
        Handling::Forward(forwarding) => forwarding,
        Handling::Lookup(_) => panic!("looked up"),
    };
    let (headers, line) = forwarding.responded(&mut stats, &response_headers(), Some(12), 5).unwrap();
    assert_eq!(headers["x-cicache"], "PASS");
    assert!(!headers.contains_key("keep-alive"));
    assert_eq!(
        line,
        "PASS (not a GET)                       12 B      5ms  POST https://static.crates.io/crates/a.crate\n"
    );
    assert_eq!(stats.summary().passthrough, 1);
    assert_eq!(stats.summary().bytes_from_network, 12);
}

#[test]
fn what_is_not_in_the_cache_is_fetched_as_it_is() {
    let fetching = fetching();
    assert_eq!(fetching.method, "GET");
    assert_eq!(fetching.key, proxy().policy.key(&artifact()));
    let encodings: Vec<&HeaderValue> = fetching.headers.get_all("accept-encoding").iter().collect();
    assert_eq!(encodings, ["identity"]);
    assert_eq!(fetching.headers["user-agent"], "cargo");
    assert_eq!(fetching.headers.len(), 2);
}

#[test]
fn damaged_entries_are_not_served() {
    let mut stats = Stats::default();
    match pending().looked_up(&mut stats, Some(Err(EntryError::Integrity))) {
        Found::Fetch { fetching, note } => {
            assert_eq!(fetching.key, pending().key);
            assert_eq!(
                note.unwrap(),
                "cicache: discarding entry for https://static.crates.io/crates/a.crate: cache entry failed integrity check"
            );
        }
        _ => panic!("not fetched"),
    }
    assert_eq!(stats.summary().requests, 0);
}

#[test]
fn a_hit_is_the_miss_again() {
    let mut stats = Stats::default();
    let (stored, miss, line) = miss(&mut stats, b"0123456789");
    assert!(line.ends_with("      7ms  GET https://static.crates.io/crates/a.crate  -> stored\n"));
    assert_eq!(miss.headers["x-cicache"], "MISS");
    assert_eq!(miss.headers["content-length"], "10");
    let (key, entry) = stored.unwrap();
    assert_eq!(key, pending().key);
    assert_eq!(entry.header.url, artifact().as_str());
    let (hit, line) = match pending().looked_up(&mut stats, Some(Ok(entry))) {
        Found::Hit { response, line } => (response, line),
        _ => panic!("not served"),
    };
    assert_eq!(
        line,
        "HIT                                    10 B      0ms  GET https://static.crates.io/crates/a.crate\n"
    );
    assert_eq!(hit.status, miss.status);
    assert_eq!(hit.body, miss.body);
    assert_eq!(hit.headers["x-cicache"], "HIT");
    for name in ["content-type", "content-length", "etag"] {
        assert_eq!(hit.headers[name], miss.headers[name]);
    }
    assert_eq!(hit.headers.len(), miss.headers.len());
    assert_eq!((stats.summary().hits, stats.summary().stored), (1, 1));
}

#[test]
fn responses_that_may_not_be_stored_say_why() {
    let mut stats = Stats::default();
    let (stored, response, line) = miss(&mut stats, b"abc");
    assert!(stored.is_none());
    assert_eq!(response.body.as_ref(), b"abc".as_slice());
    assert!(line.starts_with("MISS (below min-size) "));

    let dropped = |status: u16, len: usize| {
        let reading = reading(status, &response_headers());
        match reading.read(&proxy().policy, Bytes::from(vec![0u8; len])) {
            Body::Drop { reject, .. } => Some(reject),
            Body::Store { .. } => None,
        }
    };
    assert_eq!(dropped(200, 101), Some(Reject::TooLarge));
    assert_eq!(dropped(404, 50), Some(Reject::Status));
    assert_eq!(dropped(200, 50), None);

    let reading = reading(200, &HeaderMap::new());
    match reading.read(&proxy().policy, Bytes::from_static(b"abcd")) {
        Body::Store { answering, .. } => {
            let (_, line) = answering.answer(&mut stats, Kept::Unencodable, 1).unwrap();
            assert!(line.starts_with("MISS (encode failed) "));
        }
        Body::Drop { .. } => panic!("dropped"),
    }
    assert_eq!((stats.summary().misses, stats.summary().stored), (2, 0));
}

#[test]
fn what_declares_to_be_too_large_is_streamed_past() {
    let policy = proxy().policy;
    let mut stats = Stats::default();
    for declared in [None, Some(100)] {
        let head = fetching().responded(&policy, &mut stats, 200, &response_headers(), declared, 3);
        assert!(matches!(head, Head::Read(_)));
    }
    assert_eq!(stats.summary().requests, 0);
    match fetching().responded(&policy, &mut stats, 200, &response_headers(), Some(101), 3) {
        Head::Stream { headers, line } => {
            assert!(line.starts_with("MISS (above max-size) "));
            assert_eq!(headers["x-cicache"], "MISS");
            assert_eq!(headers["content-length"], "999");
            assert!(!headers.contains_key("keep-alive"));
        }
        _ => panic!("not streamed"),
    }
    assert_eq!(stats.summary().bytes_from_network, 101);
}

fn many_headers(n: usize) -> HeaderMap {
    let mut headers = HeaderMap::new();
    for i in 0..n {
        let name = hyper::header::HeaderName::from_bytes(format!("h{i}").as_bytes()).unwrap();
        headers.append(name, "b".parse().unwrap());
    }
    headers
}

fn entry_with(n: usize) -> Entry {
    let mut entry = Entry::new_at("u", 200, &[], Bytes::new(), 0);
    entry.header.headers = (0..n).map(|n| (format!("h{n}"), "b".to_string())).collect();
    entry
}

#[test]
fn entries_with_many_headers_are_served() {
    let mut stats = Stats::default();
    match pending().looked_up(&mut stats, Some(Ok(entry_with(7000)))) {
        Found::Hit { response, .. } => assert_eq!(response.headers.len(), 7002),
        _ => panic!("not served"),
    }
    assert_eq!(stats.summary().hits, 1);
}

#[test]
fn entries_with_too_many_headers_are_fetched_again() {
    let mut stats = Stats::default();
    match pending().looked_up(&mut stats, Some(Ok(entry_with(40_000)))) {
        Found::Fetch { note, .. } => assert_eq!(
            note.unwrap(),
            "cicache: discarding entry for https://static.crates.io/crates/a.crate: too many headers"
        ),
        _ => panic!("not fetched"),
    }
    assert_eq!(stats.summary().requests, 0);
}

#[test]
fn headers_that_leave_no_room_are_reported() {
    // The most that a header map holds.
    let full = many_headers(24_576);
    let mut stats = Stats::default();
    let pending = match proxy().handle("GET", artifact(), full.clone()) {
        Handling::Lookup(pending) => pending,
        Handling::Forward(_) => panic!("forwarded"),
    };
    assert!(matches!(pending.looked_up(&mut stats, None), Found::Full));
    let policy = proxy().policy;
    let head = fetching().responded(&policy, &mut stats, 200, &full, Some(101), 3);
    assert!(matches!(head, Head::Full));
    match reading(200, &full).read(&policy, Bytes::from_static(b"0123456789")) {
        Body::Store { answering, .. } => {
            assert!(answering.answer(&mut stats, Kept::Stored, 1).is_none());
        }
        Body::Drop { .. } => panic!("dropped"),
    }
    match proxy().handle("POST", artifact(), client_headers()) {
        Handling::Forward(forwarding) => {
            assert!(forwarding.responded(&mut stats, &full, None, 1).is_none());
        }
        Handling::Lookup(_) => panic!("looked up"),
    }
    assert_eq!(stats.summary().requests, 0);
}

#[test]
fn many_headers_are_passed_on() {
    let many = many_headers(7000);
    let mut stats = Stats::default();
    match proxy().handle("GET", artifact(), many.clone()) {
        Handling::Lookup(pending) => match pending.looked_up(&mut stats, None) {
            Found::Fetch { fetching, .. } => assert_eq!(fetching.headers.len(), 7001),
            _ => panic!("not fetched"),
        },
        Handling::Forward(_) => panic!("forwarded"),
    }
    match proxy().handle("POST", artifact(), client_headers()) {
        Handling::Forward(forwarding) => {
            let (headers, _) = forwarding.responded(&mut stats, &many, None, 1).unwrap();
            assert_eq!(headers.len(), 7001);
        }
        Handling::Lookup(_) => panic!("looked up"),
    }
}

use bytes::Bytes;
use cicache::entry::Entry;
use cicache::headers::sanitize;
use cicache::policy::Policy;
use cicache::proxy::{
    absolute_url, bad_request, build, control, dispatch, failed, redirect_limit, replay,
    stream_headers, target, tunnelled, upstream_headers, Cache, Control, Proxy, Route, Tunnel,
};
use cicache::stats::Stats;
use cicache::url::Url;
use hyper::header::{HeaderMap, HeaderValue};

fn proxy() -> Proxy {
    let policy = Policy {
        min_size: 4,
        max_size: 100,
        min_max_age: 3600,
        cache_all: false,
        cache_authorized: false,
        extra_bypass: vec!["pinned.example".to_string()],
        key_prefix: "p".to_string(),
    };
    Proxy::new(policy, vec![443, 8443])
}

fn client_headers() -> HeaderMap {
    let mut headers = HeaderMap::new();
    headers.append("host", "static.crates.io".parse().unwrap());
    headers.append("accept-encoding", "gzip".parse().unwrap());
    headers.append("accept-encoding", "br".parse().unwrap());
    headers.append("proxy-connection", "keep-alive".parse().unwrap());
    headers.append("user-agent", "cargo".parse().unwrap());
    headers
}

fn upstream_response() -> HeaderMap {
    let mut headers = HeaderMap::new();
    headers.append("content-type", "application/gzip".parse().unwrap());
    headers.append("content-length", "999".parse().unwrap());
    headers.append("etag", "\"x\"".parse().unwrap());
    headers.append("keep-alive", "timeout=5".parse().unwrap());
    headers
}

#[test]
fn requests_are_routed() {
    assert_eq!(dispatch("CONNECT", true, false), Route::Connect);
    assert_eq!(dispatch("CONNECT", false, false), Route::Connect);
    assert_eq!(dispatch("GET", false, false), Route::Control);
    assert_eq!(dispatch("GET", true, false), Route::Upstream);
    assert_eq!(dispatch("CONNECT", true, true), Route::Upstream);
    assert_eq!(dispatch("GET", false, true), Route::Upstream);
}

#[test]
fn control_endpoints_answer() {
    let answer = |path: &str| control(path).answer().map(|m| (m.status, m.body));
    assert_eq!(answer("/__cicache/ping"), Some((200, "ok\n".to_string())));
    assert_eq!(answer("/__cicache/shutdown"), Some((200, "shutting down\n".to_string())));
    assert_eq!(answer("/"), Some((404, "unknown control endpoint\n".to_string())));
    assert_eq!(answer("/__cicache/stats"), None);
    assert_eq!(control("/__cicache/stats"), Control::Stats);
    assert_eq!(control("/__cicache/shutdown"), Control::Shutdown);
}

#[test]
fn messages_end_in_a_line_feed() {
    let m = bad_request("CONNECT without authority");
    assert_eq!((m.status, m.body.as_str()), (400, "CONNECT without authority\n"));
    let mut stats = Stats::default();
    let url = Url::parse("https://a.example/x").unwrap();
    let (m, line) = failed(&mut stats, &url, "no route");
    assert_eq!((m.status, m.body.as_str()), (502, "no route\n"));
    assert_eq!(
        line,
        "ERROR (no route)                        0 B      0ms  GET https://a.example/x\n"
    );
    assert_eq!(stats.summary().errors, 1);
}

#[test]
fn blind_tunnels_are_counted_as_passed_through() {
    let mut stats = Stats::default();
    assert_eq!(
        tunnelled(&mut stats, "a.example", 22, "tunnelled port"),
        "PASS (tunnelled port)                   0 B      0ms  CONNECT a.example:22\n"
    );
    assert_eq!((stats.summary().requests, stats.summary().passthrough), (1, 1));
}

#[test]
fn tunnels_are_decrypted_by_port_unless_bypassed() {
    let proxy = proxy();
    assert!(matches!(proxy.connect(None), Tunnel::Refuse));
    match proxy.connect(Some(("a.example".to_string(), None))) {
        Tunnel::Intercept { host, port, authority } => {
            assert_eq!((host.as_str(), port, authority.as_str()), ("a.example", 443, "a.example"));
        }
        other => panic!("{other:?}"),
    }
    match proxy.connect(Some(("a.example".to_string(), Some(8443)))) {
        Tunnel::Intercept { authority, .. } => assert_eq!(authority, "a.example:8443"),
        other => panic!("{other:?}"),
    }
    match proxy.connect(Some(("a.example".to_string(), Some(22)))) {
        Tunnel::Blind { host, port, reason } => {
            assert_eq!((host.as_str(), port, reason), ("a.example", 22, "tunnelled port"));
        }
        other => panic!("{other:?}"),
    }
    for host in ["db.pinned.example", "[::1]", "x.blob.core.windows.net"] {
        match proxy.connect(Some((host.to_string(), Some(443)))) {
            Tunnel::Blind { reason, .. } => assert_eq!(reason, "bypassed host"),
            other => panic!("{other:?}"),
        }
    }
    assert_eq!(target("a.example", 22), "a.example:22");
}

#[test]
fn urls_are_completed_from_the_tunnel() {
    let url = absolute_url("/a?b", Some("/a?b"), Some("x.example:8443")).unwrap();
    assert_eq!(url.as_str(), "https://x.example:8443/a?b");
    let url = absolute_url("*", None, Some("x.example")).unwrap();
    assert_eq!(url.as_str(), "https://x.example/");
    let url = absolute_url("http://x.example/c", Some("/c"), None).unwrap();
    assert_eq!(url.as_str(), "http://x.example/c");
    assert_eq!(
        absolute_url("x.example", None, None).err().unwrap(),
        "unparsable request URI: relative URL without a base"
    );
    assert_eq!(
        absolute_url("/", Some("/"), Some("")).err().unwrap(),
        "empty host"
    );
}

#[test]
fn upstream_requests_ask_for_the_body_as_it_is() {
    let headers = upstream_headers(&client_headers()).unwrap();
    let encodings: Vec<&HeaderValue> = headers.get_all("accept-encoding").iter().collect();
    assert_eq!(encodings, ["identity"]);
    assert_eq!(headers["user-agent"], "cargo");
    assert_eq!(headers.len(), 2);
}

#[test]
fn responses_carry_their_length_and_their_tag() {
    let body = Bytes::from_static(b"12345");
    let response = build(203, sanitize(&upstream_response()), body, Cache::Miss).unwrap();
    assert_eq!(response.status, 203);
    assert_eq!(response.headers["content-length"], "5");
    assert_eq!(response.headers["x-cicache"], "MISS");
    assert_eq!(response.headers["etag"], "\"x\"");
    assert_eq!(response.headers.len(), 4);
    assert_eq!(response.body.as_ref(), b"12345".as_slice());

    let headers = stream_headers(&upstream_response(), Cache::Pass).unwrap();
    assert_eq!(headers["content-length"], "999");
    assert_eq!(headers["x-cicache"], "PASS");
    assert!(!headers.contains_key("keep-alive"));
}

#[test]
fn statuses_that_are_none_are_replayed_as_success() {
    for (status, expected) in [(200, 200), (99, 200), (100, 100), (999, 999), (1000, 200), (0, 200)] {
        let entry = Entry::new_at("u", status, &[], Bytes::new(), 0);
        assert_eq!(replay(entry).unwrap().status, expected);
    }
}

#[test]
fn headers_are_added_as_long_as_there_is_room() {
    let mut headers = HeaderMap::new();
    for n in 0..24_575 {
        let name = hyper::header::HeaderName::from_bytes(format!("h{n}").as_bytes()).unwrap();
        headers.append(name, "x".parse().unwrap());
    }
    assert_eq!(stream_headers(&headers, Cache::Pass).unwrap().len(), 24_576);
    assert_eq!(upstream_headers(&headers).unwrap().len(), 24_576);
    assert!(build(200, headers.clone(), Bytes::new(), Cache::Miss).is_none());
    headers.append("one-more", "x".parse().unwrap());
    assert!(stream_headers(&headers, Cache::Pass).is_none());
    assert!(upstream_headers(&headers).is_none());
}

#[test]
fn redirects_are_followed_on_request() {
    assert_eq!(redirect_limit(true), 10);
    assert_eq!(redirect_limit(false), 0);
}

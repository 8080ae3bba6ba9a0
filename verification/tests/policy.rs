use cicache::policy::{host_matches, is_immutable_artifact, is_signed_url, max_age, Policy, Reject};
use cicache::url::Url;
use hyper::header::HeaderMap;
use sha2::Digest;

fn policy() -> Policy {
    Policy {
        min_size: 1024,
        max_size: 1 << 20,
        min_max_age: 3600,
        cache_all: false,
        cache_authorized: false,
        extra_bypass: vec!["internal.example".into()],
        key_prefix: "t".into(),
    }
}

fn url(s: &str) -> Url {
    Url::parse(s).unwrap()
}

fn with(name: &'static str, value: &str) -> HeaderMap {
    let mut headers = HeaderMap::new();
    headers.insert(name, value.parse().unwrap());
    headers
}

#[test]
fn subdomains_match_but_suffixes_do_not() {
    assert!(host_matches("a.b.example.com", "example.com"));
    assert!(host_matches("example.com", "example.com"));
    assert!(!host_matches("notexample.com", "example.com"));
    assert!(!host_matches("com", "example.com"));
}

#[test]
fn cache_service_and_configured_hosts_are_bypassed() {
    let policy = policy();
    assert!(policy.is_bypassed("results-receiver.actions.githubusercontent.com"));
    assert!(policy.is_bypassed("x.blob.core.windows.net"));
    assert!(policy.is_bypassed("build.internal.example"));
    assert!(!policy.is_bypassed("registry.npmjs.org"));
}

#[test]
fn pre_signed_urls_are_never_eligible() {
    let policy = policy();
    let signed = url("https://objects.githubusercontent.com/x?X-Amz-Signature=abc");
    let plain = url("https://objects.githubusercontent.com/x");
    let headers = HeaderMap::new();
    assert_eq!(
        policy.request_eligible("GET", &signed, &headers),
        Err(Reject::SignedUrl)
    );
    assert!(policy.request_eligible("GET", &plain, &headers).is_ok());
}

#[test]
fn credentialed_requests_are_not_cached_by_default() {
    let mut headers = HeaderMap::new();
    headers.insert(hyper::header::AUTHORIZATION, "Bearer x".parse().unwrap());
    let target = url("https://registry.npmjs.org/a/-/a-1.tgz");
    assert_eq!(
        policy().request_eligible("GET", &target, &headers),
        Err(Reject::Authorized)
    );
    let permissive = Policy {
        cache_authorized: true,
        ..policy()
    };
    assert!(permissive
        .request_eligible("GET", &target, &headers)
        .is_ok());
}

#[test]
fn mutable_metadata_is_rejected_but_artifacts_are_stored() {
    let policy = policy();
    let headers = HeaderMap::new();
    let index = url("https://pypi.org/simple/requests/");
    assert_eq!(
        policy.response_storable(&index, 200, &headers, 4096),
        Err(Reject::NotImmutable)
    );

    let tarball = url("https://registry.npmjs.org/lodash/-/lodash-4.17.21.tgz");
    assert!(policy
        .response_storable(&tarball, 200, &headers, 4096)
        .is_ok());

    let mut long_lived = HeaderMap::new();
    long_lived.insert(
        hyper::header::CACHE_CONTROL,
        "public, max-age=31536000".parse().unwrap(),
    );
    assert!(policy
        .response_storable(&index, 200, &long_lived, 4096)
        .is_ok());
}

#[test]
fn size_bounds_and_no_store_are_enforced() {
    let policy = policy();
    let target = url("https://registry.npmjs.org/a/-/a-1.tgz");
    let headers = HeaderMap::new();
    assert_eq!(
        policy.response_storable(&target, 200, &headers, 10),
        Err(Reject::TooSmall)
    );
    assert_eq!(
        policy.response_storable(&target, 200, &headers, 1 << 30),
        Err(Reject::TooLarge)
    );
    assert_eq!(
        policy.response_storable(&target, 302, &headers, 4096),
        Err(Reject::Status)
    );

    let mut private = HeaderMap::new();
    private.insert(
        hyper::header::CACHE_CONTROL,
        "private, no-store".parse().unwrap(),
    );
    assert_eq!(
        policy.response_storable(&target, 200, &private, 4096),
        Err(Reject::NoStore)
    );
}

#[test]
fn keys_ignore_default_ports_and_fragments() {
    let policy = policy();
    assert_eq!(
        policy.key(&url("https://example.com:443/a#frag")),
        policy.key(&url("https://example.com/a"))
    );
    assert_ne!(
        policy.key(&url("https://example.com/a")),
        policy.key(&url("https://example.com/b"))
    );
}

#[test]
fn a_key_is_the_digest_of_the_method_and_the_canonical_url() {
    let expected = hex::encode(sha2::Sha256::digest(b"GET\nhttps://example.com/a?b=c"));
    let key = policy().key(&url("https://example.com:443/a?b=c#d"));
    assert_eq!(key, format!("t-{expected}"));
    assert_eq!(key.len(), 66);
    assert!(!key.contains(','));
}

#[test]
fn other_prefixes_give_other_keys() {
    let other = Policy {
        key_prefix: "u".into(),
        ..policy()
    };
    let target = url("https://example.com/a");
    assert_ne!(policy().key(&target), other.key(&target));
}

#[test]
fn only_get_is_eligible() {
    let target = url("https://registry.npmjs.org/a/-/a-1.tgz");
    for method in ["POST", "HEAD", "get", ""] {
        assert_eq!(
            policy().request_eligible(method, &target, &HeaderMap::new()),
            Err(Reject::NotGet)
        );
    }
}

#[test]
fn bypassed_hosts_are_not_eligible() {
    for host in ["localhost", "127.0.0.1", "[::1]", "169.254.169.254", "a.internal.example"] {
        let target = url(&format!("http://{host}/x"));
        assert_eq!(
            policy().request_eligible("GET", &target, &HeaderMap::new()),
            Err(Reject::BypassHost)
        );
    }
}

#[test]
fn cookies_are_credentials() {
    let target = url("https://example.com/x");
    assert_eq!(
        policy().request_eligible("GET", &target, &with("cookie", "a=b")),
        Err(Reject::Authorized)
    );
}

#[test]
fn signatures_are_found_whatever_their_case_and_encoding() {
    assert!(is_signed_url(&url("https://a.example/?x=1&SIG=2")));
    assert!(is_signed_url(&url("https://a.example/?s%69g=2")));
    assert!(!is_signed_url(&url("https://a.example/?x=sig")));
    assert!(!is_signed_url(&url("https://a.example/sig")));
}

#[test]
fn artifact_shapes_need_the_host_and_the_path() {
    assert!(is_immutable_artifact(&url("https://index.crates.io/se/rd/serde")));
    assert!(is_immutable_artifact(&url("https://github.com/o/r/releases/download/v1/x")));
    assert!(!is_immutable_artifact(&url("https://github.com/o/r/info/refs")));
    assert!(!is_immutable_artifact(&url("https://mygithub.com/o/r/releases/download/v1/x")));
    assert!(is_immutable_artifact(&url("http://azure.archive.ubuntu.com/pool/a.deb")));
}

#[test]
fn the_first_max_age_counts() {
    assert_eq!(max_age("public, max-age=60"), Some(60));
    assert_eq!(max_age("max-age=x, max-age=60"), None);
    assert_eq!(max_age(" max-age=+7 ,max-age=60"), Some(7));
    assert_eq!(max_age("s-maxage=60"), None);
    assert_eq!(max_age("max-age=18446744073709551615"), Some(u64::MAX));
    assert_eq!(max_age("max-age=18446744073709551616"), None);
}

#[test]
fn freshness_is_read_whatever_its_case() {
    let index = url("https://pypi.org/simple/requests/");
    let p = policy();
    assert!(p.response_storable(&index, 200, &with("cache-control", "IMMUTABLE"), 4096).is_ok());
    assert!(p.response_storable(&index, 200, &with("cache-control", "Max-Age=3600"), 4096).is_ok());
    assert_eq!(
        p.response_storable(&index, 200, &with("cache-control", "max-age=3599"), 4096),
        Err(Reject::NotImmutable)
    );
    assert_eq!(
        p.response_storable(&index, 200, &with("cache-control", "No-Cache"), 4096),
        Err(Reject::NoStore)
    );
}

#[test]
fn a_no_store_on_any_line_forbids_storing() {
    let target = url("https://registry.npmjs.org/a/-/a-1.tgz");
    for word in ["no-store", "No-Cache", "x, PRIVATE"] {
        let mut headers = HeaderMap::new();
        headers.append(hyper::header::CACHE_CONTROL, "max-age=31536000".parse().unwrap());
        headers.append(hyper::header::CACHE_CONTROL, word.parse().unwrap());
        assert_eq!(
            policy().response_storable(&target, 200, &headers, 4096),
            Err(Reject::NoStore)
        );
    }
    let mut headers = HeaderMap::new();
    headers.append("cache-control", "max-age=31536000".parse().unwrap());
    headers.append("cache-control", "public".parse().unwrap());
    assert!(policy().response_storable(&target, 200, &headers, 4096).is_ok());
}

#[test]
fn a_line_that_is_not_text_may_forbid_but_not_allow() {
    let odd = |value: &[u8]| {
        let mut headers = HeaderMap::new();
        headers.insert("cache-control", hyper::header::HeaderValue::from_bytes(value).unwrap());
        headers
    };
    let tarball = url("https://registry.npmjs.org/lodash/-/lodash-4.17.21.tgz");
    let index = url("https://pypi.org/simple/requests/");
    assert_eq!(
        policy().response_storable(&tarball, 200, &odd(b"No-Store \xff"), 4096),
        Err(Reject::NoStore)
    );
    assert!(policy().response_storable(&tarball, 200, &odd(b"x \xff"), 4096).is_ok());
    assert_eq!(
        policy().response_storable(&index, 200, &odd(b"immutable \xff"), 4096),
        Err(Reject::NotImmutable)
    );
}

#[test]
fn sizes_are_inclusive_and_cache_all_skips_only_freshness() {
    let index = url("https://pypi.org/simple/requests/");
    let all = Policy {
        cache_all: true,
        ..policy()
    };
    let none = HeaderMap::new();
    assert!(all.response_storable(&index, 200, &none, 1024).is_ok());
    assert!(all.response_storable(&index, 200, &none, 1 << 20).is_ok());
    assert_eq!(all.response_storable(&index, 200, &none, 1023), Err(Reject::TooSmall));
    assert_eq!(all.response_storable(&index, 404, &none, 1024), Err(Reject::Status));
    assert_eq!(
        all.response_storable(&index, 200, &with("cache-control", "no-store"), 1024),
        Err(Reject::NoStore)
    );
}

#[test]
fn every_reason_has_its_words() {
    let words = [
        (Reject::NotGet, "not a GET"),
        (Reject::BypassHost, "bypassed host"),
        (Reject::Authorized, "authenticated request"),
        (Reject::SignedUrl, "pre-signed URL"),
        (Reject::Status, "non-200 status"),
        (Reject::NoStore, "no-store/no-cache/private"),
        (Reject::TooSmall, "below min-size"),
        (Reject::TooLarge, "above max-size"),
        (Reject::NotImmutable, "no immutability signal"),
    ];
    for (reject, expected) in words {
        assert_eq!(reject.as_str(), expected);
    }
}

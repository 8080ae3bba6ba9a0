use bytes::Bytes;
use cicache::gha::{
    index_prefix, packed_prefix, size_bytes, stamped_key, transferred, Answer, Blob, Call, Ending, GhaCache, Reply,
    Step, Transfer,
};

fn cache() -> GhaCache {
    GhaCache::from_env(Some("https://results.example".to_string()), Some("secret".to_string())).unwrap()
}

fn agrees(signed_url: &str) -> Reply {
    Reply::Answered {
        status: 200,
        text: "{}".to_string(),
        answer: Ok(Answer {
            ok: true,
            signed_url: signed_url.to_string(),
        }),
    }
}

fn declines() -> Reply {
    Reply::Answered {
        status: 200,
        text: "{}".to_string(),
        answer: Ok(Answer {
            ok: false,
            signed_url: "https://blob.example/x".to_string(),
        }),
    }
}

fn call(step: Step) -> Call {
    match step {
        Step::Call(call) => call,
        other => panic!("{other:?}"),
    }
}

fn transfer(step: Step) -> Transfer {
    match step {
        Step::Transfer(transfer) => transfer,
        other => panic!("{other:?}"),
    }
}

fn ending(step: Step) -> Ending {
    match step {
        Step::Done(ending) => ending,
        other => panic!("{other:?}"),
    }
}

fn failure(step: Step) -> String {
    match ending(step) {
        Ending::Failed(message) => message,
        other => panic!("{other:?}"),
    }
}

#[test]
fn a_client_needs_an_address_and_a_token() {
    let some = |s: &str| Some(s.to_string());
    assert!(GhaCache::from_env(None, some("t")).is_none());
    assert!(GhaCache::from_env(some("b"), None).is_none());
    assert!(GhaCache::from_env(some(""), some("t")).is_none());
    assert!(GhaCache::from_env(some("b"), some("")).is_none());
    assert!(GhaCache::from_env(some("b"), some("t")).is_some());
}

#[test]
fn calls_go_to_the_service() {
    let plain = cache();
    let ended = GhaCache::from_env(Some("https://results.example/".to_string()), Some("secret".to_string())).unwrap();
    let ask = call(plain.get("k"));
    let expected = "https://results.example/twirp/github.actions.results.api.v1.CacheService/GetCacheEntryDownloadURL";
    assert_eq!(plain.call_url(&ask), expected);
    assert_eq!(ended.call_url(&ask), expected);
    assert_eq!(plain.token(), "secret");
    assert_eq!(
        plain.version(),
        "84f1cd9cbd3fa0e8d5e3fb0b999f6bb2cb968187defd209402a11da6774a8025"
    );
}

#[test]
fn objects_are_fetched_in_two_steps() {
    let mut cache = cache();
    let ask = call(cache.get("k"));
    match &ask {
        Call::Download { key, restore_keys } => {
            assert_eq!(key, "k");
            assert!(restore_keys.is_empty());
        }
        other => panic!("{other:?}"),
    }
    let (step, note) = cache.answered(ask, agrees("https://blob.example/x"));
    assert!(note.is_none());
    let get = transfer(step);
    match &get {
        Transfer::Download { key, url } => {
            assert_eq!((key.as_str(), url.as_str()), ("k", "https://blob.example/x"));
        }
        other => panic!("{other:?}"),
    }
    let blob = Blob::Answered {
        status: 200,
        body: Ok(Bytes::from_static(b"body")),
    };
    match ending(transferred(get, blob)) {
        Ending::Found(bytes) => assert_eq!(bytes.as_ref(), b"body".as_slice()),
        other => panic!("{other:?}"),
    }
}

#[test]
fn an_object_that_is_not_offered_is_missing() {
    let mut cache = cache();
    for reply in [agrees(""), declines()] {
        let ask = call(cache.get("k"));
        let (step, note) = cache.answered(ask, reply);
        assert!(note.is_none());
        assert!(matches!(ending(step), Ending::Missing));
    }
}

#[test]
fn downloads_that_fail_are_not_plain_misses() {
    let get = || Transfer::Download {
        key: "k".to_string(),
        url: "u".to_string(),
    };
    assert_eq!(
        failure(transferred(get(), Blob::Unreached("reset".to_string()))),
        "downloading cache blob: reset"
    );
    let refused = Blob::Answered {
        status: 404,
        body: Ok(Bytes::new()),
    };
    assert_eq!(
        failure(transferred(get(), refused)),
        "download for k returned 404 Not Found despite the service offering it"
    );
    let broken = Blob::Answered {
        status: 206,
        body: Err("cut".to_string()),
    };
    assert_eq!(failure(transferred(get(), broken)), "reading cache blob: cut");
}

#[test]
fn objects_are_stored_in_three_steps() {
    let mut cache = cache();
    let create = call(cache.put("k", 10));
    assert_eq!(create.method(), "CreateCacheEntry");
    let (step, _) = cache.answered(create, agrees("https://blob.example/x"));
    let put = transfer(step);
    assert!(matches!(&put, Transfer::Upload { key, len: 10, .. } if key == "k"));
    let finalize = call(transferred(
        put,
        Blob::Answered {
            status: 201,
            body: Ok(Bytes::new()),
        },
    ));
    assert_eq!(finalize.method(), "FinalizeCacheEntryUpload");
    assert!(matches!(&finalize, Call::Finalize { key, len: 10 } if key == "k"));
    let (step, _) = cache.answered(finalize, agrees(""));
    assert!(matches!(ending(step), Ending::Stored));
}

#[test]
fn only_a_declined_reservation_is_declined() {
    let mut cache = cache();
    for reply in [agrees(""), declines()] {
        let create = call(cache.put("k", 1));
        let (step, _) = cache.answered(create, reply);
        assert!(matches!(ending(step), Ending::Declined));
    }
    let finalize = Call::Finalize {
        key: "k".to_string(),
        len: 1,
    };
    let (step, _) = cache.answered(finalize, declines());
    assert!(matches!(ending(step), Ending::Unconfirmed));
}

#[test]
fn uploads_that_fail_say_why() {
    let put = || Transfer::Upload {
        key: "k".to_string(),
        url: "u".to_string(),
        len: 1,
    };
    assert_eq!(
        failure(transferred(put(), Blob::Unreached("reset".to_string()))),
        "uploading cache blob: reset"
    );
    let refused = Blob::Answered {
        status: 799,
        body: Ok(Bytes::new()),
    };
    assert_eq!(
        failure(transferred(put(), refused)),
        "blob upload returned 799 <unknown status code>"
    );
}

#[test]
fn calls_that_fail_say_why() {
    let mut cache = cache();
    let ask = call(cache.get("k"));
    let (step, _) = cache.answered(ask, Reply::Unreached("no route".to_string()));
    assert_eq!(failure(step), "calling GetCacheEntryDownloadURL: no route");

    let ask = call(cache.get("k"));
    let reply = Reply::Answered {
        status: 500,
        text: "oops".to_string(),
        answer: Err("unused".to_string()),
    };
    let (step, note) = cache.answered(ask, reply);
    assert_eq!(
        failure(step),
        "GetCacheEntryDownloadURL returned 500 Internal Server Error: oops"
    );
    assert!(note.is_none());
    assert!(!cache.is_exhausted());

    let create = call(cache.put("k", 1));
    let reply = Reply::Answered {
        status: 200,
        text: "<html>".to_string(),
        answer: Err("expected value".to_string()),
    };
    let (step, _) = cache.answered(create, reply);
    assert_eq!(
        failure(step),
        "decoding CreateCacheEntry response: <html>: expected value"
    );
}

#[test]
fn an_exhausted_service_is_left_alone() {
    let mut cache = cache();
    let refused = || Reply::Answered {
        status: 429,
        text: "slow down".to_string(),
        answer: Err("unused".to_string()),
    };
    let first = call(cache.get("a"));
    let second = call(cache.get("b"));
    let (step, note) = cache.answered(first, refused());
    assert_eq!(
        failure(step),
        "GetCacheEntryDownloadURL returned 429 Too Many Requests: slow down"
    );
    assert_eq!(
        note.unwrap(),
        "cicache: the cache service is rate limiting this job; giving up on it for the rest of the run."
    );
    let (step, note) = cache.answered(second, refused());
    assert!(failure(step).starts_with("GetCacheEntryDownloadURL returned 429"));
    assert!(note.is_none());
    assert!(cache.is_exhausted());
    assert!(matches!(ending(cache.get("k")), Ending::Missing));
    assert!(matches!(ending(cache.get_index("p")), Ending::Missing));
    assert!(matches!(ending(cache.get_pack("p")), Ending::Missing));
    assert!(matches!(ending(cache.put_pack("p", 1, None, None)), Ending::Unconfirmed));
    assert!(matches!(ending(cache.put("k", 1)), Ending::Unconfirmed));
    assert!(matches!(ending(cache.put_index("p", 1, None, None)), Ending::Unconfirmed));
}

#[test]
fn manifests_are_found_by_prefix() {
    let cache = cache();
    match call(cache.get_index("cicache-v1")) {
        Call::Download { key, restore_keys } => {
            assert_eq!(key, "cicache-v1-index-");
            assert_eq!(restore_keys, ["cicache-v1-index-"]);
        }
        other => panic!("{other:?}"),
    }
    match call(cache.put_index("cicache-v1", 5, Some("77"), Some("build"))) {
        Call::Create { key, len } => {
            assert!(key.starts_with("cicache-v1-index-1"));
            assert!(key.ends_with("-77-build"));
            assert_eq!(len, 5);
        }
        other => panic!("{other:?}"),
    }
    assert_eq!(index_prefix("p"), "p-index-");
    assert_eq!(stamped_key("p-index-", 12, None, None), "p-index-12-local-job");
    assert_eq!(stamped_key("p-index-", 12, Some("r"), Some("j")), "p-index-12-r-j");
    assert_eq!(size_bytes(u64::MAX), "18446744073709551615");
}

#[test]
fn packs_are_found_by_prefix() {
    let cache = cache();
    match call(cache.get_pack("cicache-v1")) {
        Call::Download { key, restore_keys } => {
            assert_eq!(key, "cicache-v1-pack-");
            assert_eq!(restore_keys, ["cicache-v1-pack-"]);
        }
        other => panic!("{other:?}"),
    }
    match call(cache.put_pack("cicache-v1", 5, None, Some("build"))) {
        Call::Create { key, len } => {
            assert!(key.starts_with("cicache-v1-pack-1"));
            assert!(key.ends_with("-local-build"));
            assert_eq!(len, 5);
        }
        other => panic!("{other:?}"),
    }
    assert_eq!(packed_prefix("p"), "p-pack-");
}

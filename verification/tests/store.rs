use bytes::Bytes;
use cicache::gha::Ending;
use cicache::pack;
use cicache::policy::Policy;
use cicache::stats::Stats;
use cicache::store::{flush_note, manifest_note, parcel_uploaded, permits, Lookup, Put, Store};
use cicache::url::Url;

fn remote() -> Store {
    Store::new(true, "p".to_string(), 0)
}

fn manifest(store: &mut Store) -> Option<(String, usize)> {
    store
        .save_index(&Ending::Missing)
        .map(|m| (String::from_utf8(m.body.to_vec()).unwrap(), m.count))
}

#[test]
fn the_manifest_is_read_line_by_line() {
    let mut store = remote();
    assert_eq!(store.key_prefix(), "p");
    let note = store.load_index(&Ending::Found(Bytes::from_static(b"k1\n\n  \nk2\r\nk1\nk\xff\n")));
    assert_eq!(note.unwrap(), "cicache: cache holds 3 objects");
    for key in ["k1", "k2", "k\u{fffd}"] {
        assert!(matches!(store.get(key, None), Lookup::Ask));
    }
    for key in ["", "  ", "k2\r", "k3"] {
        assert!(matches!(store.get(key, None), Lookup::Absent));
    }
    assert!(manifest(&mut store).is_none());
}

#[test]
fn a_missing_manifest_is_noted() {
    assert_eq!(
        remote().load_index(&Ending::Missing).unwrap(),
        "cicache: no manifest yet; this run will build one"
    );
    assert_eq!(
        remote().load_index(&Ending::Failed("boom".to_string())).unwrap(),
        "cicache: could not read the manifest: boom"
    );
}

#[test]
fn without_a_service_nothing_is_asked() {
    let mut store = Store::new(false, "p".to_string(), 100);
    assert!(store.load_index(&Ending::Found(Bytes::from_static(b"k"))).is_none());
    assert!(matches!(store.get("k", None), Lookup::Absent));
    assert_eq!(store.put("k", &Bytes::from_static(b"body")), Put::Keep);
    assert_eq!(store.put("k", &Bytes::from_static(b"body")), Put::Skip);
    assert!(manifest(&mut store).is_none());
}

#[test]
fn local_objects_come_first() {
    let store = remote();
    match store.get("k", Some(Bytes::from_static(b"x"))) {
        Lookup::Found(bytes) => assert_eq!(bytes.as_ref(), b"x".as_slice()),
        _ => panic!("not found"),
    }
}

#[test]
fn known_misses_are_not_asked_for_again() {
    let mut store = remote();
    store.load_index(&Ending::Found(Bytes::from_static(b"a\nb\nc")));
    let (found, note) = store.asked("a", Ending::Missing);
    assert!(found.is_none() && note.is_none());
    let (found, note) = store.asked("b", Ending::Failed("timeout".to_string()));
    assert!(found.is_none());
    assert_eq!(note.unwrap(), "cicache: cache lookup for b failed: timeout");
    let (found, note) = store.asked("c", Ending::Found(Bytes::from_static(b"body")));
    assert_eq!(found.unwrap().as_ref(), b"body".as_slice());
    assert!(note.is_none());
    assert!(matches!(store.get("a", None), Lookup::Absent));
    assert!(matches!(store.get("b", None), Lookup::Absent));
    assert!(matches!(store.get("c", None), Lookup::Ask));
}

#[test]
fn objects_are_queued_once_and_not_after_the_queue_is_closed() {
    let mut store = remote();
    assert_eq!(store.put("a", &Bytes::from_static(b"body")), Put::Queue);
    assert_eq!(store.put("a", &Bytes::from_static(b"body")), Put::Skip);
    assert!(store.flush(&Ending::Missing).is_none());
    assert_eq!(store.put("b", &Bytes::from_static(b"body")), Put::Keep);
    assert_eq!(store.put("b", &Bytes::from_static(b"body")), Put::Skip);
}

#[test]
fn the_manifest_lists_what_was_read_and_what_was_confirmed() {
    let mut store = remote();
    let mut stats = Stats::default();
    store.load_index(&Ending::Found(Bytes::from_static(b"m\nz")));
    assert!(store.uploaded(&mut stats, "m".to_string(), 1, Ending::Stored).is_none());
    assert!(manifest(&mut store).is_none());
    assert!(store.uploaded(&mut stats, "b".to_string(), 10, Ending::Stored).is_none());
    assert!(store.uploaded(&mut stats, "a".to_string(), 20, Ending::Declined).is_none());
    let note = store.uploaded(&mut stats, "c".to_string(), 30, Ending::Unconfirmed);
    assert_eq!(
        note.unwrap(),
        "cicache: storing c failed: the cache service did not accept it"
    );
    let note = store.uploaded(&mut stats, "d".to_string(), 40, Ending::Failed("refused".to_string()));
    assert_eq!(note.unwrap(), "cicache: storing d failed: refused");
    assert_eq!(manifest(&mut store).unwrap(), ("a\nb\nm\nz".to_string(), 4));

    let summary = stats.summary();
    assert_eq!((summary.entries_stored, summary.bytes_uploaded), (2, 11));
    assert_eq!(summary.uploads_failed, 2);
    assert_eq!(flush_note(&summary).unwrap(), "cicache: uploaded 2 entries, 2 failed");
    assert!(flush_note(&Stats::default().summary()).is_none());
}

#[test]
fn a_manifest_reads_back() {
    let mut store = remote();
    let mut stats = Stats::default();
    let keys = ["t-0b", "t-0a", "u", "\u{e9}", "t", "T", "t-"];
    for key in keys {
        store.uploaded(&mut stats, key.to_string(), 0, Ending::Declined);
    }
    let body = store.save_index(&Ending::Missing).unwrap().body;
    assert_eq!(body.as_ref(), "T\nt\nt-\nt-0a\nt-0b\nu\n\u{e9}".as_bytes());
    let mut later = remote();
    assert_eq!(
        later.load_index(&Ending::Found(body)).unwrap(),
        "cicache: cache holds 7 objects"
    );
    for key in keys {
        assert!(matches!(later.get(key, None), Lookup::Ask));
    }
}

#[test]
fn large_manifests_are_in_order() {
    let mut store = remote();
    let mut stats = Stats::default();
    let mut expected = vec![];
    for n in 0..2000u64 {
        let key = format!("k{}", n.wrapping_mul(0x9e3779b97f4a7c15));
        expected.push(key.clone());
        store.uploaded(&mut stats, key, 0, Ending::Stored);
    }
    expected.sort();
    expected.dedup();
    let (text, count) = manifest(&mut store).unwrap();
    assert_eq!(count, expected.len());
    assert_eq!(text, expected.join("\n"));
}

#[test]
fn writing_the_manifest_is_noted() {
    assert_eq!(
        manifest_note(3, &Ending::Stored).unwrap(),
        "cicache: manifest now lists 3 objects"
    );
    assert!(manifest_note(3, &Ending::Declined).is_none());
    assert!(manifest_note(3, &Ending::Unconfirmed).is_none());
    assert_eq!(
        manifest_note(3, &Ending::Failed("x".to_string())).unwrap(),
        "cicache: could not write the manifest: x"
    );
}

#[test]
fn at_least_one_upload_runs() {
    assert_eq!(permits(0), 1);
    assert_eq!(permits(1), 1);
    assert_eq!(permits(8), 8);
}

#[test]
fn keys_of_a_policy_can_be_listed() {
    let policy = Policy {
        min_size: 0,
        max_size: 0,
        min_max_age: 0,
        cache_all: false,
        cache_authorized: false,
        extra_bypass: vec![],
        key_prefix: "cicache-v1".to_string(),
    };
    let mut store = remote();
    let mut stats = Stats::default();
    let keys: Vec<String> = ["https://a.example/1", "https://a.example/2"]
        .iter()
        .map(|url| policy.key(&Url::parse(url).unwrap()))
        .collect();
    for key in &keys {
        store.uploaded(&mut stats, key.clone(), 1, Ending::Stored);
    }
    let mut later = remote();
    later.load_index(&Ending::Found(store.save_index(&Ending::Missing).unwrap().body));
    for key in &keys {
        assert!(matches!(later.get(key, None), Lookup::Ask));
    }
}

#[test]
fn what_is_learned_of_one_key_says_nothing_of_another() {
    let mut store = remote();
    let mut stats = Stats::default();
    store.load_index(&Ending::Found(Bytes::from_static(b"a\nb")));
    store.asked("a", Ending::Missing);
    store.put("a", &Bytes::from_static(b"body"));
    store.uploaded(&mut stats, "a".to_string(), 1, Ending::Stored);
    assert!(matches!(store.get("b", None), Lookup::Ask));
    assert!(matches!(store.get("c", None), Lookup::Absent));
    assert_eq!(store.put("b", &Bytes::from_static(b"body")), Put::Queue);
}

fn packing() -> Store {
    Store::new(true, "p".to_string(), 5)
}

fn object(key: &str, body: &'static [u8]) -> (String, Bytes) {
    (key.to_string(), Bytes::from_static(body))
}

#[test]
fn small_objects_share_one_entry_and_large_ones_stay_separate() {
    let mut store = packing();
    assert_eq!(store.put("a", &Bytes::from_static(b"1234")), Put::Pack);
    assert_eq!(store.put("b", &Bytes::from_static(b"12345")), Put::Queue);
    assert_eq!(store.put("c", &Bytes::from_static(b"")), Put::Pack);
    assert_eq!(store.put("a", &Bytes::from_static(b"9999")), Put::Skip);
    let parcel = store.flush(&Ending::Missing).unwrap();
    assert_eq!((parcel.count, parcel.bytes), (2, 4));
    assert_eq!(
        pack::decode(&parcel.body).unwrap(),
        vec![object("a", b"1234"), object("c", b"")]
    );
    assert_eq!(store.put("d", &Bytes::from_static(b"1")), Put::Keep);
}

#[test]
fn a_later_job_is_delivered_what_was_packed_and_packs_it_again() {
    let mut first = packing();
    first.put("a", &Bytes::from_static(b"1"));
    first.put("b", &Bytes::from_static(b"2"));
    let parcel = first.flush(&Ending::Missing).unwrap();

    let mut second = packing();
    let (found, note) = second.load_pack(&Ending::Found(parcel.body.clone()));
    assert!(note.is_none());
    assert_eq!(found, vec![object("a", b"1"), object("b", b"2")]);
    assert!(second.flush(&Ending::Missing).is_none());

    let mut third = packing();
    third.load_pack(&Ending::Found(parcel.body));
    third.put("c", &Bytes::from_static(b"3"));
    third.put("a", &Bytes::from_static(b"4"));
    assert_eq!(
        pack::decode(&third.flush(&Ending::Missing).unwrap().body).unwrap(),
        vec![object("b", b"2"), object("c", b"3"), object("a", b"4")]
    );
}

#[test]
fn packed_keys_that_are_no_file_names_are_left_out() {
    let objects = vec![
        object("../up", b"1"),
        object("a/b", b"2"),
        object("a\\b", b"3"),
        object("", b"4"),
        object(".hidden", b"5"),
        object("fine.v1-2", b"6"),
    ];
    let (found, _) = packing().load_pack(&Ending::Found(pack::encode(&objects, u64::MAX)));
    assert_eq!(found, vec![object("fine.v1-2", b"6")]);
}

#[test]
fn a_pack_that_cannot_be_read_is_noted() {
    let (found, note) = packing().load_pack(&Ending::Missing);
    assert!(found.is_empty() && note.is_none());
    let (_, note) = packing().load_pack(&Ending::Failed("boom".to_string()));
    assert_eq!(note.unwrap(), "cicache: could not read the packed objects: boom");
    let (_, note) = packing().load_pack(&Ending::Found(Bytes::from_static(b"nope")));
    assert_eq!(note.unwrap(), "cicache: could not read the packed objects: not a pack");
    let mut local = Store::new(false, "p".to_string(), 5);
    let raw = pack::encode(&[object("a", b"1")], u64::MAX);
    let (found, note) = local.load_pack(&Ending::Found(raw));
    assert!(found.is_empty() && note.is_none());
}

#[test]
fn the_upload_of_a_pack_is_counted() {
    let mut stats = Stats::default();
    assert!(parcel_uploaded(&mut stats, 3, 30, 50, &Ending::Stored).is_none());
    let summary = stats.summary();
    assert_eq!((summary.packed, summary.packed_bytes), (3, 30));
    assert_eq!((summary.entries_stored, summary.bytes_uploaded), (1, 50));
    assert!(parcel_uploaded(&mut stats, 3, 30, 50, &Ending::Declined).is_none());
    assert_eq!(
        parcel_uploaded(&mut stats, 3, 30, 50, &Ending::Unconfirmed).unwrap(),
        "cicache: storing the packed objects failed: the cache service did not accept it"
    );
    assert_eq!(
        parcel_uploaded(&mut stats, 3, 30, 50, &Ending::Failed("x".to_string())).unwrap(),
        "cicache: storing the packed objects failed: x"
    );
    assert_eq!(stats.summary().uploads_failed, 2);
}

#[test]
fn concurrent_jobs_do_not_drop_each_others_entries() {
    let mut stats = Stats::default();
    let read = Ending::Found(Bytes::from_static(b"m"));
    let (mut first, mut second) = (remote(), remote());
    first.load_index(&read);
    second.load_index(&read);
    assert!(!first.needs_saving());
    assert!(first.save_index(&read).is_none());
    first.uploaded(&mut stats, "a".to_string(), 1, Ending::Stored);
    second.uploaded(&mut stats, "b".to_string(), 1, Ending::Stored);
    assert!(first.needs_saving() && second.needs_saving());
    let written = first.save_index(&read).unwrap();
    assert_eq!(written.body.as_ref(), b"a\nm".as_slice());
    let written = second.save_index(&Ending::Found(written.body)).unwrap();
    assert_eq!(written.body.as_ref(), b"a\nb\nm".as_slice());
    assert_eq!(written.count, 3);
    assert!(matches!(second.get("a", None), Lookup::Ask));
    let failed = Ending::Failed("timeout".to_string());
    assert_eq!(second.save_index(&failed).unwrap().count, 3);
}

#[test]
fn concurrent_jobs_do_not_drop_each_others_objects() {
    let read = Ending::Found(pack::encode(&[object("old", b"0"), object("both", b"0")], u64::MAX));
    let (mut first, mut second) = (packing(), packing());
    first.load_pack(&read);
    second.load_pack(&read);
    assert!(!first.needs_packing());
    first.put("a", &Bytes::from_static(b"1"));
    first.put("old", &Bytes::from_static(b"1"));
    first.put("both", &Bytes::from_static(b"1"));
    second.put("b", &Bytes::from_static(b"2"));
    second.put("both", &Bytes::from_static(b"2"));
    assert!(first.needs_packing() && second.needs_packing());
    let written = first.flush(&read).unwrap();
    assert_eq!(
        pack::decode(&written.body).unwrap(),
        vec![object("a", b"1"), object("old", b"1"), object("both", b"1")]
    );
    let written = second.flush(&Ending::Found(written.body)).unwrap();
    assert_eq!((written.count, written.bytes), (4, 4));
    assert_eq!(
        pack::decode(&written.body).unwrap(),
        vec![object("a", b"1"), object("old", b"1"), object("b", b"2"), object("both", b"2")]
    );
}

#[test]
fn nothing_is_packed_once_the_queue_is_closed() {
    let mut store = packing();
    store.put("a", &Bytes::from_static(b"1"));
    store.close();
    assert_eq!(store.put("b", &Bytes::from_static(b"2")), Put::Keep);
    assert_eq!(store.flush(&Ending::Missing).unwrap().count, 1);
}

use bytes::Bytes;
use cicache::entry::{frame, unframe, Entry, EntryError, Header};
use hyper::header::{HeaderMap, HeaderValue};
use sha2::Digest;

fn response_headers() -> HeaderMap {
    let mut headers = HeaderMap::new();
    headers.append("Content-Type", "text/plain".parse().unwrap());
    headers.append("set-cookie", "a=1".parse().unwrap());
    headers.append("set-cookie", "b=2".parse().unwrap());
    headers.append("connection", "close".parse().unwrap());
    headers.append("transfer-encoding", "chunked".parse().unwrap());
    headers.append("x-raw", HeaderValue::from_bytes(b"\xff").unwrap());
    headers
}

fn sample() -> Entry {
    Entry::new(
        "https://example.com/a",
        200,
        &response_headers(),
        Bytes::from_static(b"hello"),
    )
}

fn render(header: &Header) -> Result<Vec<u8>, String> {
    Ok(format!("{}|{}|{}", header.url, header.status, header.sha256).into_bytes())
}

fn parse(json: &[u8]) -> Result<Header, String> {
    let text = String::from_utf8(json.to_vec()).map_err(|e| e.to_string())?;
    let parts: Vec<&str> = text.split('|').collect();
    if parts.len() != 3 {
        return Err("not a header".to_string());
    }
    Ok(Header {
        url: parts[0].to_string(),
        status: parts[1].parse().map_err(|_| "no status".to_string())?,
        headers: vec![],
        sha256: parts[2].to_string(),
        stored_at: 0,
    })
}

#[test]
fn a_response_is_recorded_without_the_hop() {
    let entry = sample();
    assert_eq!(entry.header.url, "https://example.com/a");
    assert_eq!(entry.header.status, 200);
    assert_eq!(entry.header.sha256, hex::encode(sha2::Sha256::digest(b"hello")));
    assert!(entry.header.stored_at > 1_600_000_000);
    let mut names: Vec<&str> = entry.header.headers.iter().map(|h| h.0.as_str()).collect();
    names.sort();
    assert_eq!(names, ["content-type", "set-cookie", "set-cookie"]);
}

#[test]
fn recorded_fields_keep_their_order() {
    let list = vec![
        ("b".to_string(), b"1".to_vec()),
        ("te".to_string(), b"x".to_vec()),
        ("a".to_string(), b"2\t3".to_vec()),
        ("c".to_string(), vec![0xc3, 0xa9]),
        ("b".to_string(), b"".to_vec()),
    ];
    let entry = Entry::new_at("u", 7, &list, Bytes::new(), 42);
    let expected: Vec<(String, String)> = vec![
        ("b".to_string(), "1".to_string()),
        ("a".to_string(), "2\t3".to_string()),
        ("b".to_string(), String::new()),
    ];
    assert_eq!(entry.header.headers, expected);
    assert_eq!(entry.header.stored_at, 42);
    assert_eq!(
        entry.header.sha256,
        "e3b0c44298fc1c149afbf4c8996fb92427ae41e4649b934ca495991b7852b855"
    );
}

#[test]
fn headers_are_replayed_as_recorded() {
    let map = sample().header_map();
    assert_eq!(map.len(), 3);
    assert_eq!(map["content-type"], "text/plain");
    let cookies: Vec<&HeaderValue> = map.get_all("set-cookie").iter().collect();
    assert_eq!(cookies, ["a=1", "b=2"]);
    assert!(!map.contains_key("connection"));
}

#[test]
fn lines_that_do_not_parse_are_left_out() {
    let mut entry = sample();
    entry.header.headers = vec![
        ("Good-Name".to_string(), "v".to_string()),
        ("bad name".to_string(), "v".to_string()),
        ("bad-value".to_string(), "a\nb".to_string()),
        ("".to_string(), "v".to_string()),
        ("utf".to_string(), "é".to_string()),
    ];
    let map = entry.header_map();
    assert_eq!(map.len(), 2);
    assert_eq!(map["good-name"], "v");
    assert_eq!(map["utf"].as_bytes(), "é".as_bytes());
}

#[test]
fn too_many_names_make_no_header_map() {
    let mut entry = sample();
    entry.header.headers = vec![("a".to_string(), "b".to_string()); 7000];
    assert_eq!(entry.header_map().len(), 7000);
    entry.header.headers = (0..7000).map(|n| (format!("h{n}"), "b".to_string())).collect();
    assert_eq!(entry.try_header_map().unwrap().len(), 7000);
    entry.header.headers = (0..40_000).map(|n| (format!("h{n}"), "b".to_string())).collect();
    assert!(entry.try_header_map().is_none());
}

#[test]
fn frames_are_laid_out_as_documented() {
    let raw = frame(b"{}", &Bytes::from_static(b"body"));
    assert_eq!(raw.as_ref(), b"CICH\x02\x00\x00\x00{}body".as_slice());
    let (header, body) = unframe(&raw).unwrap();
    assert_eq!(header.as_ref(), b"{}".as_slice());
    assert_eq!(body.as_ref(), b"body".as_slice());
}

#[test]
fn entries_read_back_as_they_were_written() {
    let entry = sample();
    let raw = entry.encode(|header| render(header)).unwrap();
    let back = Entry::decode(&raw, |json| parse(json)).unwrap();
    assert_eq!(back.header.url, entry.header.url);
    assert_eq!(back.header.status, 200);
    assert_eq!(back.header.sha256, entry.header.sha256);
    assert_eq!(back.body, entry.body);
}

#[test]
fn an_entry_that_cannot_be_rendered_is_not_encoded() {
    let refused = sample().encode(|_| Err("no".to_string()));
    assert_eq!(refused, Err("no".to_string()));
}

#[test]
fn foreign_bytes_are_no_entry() {
    for raw in [b"".as_slice(), b"CICH", b"CICH\x00\x00\x00", b"CICP\x00\x00\x00\x00"] {
        let found = Entry::decode(&Bytes::copy_from_slice(raw), |json| parse(json));
        match found {
            Err(EntryError::NotAnEntry) => {}
            _ => panic!("{raw:?}"),
        }
    }
    assert_eq!(EntryError::NotAnEntry.message(), "not a cache entry");
}

#[test]
fn every_cut_in_the_header_is_noticed() {
    let raw = sample().encode(|header| render(header)).unwrap();
    let body_start = raw.len() - 5;
    for cut in 8..body_start {
        assert!(matches!(
            Entry::decode(&raw.slice(..cut), |json| parse(json)),
            Err(EntryError::Truncated)
        ));
    }
    assert_eq!(EntryError::Truncated.message(), "truncated cache entry");
}

#[test]
fn damaged_bodies_are_discarded() {
    let raw = sample().encode(|header| render(header)).unwrap();
    for cut in raw.len() - 5..raw.len() {
        assert!(matches!(
            Entry::decode(&raw.slice(..cut), |json| parse(json)),
            Err(EntryError::Integrity)
        ));
    }
    assert_eq!(
        EntryError::Integrity.message(),
        "cache entry failed integrity check"
    );
}

#[test]
fn headers_that_do_not_read_are_an_error() {
    let raw = frame(b"nonsense", &Bytes::new());
    match Entry::decode(&raw, |json| parse(json)) {
        Err(e) => assert_eq!(e.message(), "not a header"),
        Ok(_) => panic!("decoded"),
    }
}

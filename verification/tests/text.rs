use cicache::clock::seconds;
use cicache::digest::sha_hex;
use cicache::headers::{hop_by_hop_names, sanitize, text_of};
use cicache::numbers::{parse_u64, to_decimal};
use cicache::order::{comes_before, sorted};
use cicache::text::{
    begins_with, contains, finishes_with, from_chars, is_blank, is_one_of, joined, lines_of, same_text,
    split_at, to_chars, to_lower, trimmed, unwrapped,
};
use cicache::url::{normalize, Url};
use hyper::header::HeaderMap;

fn chars(s: &str) -> Vec<char> {
    s.chars().collect()
}

fn strings(v: Vec<Vec<char>>) -> Vec<String> {
    v.iter().map(|c| c.iter().collect()).collect()
}

const SAMPLES: [&str; 14] = [
    "", " ", "a", "a,b", ",", ",,a,", "\n", "a\n", "a\r\n", "\r", "a\n\nb\r", " \u{3000}x\u{85} ", "ÄbC",
    "x\r\n\r\ny",
];

#[test]
fn texts_are_taken_apart_as_std_does() {
    for s in SAMPLES {
        let c = chars(s);
        assert_eq!(to_chars(s), c);
        assert_eq!(from_chars(&c), s);
        let trimmed_text: String = trimmed(&c).iter().collect();
        assert_eq!(trimmed_text, s.trim());
        assert_eq!(is_blank(&c), s.trim().is_empty());
        let lower: String = to_lower(&c).iter().collect();
        assert_eq!(lower, s.to_ascii_lowercase());
        assert_eq!(strings(split_at(&c, ',')), s.split(',').collect::<Vec<_>>());
        assert_eq!(strings(lines_of(&c)), s.lines().collect::<Vec<_>>());
        for p in SAMPLES {
            let q = chars(p);
            assert_eq!(contains(&c, &q), s.contains(p));
            assert_eq!(begins_with(&c, &q), s.starts_with(p));
            assert_eq!(finishes_with(&c, &q), s.ends_with(p));
            assert_eq!(same_text(s, p), s == p);
            assert_eq!(comes_before(&c, &q), s < p);
        }
    }
    let bare: String = unwrapped(&chars("[[::1]"), '[', ']').iter().collect();
    assert_eq!(bare, "::1");
    assert!(is_one_of("b", &["a", "b"]) && !is_one_of("c", &["a", "b"]));
}

#[test]
fn white_space_is_that_of_unicode() {
    for n in 0..0x3100u32 {
        if let Some(c) = char::from_u32(n) {
            assert_eq!(is_blank(&[c]), c.is_whitespace(), "{n:x}");
        }
    }
}

#[test]
fn texts_are_joined_as_std_does() {
    for n in 0..4usize {
        let list: Vec<String> = SAMPLES[..n].iter().map(|s| s.to_string()).collect();
        assert_eq!(joined(&list, ", "), list.join(", "));
    }
}

#[test]
fn texts_are_sorted_and_listed_once() {
    let list: Vec<String> = SAMPLES.iter().chain(SAMPLES.iter()).map(|s| s.to_string()).collect();
    let mut expected = list.clone();
    expected.sort();
    expected.dedup();
    assert_eq!(sorted(list), expected);
}

#[test]
fn numbers_are_written_and_read_as_std_does() {
    for n in [0, 9, 10, 99, 100, 1_000_000_007, u64::MAX] {
        assert_eq!(to_decimal(n), n.to_string());
    }
    for s in ["", "+", "0", "007", "+5", "-5", " 5", "5 ", "18446744073709551615", "18446744073709551616", "++1"] {
        assert_eq!(parse_u64(&chars(s)), s.parse::<u64>().ok(), "{s}");
    }
}

#[test]
fn digests_are_hexadecimal() {
    assert_eq!(
        sha_hex(b"abc"),
        "ba7816bf8f01cfea414140de5dae2223b00361a396177a9cb410ff61f20015ad"
    );
}

#[test]
fn moments_before_the_epoch_count_as_the_epoch() {
    assert_eq!(seconds(None), 0);
    assert_eq!(seconds(Some(7)), 7);
}

fn canonical(s: &str) -> String {
    normalize(&Url::parse(s).unwrap())
}

#[test]
fn canonical_urls_drop_fragments_and_default_ports() {
    assert_eq!(canonical("https://u:p@Example.com:443/a/../b?c=%20d#e"), "https://u:p@example.com/b?c=%20d");
    assert_eq!(canonical("http://example.com:80/"), "http://example.com/");
    assert_eq!(canonical("http://example.com:443/"), "http://example.com:443/");
    assert_eq!(canonical("https://example.com:8443?"), "https://example.com:8443/?");
    assert_eq!(canonical("data:text  #f"), canonical("data:text"));
    assert_eq!(canonical("data:text  ?q#f"), "data:text  ?q");
}

#[test]
fn default_ports_that_are_named_are_dropped() {
    let mut url = Url::parse("https://example.com:8443/a").unwrap();
    url.port = Some(443);
    assert_eq!(normalize(&url), "https://example.com/a");
    url.scheme = "http".to_string();
    assert_eq!(normalize(&url), "https://example.com:443/a");
}

#[test]
fn urls_are_written_as_they_were_parsed() {
    for s in [
        "https://example.com/", "http://[::1]:8080/a?b#c", "https://u@h.example/%7E", "mailto:a@b.example",
        "file:///x", "data:a b#c",
    ] {
        let url = Url::parse(s).unwrap();
        assert_eq!(url.as_str(), url::Url::parse(s).unwrap().as_str());
    }
    assert_eq!(Url::parse("http://[::1]/").unwrap().host_str(), "[::1]");
    assert_eq!(Url::parse("data:x").unwrap().host_str(), "");
    assert_eq!(Url::parse("nope").err().unwrap(), "relative URL without a base");
}

#[test]
fn headers_scoped_to_a_hop_are_dropped() {
    let mut headers = HeaderMap::new();
    for name in hop_by_hop_names() {
        headers.append(name, "x".parse().unwrap());
    }
    headers.append("Host", "x".parse().unwrap());
    headers.append("via", "a".parse().unwrap());
    headers.append("via", "b".parse().unwrap());
    let kept = sanitize(&headers);
    assert_eq!(kept.len(), 2);
    let via: Vec<&hyper::header::HeaderValue> = kept.get_all("via").iter().collect();
    assert_eq!(via, ["a", "b"]);
    assert_eq!(sanitize(&kept), kept);
    assert_eq!(text_of(&headers, "via"), "a");
    assert_eq!(text_of(&headers, "etag"), "");
}

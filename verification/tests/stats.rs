use cicache::stats::{human_bytes, Outcome, Stats, Summary};

fn expected_size(bytes: u64) -> String {
    let units = ["B", "KiB", "MiB", "GiB"];
    let mut value = bytes as f64;
    let mut unit = 0;
    while value >= 1024.0 && unit < 3 {
        value /= 1024.0;
        unit += 1;
    }
    if unit == 0 {
        format!("{bytes} B")
    } else {
        format!("{value:.1} {}", units[unit])
    }
}

#[test]
fn sizes_read_as_binary64_prints_them() {
    for shift in 0..64 {
        for delta in [0u64, 1, 2, 3, 51, 52, 1000, 12345, 0xabcdef] {
            let n = 1u64 << shift;
            for bytes in [n.wrapping_add(delta), n.wrapping_sub(delta), n.wrapping_mul(delta | 1)] {
                assert_eq!(human_bytes(bytes), expected_size(bytes));
            }
        }
    }
    assert_eq!(human_bytes(318_977), "311.5 KiB");
    assert_eq!(human_bytes(191), "191 B");
    assert_eq!(human_bytes(u64::MAX), "17179869184.0 GiB");
}

#[test]
fn log_lines_are_those_of_the_readme() {
    let mut stats = Stats::default();
    let url = "https://registry.npmjs.org/lodash/-/lodash-4.17.21.tgz";
    assert_eq!(
        stats.record(&Outcome::Stored, "GET", url, 318_977, 119),
        format!("MISS                              311.5 KiB    119ms  GET {url}  -> stored\n")
    );
    assert_eq!(
        stats.record(&Outcome::Hit, "GET", url, 318_977, 0),
        format!("HIT                               311.5 KiB      0ms  GET {url}\n")
    );
    assert_eq!(
        stats.record(
            &Outcome::Miss("no immutability signal"),
            "GET",
            "https://pypi.org/simple/requests/",
            82_842,
            321
        ),
        "MISS (no immutability signal)      80.9 KiB    321ms  GET https://pypi.org/simple/requests/\n"
    );
    assert_eq!(
        stats.record(
            &Outcome::Miss("no-store/no-cache/private"),
            "GET",
            "https://github.com/o/r/info/refs?service=git-upload-pack",
            191,
            278
        ),
        "MISS (no-store/no-cache/private)      191 B    278ms  GET https://github.com/o/r/info/refs?service=git-upload-pack\n"
    );
    assert_eq!(
        stats.record(
            &Outcome::Pass("not a GET"),
            "POST",
            "https://github.com/o/r/git-upload-pack",
            0,
            242
        ),
        "PASS (not a GET)                        0 B    242ms  POST https://github.com/o/r/git-upload-pack\n"
    );
    let summary = stats.summary();
    assert_eq!(summary.requests, 5);
    assert_eq!((summary.hits, summary.misses, summary.stored), (1, 3, 1));
    assert_eq!((summary.passthrough, summary.errors), (1, 0));
    assert_eq!(summary.bytes_from_cache, 318_977);
    assert_eq!(summary.bytes_from_network, 318_977 + 82_842 + 191);
    assert_eq!(summary.upstream_millis, 119 + 321 + 278);
}

#[test]
fn long_labels_are_not_cut() {
    let mut stats = Stats::default();
    let line = stats.record(&Outcome::Error("a very long reason that goes on and on"), "GET", "u", 0, 0);
    assert_eq!(
        line,
        "ERROR (a very long reason that goes on and on)        0 B      0ms  GET u\n"
    );
    assert_eq!(stats.summary().errors, 1);
}

#[test]
fn uploads_and_packs_are_counted() {
    let mut stats = Stats::default();
    stats.record_upload(10, true);
    stats.record_upload(20, true);
    stats.record_upload(0, false);
    stats.record_packed(3, 300);
    stats.record_packed(2, 200);
    let summary = stats.summary();
    assert_eq!((summary.entries_stored, summary.bytes_uploaded), (2, 30));
    assert_eq!(summary.uploads_failed, 1);
    assert_eq!((summary.packed, summary.packed_bytes), (2, 200));
}

fn summary(hits: u64, misses: u64, upstream_millis: u64) -> Summary {
    let mut summary = Stats::default().summary();
    summary.hits = hits;
    summary.misses = misses;
    summary.upstream_millis = upstream_millis;
    summary
}

#[test]
fn the_summary_is_rendered() {
    let s = Summary {
        requests: 10,
        hits: 2,
        misses: 4,
        stored: 3,
        passthrough: 3,
        errors: 1,
        bytes_from_cache: 2048,
        bytes_from_network: 1 << 30,
        bytes_uploaded: 100,
        entries_stored: 3,
        packed: 7,
        packed_bytes: 1 << 21,
        uploads_failed: 1,
        upstream_millis: 12_345,
    };
    let expected = "cicache summary
  requests           10
  cache hits         2 (33.3% of cacheable)
  cache misses       4 (3 stored for later runs)
  passed through     3
  errors             1
  served from cache  2.0 KiB
  fetched upstream   1.0 GiB  in 12.3s
  uploaded to cache  100 B across 3 entries (1 failed)
  packed together    2.0 MiB across 7 objects
";
    assert_eq!(s.render(), expected);
}

#[test]
fn rates_read_as_binary64_prints_them() {
    let mut hits = 1u64;
    for misses in 0..400u64 {
        hits = hits.wrapping_mul(6364136223846793005).wrapping_add(1442695040888963407) >> 2;
        for (hits, misses) in [(hits % 1000, misses), (misses, hits % 7), (hits, misses)] {
            let millis = hits ^ (misses << 7);
            let cacheable = hits + misses;
            let rate = if cacheable == 0 {
                0.0
            } else {
                100.0 * hits as f64 / cacheable as f64
            };
            let text = summary(hits, misses, millis).render();
            assert!(text.contains(&format!("({rate:.1}% of cacheable)")), "{text}");
            assert!(text.contains(&format!("in {:.1}s\n", millis as f64 / 1000.0)), "{text}");
        }
    }
}

#[test]
fn an_empty_run_has_no_rate() {
    assert!(summary(0, 0, 0).render().contains("cache hits         0 (0.0% of cacheable)"));
}

#[test]
fn a_summary_starts_at_nothing() {
    let summary = Summary::default();
    assert_eq!(summary.render(), Stats::default().summary().render());
    assert_eq!((summary.requests, summary.stored, summary.packed_bytes), (0, 0, 0));
}

#[test]
fn stored_responses_never_outnumber_misses() {
    let mut stats = Stats::default();
    for outcome in [Outcome::Hit, Outcome::Stored, Outcome::Miss("x"), Outcome::Stored, Outcome::Pass("y")] {
        stats.record(&outcome, "GET", "u", 1, 1);
        assert!(stats.summary().stored <= stats.summary().misses);
    }
    assert_eq!((stats.summary().stored, stats.summary().misses), (2, 3));
}

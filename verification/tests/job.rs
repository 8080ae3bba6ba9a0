use cicache::curlrc::{clear_curlrc, write_curlrc, Clearing};
use cicache::environment::{
    environment, export_environment, exports_to_file, proxy_address, shutdown_url, State,
};
use cicache::report::{
    daemon_log, install_command, install_note, is_set, keep_waiting, listening,
    may_touch_system_trust, remove_commands,
    request_log, run_bounded, service_notice, stop_report, warning, Wait,
};
use cicache::settings::ProxyArgs;
use cicache::stats::Stats;

fn args() -> ProxyArgs {
    ProxyArgs {
        port: 0,
        min_size: 32768,
        max_size: 536870912,
        cache_all: false,
        min_max_age: 3600,
        cache_authorized: false,
        bypass: vec![],
        mitm_ports: vec![443, 8443],
        no_follow_redirects: false,
        upload_concurrency: 8,
        key_prefix: "cicache-v1".to_string(),
        pack_threshold: 1048576,
        no_github_env: false,
    }
}

fn state() -> State {
    State {
        pid: 1,
        port: 8080,
        ca_path: "/tmp/ca.pem".to_string(),
        bundle_path: "/tmp/ca-bundle.pem".to_string(),
        log_path: "/tmp/requests.log".to_string(),
    }
}

#[test]
fn flags_are_rebuilt_for_the_background_run() {
    let common = [
        "--port", "0", "--state-dir", "/s", "--min-size", "32768", "--max-size", "536870912",
        "--min-max-age", "3600", "--upload-concurrency", "8", "--key-prefix", "cicache-v1",
    ];
    let mut expected: Vec<&str> = common.to_vec();
    expected.extend(["--mitm-ports", "443,8443", "--pack-threshold", "1048576"]);
    assert_eq!(args().to_run_args("/s"), expected);

    let all = ProxyArgs {
        cache_all: true,
        cache_authorized: true,
        no_follow_redirects: true,
        bypass: vec!["a.example".to_string(), "b.example".to_string()],
        mitm_ports: vec![],
        no_github_env: true,
        ..args()
    };
    let mut expected: Vec<&str> = common.to_vec();
    expected.extend([
        "--cache-all", "--cache-authorized", "--no-follow-redirects", "--bypass",
        "a.example,b.example", "--pack-threshold", "1048576",
    ]);
    assert_eq!(all.to_run_args("/s"), expected);
}

#[test]
fn settings_make_the_policy() {
    let policy = ProxyArgs {
        bypass: vec!["a.example".to_string()],
        cache_all: true,
        ..args()
    }
    .policy();
    assert_eq!((policy.min_size, policy.max_size), (32768, 536870912));
    assert_eq!(policy.min_max_age, 3600);
    assert!(policy.cache_all && !policy.cache_authorized);
    assert_eq!(policy.extra_bypass, ["a.example"]);
    assert_eq!(policy.key_prefix, "cicache-v1");
}

#[test]
fn toolchains_are_pointed_at_the_proxy() {
    let vars = environment(&state(), false);
    let expected = [
        ("HTTP_PROXY", "http://127.0.0.1:8080"),
        ("http_proxy", "http://127.0.0.1:8080"),
        ("HTTPS_PROXY", "http://127.0.0.1:8080"),
        ("https_proxy", "http://127.0.0.1:8080"),
        (
            "NO_PROXY",
            "localhost,127.0.0.1,::1,169.254.169.254,.actions.githubusercontent.com,.blob.core.windows.net",
        ),
        (
            "no_proxy",
            "localhost,127.0.0.1,::1,169.254.169.254,.actions.githubusercontent.com,.blob.core.windows.net",
        ),
        ("SSL_CERT_FILE", "/tmp/ca-bundle.pem"),
        ("REQUESTS_CA_BUNDLE", "/tmp/ca-bundle.pem"),
        ("CURL_CA_BUNDLE", "/tmp/ca-bundle.pem"),
        ("AWS_CA_BUNDLE", "/tmp/ca-bundle.pem"),
        ("CARGO_HTTP_CAINFO", "/tmp/ca-bundle.pem"),
        ("GIT_SSL_CAINFO", "/tmp/ca-bundle.pem"),
        ("NODE_EXTRA_CA_CERTS", "/tmp/ca.pem"),
        ("DENO_CERT", "/tmp/ca.pem"),
    ];
    let expected: Vec<(String, String)> = expected
        .iter()
        .map(|(name, value)| (name.to_string(), value.to_string()))
        .collect();
    assert_eq!(vars, expected);
    let mac = environment(&state(), true);
    assert_eq!(mac[..14], expected[..]);
    assert_eq!(mac[14], ("HOMEBREW_CURLRC".to_string(), "1".to_string()));
}

#[test]
fn variables_are_exported_line_by_line() {
    let vars = vec![
        ("A".to_string(), "1".to_string()),
        ("B".to_string(), "x y".to_string()),
    ];
    assert_eq!(export_environment(&vars, false), "A=1\nB=x y\n");
    assert_eq!(export_environment(&vars, true), "export A=1\nexport B=x y\n");
    assert!(exports_to_file(false, true));
    assert!(!exports_to_file(true, true));
    assert!(!exports_to_file(false, false));
}

#[test]
fn the_proxy_has_an_address() {
    assert_eq!(proxy_address(65535), "http://127.0.0.1:65535");
    assert_eq!(shutdown_url(80), "http://127.0.0.1:80/__cicache/shutdown");
    assert_eq!(
        listening(8080, "/tmp/ca.pem"),
        "cicache listening on 127.0.0.1:8080 (CA at /tmp/ca.pem)"
    );
}

fn cleared(contents: &str) -> String {
    match clear_curlrc(contents) {
        Clearing::Write(kept) => kept,
        Clearing::Leave => panic!("left alone"),
        Clearing::Remove => String::new(),
    }
}

#[test]
fn curl_is_configured_and_unconfigured() {
    let fresh = write_curlrc("", "/b.pem").unwrap();
    assert_eq!(fresh, "# added by cicache\ncacert = /b.pem\n");
    assert!(matches!(clear_curlrc(&fresh), Clearing::Remove));
    assert!(write_curlrc(&fresh, "/b.pem").is_none());

    let mine = "# mine\ncacert = /mine.pem\n\nsilent\n";
    let both = write_curlrc(mine, "/b.pem").unwrap();
    assert_eq!(both, format!("{mine}# added by cicache\ncacert = /b.pem\n"));
    assert_eq!(cleared(&both), mine);

    let open = write_curlrc("silent", "/b.pem").unwrap();
    assert_eq!(open, "silent\n# added by cicache\ncacert = /b.pem\n");
    assert_eq!(cleared(&open), "silent\n");
    assert!(matches!(clear_curlrc(mine), Clearing::Leave));
}

#[test]
fn other_lines_of_the_configuration_are_left_alone() {
    assert_eq!(
        cleared("a\r\n# added by cicache\ncacert = /b.pem\n# note: not added by cicache\ncacert = /c.pem"),
        "a\r\n# note: not added by cicache\ncacert = /c.pem"
    );
    assert_eq!(cleared("# added by cicache\nsilent\n"), "silent\n");
    assert_eq!(cleared("a\n# added by cicache\ncacert = /b.pem"), "a\n");
    let comment = "## added by cicache, too\ncacert = /c.pem\n";
    assert_eq!(cleared(comment), comment);
    assert!(matches!(
        clear_curlrc(" \n# added by cicache\ncacert = x\n\t\n"),
        Clearing::Remove
    ));
}

#[test]
fn a_missing_service_is_noticed() {
    assert!(service_notice(true, true, true).is_none());
    assert!(service_notice(true, true, false).is_none());
    assert!(service_notice(false, true, true).unwrap().starts_with(
        "::warning title=cicache::ACTIONS_RESULTS_URL is not set, so nothing will be stored beyond this job. "
    ));
    assert!(service_notice(true, false, true).unwrap().starts_with(
        "::warning title=cicache::ACTIONS_RUNTIME_TOKEN is not set, so nothing will be stored beyond this job. "
    ));
    for (address, token) in [(false, false), (true, false), (false, true)] {
        assert_eq!(
            service_notice(address, token, false).unwrap(),
            "cicache: no Actions cache service in the environment; local cache only"
        );
    }
    assert!(is_set(Some("x")) && !is_set(Some("")) && !is_set(None));
}

#[test]
fn waiting_ends_with_a_report_or_in_time() {
    assert!(keep_waiting(false, false));
    assert!(!keep_waiting(true, false));
    assert!(!keep_waiting(false, true));
    assert!(!keep_waiting(true, true));
}

#[test]
fn only_runners_have_their_keychain_changed() {
    assert!(may_touch_system_trust(true, true));
    assert!(!may_touch_system_trust(true, false));
    assert!(!may_touch_system_trust(false, true));
    assert_eq!(
        install_command("/c").join(" "),
        "-n security add-trusted-cert -d -r trustRoot -k /Library/Keychains/System.keychain /c"
    );
    let (untrust, delete) = remove_commands("/c");
    assert_eq!(untrust.join(" "), "-n security remove-trusted-cert -d /c");
    assert_eq!(
        delete.join("|"),
        "-n|security|delete-certificate|-c|cicache local CA|-t|/Library/Keychains/System.keychain"
    );
    assert_eq!(install_note(Some(true)), "cicache: added the CA to the system keychain");
    assert!(install_note(Some(false)).starts_with("::warning title=cicache::could not add the CA"));
    assert_eq!(
        install_note(None),
        "::warning title=cicache::security(1) did not finish; skipping"
    );
}

#[test]
fn commands_are_waited_for_within_bounds() {
    assert_eq!(run_bounded(Ok(Some(true)), true), Wait::Ended(true));
    assert_eq!(run_bounded(Ok(Some(false)), false), Wait::Ended(false));
    assert_eq!(run_bounded(Ok(None), false), Wait::Again);
    assert_eq!(run_bounded(Ok(None), true), Wait::Kill);
    assert_eq!(run_bounded(Err(()), false), Wait::GiveUp);
}

#[test]
fn runs_that_stored_nothing_are_warned_of() {
    let mut summary = Stats::default().summary();
    assert!(warning(&summary).is_none());
    summary.stored = 3;
    assert_eq!(
        warning(&summary).unwrap(),
        "::warning title=cicache::3 responses were eligible to cache but none reached the cache service; later jobs will start cold."
    );
    summary.entries_stored = 2;
    assert!(warning(&summary).is_none());
    summary.uploads_failed = 1;
    assert_eq!(
        warning(&summary).unwrap(),
        "::warning title=cicache::1 of 3 objects failed to reach the cache service."
    );
    let (text, shows_log) = stop_report(Some(&summary));
    assert_eq!(text, format!("{}\n{}\n", summary.render(), warning(&summary).unwrap()));
    assert!(shows_log);
    let quiet = Stats::default().summary();
    assert_eq!(stop_report(Some(&quiet)), (format!("{}\n", quiet.render()), false));
    assert_eq!(
        stop_report(None),
        ("cicache: proxy did not report a summary before the timeout\n".to_string(), true)
    );
}

#[test]
fn the_end_of_the_daemon_log_is_shown() {
    assert_eq!(daemon_log(""), "");
    assert_eq!(
        daemon_log("one\r\ntwo"),
        "::group::cicache daemon log\none\ntwo\n::endgroup::\n"
    );
    let long: String = (0..30).map(|n| format!("line {n}\n")).collect();
    let shown: String = (10..30).map(|n| format!("line {n}\n")).collect();
    assert_eq!(
        daemon_log(&long),
        format!("::group::cicache daemon log\n{shown}::endgroup::\n")
    );
    assert_eq!(
        request_log("HIT\n"),
        "::group::cicache requests\nHIT\n::endgroup::\n"
    );
}

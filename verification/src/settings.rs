//! What a run of the proxy is started with.

use crate::policy::Policy;
use crate::{numbers, text};
use vstd::prelude::*;

verus! {

/// The settings of the proxy.
#[derive(Debug)]
pub struct ProxyArgs {
    /// Port to listen on. Zero picks a free one.
    pub port: u16,
    /// Smallest response worth a cache entry. Small objects cost more in round trips than they
    /// save in transfer.
    pub min_size: u64,
    /// Largest response to buffer and store. Anything bigger streams straight through.
    pub max_size: u64,
    /// Store any cacheable response, ignoring freshness headers. Fast, and wrong for anything
    /// whose contents change at a stable URL.
    pub cache_all: bool,
    /// Minimum `max-age` for a response to count as immutable enough to store.
    pub min_max_age: u64,
    /// Store responses to requests carrying credentials. Off by default: entries are shared with
    /// every later job that reads this branch's cache.
    pub cache_authorized: bool,
    /// Extra hosts to pass through untouched. Suffix-matched, so `example.com` covers subdomains.
    pub bypass: Vec<String>,
    /// Ports whose CONNECT tunnels are decrypted. Others are tunnelled blind.
    pub mitm_ports: Vec<u16>,
    /// Return the redirect to the client instead of following it. Stops release downloads from
    /// being cacheable, since their targets are pre-signed and unique per request.
    pub no_follow_redirects: bool,
    /// Concurrent uploads to the cache service.
    pub upload_concurrency: usize,
    /// Prefix for cache keys. Change it to invalidate everything previously stored.
    pub key_prefix: String,
    /// Length below which objects share a single cache entry. The service charges per entry.
    pub pack_threshold: u64,
    /// Skip writing to `$GITHUB_ENV`, printing the variables instead.
    pub no_github_env: bool,
}

/// Numbers as texts.
pub open spec fn decimals(ports: Seq<u16>) -> Seq<Seq<char>> {
    ports.map_values(|p: u16| numbers::decimal(p as nat))
}

/// A flag where it is set.
pub open spec fn switch(on: bool, flag: Seq<char>) -> Seq<Seq<char>> {
    if on {
        seq![flag]
    } else {
        Seq::empty()
    }
}

/// A flag with a list behind it, where there is anything in the list.
pub open spec fn listing(flag: Seq<char>, items: Seq<Seq<char>>) -> Seq<Seq<char>> {
    if items.len() > 0 {
        seq![flag, text::join(items, ","@)]
    } else {
        Seq::empty()
    }
}

/// The flags with a value.
pub open spec fn values(args: ProxyArgs, dir: Seq<char>) -> Seq<Seq<char>> {
    seq![
        "--port"@,
        numbers::decimal(args.port as nat),
        "--state-dir"@,
        dir,
        "--min-size"@,
        numbers::decimal(args.min_size as nat),
        "--max-size"@,
        numbers::decimal(args.max_size as nat),
        "--min-max-age"@,
        numbers::decimal(args.min_max_age as nat),
        "--upload-concurrency"@,
        numbers::decimal(args.upload_concurrency as nat),
        "--key-prefix"@,
        args.key_prefix@,
    ]
}

/// The flags of a background run.
pub open spec fn run_args(args: ProxyArgs, dir: Seq<char>) -> Seq<Seq<char>> {
    values(args, dir) + switch(args.cache_all, "--cache-all"@) + switch(
        args.cache_authorized,
        "--cache-authorized"@,
    ) + switch(args.no_follow_redirects, "--no-follow-redirects"@) + listing(
        "--bypass"@,
        text::texts(args.bypass@),
    ) + listing("--mitm-ports"@, decimals(args.mitm_ports@)) + seq![
        "--pack-threshold"@,
        numbers::decimal(args.pack_threshold as nat),
    ]
}

/// Adds a flag where it is set.
fn push_switch(out: &mut Vec<String>, on: bool, flag: &str)
    ensures
        text::texts(final(out)@) == text::texts(old(out)@) + switch(on, flag@),
{
    if on {
        out.push(flag.to_string());
    }
    assert(text::texts(out@) =~= text::texts(old(out)@) + switch(on, flag@));
}

/// Adds a flag with a list behind it, where there is anything in the list.
fn push_listing(out: &mut Vec<String>, flag: &str, items: &[String])
    ensures
        text::texts(final(out)@) == text::texts(old(out)@) + listing(flag@, text::texts(items@)),
{
    if items.len() > 0 {
        out.push(flag.to_string());
        out.push(text::joined(items, ","));
    }
    assert(text::texts(out@) =~= text::texts(old(out)@) + listing(flag@, text::texts(items@)));
}

/// Numbers as texts.
fn port_texts(ports: &[u16]) -> (out: Vec<String>)
    ensures
        text::texts(out@) == decimals(ports@),
{
    let mut out: Vec<String> = Vec::new();
    let mut i: usize = 0;
    while i < ports.len()
        invariant
            i <= ports.len(),
            text::texts(out@) =~= decimals(ports@.take(i as int)),
        decreases ports.len() - i,
    {
        let ghost before = text::texts(out@);
        out.push(numbers::to_decimal(ports[i] as u64));
        assert(text::texts(out@) =~= before.push(numbers::decimal(ports@[i as int] as nat)));
        i += 1;
    }
    assert(ports@.take(i as int) =~= ports@);
    out
}

impl ProxyArgs {
    /// Rebuilds the flags for the background `run` invocation.
    pub fn to_run_args(&self, dir: &str) -> (out: Vec<String>)
        ensures
            text::texts(out@) == run_args(*self, dir@),
    {
        let mut args: Vec<String> = vec![
            "--port".to_string(),
            numbers::to_decimal(self.port as u64),
            "--state-dir".to_string(),
            dir.to_string(),
            "--min-size".to_string(),
            numbers::to_decimal(self.min_size),
            "--max-size".to_string(),
            numbers::to_decimal(self.max_size),
            "--min-max-age".to_string(),
            numbers::to_decimal(self.min_max_age),
            "--upload-concurrency".to_string(),
            numbers::to_decimal(self.upload_concurrency as u64),
            "--key-prefix".to_string(),
            self.key_prefix.as_str().to_string(),
        ];
        assert(text::texts(args@) =~= values(*self, dir@));
        push_switch(&mut args, self.cache_all, "--cache-all");
        push_switch(&mut args, self.cache_authorized, "--cache-authorized");
        push_switch(&mut args, self.no_follow_redirects, "--no-follow-redirects");
        push_listing(&mut args, "--bypass", self.bypass.as_slice());
        let ports = port_texts(self.mitm_ports.as_slice());
        push_listing(&mut args, "--mitm-ports", ports.as_slice());
        let ghost before = text::texts(args@);
        args.push("--pack-threshold".to_string());
        args.push(numbers::to_decimal(self.pack_threshold));
        assert(text::texts(args@) =~= before + seq![
            "--pack-threshold"@,
            numbers::decimal(self.pack_threshold as nat),
        ]);
        args
    }

    /// The caching policy that the settings ask for.
    pub fn policy(&self) -> (out: Policy)
        ensures
            out.min_size == self.min_size,
            out.max_size == self.max_size,
            out.min_max_age == self.min_max_age,
            out.cache_all == self.cache_all,
            out.cache_authorized == self.cache_authorized,
            text::texts(out.extra_bypass@) == text::texts(self.bypass@),
            out.key_prefix@ == self.key_prefix@,
    {
        Policy {
            min_size: self.min_size,
            max_size: self.max_size,
            min_max_age: self.min_max_age,
            cache_all: self.cache_all,
            cache_authorized: self.cache_authorized,
            extra_bypass: text::copies(self.bypass.as_slice()),
            key_prefix: self.key_prefix.as_str().to_string(),
        }
    }
}

/// The hosts and the ports reach the background run as they are: split at the commas, the lists are
/// the lists again, and each port reads as the number that it was. A host with a comma in it cannot
/// be given.
pub proof fn law_lists_reach_the_background_run(args: ProxyArgs)
    requires
        forall|i: int| 0 <= i < args.bypass@.len() ==> !(#[trigger] args.bypass@[i])@.contains(','),
    ensures
        args.bypass@.len() > 0 ==> text::split(text::join(text::texts(args.bypass@), ","@), ',')
            == text::texts(args.bypass@),
        args.mitm_ports@.len() > 0 ==> text::split(
            text::join(decimals(args.mitm_ports@), ","@),
            ',',
        ) == decimals(args.mitm_ports@),
        forall|i: int|
            0 <= i < args.mitm_ports@.len() ==> numbers::parsed(
                #[trigger] decimals(args.mitm_ports@)[i],
            ) == Some(args.mitm_ports@[i] as u64),
{
    reveal_strlit(",");
    assert(","@ =~= seq![',']);
    let hosts = text::texts(args.bypass@);
    let ports = decimals(args.mitm_ports@);
    assert forall|i: int| 0 <= i < hosts.len() implies !(#[trigger] hosts[i]).contains(',') by {
        assert(hosts[i] == args.bypass@[i]@);
    }
    assert forall|i: int| 0 <= i < ports.len() implies !(#[trigger] ports[i]).contains(',') by {
        numbers::lemma_decimal_digits(args.mitm_ports@[i] as nat);
        if ports[i].contains(',') {
            let k = ports[i].index_of(',');
            assert(numbers::is_digit(ports[i][k]));
        }
    }
    if hosts.len() > 0 {
        text::lemma_split_join(hosts, ',');
    }
    if ports.len() > 0 {
        text::lemma_split_join(ports, ',');
    }
    assert forall|i: int| 0 <= i < args.mitm_ports@.len() implies numbers::parsed(
        #[trigger] ports[i],
    ) == Some(args.mitm_ports@[i] as u64) by {
        numbers::lemma_parsed_decimal(args.mitm_ports@[i] as nat);
    }
}

/// What flags set.
pub struct Settings {
    pub port: u64,
    pub state_dir: Seq<char>,
    pub min_size: u64,
    pub max_size: u64,
    pub min_max_age: u64,
    pub upload_concurrency: u64,
    pub key_prefix: Seq<char>,
    pub cache_all: bool,
    pub cache_authorized: bool,
    pub no_follow_redirects: bool,
    pub bypass: Seq<Seq<char>>,
    pub mitm_ports: Seq<u64>,
    pub pack_threshold: u64,
}

/// The settings without any flag.
pub open spec fn unset() -> Settings {
    Settings {
        port: 0,
        state_dir: Seq::empty(),
        min_size: 0,
        max_size: 0,
        min_max_age: 0,
        upload_concurrency: 0,
        key_prefix: Seq::empty(),
        cache_all: false,
        cache_authorized: false,
        no_follow_redirects: false,
        bypass: Seq::empty(),
        mitm_ports: Seq::empty(),
        pack_threshold: 0,
    }
}

/// What the settings of a run in a directory are.
pub open spec fn settings_of(args: ProxyArgs, dir: Seq<char>) -> Settings {
    Settings {
        port: args.port as u64,
        state_dir: dir,
        min_size: args.min_size,
        max_size: args.max_size,
        min_max_age: args.min_max_age,
        upload_concurrency: args.upload_concurrency as u64,
        key_prefix: args.key_prefix@,
        cache_all: args.cache_all,
        cache_authorized: args.cache_authorized,
        no_follow_redirects: args.no_follow_redirects,
        bypass: text::texts(args.bypass@),
        mitm_ports: args.mitm_ports@.map_values(|p: u16| p as u64),
        pack_threshold: args.pack_threshold,
    }
}

/// Whether a text begins as a flag does.
pub open spec fn dashed(s: Seq<char>) -> bool {
    s.len() > 0 && s[0] == '-'
}

/// The settings with a flag that takes no value, where it is one.
pub open spec fn flipped(s: Settings, flag: Seq<char>) -> Option<Settings> {
    if flag == "--cache-all"@ {
        Some(Settings { cache_all: true, ..s })
    } else if flag == "--cache-authorized"@ {
        Some(Settings { cache_authorized: true, ..s })
    } else if flag == "--no-follow-redirects"@ {
        Some(Settings { no_follow_redirects: true, ..s })
    } else {
        None
    }
}

/// The settings with a number that a flag is followed by, where the flag takes one.
pub open spec fn numbered(s: Settings, flag: Seq<char>, n: u64) -> Option<Settings> {
    if flag == "--port"@ {
        if n <= 65535 {
            Some(Settings { port: n, ..s })
        } else {
            None
        }
    } else if flag == "--min-size"@ {
        Some(Settings { min_size: n, ..s })
    } else if flag == "--max-size"@ {
        Some(Settings { max_size: n, ..s })
    } else if flag == "--min-max-age"@ {
        Some(Settings { min_max_age: n, ..s })
    } else if flag == "--upload-concurrency"@ {
        Some(Settings { upload_concurrency: n, ..s })
    } else if flag == "--pack-threshold"@ {
        Some(Settings { pack_threshold: n, ..s })
    } else {
        None
    }
}

/// Whether every text of a list spells a port.
pub open spec fn all_ports(list: Seq<Seq<char>>) -> bool {
    forall|i: int|
        0 <= i < list.len() ==> (numbers::parsed(#[trigger] list[i]) matches Some(n) && n <= 65535)
}

/// The ports that the texts of a list spell.
pub open spec fn ports_of(list: Seq<Seq<char>>) -> Seq<u64> {
    list.map_values(|p: Seq<char>| numbers::parsed(p).unwrap())
}

/// The settings with a flag that is followed by a value, where it takes that one. A list is split at
/// the commas.
pub open spec fn valued(s: Settings, flag: Seq<char>, value: Seq<char>) -> Option<Settings> {
    if flag == "--state-dir"@ {
        Some(Settings { state_dir: value, ..s })
    } else if flag == "--key-prefix"@ {
        Some(Settings { key_prefix: value, ..s })
    } else if flag == "--bypass"@ {
        Some(Settings { bypass: text::split(value, ','), ..s })
    } else if flag == "--mitm-ports"@ {
        if all_ports(text::split(value, ',')) {
            Some(Settings { mitm_ports: ports_of(text::split(value, ',')), ..s })
        } else {
            None
        }
    } else {
        match numbers::parsed(value) {
            Some(n) => numbered(s, flag, n),
            None => None,
        }
    }
}

/// What flags set, beginning with some settings, where they make sense. A value does not begin as a
/// flag does.
pub open spec fn read(flags: Seq<Seq<char>>, s: Settings) -> Option<Settings>
    decreases flags.len(),
{
    if flags.len() == 0 {
        Some(s)
    } else {
        match flipped(s, flags[0]) {
            Some(t) => read(flags.skip(1), t),
            None => if flags.len() < 2 || dashed(flags[1]) {
                None
            } else {
                match valued(s, flags[0], flags[1]) {
                    Some(t) => read(flags.skip(2), t),
                    None => None,
                }
            },
        }
    }
}

/// A flag with a value is read first.
proof fn lemma_read_pair(
    flag: Seq<char>,
    value: Seq<char>,
    rest: Seq<Seq<char>>,
    s: Settings,
    t: Settings,
)
    requires
        flipped(s, flag) is None,
        !dashed(value),
        valued(s, flag, value) == Some(t),
    ensures
        read(seq![flag, value] + rest, s) == read(rest, t),
{
    let flags = seq![flag, value] + rest;
    assert(flags.skip(2) =~= rest);
    assert(flags[0] == flag && flags[1] == value);
}

/// A flag without a value is read first.
proof fn lemma_read_switch(on: bool, flag: Seq<char>, rest: Seq<Seq<char>>, s: Settings, t: Settings)
    requires
        on ==> flipped(s, flag) == Some(t),
        !on ==> s == t,
    ensures
        read(switch(on, flag) + rest, s) == read(rest, t),
{
    let flags = switch(on, flag) + rest;
    if on {
        assert(flags.skip(1) =~= rest);
        assert(flags[0] == flag);
    } else {
        assert(flags =~= rest);
    }
}

/// The flags differ.
proof fn lemma_flags_differ()
    ensures
        "--port"@.len() == 6,
        "--state-dir"@.len() == 11 && "--state-dir"@[2] == 's',
        "--min-size"@.len() == 10 && "--min-size"@[3] == 'i',
        "--max-size"@.len() == 10 && "--max-size"@[3] == 'a',
        "--min-max-age"@.len() == 13,
        "--upload-concurrency"@.len() == 20,
        "--key-prefix"@.len() == 12 && "--key-prefix"@[2] == 'k',
        "--cache-all"@.len() == 11 && "--cache-all"@[2] == 'c',
        "--cache-authorized"@.len() == 18,
        "--no-follow-redirects"@.len() == 21,
        "--bypass"@.len() == 8,
        "--mitm-ports"@.len() == 12 && "--mitm-ports"@[2] == 'm',
        "--pack-threshold"@.len() == 16,
{
    reveal_strlit("--port");
    reveal_strlit("--state-dir");
    reveal_strlit("--min-size");
    reveal_strlit("--max-size");
    reveal_strlit("--min-max-age");
    reveal_strlit("--upload-concurrency");
    reveal_strlit("--key-prefix");
    reveal_strlit("--cache-all");
    reveal_strlit("--cache-authorized");
    reveal_strlit("--no-follow-redirects");
    reveal_strlit("--bypass");
    reveal_strlit("--mitm-ports");
    reveal_strlit("--pack-threshold");
}

/// A number in decimal is read back, and does not begin as a flag does.
proof fn lemma_number_value(n: u64)
    ensures
        numbers::parsed(numbers::decimal(n as nat)) == Some(n),
        !dashed(numbers::decimal(n as nat)),
{
    numbers::lemma_parsed_decimal(n as nat);
    numbers::lemma_decimal_digits(n as nat);
    assert(numbers::is_digit(numbers::decimal(n as nat)[0]));
}

/// Texts that are joined begin as the first does, or with the separator.
proof fn lemma_join_not_dashed(items: Seq<Seq<char>>)
    requires
        items.len() > 0,
        !dashed(items[0]),
    ensures
        !dashed(text::join(items, ","@)),
{
    reveal_strlit(",");
    if items.len() > 1 {
        text::lemma_join_front(items, ","@);
    }
}

/// A flag with a number is read first.
proof fn lemma_read_number(flag: Seq<char>, n: u64, rest: Seq<Seq<char>>, s: Settings, t: Settings)
    requires
        numbered(s, flag, n) == Some(t),
    ensures
        read(seq![flag, numbers::decimal(n as nat)] + rest, s) == read(rest, t),
{
    lemma_flags_differ();
    lemma_number_value(n);
    lemma_read_pair(flag, numbers::decimal(n as nat), rest, s, t);
}

/// What the flags with a value set.
pub open spec fn valued_settings(args: ProxyArgs, dir: Seq<char>) -> Settings {
    Settings {
        port: args.port as u64,
        state_dir: dir,
        min_size: args.min_size,
        max_size: args.max_size,
        min_max_age: args.min_max_age,
        upload_concurrency: args.upload_concurrency as u64,
        key_prefix: args.key_prefix@,
        ..unset()
    }
}

/// The first of the flags with a value are read first.
proof fn lemma_read_first_values(args: ProxyArgs, dir: Seq<char>, rest: Seq<Seq<char>>)
    requires
        !dashed(dir),
    ensures
        read(
            seq!["--port"@, numbers::decimal(args.port as nat)] + (seq!["--state-dir"@, dir] + (seq![
                "--min-size"@,
                numbers::decimal(args.min_size as nat),
            ] + rest)),
            unset(),
        ) == read(
            rest,
            Settings {
                port: args.port as u64,
                state_dir: dir,
                min_size: args.min_size,
                ..unset()
            },
        ),
{
    lemma_flags_differ();
    let r3 = seq!["--min-size"@, numbers::decimal(args.min_size as nat)] + rest;
    let r2 = seq!["--state-dir"@, dir] + r3;
    let s1 = Settings { port: args.port as u64, ..unset() };
    let s2 = Settings { state_dir: dir, ..s1 };
    let s3 = Settings { min_size: args.min_size, ..s2 };
    lemma_read_number("--port"@, args.port as u64, r2, unset(), s1);
    lemma_read_pair("--state-dir"@, dir, r3, s1, s2);
    lemma_read_number("--min-size"@, args.min_size, rest, s2, s3);
}

/// The last of the flags with a value are read first.
proof fn lemma_read_last_values(
    args: ProxyArgs,
    dir: Seq<char>,
    rest: Seq<Seq<char>>,
    s: Settings,
)
    requires
        !dashed(args.key_prefix@),
        s == (Settings {
            port: args.port as u64,
            state_dir: dir,
            min_size: args.min_size,
            ..unset()
        }),
    ensures
        read(
            seq!["--max-size"@, numbers::decimal(args.max_size as nat)] + (seq![
                "--min-max-age"@,
                numbers::decimal(args.min_max_age as nat),
            ] + (seq![
                "--upload-concurrency"@,
                numbers::decimal(args.upload_concurrency as nat),
            ] + (seq!["--key-prefix"@, args.key_prefix@] + rest))),
            s,
        ) == read(rest, valued_settings(args, dir)),
{
    lemma_flags_differ();
    let r4 = seq!["--key-prefix"@, args.key_prefix@] + rest;
    let r3 = seq!["--upload-concurrency"@, numbers::decimal(args.upload_concurrency as nat)] + r4;
    let r2 = seq!["--min-max-age"@, numbers::decimal(args.min_max_age as nat)] + r3;
    let s1 = Settings { max_size: args.max_size, ..s };
    let s2 = Settings { min_max_age: args.min_max_age, ..s1 };
    let s3 = Settings { upload_concurrency: args.upload_concurrency as u64, ..s2 };
    let s4 = Settings { key_prefix: args.key_prefix@, ..s3 };
    lemma_read_number("--max-size"@, args.max_size, r2, s, s1);
    lemma_read_number("--min-max-age"@, args.min_max_age, r3, s1, s2);
    lemma_read_number("--upload-concurrency"@, args.upload_concurrency as u64, r4, s2, s3);
    lemma_read_pair("--key-prefix"@, args.key_prefix@, rest, s3, s4);
}

/// The flags with a value are read first.
proof fn lemma_read_values(args: ProxyArgs, dir: Seq<char>, rest: Seq<Seq<char>>)
    requires
        !dashed(dir),
        !dashed(args.key_prefix@),
    ensures
        read(values(args, dir) + rest, unset()) == read(rest, valued_settings(args, dir)),
{
    let last = seq!["--max-size"@, numbers::decimal(args.max_size as nat)] + (seq![
        "--min-max-age"@,
        numbers::decimal(args.min_max_age as nat),
    ] + (seq!["--upload-concurrency"@, numbers::decimal(args.upload_concurrency as nat)] + (seq![
        "--key-prefix"@,
        args.key_prefix@,
    ] + rest)));
    let all = seq!["--port"@, numbers::decimal(args.port as nat)] + (seq!["--state-dir"@, dir] + (
    seq!["--min-size"@, numbers::decimal(args.min_size as nat)] + last));
    lemma_read_first_values(args, dir, last);
    lemma_read_last_values(
        args,
        dir,
        rest,
        Settings { port: args.port as u64, state_dir: dir, min_size: args.min_size, ..unset() },
    );
    assert(values(args, dir) + rest =~= all);
}

/// The flags without a value are read first.
proof fn lemma_read_switches(args: ProxyArgs, rest: Seq<Seq<char>>, s: Settings)
    requires
        !s.cache_all && !s.cache_authorized && !s.no_follow_redirects,
    ensures
        read(
            switch(args.cache_all, "--cache-all"@) + (switch(
                args.cache_authorized,
                "--cache-authorized"@,
            ) + (switch(args.no_follow_redirects, "--no-follow-redirects"@) + rest)),
            s,
        ) == read(
            rest,
            Settings {
                cache_all: args.cache_all,
                cache_authorized: args.cache_authorized,
                no_follow_redirects: args.no_follow_redirects,
                ..s
            },
        ),
{
    lemma_flags_differ();
    let r3 = switch(args.no_follow_redirects, "--no-follow-redirects"@) + rest;
    let r2 = switch(args.cache_authorized, "--cache-authorized"@) + r3;
    let s1 = Settings { cache_all: args.cache_all, ..s };
    let s2 = Settings { cache_authorized: args.cache_authorized, ..s1 };
    let s3 = Settings { no_follow_redirects: args.no_follow_redirects, ..s2 };
    lemma_read_switch(args.cache_all, "--cache-all"@, r2, s, s1);
    lemma_read_switch(args.cache_authorized, "--cache-authorized"@, r3, s1, s2);
    lemma_read_switch(args.no_follow_redirects, "--no-follow-redirects"@, rest, s2, s3);
}

/// The flags with a list are read first.
proof fn lemma_read_lists(args: ProxyArgs, rest: Seq<Seq<char>>, s: Settings)
    requires
        s.bypass == Seq::<Seq<char>>::empty(),
        args.mitm_ports@.len() > 0,
        forall|i: int| 0 <= i < args.bypass@.len() ==> !(#[trigger] args.bypass@[i])@.contains(','),
        args.bypass@.len() > 0 ==> !dashed(args.bypass@[0]@),
    ensures
        read(
            listing("--bypass"@, text::texts(args.bypass@)) + (listing(
                "--mitm-ports"@,
                decimals(args.mitm_ports@),
            ) + rest),
            s,
        ) == read(
            rest,
            Settings {
                bypass: text::texts(args.bypass@),
                mitm_ports: args.mitm_ports@.map_values(|p: u16| p as u64),
                ..s
            },
        ),
{
    lemma_flags_differ();
    law_lists_reach_the_background_run(args);
    let hosts = text::texts(args.bypass@);
    let ports = decimals(args.mitm_ports@);
    let r2 = listing("--mitm-ports"@, ports) + rest;
    let s1 = Settings { bypass: hosts, ..s };
    let s2 = Settings { mitm_ports: args.mitm_ports@.map_values(|p: u16| p as u64), ..s1 };
    if hosts.len() > 0 {
        assert(hosts[0] == args.bypass@[0]@);
        lemma_join_not_dashed(hosts);
        lemma_read_pair("--bypass"@, text::join(hosts, ","@), r2, s, s1);
    } else {
        assert(listing("--bypass"@, hosts) + r2 =~= r2);
        assert(hosts =~= Seq::empty());
    }
    lemma_number_value(args.mitm_ports@[0] as u64);
    lemma_join_not_dashed(ports);
    assert(ports_of(ports) =~= s2.mitm_ports);
    lemma_read_pair("--mitm-ports"@, text::join(ports, ","@), rest, s1, s2);
}

/// The threshold is read last.
proof fn lemma_read_threshold(args: ProxyArgs, s: Settings)
    ensures
        read(
            seq!["--pack-threshold"@, numbers::decimal(args.pack_threshold as nat)],
            s,
        ) == Some(Settings { pack_threshold: args.pack_threshold, ..s }),
{
    let none = Seq::<Seq<char>>::empty();
    let flags = seq!["--pack-threshold"@, numbers::decimal(args.pack_threshold as nat)];
    let t = Settings { pack_threshold: args.pack_threshold, ..s };
    lemma_flags_differ();
    lemma_read_number("--pack-threshold"@, args.pack_threshold, none, s, t);
    assert(flags + none =~= flags);
    assert(read(none, t) == Some(t));
}

/// Lists that are put together one by one are the same put together from the end.
proof fn lemma_put_together(
    a: Seq<Seq<char>>,
    b: Seq<Seq<char>>,
    c: Seq<Seq<char>>,
    d: Seq<Seq<char>>,
    e: Seq<Seq<char>>,
    f: Seq<Seq<char>>,
    g: Seq<Seq<char>>,
)
    ensures
        a + b + c + d + e + f + g == a + (b + (c + (d + (e + (f + g))))),
{
    assert(a + b + c + d + e + f + g =~= a + (b + (c + (d + (e + (f + g))))));
}

/// The background run is started with the settings that were given: reading the flags back gives
/// every one of them. What is left out cannot be given as a flag: a host with a comma in it, a list of
/// no ports, and a directory, a prefix or a first host that begin as a flag does.
#[verifier::spinoff_prover]
#[verifier::rlimit(60)]
pub proof fn law_settings_reach_the_background_run(args: ProxyArgs, dir: Seq<char>)
    requires
        args.mitm_ports@.len() > 0,
        forall|i: int| 0 <= i < args.bypass@.len() ==> !(#[trigger] args.bypass@[i])@.contains(','),
        !dashed(dir),
        !dashed(args.key_prefix@),
        args.bypass@.len() > 0 ==> !dashed(args.bypass@[0]@),
    ensures
        read(run_args(args, dir), unset()) == Some(settings_of(args, dir)),
{
    let pack = seq!["--pack-threshold"@, numbers::decimal(args.pack_threshold as nat)];
    let lists = listing("--bypass"@, text::texts(args.bypass@)) + (listing(
        "--mitm-ports"@,
        decimals(args.mitm_ports@),
    ) + pack);
    let switches = switch(args.cache_all, "--cache-all"@) + (switch(
        args.cache_authorized,
        "--cache-authorized"@,
    ) + (switch(args.no_follow_redirects, "--no-follow-redirects"@) + lists));
    lemma_put_together(
        values(args, dir),
        switch(args.cache_all, "--cache-all"@),
        switch(args.cache_authorized, "--cache-authorized"@),
        switch(args.no_follow_redirects, "--no-follow-redirects"@),
        listing("--bypass"@, text::texts(args.bypass@)),
        listing("--mitm-ports"@, decimals(args.mitm_ports@)),
        pack,
    );
    assert(run_args(args, dir) == values(args, dir) + switches);
    let s1 = valued_settings(args, dir);
    lemma_read_values(args, dir, switches);
    lemma_read_switches(args, lists, s1);
    let s2 = Settings {
        cache_all: args.cache_all,
        cache_authorized: args.cache_authorized,
        no_follow_redirects: args.no_follow_redirects,
        ..s1
    };
    lemma_read_lists(args, pack, s2);
    let s3 = Settings {
        bypass: text::texts(args.bypass@),
        mitm_ports: args.mitm_ports@.map_values(|p: u16| p as u64),
        ..s2
    };
    lemma_read_threshold(args, s3);
}

/// A run caches by the settings that it was given: the sizes, the age, what it stores regardless, the
/// hosts that it passes through and the prefix of its keys.
pub proof fn law_the_policy_of_a_run(args: &ProxyArgs, out: Policy, i: int)
    requires
        call_ensures(ProxyArgs::policy, (args,), out),
    ensures
        out.min_size == args.min_size,
        out.max_size == args.max_size,
        out.min_max_age == args.min_max_age,
        out.cache_all == args.cache_all,
        out.cache_authorized == args.cache_authorized,
        out.key_prefix@ == args.key_prefix@,
        out.extra_bypass@.len() == args.bypass@.len(),
        0 <= i < args.bypass@.len() ==> out.extra_bypass@[i]@ == args.bypass@[i]@,
{
    assert(text::texts(out.extra_bypass@).len() == text::texts(args.bypass@).len());
    if 0 <= i < args.bypass@.len() {
        assert(text::texts(out.extra_bypass@)[i] == out.extra_bypass@[i]@);
        assert(text::texts(args.bypass@)[i] == args.bypass@[i]@);
    }
}

/// The settings that a background run is started with are those that were given, each in its place.
pub proof fn law_settings_are_those_that_were_given(args: ProxyArgs, dir: Seq<char>, i: int)
    ensures
        settings_of(args, dir).port == args.port,
        settings_of(args, dir).state_dir == dir,
        settings_of(args, dir).min_size == args.min_size,
        settings_of(args, dir).max_size == args.max_size,
        settings_of(args, dir).min_max_age == args.min_max_age,
        settings_of(args, dir).upload_concurrency == args.upload_concurrency,
        settings_of(args, dir).key_prefix == args.key_prefix@,
        settings_of(args, dir).cache_all == args.cache_all,
        settings_of(args, dir).cache_authorized == args.cache_authorized,
        settings_of(args, dir).no_follow_redirects == args.no_follow_redirects,
        settings_of(args, dir).pack_threshold == args.pack_threshold,
        settings_of(args, dir).bypass.len() == args.bypass@.len(),
        settings_of(args, dir).mitm_ports.len() == args.mitm_ports@.len(),
        0 <= i < args.bypass@.len() ==> settings_of(args, dir).bypass[i] == args.bypass@[i]@,
        0 <= i < args.mitm_ports@.len() ==> settings_of(args, dir).mitm_ports[i]
            == args.mitm_ports@[i],
{
}

/// A flag that is set is given, and one that is not is left out; a list is given behind its flag, with
/// commas between, where there is anything in it.
pub proof fn law_which_flags_are_given(flag: Seq<char>, items: Seq<Seq<char>>)
    ensures
        switch(true, flag) == seq![flag],
        switch(false, flag).len() == 0,
        items.len() == 0 ==> listing(flag, items).len() == 0,
        items.len() > 0 ==> listing(flag, items) == seq![flag, text::join(items, seq![','])],
{
    reveal_strlit(",");
    assert(","@ =~= seq![',']);
}

/// The flags of a background run without any list: those with a value, those that are set, and the
/// threshold.
pub proof fn law_flags_without_lists(args: ProxyArgs, dir: Seq<char>)
    requires
        args.mitm_ports@.len() == 0,
        args.bypass@.len() == 0,
    ensures
        run_args(args, dir) == seq![
            "--port"@,
            numbers::decimal(args.port as nat),
            "--state-dir"@,
            dir,
            "--min-size"@,
            numbers::decimal(args.min_size as nat),
            "--max-size"@,
            numbers::decimal(args.max_size as nat),
            "--min-max-age"@,
            numbers::decimal(args.min_max_age as nat),
            "--upload-concurrency"@,
            numbers::decimal(args.upload_concurrency as nat),
            "--key-prefix"@,
            args.key_prefix@,
        ] + switch(args.cache_all, "--cache-all"@) + switch(
            args.cache_authorized,
            "--cache-authorized"@,
        ) + switch(args.no_follow_redirects, "--no-follow-redirects"@) + seq![
            "--pack-threshold"@,
            numbers::decimal(args.pack_threshold as nat),
        ],
{
    let before = values(args, dir) + switch(args.cache_all, "--cache-all"@) + switch(
        args.cache_authorized,
        "--cache-authorized"@,
    ) + switch(args.no_follow_redirects, "--no-follow-redirects"@);
    let none = Seq::<Seq<char>>::empty();
    assert(listing("--bypass"@, text::texts(args.bypass@)) =~= none);
    assert(listing("--mitm-ports"@, decimals(args.mitm_ports@)) =~= none);
    assert(before + none =~= before);
}

/// The flags of the background run are given as stated.
pub proof fn law_flags_are_given(args: &ProxyArgs, dir: &str, out: Vec<String>)
    requires
        call_ensures(ProxyArgs::to_run_args, (args, dir), out),
    ensures
        text::texts(out@) == run_args(*args, dir@),
{
}

} // verus!

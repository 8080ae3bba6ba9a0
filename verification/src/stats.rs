//! Request log and run summary.
//!
//! Traffic flows through the proxy during steps other than the one that started it, so per-request
//! lines are appended to a file that the teardown step replays into the job log.

use crate::{numbers, text};
use vstd::prelude::*;

verus! {

#[derive(Clone, Copy, Debug)]
pub struct Summary {
    pub requests: u64,
    pub hits: u64,
    pub misses: u64,
    /// Misses whose response was eligible and written to the cache.
    pub stored: u64,
    pub passthrough: u64,
    pub errors: u64,
    pub bytes_from_cache: u64,
    pub bytes_from_network: u64,
    pub bytes_uploaded: u64,
    pub entries_stored: u64,
    /// Objects carried in the packed entry rather than stored individually.
    pub packed: u64,
    pub packed_bytes: u64,
    pub uploads_failed: u64,
    /// Wall-clock spent fetching upstream on misses, i.e. the time a full cache would have saved.
    pub upstream_millis: u64,
}

/// The counters of one run.
pub struct Stats {
    counts: Summary,
}

/// The outcome recorded for one proxied request.
pub enum Outcome<'a> {
    Hit,
    /// Fetched upstream and written to the cache.
    Stored,
    /// Fetched upstream but not eligible to store, with the reason.
    Miss(&'a str),
    /// Forwarded without any cache involvement, with the reason.
    Pass(&'a str),
    Error(&'a str),
}

/// A number of bytes as a person reads it: in the largest of the units up to GiB that leaves at
/// least one before the point, with one decimal place, or in whole bytes.
pub open spec fn human(bytes: nat) -> Seq<char> {
    if bytes < 1024 {
        numbers::decimal(bytes) + " B"@
    } else if bytes < 0x10_0000 {
        numbers::one_place(numbers::round_even(10 * numbers::nearest(bytes), 1024)) + " KiB"@
    } else if bytes < 0x4000_0000 {
        numbers::one_place(numbers::round_even(10 * numbers::nearest(bytes), 0x10_0000)) + " MiB"@
    } else {
        numbers::one_place(numbers::round_even(10 * numbers::nearest(bytes), 0x4000_0000)) + " GiB"@
    }
}

pub fn human_bytes(bytes: u64) -> (out: String)
    ensures
        out@ == human(bytes as nat),
{
    let mut out = String::new();
    if bytes < 1024 {
        numbers::push_decimal(&mut out, bytes as u128);
        out.append(" B");
        assert(out@ =~= human(bytes as nat));
        return out;
    }
    let value = numbers::to_nearest(bytes as u128);
    if bytes < 0x10_0000 {
        numbers::push_one_place(&mut out, numbers::round_to_even(10 * value, 1024));
        out.append(" KiB");
    } else if bytes < 0x4000_0000 {
        numbers::push_one_place(&mut out, numbers::round_to_even(10 * value, 0x10_0000));
        out.append(" MiB");
    } else {
        numbers::push_one_place(&mut out, numbers::round_to_even(10 * value, 0x4000_0000));
        out.append(" GiB");
    }
    assert(out@ =~= human(bytes as nat));
    out
}

/// What a run with these counters is summed up as.
pub open spec fn summary_text(s: Summary) -> Seq<char> {
    let cacheable = (s.hits + s.misses) as nat;
    let hit_rate = if cacheable == 0 {
        0
    } else {
        numbers::tenths(
            numbers::nearest(100 * numbers::nearest(s.hits as nat)),
            numbers::nearest(cacheable),
        )
    };
    let seconds = numbers::tenths(numbers::nearest(s.upstream_millis as nat), 1000);
    "cicache summary\n"@ + "  requests           "@ + numbers::decimal(s.requests as nat)
        + "\n  cache hits         "@ + numbers::decimal(s.hits as nat) + " ("@ + numbers::one_place(
        hit_rate,
    ) + "% of cacheable)\n  cache misses       "@ + numbers::decimal(s.misses as nat) + " ("@
        + numbers::decimal(s.stored as nat) + " stored for later runs)\n  passed through     "@
        + numbers::decimal(s.passthrough as nat) + "\n  errors             "@ + numbers::decimal(
        s.errors as nat,
    ) + "\n  served from cache  "@ + human(s.bytes_from_cache as nat)
        + "\n  fetched upstream   "@ + human(s.bytes_from_network as nat) + "  in "@
        + numbers::one_place(seconds) + "s\n  uploaded to cache  "@ + human(
        s.bytes_uploaded as nat,
    ) + " across "@ + numbers::decimal(s.entries_stored as nat) + " entries ("@ + numbers::decimal(
        s.uploads_failed as nat,
    ) + " failed)\n  packed together    "@ + human(s.packed_bytes as nat) + " across "@
        + numbers::decimal(s.packed as nat) + " objects\n"@
}

impl Summary {
    pub fn render(&self) -> (out: String)
        requires
            self.hits + self.misses <= u64::MAX,
        ensures
            out@ == summary_text(*self),
    {
        let cacheable: u64 = self.hits + self.misses;
        let hit_rate: u128 = if cacheable == 0 {
            0
        } else {
            let hits = numbers::to_nearest(self.hits as u128);
            let scaled = numbers::to_nearest(100 * hits);
            numbers::to_tenths(scaled, numbers::to_nearest(cacheable as u128))
        };
        let seconds = numbers::to_tenths(numbers::to_nearest(self.upstream_millis as u128), 1000);
        let mut out = String::new();
        out.append("cicache summary\n");
        assert(out@ =~= "cicache summary\n"@);
        out.append("  requests           ");
        numbers::push_decimal(&mut out, self.requests as u128);
        out.append("\n  cache hits         ");
        numbers::push_decimal(&mut out, self.hits as u128);
        out.append(" (");
        numbers::push_one_place(&mut out, hit_rate);
        out.append("% of cacheable)\n  cache misses       ");
        numbers::push_decimal(&mut out, self.misses as u128);
        out.append(" (");
        numbers::push_decimal(&mut out, self.stored as u128);
        out.append(" stored for later runs)\n  passed through     ");
        numbers::push_decimal(&mut out, self.passthrough as u128);
        out.append("\n  errors             ");
        numbers::push_decimal(&mut out, self.errors as u128);
        out.append("\n  served from cache  ");
        out.append(human_bytes(self.bytes_from_cache).as_str());
        out.append("\n  fetched upstream   ");
        out.append(human_bytes(self.bytes_from_network).as_str());
        out.append("  in ");
        numbers::push_one_place(&mut out, seconds);
        out.append("s\n  uploaded to cache  ");
        out.append(human_bytes(self.bytes_uploaded).as_str());
        out.append(" across ");
        numbers::push_decimal(&mut out, self.entries_stored as u128);
        out.append(" entries (");
        numbers::push_decimal(&mut out, self.uploads_failed as u128);
        out.append(" failed)\n  packed together    ");
        out.append(human_bytes(self.packed_bytes).as_str());
        out.append(" across ");
        numbers::push_decimal(&mut out, self.packed as u128);
        out.append(" objects\n");
        out
    }
}

/// The counters of a run that has seen no request yet.
pub open spec fn no_counts() -> Summary {
    Summary {
        requests: 0,
        hits: 0,
        misses: 0,
        stored: 0,
        passthrough: 0,
        errors: 0,
        bytes_from_cache: 0,
        bytes_from_network: 0,
        bytes_uploaded: 0,
        entries_stored: 0,
        packed: 0,
        packed_bytes: 0,
        uploads_failed: 0,
        upstream_millis: 0,
    }
}

/// The counters after one more request. Counters wrap around.
pub open spec fn counted(s: Summary, outcome: Outcome, bytes: u64, millis: u64) -> Summary {
    let s = Summary { requests: s.requests.wrapping_add(1), ..s };
    match outcome {
        Outcome::Hit => Summary {
            hits: s.hits.wrapping_add(1),
            bytes_from_cache: s.bytes_from_cache.wrapping_add(bytes),
            ..s
        },
        Outcome::Stored => Summary {
            misses: s.misses.wrapping_add(1),
            stored: s.stored.wrapping_add(1),
            bytes_from_network: s.bytes_from_network.wrapping_add(bytes),
            upstream_millis: s.upstream_millis.wrapping_add(millis),
            ..s
        },
        Outcome::Miss(_) => Summary {
            misses: s.misses.wrapping_add(1),
            bytes_from_network: s.bytes_from_network.wrapping_add(bytes),
            upstream_millis: s.upstream_millis.wrapping_add(millis),
            ..s
        },
        Outcome::Pass(_) => Summary {
            passthrough: s.passthrough.wrapping_add(1),
            bytes_from_network: s.bytes_from_network.wrapping_add(bytes),
            ..s
        },
        Outcome::Error(_) => Summary { errors: s.errors.wrapping_add(1), ..s },
    }
}

/// The counters after one more upload.
pub open spec fn counted_upload(s: Summary, bytes: u64, ok: bool) -> Summary {
    if ok {
        Summary {
            entries_stored: s.entries_stored.wrapping_add(1),
            bytes_uploaded: s.bytes_uploaded.wrapping_add(bytes),
            ..s
        }
    } else {
        Summary { uploads_failed: s.uploads_failed.wrapping_add(1), ..s }
    }
}

/// What the log calls an outcome, with the reason for one that was not a hit.
pub open spec fn label(outcome: Outcome) -> Seq<char> {
    match outcome {
        Outcome::Hit => "HIT  "@,
        Outcome::Stored => "MISS "@,
        Outcome::Miss(reason) => "MISS ("@ + reason@ + ")"@,
        Outcome::Pass(reason) => "PASS ("@ + reason@ + ")"@,
        Outcome::Error(reason) => "ERROR ("@ + reason@ + ")"@,
    }
}

/// The line that the log has for one request.
pub open spec fn log_line(
    outcome: Outcome,
    method: Seq<char>,
    url: Seq<char>,
    bytes: u64,
    millis: u64,
) -> Seq<char> {
    text::pad_right(label(outcome), 32) + " "@ + text::pad_left(human(bytes as nat), 10) + " "@
        + text::pad_left(numbers::decimal(millis as nat) + "ms"@, 8) + "  "@ + method + " "@ + url
        + (if outcome is Stored {
        "  -> stored"@
    } else {
        Seq::empty()
    }) + "\n"@
}

/// Adds `s` to the end of `out`, at the left of a field at least `width` characters wide.
fn push_left(out: &mut String, s: &str, width: usize)
    ensures
        final(out)@ == old(out)@ + text::pad_right(s@, width as int),
{
    let len = s.unicode_len();
    out.append(s);
    text::push_blanks(out, len, width);
    assert(out@ =~= old(out)@ + text::pad_right(s@, width as int));
}

/// Adds `s` to the end of `out`, at the right of a field at least `width` characters wide.
fn push_right(out: &mut String, s: &str, width: usize)
    ensures
        final(out)@ == old(out)@ + text::pad_left(s@, width as int),
{
    let len = s.unicode_len();
    text::push_blanks(out, len, width);
    out.append(s);
    assert(out@ =~= old(out)@ + text::pad_left(s@, width as int));
}

/// `name` with the reason in brackets behind it.
fn reasoned(name: &str, reason: &str) -> (out: String)
    ensures
        out@ == name@ + reason@ + ")"@,
{
    let mut out = String::new();
    out.append(name);
    assert(out@ =~= name@);
    out.append(reason);
    out.append(")");
    out
}

impl Stats {
    /// The counters as they stand.
    pub closed spec fn view(&self) -> Summary {
        self.counts
    }

    /// Counts one request and says which line the log has for it.
    pub fn record(
        &mut self,
        outcome: &Outcome,
        method: &str,
        url: &str,
        bytes: u64,
        millis: u64,
    ) -> (line: String)
        ensures
            final(self)@ == counted(old(self)@, *outcome, bytes, millis),
            line@ == log_line(*outcome, method@, url@, bytes, millis),
    {
        let c = &mut self.counts;
        c.requests = c.requests.wrapping_add(1);
        let label = match outcome {
            Outcome::Hit => {
                c.hits = c.hits.wrapping_add(1);
                c.bytes_from_cache = c.bytes_from_cache.wrapping_add(bytes);
                "HIT  ".to_string()
            },
            Outcome::Stored => {
                c.misses = c.misses.wrapping_add(1);
                c.stored = c.stored.wrapping_add(1);
                c.bytes_from_network = c.bytes_from_network.wrapping_add(bytes);
                c.upstream_millis = c.upstream_millis.wrapping_add(millis);
                "MISS ".to_string()
            },
            Outcome::Miss(reason) => {
                c.misses = c.misses.wrapping_add(1);
                c.bytes_from_network = c.bytes_from_network.wrapping_add(bytes);
                c.upstream_millis = c.upstream_millis.wrapping_add(millis);
                reasoned("MISS (", reason)
            },
            Outcome::Pass(reason) => {
                c.passthrough = c.passthrough.wrapping_add(1);
                c.bytes_from_network = c.bytes_from_network.wrapping_add(bytes);
                reasoned("PASS (", reason)
            },
            Outcome::Error(reason) => {
                c.errors = c.errors.wrapping_add(1);
                reasoned("ERROR (", reason)
            },
        };
        let mut took = numbers::to_decimal(millis);
        took.append("ms");
        let size = human_bytes(bytes);
        let mut line = String::new();
        push_left(&mut line, label.as_str(), 32);
        assert(line@ =~= text::pad_right(label@, 32));
        line.append(" ");
        push_right(&mut line, size.as_str(), 10);
        line.append(" ");
        push_right(&mut line, took.as_str(), 8);
        line.append("  ");
        line.append(method);
        line.append(" ");
        line.append(url);
        if let Outcome::Stored = outcome {
            line.append("  -> stored");
        } else {
            assert(line@ + Seq::<char>::empty() =~= line@);
        }
        line.append("\n");
        line
    }

    /// Counts one upload, which either stored `bytes` or failed.
    pub fn record_upload(&mut self, bytes: u64, ok: bool)
        ensures
            final(self)@ == counted_upload(old(self)@, bytes, ok),
    {
        let c = &mut self.counts;
        if ok {
            c.entries_stored = c.entries_stored.wrapping_add(1);
            c.bytes_uploaded = c.bytes_uploaded.wrapping_add(bytes);
        } else {
            c.uploads_failed = c.uploads_failed.wrapping_add(1);
        }
    }

    /// Notes what the packed entry carries, in place of what was noted before.
    pub fn record_packed(&mut self, objects: u64, bytes: u64)
        ensures
            final(self)@ == (Summary { packed: objects, packed_bytes: bytes, ..old(self)@ }),
    {
        self.counts.packed = objects;
        self.counts.packed_bytes = bytes;
    }

    /// The counters as they stand.
    pub fn summary(&self) -> (out: Summary)
        ensures
            out == self@,
    {
        self.counts
    }
}

impl Default for Summary {
    fn default() -> (out: Self)
        ensures
            out == no_counts(),
    {
        Summary {
            requests: 0,
            hits: 0,
            misses: 0,
            stored: 0,
            passthrough: 0,
            errors: 0,
            bytes_from_cache: 0,
            bytes_from_network: 0,
            bytes_uploaded: 0,
            entries_stored: 0,
            packed: 0,
            packed_bytes: 0,
            uploads_failed: 0,
            upstream_millis: 0,
        }
    }
}

impl Default for Stats {
    fn default() -> (out: Self)
        ensures
            out@ == no_counts(),
    {
        Stats { counts: Summary::default() }
    }
}

/// Whether every request that was counted was counted under exactly one outcome.
pub open spec fn balanced(s: Summary) -> bool {
    s.requests as int == (s.hits + s.misses + s.passthrough + s.errors) % 0x1_0000_0000_0000_0000
}

/// A run starts balanced, and every operation keeps it so: the hits, misses, forwarded requests and
/// errors always add up to the requests, up to wrapping around.
pub proof fn law_counters_balance(
    s: Summary,
    outcome: Outcome,
    bytes: u64,
    millis: u64,
    ok: bool,
    objects: u64,
)
    ensures
        balanced(no_counts()),
        balanced(s) ==> balanced(counted(s, outcome, bytes, millis)),
        balanced(s) ==> balanced(counted_upload(s, bytes, ok)),
        balanced(s) ==> balanced(Summary { packed: objects, packed_bytes: bytes, ..s }),
{
}

/// Stored responses are misses: they never outnumber them, until a counter wraps around.
pub proof fn law_stored_responses_are_misses(
    s: Summary,
    outcome: Outcome,
    bytes: u64,
    millis: u64,
    ok: bool,
    objects: u64,
)
    requires
        s.stored <= s.misses,
        s.misses < u64::MAX,
    ensures
        no_counts().stored <= no_counts().misses,
        counted(s, outcome, bytes, millis).stored <= counted(s, outcome, bytes, millis).misses,
        counted_upload(s, bytes, ok).stored <= counted_upload(s, bytes, ok).misses,
        (Summary { packed: objects, packed_bytes: bytes, ..s }).stored <= s.misses,
{
}

/// Only a hit is counted as served from the cache, and a hit costs nothing upstream.
pub proof fn law_only_hits_come_from_the_cache(
    s: Summary,
    outcome: Outcome,
    bytes: u64,
    millis: u64,
)
    ensures
        !(outcome is Hit) ==> counted(s, outcome, bytes, millis).bytes_from_cache
            == s.bytes_from_cache && counted(s, outcome, bytes, millis).hits == s.hits,
        outcome is Hit ==> counted(s, outcome, bytes, millis).bytes_from_network
            == s.bytes_from_network && counted(s, outcome, bytes, millis).upstream_millis
            == s.upstream_millis,
{
}

/// Every line of the log that is not a hit says why: it holds the reason, or that the response was
/// stored.
pub proof fn law_lines_say_why(
    outcome: Outcome,
    method: Seq<char>,
    url: Seq<char>,
    bytes: u64,
    millis: u64,
)
    ensures
        outcome matches Outcome::Miss(reason) ==> text::occurs(
            reason@,
            log_line(outcome, method, url, bytes, millis),
        ),
        outcome matches Outcome::Pass(reason) ==> text::occurs(
            reason@,
            log_line(outcome, method, url, bytes, millis),
        ),
        outcome matches Outcome::Error(reason) ==> text::occurs(
            reason@,
            log_line(outcome, method, url, bytes, millis),
        ),
        outcome is Stored ==> "  -> stored\n"@.is_suffix_of(
            log_line(outcome, method, url, bytes, millis),
        ),
{
    let line = log_line(outcome, method, url, bytes, millis);
    reveal_strlit("MISS (");
    reveal_strlit("PASS (");
    reveal_strlit("ERROR (");
    match outcome {
        Outcome::Miss(reason) => {
            assert(line.subrange(6, 6 + reason@.len() as int) =~= reason@);
        },
        Outcome::Pass(reason) => {
            assert(line.subrange(6, 6 + reason@.len() as int) =~= reason@);
        },
        Outcome::Error(reason) => {
            assert(line.subrange(7, 7 + reason@.len() as int) =~= reason@);
        },
        Outcome::Stored => {
            reveal_strlit("  -> stored");
            reveal_strlit("\n");
            reveal_strlit("  -> stored\n");
            assert(line.subrange(line.len() - 12, line.len() as int) =~= "  -> stored\n"@);
        },
        Outcome::Hit => {},
    }
}

/// Whether a number of tenths is the one nearest to a number of bytes in some unit, the even one of two
/// that are equally near.
pub open spec fn nearest_tenths(bytes: nat, unit: nat, t: nat) -> bool {
    let miss = 2 * (10 * bytes - unit * t);
    -(unit as int) < miss < unit || ((miss == unit || miss == -unit) && t % 2 == 0)
}

/// Bytes are written in whole bytes below 1024, in KiB below 1024 of those, in MiB below 1024 of
/// those, and in GiB from there on, to the nearest tenth. From 2^53 bytes on it is the nearest number
/// of 53 bits that is written.
pub proof fn law_bytes_for_people(bytes: nat, t: nat)
    ensures
        bytes < 1024 ==> human(bytes) == numbers::decimal(bytes) + " B"@,
        1024 <= bytes < 1024 * 1024 && nearest_tenths(bytes, 1024, t) ==> human(bytes)
            == numbers::one_place(t) + " KiB"@,
        1024 * 1024 <= bytes < 1024 * 1024 * 1024 && nearest_tenths(bytes, 1024 * 1024, t) ==> human(
            bytes,
        ) == numbers::one_place(t) + " MiB"@,
        1024 * 1024 * 1024 <= bytes && nearest_tenths(
            numbers::nearest(bytes),
            1024 * 1024 * 1024,
            t,
        ) ==> human(bytes) == numbers::one_place(t) + " GiB"@,
{
    numbers::law_nearest_is_near(bytes);
    lemma_nearest_tenths(bytes, 1024, t);
    lemma_nearest_tenths(bytes, 0x10_0000, t);
    lemma_nearest_tenths(numbers::nearest(bytes), 0x4000_0000, t);
}

/// There is one nearest number of tenths.
proof fn lemma_nearest_tenths(bytes: nat, unit: nat, t: nat)
    requires
        unit == 1024 || unit == 0x10_0000 || unit == 0x4000_0000,
    ensures
        nearest_tenths(bytes, unit, t) ==> numbers::round_even(10 * bytes, unit) == t,
{
    numbers::law_rounding(10 * bytes, unit);
    let q = numbers::round_even(10 * bytes, unit);
    assert(unit * t == t * unit) by (nonlinear_arith);
    if nearest_tenths(bytes, unit, t) && q != t {
        if q > t {
            assert(q * unit >= t * unit + unit) by (nonlinear_arith)
                requires
                    q >= t + 1,
            ;
            assert(q * unit == t * unit + unit);
            assert(q == t + 1) by (nonlinear_arith)
                requires
                    q * unit == t * unit + unit,
                    unit > 0,
            ;
        } else {
            assert(t * unit >= q * unit + unit) by (nonlinear_arith)
                requires
                    t >= q + 1,
            ;
            assert(t * unit == q * unit + unit);
            assert(t == q + 1) by (nonlinear_arith)
                requires
                    t * unit == q * unit + unit,
                    unit > 0,
            ;
        }
    }
}

/// What each outcome counts, and nothing else: a hit one hit and the bytes as served from the cache; a
/// miss one miss, the bytes as fetched and the time, and one stored where it was stored; a forwarded
/// request one such and the bytes as fetched; an error one error. Each counts one request.
pub proof fn law_what_is_counted(s: Summary, outcome: Outcome, bytes: u64, millis: u64)
    ensures
        ({
            let after = counted(s, outcome, bytes, millis);
            let miss = outcome is Stored || outcome is Miss;
            &&& after.requests == s.requests.wrapping_add(1)
            &&& after.hits == if outcome is Hit {
                s.hits.wrapping_add(1)
            } else {
                s.hits
            }
            &&& after.misses == if miss {
                s.misses.wrapping_add(1)
            } else {
                s.misses
            }
            &&& after.stored == if outcome is Stored {
                s.stored.wrapping_add(1)
            } else {
                s.stored
            }
            &&& after.passthrough == if outcome is Pass {
                s.passthrough.wrapping_add(1)
            } else {
                s.passthrough
            }
            &&& after.errors == if outcome is Error {
                s.errors.wrapping_add(1)
            } else {
                s.errors
            }
            &&& after.bytes_from_cache == if outcome is Hit {
                s.bytes_from_cache.wrapping_add(bytes)
            } else {
                s.bytes_from_cache
            }
            &&& after.bytes_from_network == if miss || outcome is Pass {
                s.bytes_from_network.wrapping_add(bytes)
            } else {
                s.bytes_from_network
            }
            &&& after.upstream_millis == if miss {
                s.upstream_millis.wrapping_add(millis)
            } else {
                s.upstream_millis
            }
            &&& after.bytes_uploaded == s.bytes_uploaded
            &&& after.entries_stored == s.entries_stored
            &&& after.packed == s.packed
            &&& after.packed_bytes == s.packed_bytes
            &&& after.uploads_failed == s.uploads_failed
        }),
{
}

/// An upload counts one entry and its bytes where it landed, and one failure where it did not; what the
/// packed entry carries is noted; neither counts anything else.
pub proof fn law_uploads_are_counted(
    stats: &mut Stats,
    packing: &mut Stats,
    bytes: u64,
    ok: bool,
    objects: u64,
    done: (),
)
    requires
        call_ensures(Stats::record_upload, (stats, bytes, ok), done),
        call_ensures(Stats::record_packed, (packing, objects, bytes), done),
    ensures
        ok ==> final(stats)@ == (Summary {
            entries_stored: old(stats)@.entries_stored.wrapping_add(1),
            bytes_uploaded: old(stats)@.bytes_uploaded.wrapping_add(bytes),
            ..old(stats)@
        }),
        !ok ==> final(stats)@ == (Summary {
            uploads_failed: old(stats)@.uploads_failed.wrapping_add(1),
            ..old(stats)@
        }),
        final(packing)@ == (Summary { packed: objects, packed_bytes: bytes, ..old(packing)@ }),
{
}

/// The line of a request names what became of it and why, at the left of 32 characters; how large it
/// was, at the right of 10; how long it took, at the right of 8; its method; and its URL. Behind the
/// URL of a response that was stored stands that it was.
pub proof fn law_log_lines(
    outcome: Outcome,
    method: Seq<char>,
    url: Seq<char>,
    bytes: u64,
    millis: u64,
    what: Seq<char>,
)
    requires
        what == match outcome {
            Outcome::Hit => "HIT  "@,
            Outcome::Stored => "MISS "@,
            Outcome::Miss(reason) => "MISS ("@ + reason@ + seq![')'],
            Outcome::Pass(reason) => "PASS ("@ + reason@ + seq![')'],
            Outcome::Error(reason) => "ERROR ("@ + reason@ + seq![')'],
        },
    ensures
        ({
            let line = log_line(outcome, method, url, bytes, millis);
            let fields = text::pad_right(what, 32).push(' ') + text::pad_left(
                human(bytes as nat),
                10,
            ).push(' ') + text::pad_left(
                numbers::decimal(millis as nat) + seq!['m', 's'],
                8,
            ) + seq![' ', ' '];
            let end = if outcome is Stored {
                "  -> stored\n"@
            } else {
                seq!['\n']
            };
            line == fields + method + seq![' '] + url + end
        }),
{
    reveal_strlit(")");
    reveal_strlit(" ");
    reveal_strlit("  ");
    reveal_strlit("ms");
    reveal_strlit("\n");
    reveal_strlit("  -> stored");
    reveal_strlit("  -> stored\n");
    assert(")"@ =~= seq![')']);
    assert("ms"@ =~= seq!['m', 's']);
    assert(label(outcome) == what);
    let line = log_line(outcome, method, url, bytes, millis);
    let took = text::pad_left(numbers::decimal(millis as nat) + seq!['m', 's'], 8);
    let size = text::pad_left(human(bytes as nat), 10);
    let head = text::pad_right(what, 32);
    let fields = head.push(' ') + size.push(' ') + took + seq![' ', ' '];
    assert(fields =~= head + " "@ + size + " "@ + took + "  "@);
    if outcome is Stored {
        assert("  -> stored"@ + "\n"@ =~= "  -> stored\n"@);
        assert(line =~= fields + method + seq![' '] + url + "  -> stored\n"@);
    } else {
        assert(line =~= fields + method + seq![' '] + url + seq!['\n']);
    }
}

/// The share of the hits among the requests that could be cached, in tenths of a hundredth, as it is
/// summed up: no more than half of a tenth and a two-hundredth of one off. Nothing of nothing is
/// nothing.
pub proof fn law_the_hit_rate(s: Summary, rate: nat)
    requires
        s.hits + s.misses < 0x100_0000_0000,
        rate == if s.hits + s.misses == 0 {
            0
        } else {
            numbers::tenths(
                numbers::nearest(100 * numbers::nearest(s.hits as nat)),
                numbers::nearest((s.hits + s.misses) as nat),
            )
        },
    ensures
        -101 * (s.hits + s.misses) <= 200 * (1000 * s.hits - rate * (s.hits + s.misses)) <= 101 * (
        s.hits + s.misses),
{
    let all = (s.hits + s.misses) as nat;
    if all > 0 {
        numbers::law_nearest_is_near(s.hits as nat);
        numbers::law_nearest_is_near(100 * s.hits as nat);
        numbers::law_nearest_is_near(all);
        numbers::law_tenths_are_near(100 * s.hits as nat, all);
    } else {
        assert(rate * 0 == 0);
    }
}

/// The summary of a run says line by line how many requests there were, how many of them were hits,
/// and what share of those that could be cached; how many were misses, and how many of these were
/// stored; how many were passed through, and how many failed; how much was served from the cache, how
/// much was fetched, and in what time; and how much was uploaded, and how much of it together.
pub proof fn law_the_summary(s: Summary, rate: nat, seconds: nat)
    requires
        rate == if s.hits + s.misses == 0 {
            0
        } else {
            numbers::tenths(
                numbers::nearest(100 * numbers::nearest(s.hits as nat)),
                numbers::nearest((s.hits + s.misses) as nat),
            )
        },
        seconds == numbers::tenths(numbers::nearest(s.upstream_millis as nat), 1000),
    ensures
        summary_text(s) == "cicache summary\n"@ + "  requests           "@ + numbers::decimal(
            s.requests as nat,
        ) + "\n  cache hits         "@ + numbers::decimal(s.hits as nat) + " ("@
            + numbers::one_place(rate) + "% of cacheable)\n  cache misses       "@
            + numbers::decimal(s.misses as nat) + " ("@ + numbers::decimal(s.stored as nat)
            + " stored for later runs)\n  passed through     "@ + numbers::decimal(
            s.passthrough as nat,
        ) + "\n  errors             "@ + numbers::decimal(s.errors as nat)
            + "\n  served from cache  "@ + human(s.bytes_from_cache as nat)
            + "\n  fetched upstream   "@ + human(s.bytes_from_network as nat) + "  in "@
            + numbers::one_place(seconds) + "s\n  uploaded to cache  "@ + human(
            s.bytes_uploaded as nat,
        ) + " across "@ + numbers::decimal(s.entries_stored as nat) + " entries ("@
            + numbers::decimal(s.uploads_failed as nat) + " failed)\n  packed together    "@
            + human(s.packed_bytes as nat) + " across "@ + numbers::decimal(s.packed as nat)
            + " objects\n"@,
{
}

/// A run begins with nothing counted.
pub proof fn law_runs_begin_at_nothing(stats: Stats, summary: Summary)
    requires
        call_ensures(Stats::default, (), stats),
        call_ensures(Stats::summary, (&stats,), summary),
    ensures
        summary.requests == 0 && summary.hits == 0 && summary.misses == 0 && summary.stored == 0,
        summary.passthrough == 0 && summary.errors == 0 && summary.bytes_from_cache == 0,
        summary.bytes_from_network == 0 && summary.bytes_uploaded == 0 && summary.entries_stored
            == 0,
        summary.packed == 0 && summary.packed_bytes == 0 && summary.uploads_failed == 0,
        summary.upstream_millis == 0,
{
}

/// Requests are counted and put into lines as stated, and so are bytes and summaries.
pub proof fn law_requests_are_recorded(
    stats: &mut Stats,
    outcome: &Outcome,
    method: &str,
    url: &str,
    bytes: u64,
    millis: u64,
    line: String,
    size: String,
    s: &Summary,
    text: String,
)
    requires
        call_ensures(Stats::record, (stats, outcome, method, url, bytes, millis), line),
        call_ensures(human_bytes, (bytes,), size),
        call_ensures(Summary::render, (s,), text),
    ensures
        final(stats)@ == counted(old(stats)@, *outcome, bytes, millis),
        line@ == log_line(*outcome, method@, url@, bytes, millis),
        size@ == human(bytes as nat),
        text@ == summary_text(*s),
{
}

/// The counters are told as they stand.
pub proof fn law_counters_are_told(stats: &Stats, out: Summary)
    requires
        call_ensures(Stats::summary, (stats,), out),
    ensures
        out == stats@,
{
}

} // verus!

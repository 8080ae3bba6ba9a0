//! A request for something upstream, from where it arrives to where it is answered.
//!
//! What is sent, looked up or read is done outside between one stage and the next, and what came of
//! it is handed to the next stage.

use crate::entry::{Entry, EntryError};
use crate::headers::Fields;
use crate::policy::{Policy, Reject};
use crate::proxy::{Cache, Proxy, Response};
use crate::stats::{Outcome, Stats, Summary};
use crate::url::{Url, UrlModel};
use crate::{entry, headers, numbers, policy, proxy, stats, text, url, wire};
use bytes::Bytes;
use hyper::header::{HeaderMap, HeaderValue};
use vstd::prelude::*;
use vstd::utf8::encode_utf8;

verus! {

/// How a request is treated.
pub enum Handling {
    /// It is passed through.
    Forward(Forwarding),
    /// It is looked up in the cache.
    Lookup(Pending),
}

/// A request that is to be passed through.
pub struct Forwarding {
    pub method: String,
    pub url: Url,
    /// Why it is not looked up.
    pub reject: Reject,
    /// The headers that it goes upstream with.
    pub headers: HeaderMap<HeaderValue>,
}

/// A request that is to be looked up in the cache.
pub struct Pending {
    pub method: String,
    pub url: Url,
    /// The headers that it arrived with.
    pub headers: HeaderMap<HeaderValue>,
    pub key: String,
}

/// What came of looking a request up.
pub enum Found {
    /// It is answered from the cache, and the line is for the log.
    Hit { response: Response, line: String },
    /// It has to be fetched, and the note says what was wrong with what the cache had.
    Fetch { fetching: Fetching, note: Option<String> },
    /// It has to be fetched, and a header map has no room for its headers.
    Full,
}

/// A request that is to be fetched.
pub struct Fetching {
    pub method: String,
    pub url: Url,
    pub key: String,
    /// The headers that it goes upstream with.
    pub headers: HeaderMap<HeaderValue>,
}

/// What is to be done with a response, by its status and headers.
pub enum Head {
    /// Its body is streamed through under these headers, and the line is for the log.
    Stream { headers: HeaderMap<HeaderValue>, line: String },
    /// Its body is read.
    Read(Reading),
    /// Its body would be streamed through, and a header map has no room for its headers.
    Full,
}

/// A response whose body is to be read.
pub struct Reading {
    pub method: String,
    pub url: Url,
    pub key: String,
    pub status: u16,
    /// The headers of the response but for those that describe the hop.
    pub headers: HeaderMap<HeaderValue>,
}

/// What is to be done with a response that was read.
pub enum Body {
    /// The entry is stored under the key.
    Store { key: String, entry: Entry, answering: Answering },
    /// It may not be stored.
    Drop { reject: Reject, answering: Answering },
}

/// A response that is to be handed to the client.
pub struct Answering {
    pub method: String,
    pub url: Url,
    pub status: u16,
    pub headers: HeaderMap<HeaderValue>,
    pub body: Bytes,
}

/// What became of a response that was read.
#[derive(Debug, Clone, Copy, PartialEq, Eq, Structural)]
pub enum Kept {
    /// It was encoded and handed to the store.
    Stored,
    /// It may not be stored.
    Rejected(Reject),
    /// It could not be encoded.
    Unencodable,
}

/// Whether an outcome is that of a request that was passed through.
pub open spec fn passed(outcome: Outcome, reject: Reject) -> bool {
    outcome matches Outcome::Pass(r) && r@ == policy::reason(reject)
}

/// Whether an outcome is that of a response that was fetched.
pub open spec fn fetched(outcome: Outcome, kept: Kept) -> bool {
    match kept {
        Kept::Stored => outcome is Stored,
        Kept::Rejected(reject) => outcome matches Outcome::Miss(r) && r@ == policy::reason(reject),
        Kept::Unencodable => outcome matches Outcome::Miss(r) && r@ == "encode failed"@,
    }
}

/// Whether an outcome was counted, and a line is that of the log for it.
pub open spec fn noted(
    before: Summary,
    after: Summary,
    line: Seq<char>,
    outcome: Outcome,
    method: Seq<char>,
    u: UrlModel,
    bytes: u64,
    millis: u64,
) -> bool {
    &&& after == stats::counted(before, outcome, bytes, millis)
    &&& line == stats::log_line(outcome, method, url::url_text(u), bytes, millis)
}

/// The length that a response declares.
pub open spec fn declared_len(declared: Option<u64>) -> u64 {
    match declared {
        Some(n) => n,
        None => 0,
    }
}

impl Proxy {
    /// Decides how a request for something upstream is treated.
    pub fn handle(&self, method: &str, url: Url, headers: HeaderMap<HeaderValue>) -> (out: Handling)
        ensures
            match self.policy.request_verdict(method@, url@, headers::fields(headers)) {
                Err(reject) => {
                    &&& out matches Handling::Forward(f)
                    &&& f.method@ == method@
                    &&& f.url == url
                    &&& f.reject == reject
                    &&& headers::fields(f.headers) == headers::sanitized(headers::fields(headers))
                },
                Ok(_) => {
                    &&& out matches Handling::Lookup(p)
                    &&& p.method@ == method@
                    &&& p.url == url
                    &&& p.headers == headers
                    &&& p.key@ == self.policy.key_of(url@)
                },
            },
    {
        match self.policy.request_eligible(method, &url, &headers) {
            Err(reject) => Handling::Forward(
                Forwarding {
                    method: method.to_string(),
                    url,
                    reject,
                    headers: headers::sanitize(&headers),
                },
            ),
            Ok(_) => {
                let key = self.policy.key(&url);
                Handling::Lookup(Pending { method: method.to_string(), url, headers, key })
            },
        }
    }
}

impl Forwarding {
    /// Counts the request and takes the headers of the response on, with the line for the log, where
    /// a header map has room for them. The body is streamed through.
    pub fn responded(
        self,
        stats: &mut Stats,
        headers: &HeaderMap<HeaderValue>,
        declared: Option<u64>,
        elapsed: u64,
    ) -> (out: Option<(HeaderMap<HeaderValue>, String)>)
        ensures
            headers::roomy(headers::fields(*headers)) ==> out is Some,
            out is None ==> final(stats)@ == old(stats)@,
            out matches Some(made) ==> headers::fields(made.0) == proxy::tagged(
                headers::sanitized(headers::fields(*headers)),
                Cache::Pass,
            ),
            out matches Some(made) ==> exists|outcome: Outcome| #[trigger]
                passed(outcome, self.reject) && noted(
                    old(stats)@,
                    final(stats)@,
                    made.1@,
                    outcome,
                    self.method@,
                    self.url@,
                    declared_len(declared),
                    elapsed,
                ),
    {
        let declared = match declared {
            Some(n) => n,
            None => 0,
        };
        let headers = match proxy::stream_headers(headers, Cache::Pass) {
            Some(headers) => headers,
            None => return None,
        };
        let target = self.url.as_str();
        let outcome = Outcome::Pass(self.reject.as_str());
        assert(passed(outcome, self.reject));
        let line = stats.record(&outcome, self.method.as_str(), target.as_str(), declared, elapsed);
        Some((headers, line))
    }
}

/// Whether what the cache had is sure to be served: it is an entry, and a header map is sure to have
/// room for its headers and two more.
pub open spec fn is_servable(found: Option<Result<Entry, EntryError>>) -> bool {
    found matches Some(Ok(e)) && headers::roomy(entry::replayed(e.header@.headers))
}

/// What is wrong with what the cache had.
pub open spec fn complaint(found: Option<Result<Entry, EntryError>>) -> Seq<char> {
    match found {
        Some(Err(e)) => entry::error_text(e),
        _ => "too many headers"@,
    }
}

/// What there is to say about an entry that is discarded.
fn discarding(url: &str, reason: &str) -> (out: String)
    ensures
        out@ == "cicache: discarding entry for "@ + url@ + ": "@ + reason@,
{
    let out = text::concat3("cicache: discarding entry for ", url, ": ");
    text::concat(out.as_str(), reason)
}

impl Pending {
    /// Answers the request from the cache, or has it fetched. `found` is what was made of what the
    /// store had; an entry that is damaged, or has more headers than a header map has room for, is
    /// discarded rather than served.
    pub fn looked_up(self, stats: &mut Stats, found: Option<Result<Entry, EntryError>>) -> (out:
        Found)
        ensures
            is_servable(found) ==> out is Hit,
            headers::roomy(headers::fields(self.headers)) ==> !(out is Full),
            match out {
                Found::Hit { response, line } => {
                    &&& found matches Some(Ok(entry))
                    &&& proxy::is_replay(response, entry)
                    &&& noted(
                        old(stats)@,
                        final(stats)@,
                        line@,
                        Outcome::Hit,
                        self.method@,
                        self.url@,
                        wire::content(entry.body).len() as u64,
                        0,
                    )
                },
                Found::Fetch { fetching, note } => {
                    &&& fetching.method == self.method
                    &&& fetching.url == self.url
                    &&& fetching.key == self.key
                    &&& headers::fields(fetching.headers) == proxy::pinned(
                        headers::sanitized(headers::fields(self.headers)),
                    )
                    &&& final(stats)@ == old(stats)@
                    &&& note is Some == found is Some
                    &&& note matches Some(words) ==> words@ == "cicache: discarding entry for "@
                        + url::url_text(self.url@) + ": "@ + complaint(found)
                },
                Found::Full => final(stats)@ == old(stats)@,
            },
    {
        let note = match found {
            Some(Ok(entry)) => {
                let target = self.url.as_str();
                let len = wire::as_slice(&entry.body).len();
                if let Some(response) = proxy::replay(entry) {
                    let line = stats.record(
                        &Outcome::Hit,
                        self.method.as_str(),
                        target.as_str(),
                        len as u64,
                        0,
                    );
                    return Found::Hit { response, line };
                }
                Some(discarding(target.as_str(), "too many headers"))
            },
            Some(Err(e)) => {
                let target = self.url.as_str();
                Some(discarding(target.as_str(), e.message()))
            },
            None => None,
        };
        match proxy::upstream_headers(&self.headers) {
            Some(headers) => {
                let fetching = Fetching { method: self.method, url: self.url, key: self.key, headers };
                Found::Fetch { fetching, note }
            },
            None => Found::Full,
        }
    }
}

impl Fetching {
    /// Decides by its status and headers what is to be done with the response. Streaming past the
    /// ceiling avoids holding a large artifact in memory only to reject it.
    pub fn responded(
        self,
        policy: &Policy,
        stats: &mut Stats,
        status: u16,
        headers: &HeaderMap<HeaderValue>,
        declared: Option<u64>,
        elapsed: u64,
    ) -> (out: Head)
        ensures
            headers::roomy(headers::fields(*headers)) ==> !(out is Full),
            out is Full ==> declared_len(declared) > policy.max_size && final(stats)@ == old(stats)@,
            if declared_len(declared) > policy.max_size {
                out is Full || {
                    &&& out matches Head::Stream { headers: h, line }
                    &&& headers::fields(h) == proxy::tagged(
                        headers::sanitized(headers::fields(*headers)),
                        Cache::Miss,
                    )
                    &&& exists|outcome: Outcome| #[trigger]
                        fetched(outcome, Kept::Rejected(Reject::TooLarge)) && noted(
                            old(stats)@,
                            final(stats)@,
                            line@,
                            outcome,
                            self.method@,
                            self.url@,
                            declared_len(declared),
                            elapsed,
                        )
                }
            } else {
                &&& out matches Head::Read(r)
                &&& r.method == self.method
                &&& r.url == self.url
                &&& r.key == self.key
                &&& r.status == status
                &&& headers::fields(r.headers) == headers::sanitized(headers::fields(*headers))
                &&& final(stats)@ == old(stats)@
            },
    {
        let declared = match declared {
            Some(n) => n,
            None => 0,
        };
        if declared > policy.max_size {
            let headers = match proxy::stream_headers(headers, Cache::Miss) {
                Some(headers) => headers,
                None => return Head::Full,
            };
            let target = self.url.as_str();
            let outcome = Outcome::Miss(Reject::TooLarge.as_str());
            assert(fetched(outcome, Kept::Rejected(Reject::TooLarge)));
            let line = stats.record(
                &outcome,
                self.method.as_str(),
                target.as_str(),
                declared,
                elapsed,
            );
            return Head::Stream { headers, line };
        }
        Head::Read(
            Reading {
                method: self.method,
                url: self.url,
                key: self.key,
                status,
                headers: headers::sanitize(headers),
            },
        )
    }
}

/// Whether a response is handed to the client as it was read.
pub open spec fn unchanged(a: Answering, r: Reading, body: Seq<u8>) -> bool {
    &&& a.method == r.method
    &&& a.url == r.url
    &&& a.status == r.status
    &&& a.headers == r.headers
    &&& wire::content(a.body) == body
}

impl Reading {
    /// Decides whether the response is stored, and as what entry.
    pub fn read(self, policy: &Policy, body: Bytes) -> (out: Body)
        ensures
            match policy.response_verdict(
                self.url@,
                self.status,
                headers::fields(self.headers),
                wire::content(body).len() as u64,
            ) {
                Err(r) => {
                    &&& out matches Body::Drop { reject, answering }
                    &&& reject == r
                    &&& unchanged(answering, self, wire::content(body))
                },
                Ok(_) => {
                    &&& out matches Body::Store { key, entry, answering }
                    &&& key == self.key
                    &&& entry::is_record(
                        entry,
                        url::url_text(self.url@),
                        self.status,
                        headers::fields(self.headers),
                        wire::content(body),
                    )
                    &&& unchanged(answering, self, wire::content(body))
                },
            },
    {
        let len = wire::as_slice(&body).len();
        match policy.response_storable(&self.url, self.status, &self.headers, len as u64) {
            Err(reject) => Body::Drop {
                reject,
                answering: Answering {
                    method: self.method,
                    url: self.url,
                    status: self.status,
                    headers: self.headers,
                    body,
                },
            },
            Ok(_) => {
                let target = self.url.as_str();
                let entry = Entry::new(
                    target.as_str(),
                    self.status,
                    &self.headers,
                    wire::shared(&body),
                );
                Body::Store {
                    key: self.key,
                    entry,
                    answering: Answering {
                        method: self.method,
                        url: self.url,
                        status: self.status,
                        headers: self.headers,
                        body,
                    },
                }
            },
        }
    }
}

impl Answering {
    /// Counts the response and hands it to the client, with the line for the log, where a header map
    /// has room for its headers.
    pub fn answer(self, stats: &mut Stats, kept: Kept, elapsed: u64) -> (out: Option<
        (Response, String),
    >)
        ensures
            headers::roomy(headers::fields(self.headers)) ==> out is Some,
            out is None ==> final(stats)@ == old(stats)@,
            out matches Some(made) ==> proxy::is_response(
                made.0,
                self.status,
                headers::fields(self.headers),
                wire::content(self.body),
                Cache::Miss,
            ),
            out matches Some(made) ==> exists|outcome: Outcome| #[trigger]
                fetched(outcome, kept) && noted(
                    old(stats)@,
                    final(stats)@,
                    made.1@,
                    outcome,
                    self.method@,
                    self.url@,
                    wire::content(self.body).len() as u64,
                    elapsed,
                ),
    {
        let outcome = match kept {
            Kept::Stored => Outcome::Stored,
            Kept::Rejected(reject) => Outcome::Miss(reject.as_str()),
            Kept::Unencodable => Outcome::Miss("encode failed"),
        };
        assert(fetched(outcome, kept));
        let len = wire::as_slice(&self.body).len();
        let target = self.url.as_str();
        let response = match proxy::build(self.status, self.headers, self.body, Cache::Miss) {
            Some(response) => response,
            None => return None,
        };
        let line = stats.record(
            &outcome,
            self.method.as_str(),
            target.as_str(),
            len as u64,
            elapsed,
        );
        Some((response, line))
    }
}

/// A response that was stored is served again as it was received: a later hit has the status and the
/// body of the miss that stored it, and under every name but that of the tag the values of the miss
/// that read as text. `stored` is the entry that was made of the response when it was read, and
/// `later` what a lookup found of it.
pub proof fn law_a_hit_is_the_miss_again(
    p: Policy,
    read: Reading,
    body: Seq<u8>,
    stored: Entry,
    miss: Response,
    later: Entry,
    hit: Response,
    name: Seq<char>,
)
    requires
        p.response_verdict(
            read.url@,
            read.status,
            headers::fields(read.headers),
            body.len() as u64,
        ) is Ok,
        headers::sanitized(headers::fields(read.headers)) == headers::fields(read.headers),
        forall|n: Seq<char>| #[trigger]
            headers::fields(read.headers).contains_key(n) ==> text::lower(n) == n,
        entry::is_record(
            stored,
            url::url_text(read.url@),
            read.status,
            headers::fields(read.headers),
            body,
        ),
        proxy::is_response(
            miss,
            read.status,
            headers::fields(read.headers),
            body,
            Cache::Miss,
        ),
        later.header@ == stored.header@,
        wire::content(later.body) == wire::content(stored.body),
        proxy::is_replay(hit, later),
        headers::name_ok(name),
        name != "x-cicache"@,
    ensures
        hit.status == miss.status,
        wire::content(hit.body) == wire::content(miss.body),
        headers::values_in(headers::fields(hit.headers), name) == entry::readable(
            headers::values_in(headers::fields(miss.headers), name),
        ),
{
    let f = headers::fields(read.headers);
    let lines = stored.header@.headers;
    assert(later.header.status == later.header@.status);
    assert(stored.header.status == stored.header@.status);
    entry::law_headers_are_replayed(lines, f, name);
    reveal(Seq::filter);
    if name == "content-length"@ {
        let length = numbers::decimal(body.len());
        numbers::lemma_decimal_digits(body.len());
        assert(headers::plain(length));
        headers::lemma_plain_value(length);
        entry::lemma_readable_one(encode_utf8(length));
    } else if headers::hop_by_hop().contains(name) {
        assert(!headers::sanitized(f).contains_key(name));
    }
}

/// A request that may be looked up is, under the key of its URL and with the headers that it came
/// with; any other is forwarded as it is, but for the headers that are not passed on, for the reason
/// that it may not.
pub proof fn law_requests_are_handled(
    p: &Proxy,
    method: &str,
    url: Url,
    headers: HeaderMap<HeaderValue>,
    out: Handling,
)
    requires
        call_ensures(Proxy::handle, (p, method, url, headers), out),
    ensures
        match p.policy.request_verdict(method@, url@, headers::fields(headers)) {
            Ok(_) => out matches Handling::Lookup(pending) && pending.method@ == method@
                && pending.url == url && pending.headers == headers && pending.key@
                == p.policy.key_of(url@),
            Err(reject) => out matches Handling::Forward(f) && f.method@ == method@ && f.url == url
                && f.reject == reject && headers::fields(f.headers) == headers::sanitized(
                headers::fields(headers),
            ),
        },
{
}

/// A response is stored exactly where it may be, under the key of the request, and as a record of what
/// was read; either way the client gets the status, the headers and the body that were read.
pub proof fn law_responses_are_stored_and_handed_on(
    read: Reading,
    policy: &Policy,
    body: Bytes,
    out: Body,
)
    requires
        call_ensures(Reading::read, (read, policy, body), out),
    ensures
        match policy.response_verdict(
            read.url@,
            read.status,
            headers::fields(read.headers),
            wire::content(body).len() as u64,
        ) {
            Ok(_) => out matches Body::Store { key, entry, .. } && key == read.key
                && entry.header.url@ == url::url_text(read.url@) && entry.header.status
                == read.status && entry::records(
                entry.header@.headers,
                headers::fields(read.headers),
            ) && wire::content(entry.body) == wire::content(body),
            Err(r) => out matches Body::Drop { reject, .. } && reject == r,
        },
        ({
            let answering = match out {
                Body::Store { answering, .. } => answering,
                Body::Drop { answering, .. } => answering,
            };
            &&& answering.method == read.method
            &&& answering.url == read.url
            &&& answering.status == read.status
            &&& answering.headers == read.headers
            &&& wire::content(answering.body) == wire::content(body)
        }),
{
}

/// What became of a request is what its line and its counter say: why it was passed through, that it
/// was stored, why it was not, or that it could not be encoded.
pub proof fn law_outcomes_say_what_became(outcome: Outcome, reject: Reject)
    ensures
        passed(outcome, reject) <==> (outcome matches Outcome::Pass(r) && r@ == policy::reason(
            reject,
        )),
        fetched(outcome, Kept::Stored) <==> outcome is Stored,
        fetched(outcome, Kept::Rejected(reject)) <==> (outcome matches Outcome::Miss(r) && r@
            == policy::reason(reject)),
        fetched(outcome, Kept::Unencodable) <==> (outcome matches Outcome::Miss(r) && r@
            == "encode failed"@),
{
}

/// What is noted of a request is one outcome in the counters, and its line in the log.
pub proof fn law_what_is_noted(
    before: Summary,
    after: Summary,
    line: Seq<char>,
    outcome: Outcome,
    method: Seq<char>,
    u: UrlModel,
    bytes: u64,
    millis: u64,
)
    requires
        noted(before, after, line, outcome, method, u, bytes, millis),
    ensures
        after == stats::counted(before, outcome, bytes, millis),
        line == stats::log_line(outcome, method, url::url_text(u), bytes, millis),
{
}

/// A response that declares no length counts as empty, and is read; one that declares more than is
/// stored is streamed past.
pub proof fn law_declared_lengths(declared: Option<u64>)
    ensures
        declared matches Some(n) ==> declared_len(declared) == n,
        declared is None ==> declared_len(declared) == 0,
{
}

/// What the cache had is served where it is an entry with no more headers than a header map is sure to
/// hold. What is said of anything else is what was wrong with it.
pub proof fn law_what_is_served(found: Option<Result<Entry, EntryError>>)
    ensures
        is_servable(found) <==> (found matches Some(Ok(e)) && headers::roomy(
            entry::replayed(e.header@.headers),
        )),
        found matches Some(Err(e)) ==> complaint(found) == entry::error_text(e),
        found matches Some(Ok(_)) ==> complaint(found) == "too many headers"@,
{
}

/// A response that was forwarded is handed on with the headers that are passed on and the tag, and
/// noted as passed through, for the reason that it was.
pub proof fn law_forwarded_responses(
    forwarding: Forwarding,
    stats: &mut Stats,
    headers: &HeaderMap<HeaderValue>,
    declared: Option<u64>,
    elapsed: u64,
    out: Option<(HeaderMap<HeaderValue>, String)>,
)
    requires
        call_ensures(Forwarding::responded, (forwarding, stats, headers, declared, elapsed), out),
        headers::roomy(headers::fields(*headers)),
    ensures
        out is Some,
        headers::fields(out.unwrap().0) == proxy::tagged(
            headers::sanitized(headers::fields(*headers)),
            Cache::Pass,
        ),
        exists|outcome: Outcome|
            passed(outcome, forwarding.reject) && #[trigger] noted(
                old(stats)@,
                final(stats)@,
                out.unwrap().1@,
                outcome,
                forwarding.method@,
                forwarding.url@,
                declared_len(declared),
                elapsed,
            ),
{
    let outcome = choose|outcome: Outcome| #[trigger]
        passed(outcome, forwarding.reject) && noted(
            old(stats)@,
            final(stats)@,
            out.unwrap().1@,
            outcome,
            forwarding.method@,
            forwarding.url@,
            declared_len(declared),
            elapsed,
        );
    assert(noted(
        old(stats)@,
        final(stats)@,
        out.unwrap().1@,
        outcome,
        forwarding.method@,
        forwarding.url@,
        declared_len(declared),
        elapsed,
    ));
}

/// A request that was looked up is answered from the cache where what was found is sure to be served;
/// otherwise it is fetched, by the same method, URL and key, and what was wrong is said.
pub proof fn law_lookups_come_to_something(
    pending: Pending,
    stats: &mut Stats,
    found: Option<Result<Entry, EntryError>>,
    out: Found,
)
    requires
        call_ensures(Pending::looked_up, (pending, stats, found), out),
        headers::roomy(headers::fields(pending.headers)),
    ensures
        is_servable(found) ==> out is Hit,
        !(found matches Some(Ok(_))) ==> out is Fetch,
        out matches Found::Hit { response, line } ==> (found matches Some(Ok(e))
            && proxy::is_replay(response, e) && final(stats)@ == stats::counted(
            old(stats)@,
            Outcome::Hit,
            wire::content(e.body).len() as u64,
            0,
        ) && line@ == stats::log_line(
            Outcome::Hit,
            pending.method@,
            url::url_text(pending.url@),
            wire::content(e.body).len() as u64,
            0,
        )),
        out matches Found::Fetch { fetching, note } ==> fetching.method == pending.method
            && fetching.url == pending.url && fetching.key == pending.key && headers::fields(
            fetching.headers,
        ) == proxy::pinned(headers::sanitized(headers::fields(pending.headers))) && final(stats)@
            == old(stats)@ && (note is Some <==> found is Some),
        out matches Found::Fetch { fetching, note } ==> (note matches Some(words) ==> words@
            == "cicache: discarding entry for "@ + url::url_text(pending.url@) + ": "@ + complaint(
            found,
        )),
        !(out is Full),
{
}

/// A response is streamed past where it declares to be larger than what is stored, and read where
/// not; what is read is what came, but for the headers that are not passed on.
pub proof fn law_responses_are_streamed_or_read(
    fetching: Fetching,
    policy: &Policy,
    stats: &mut Stats,
    status: u16,
    headers: &HeaderMap<HeaderValue>,
    declared: Option<u64>,
    elapsed: u64,
    out: Head,
)
    requires
        call_ensures(
            Fetching::responded,
            (fetching, policy, stats, status, headers, declared, elapsed),
            out,
        ),
        headers::roomy(headers::fields(*headers)),
    ensures
        out is Stream <==> (declared matches Some(n) && n > policy.max_size),
        out is Read <==> !(declared matches Some(n) && n > policy.max_size),
        out matches Head::Stream { headers: h, .. } ==> headers::fields(h) == proxy::tagged(
            headers::sanitized(headers::fields(*headers)),
            Cache::Miss,
        ),
        out matches Head::Stream { line, .. } ==> exists|outcome: Outcome|
            (outcome matches Outcome::Miss(r) && r@ == "above max-size"@) && #[trigger] noted(
                old(stats)@,
                final(stats)@,
                line@,
                outcome,
                fetching.method@,
                fetching.url@,
                declared.unwrap(),
                elapsed,
            ),
        out matches Head::Read(r) ==> r.method == fetching.method && r.url == fetching.url && r.key
            == fetching.key && r.status == status && headers::fields(r.headers)
            == headers::sanitized(headers::fields(*headers)) && final(stats)@ == old(stats)@,
{
    if out is Stream {
        let line = out->line;
        let outcome = choose|outcome: Outcome| #[trigger]
            fetched(outcome, Kept::Rejected(Reject::TooLarge)) && noted(
                old(stats)@,
                final(stats)@,
                line@,
                outcome,
                fetching.method@,
                fetching.url@,
                declared_len(declared),
                elapsed,
            );
        assert(outcome matches Outcome::Miss(r) && r@ == "above max-size"@);
    }
}

/// A response that was read is handed to the client as a miss, and noted as what became of it.
pub proof fn law_misses_are_answered(
    answering: Answering,
    stats: &mut Stats,
    kept: Kept,
    elapsed: u64,
    out: Option<(Response, String)>,
)
    requires
        call_ensures(Answering::answer, (answering, stats, kept, elapsed), out),
        headers::roomy(headers::fields(answering.headers)),
    ensures
        out matches Some((response, line)) && proxy::is_response(
            response,
            answering.status,
            headers::fields(answering.headers),
            wire::content(answering.body),
            Cache::Miss,
        ) && exists|outcome: Outcome|
            fetched(outcome, kept) && #[trigger] noted(
                old(stats)@,
                final(stats)@,
                line@,
                outcome,
                answering.method@,
                answering.url@,
                wire::content(answering.body).len() as u64,
                elapsed,
            ),
{
    let line = out.unwrap().1;
    let outcome = choose|outcome: Outcome| #[trigger]
        fetched(outcome, kept) && noted(
            old(stats)@,
            final(stats)@,
            line@,
            outcome,
            answering.method@,
            answering.url@,
            wire::content(answering.body).len() as u64,
            elapsed,
        );
    assert(noted(
        old(stats)@,
        final(stats)@,
        line@,
        outcome,
        answering.method@,
        answering.url@,
        wire::content(answering.body).len() as u64,
        elapsed,
    ));
}

} // verus!

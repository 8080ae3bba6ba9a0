//! The forward proxy: plain HTTP in absolute-form, and HTTPS via `CONNECT` with TLS terminated
//! against the run's own CA so response bodies can be cached.
//!
//! The proxy decides; connections are served and upstreams asked outside, and what came back is
//! handed in.

use crate::entry::Entry;
use crate::headers::Fields;
use crate::policy::{Policy, Reject};
use crate::stats::{Outcome, Stats};
use crate::url::{Url, UrlModel};
use crate::{entry, headers, numbers, policy, stats, text, url, wire};
use bytes::Bytes;
use hyper::header::{HeaderMap, HeaderValue};
use vstd::prelude::*;
use vstd::utf8::encode_utf8;

verus! {

pub struct Proxy {
    pub policy: Policy,
    /// Ports whose `CONNECT` tunnels are decrypted.
    pub mitm_ports: Vec<u16>,
}

/// What a request is.
#[derive(Debug, Clone, Copy, PartialEq, Eq, Structural)]
pub enum Route {
    /// A request for a tunnel.
    Connect,
    /// A request to the proxy itself.
    Control,
    /// A request for something upstream.
    Upstream,
}

/// An endpoint of the proxy itself.
#[derive(Debug, Clone, Copy, PartialEq, Eq, Structural)]
pub enum Control {
    Ping,
    Stats,
    Shutdown,
    Unknown,
}

/// How a tunnel is treated.
#[derive(Debug)]
pub enum Tunnel {
    /// The request names no authority.
    Refuse,
    /// TLS is terminated, and the requests inside are for this authority.
    Intercept { host: String, port: u16, authority: String },
    /// The bytes are passed through blind, for the reason given.
    Blind { host: String, port: u16, reason: &'static str },
}

/// What the cache had to do with a response.
#[derive(Debug, Clone, Copy, PartialEq, Eq, Structural)]
pub enum Cache {
    Hit,
    Miss,
    Pass,
}

/// A response to a client.
pub struct Response {
    pub status: u16,
    pub headers: HeaderMap<HeaderValue>,
    pub body: Bytes,
}

/// A response to a client that is made by the proxy itself: a status and a text.
#[derive(Debug)]
pub struct Message {
    pub status: u16,
    pub body: String,
}

/// What a request is. Inside a tunnel everything is for something upstream.
pub open spec fn routed(method: Seq<char>, has_authority: bool, tunnelled: bool) -> Route {
    if tunnelled {
        Route::Upstream
    } else if method == "CONNECT"@ {
        Route::Connect
    } else if !has_authority {
        Route::Control
    } else {
        Route::Upstream
    }
}

/// Tells what a request is. `tunnelled` is set for requests arriving inside a decrypted `CONNECT`
/// tunnel, where the URI is in origin-form and the host is only known from the tunnel it arrived on.
pub fn dispatch(method: &str, has_authority: bool, tunnelled: bool) -> (out: Route)
    ensures
        out == routed(method@, has_authority, tunnelled),
{
    if !tunnelled {
        if text::same_text(method, "CONNECT") {
            return Route::Connect;
        }
        if !has_authority {
            return Route::Control;
        }
    }
    Route::Upstream
}

/// The endpoint that a path names.
pub open spec fn endpoint(path: Seq<char>) -> Control {
    if path == "/__cicache/ping"@ {
        Control::Ping
    } else if path == "/__cicache/stats"@ {
        Control::Stats
    } else if path == "/__cicache/shutdown"@ {
        Control::Shutdown
    } else {
        Control::Unknown
    }
}

/// Endpoints for the wrapper steps, reachable only in origin-form directly at the listener.
pub fn control(path: &str) -> (out: Control)
    ensures
        out == endpoint(path@),
{
    if text::same_text(path, "/__cicache/ping") {
        Control::Ping
    } else if text::same_text(path, "/__cicache/stats") {
        Control::Stats
    } else if text::same_text(path, "/__cicache/shutdown") {
        Control::Shutdown
    } else {
        Control::Unknown
    }
}

/// Whether a message is a status and a text, which ends in a line feed.
pub open spec fn says(m: Message, status: u16, words: Seq<char>) -> bool {
    m.status == status && m.body@ == words + "\n"@
}

/// A message to a client.
pub fn message(status: u16, words: &str) -> (out: Message)
    ensures
        says(out, status, words@),
{
    Message { status, body: text::concat(words, "\n") }
}

impl Control {
    /// What an endpoint answers; the statistics answer with the summary instead.
    pub fn answer(&self) -> (out: Option<Message>)
        ensures
            out is None == (*self == Control::Stats),
            out matches Some(m) ==> match *self {
                Control::Ping => says(m, 200, "ok"@),
                Control::Shutdown => says(m, 200, "shutting down"@),
                _ => says(m, 404, "unknown control endpoint"@),
            },
    {
        match self {
            Control::Ping => Some(message(200, "ok")),
            Control::Stats => None,
            Control::Shutdown => Some(message(200, "shutting down")),
            Control::Unknown => Some(message(404, "unknown control endpoint")),
        }
    }
}

/// A message about a request that makes no sense.
pub fn bad_request(words: &str) -> (out: Message)
    ensures
        says(out, 400, words@),
{
    message(400, words)
}

/// A message about an upstream that could not be asked.
pub fn bad_gateway(words: &str) -> (out: Message)
    ensures
        says(out, 502, words@),
{
    message(502, words)
}

/// A host and a port.
pub open spec fn host_port(host: Seq<char>, port: u16) -> Seq<char> {
    host + ":"@ + numbers::decimal(port as nat)
}

/// A host and a port.
pub fn target(host: &str, port: u16) -> (out: String)
    ensures
        out@ == host_port(host@, port),
{
    let mut out = text::concat(host, ":");
    numbers::push_decimal(&mut out, port as u128);
    out
}

/// The port of a tunnel.
pub open spec fn tunnel_port(port: Option<u16>) -> u16 {
    match port {
        Some(p) => p,
        None => 443,
    }
}

impl Proxy {
    pub fn new(policy: Policy, mitm_ports: Vec<u16>) -> (out: Self)
        ensures
            out.policy == policy,
            out.mitm_ports == mitm_ports,
    {
        Proxy { policy, mitm_ports }
    }

    /// Whether a tunnel is decrypted: its port is one of those, and its host is not bypassed.
    pub open spec fn intercepts(&self, host: Seq<char>, port: u16) -> bool {
        self.mitm_ports@.contains(port) && !self.policy.bypasses(host)
    }

    /// Decides how a tunnel is treated, given the host and the port that it was asked for. Hosts
    /// that are bypassed are forwarded blind.
    pub fn connect(&self, authority: Option<(String, Option<u16>)>) -> (out: Tunnel)
        ensures
            match authority {
                None => out is Refuse,
                Some((h, p)) => {
                    let at = tunnel_port(p);
                    match out {
                        Tunnel::Refuse => false,
                        Tunnel::Intercept { host, port, authority } => self.intercepts(h@, at)
                            && host@ == h@ && port == at && authority@ == if at == 443 {
                            h@
                        } else {
                            host_port(h@, at)
                        },
                        Tunnel::Blind { host, port, reason } => !self.intercepts(h@, at) && host@
                            == h@ && port == at && reason@ == if self.mitm_ports@.contains(at) {
                            policy::reason(Reject::BypassHost)
                        } else {
                            "tunnelled port"@
                        },
                    }
                },
            },
    {
        let (host, port) = match authority {
            Some((host, Some(port))) => (host, port),
            Some((host, None)) => (host, 443u16),
            None => return Tunnel::Refuse,
        };
        if !contains_port(self.mitm_ports.as_slice(), port) {
            return Tunnel::Blind { host, port, reason: "tunnelled port" };
        }
        if self.policy.is_bypassed(host.as_str()) {
            return Tunnel::Blind { host, port, reason: Reject::BypassHost.as_str() };
        }
        let authority = if port == 443 {
            host.as_str().to_string()
        } else {
            target(host.as_str(), port)
        };
        Tunnel::Intercept { host, port, authority }
    }
}

/// Whether a port is in a list.
fn contains_port(ports: &[u16], port: u16) -> (out: bool)
    ensures
        out == ports@.contains(port),
{
    let mut i: usize = 0;
    while i < ports.len()
        invariant
            i <= ports.len(),
            forall|j: int| 0 <= j < i ==> ports@[j] != port,
        decreases ports.len() - i,
    {
        if ports[i] == port {
            assert(ports@[i as int] == port);
            return true;
        }
        i += 1;
    }
    false
}

/// Counts a tunnel that is passed through blind. Returns the line for the log.
pub fn tunnelled(stats: &mut Stats, host: &str, port: u16, reason: &str) -> (line: String)
    ensures
        line@ == stats::log_line(
            Outcome::Pass(reason),
            "CONNECT"@,
            host_port(host@, port),
            0,
            0,
        ),
        final(stats)@ == stats::counted(old(stats)@, Outcome::Pass(reason), 0, 0),
{
    let at = target(host, port);
    stats.record(&Outcome::Pass(reason), "CONNECT", at.as_str(), 0, 0)
}

/// Counts a request that failed. Returns what the client is told and the line for the log.
pub fn failed(stats: &mut Stats, url: &Url, reason: &str) -> (out: (Message, String))
    ensures
        says(out.0, 502, reason@),
        out.1@ == stats::log_line(Outcome::Error(reason), "GET"@, url::url_text(url@), 0, 0),
        final(stats)@ == stats::counted(old(stats)@, Outcome::Error(reason), 0, 0),
{
    let target = url.as_str();
    let line = stats.record(&Outcome::Error(reason), "GET", target.as_str(), 0, 0);
    (bad_gateway(reason), line)
}

/// The text of the URL of a request inside a tunnel.
pub open spec fn tunnelled_url(authority: Seq<char>, path: Option<Seq<char>>) -> Seq<char> {
    "https://"@ + authority + match path {
        Some(p) => p,
        None => "/"@,
    }
}

/// Reconstructs the absolute URL a request is for. Absolute-form arrives from plain HTTP clients;
/// origin-form arrives inside a decrypted tunnel and is completed from the tunnel's authority.
pub fn absolute_url(uri: &str, path_and_query: Option<&str>, tunnel_authority: Option<&str>) -> (out:
    Result<Url, String>)
    ensures
        match tunnel_authority {
            Some(authority) => url::model(out) == url::parsed_url(
                tunnelled_url(authority@, text::optional(path_and_query)),
            ),
            None => match url::parsed_url(uri@) {
                Ok(u) => out matches Ok(found) && found@ == u,
                Err(e) => out matches Err(words) && words@ == "unparsable request URI: "@ + e,
            },
        },
{
    match tunnel_authority {
        Some(authority) => {
            let path = match path_and_query {
                Some(path) => path,
                None => "/",
            };
            let whole = text::concat3("https://", authority, path);
            Url::parse(whole.as_str())
        },
        None => match Url::parse(uri) {
            Ok(url) => Ok(url),
            Err(e) => Err(text::concat("unparsable request URI: ", e.as_str())),
        },
    }
}

/// What the `X-Cicache` header says.
pub open spec fn tag(cache: Cache) -> Seq<char> {
    match cache {
        Cache::Hit => "HIT"@,
        Cache::Miss => "MISS"@,
        Cache::Pass => "PASS"@,
    }
}

/// Fields with the tag of the cache.
pub open spec fn tagged(f: Fields, cache: Cache) -> Fields {
    f.insert("x-cicache"@, seq![encode_utf8(tag(cache))])
}

/// Fields with the length of a body.
pub open spec fn sized(f: Fields, len: nat) -> Fields {
    f.insert("content-length"@, seq![encode_utf8(numbers::decimal(len))])
}

/// Whether a response has a status, a body, and some fields beside those for the length of the body
/// and for the tag of the cache.
pub open spec fn is_response(
    r: Response,
    status: u16,
    f: Fields,
    body: Seq<u8>,
    cache: Cache,
) -> bool {
    &&& r.status == status
    &&& headers::fields(r.headers) == tagged(sized(f, body.len()), cache)
    &&& wire::content(r.body) == body
}

/// Fields that ask for a body as it is.
pub open spec fn pinned(f: Fields) -> Fields {
    f.insert("accept-encoding"@, seq![encode_utf8("identity"@)])
}

/// Adds the tag of the cache, and tells whether there was room for it.
fn insert_cache_header(headers: &mut HeaderMap<HeaderValue>, cache: Cache) -> (ok: bool)
    ensures
        headers::fields(*old(headers)).dom().len() <= headers::ROOM ==> ok,
        ok ==> headers::fields(*final(headers)) == tagged(headers::fields(*old(headers)), cache),
{
    let value = match cache {
        Cache::Hit => "HIT",
        Cache::Miss => "MISS",
        Cache::Pass => "PASS",
    };
    proof {
        reveal_strlit("HIT");
        reveal_strlit("MISS");
        reveal_strlit("PASS");
        reveal_strlit("x-cicache");
        assert(text::lower("x-cicache"@) =~= "x-cicache"@);
        assert(headers::plain(value@));
        headers::lemma_plain_value(value@);
    }
    headers::insert(headers, "x-cicache", value.as_bytes())
}

/// A response with a body that is at hand, where a header map has room for its headers.
pub fn build(status: u16, headers: HeaderMap<HeaderValue>, body: Bytes, cache: Cache) -> (out:
    Option<Response>)
    ensures
        headers::roomy(headers::fields(headers)) ==> out is Some,
        out matches Some(r) ==> is_response(
            r,
            status,
            headers::fields(headers),
            wire::content(body),
            cache,
        ),
{
    let mut headers = headers;
    let len = wire::as_slice(&body).len();
    let length = numbers::to_decimal(len as u64);
    proof {
        reveal_strlit("content-length");
        assert(text::lower("content-length"@) =~= "content-length"@);
        numbers::lemma_decimal_digits(len as nat);
        assert(headers::plain(length@));
        headers::lemma_plain_value(length@);
    }
    if headers::insert(&mut headers, "content-length", length.as_str().as_bytes())
        && insert_cache_header(&mut headers, cache) {
        Some(Response { status, headers, body })
    } else {
        None
    }
}

/// The headers of a response whose body is streamed through, where a header map has room for them.
pub fn stream_headers(headers: &HeaderMap<HeaderValue>, cache: Cache) -> (out: Option<
    HeaderMap<HeaderValue>,
>)
    ensures
        headers::roomy(headers::fields(*headers)) ==> out is Some,
        out matches Some(h) ==> headers::fields(h) == tagged(
            headers::sanitized(headers::fields(*headers)),
            cache,
        ),
{
    proof {
        if headers::roomy(headers::fields(*headers)) {
            headers::lemma_sanitized_room(headers::fields(*headers));
        }
    }
    let mut out = headers::sanitize(headers);
    if insert_cache_header(&mut out, cache) {
        Some(out)
    } else {
        None
    }
}

/// The headers that a request goes upstream with, where a header map has room for them. Entries are stored and replayed as received, so
/// the encoding is pinned to identity rather than being negotiated per client.
pub fn upstream_headers(headers: &HeaderMap<HeaderValue>) -> (out: Option<HeaderMap<HeaderValue>>)
    ensures
        headers::roomy(headers::fields(*headers)) ==> out is Some,
        out matches Some(h) ==> headers::fields(h) == pinned(
            headers::sanitized(headers::fields(*headers)),
        ),
{
    let mut out = headers::sanitize(headers);
    proof {
        if headers::roomy(headers::fields(*headers)) {
            headers::lemma_sanitized_room(headers::fields(*headers));
        }
        reveal_strlit("accept-encoding");
        assert(text::lower("accept-encoding"@) =~= "accept-encoding"@);
        reveal_strlit("identity");
        assert(headers::plain("identity"@));
        headers::lemma_plain_value("identity"@);
    }
    if headers::insert(&mut out, "accept-encoding", "identity".as_bytes()) {
        Some(out)
    } else {
        None
    }
}

/// The status that an entry is replayed with. One that is none counts as success.
pub open spec fn replayed_status(status: u16) -> u16 {
    if 100 <= status <= 999 {
        status
    } else {
        200
    }
}

/// Whether a response replays an entry.
pub open spec fn is_replay(r: Response, entry: Entry) -> bool {
    is_response(
        r,
        replayed_status(entry.header.status),
        entry::replayed(entry.header@.headers),
        wire::content(entry.body),
        Cache::Hit,
    )
}

/// A response from the cache, where a header map has room for its headers.
pub fn replay(entry: Entry) -> (out: Option<Response>)
    ensures
        headers::roomy(entry::replayed(entry.header@.headers)) ==> out is Some,
        out matches Some(r) ==> is_replay(r, entry),
{
    let status = if 100 <= entry.header.status && entry.header.status <= 999 {
        entry.header.status
    } else {
        200
    };
    match entry.try_header_map() {
        Some(headers) => build(status, headers, entry.body, Cache::Hit),
        None => None,
    }
}

/// How many redirects are followed for a request that may be stored. They are followed inside the
/// proxy so that the entry is keyed on the stable URL the client asked for. Release downloads in
/// particular redirect to a pre-signed URL that differs on every request and could never be cached
/// on its own.
pub fn redirect_limit(follow_redirects: bool) -> (out: usize)
    ensures
        out == if follow_redirects {
            10int
        } else {
            0
        },
{
    if follow_redirects {
        10
    } else {
        0
    }
}

/// A bypassed host is forwarded blind and never cached: no tunnel to it is decrypted, whatever the
/// port, and no request for it is looked up.
pub proof fn law_bypassed_hosts_are_left_alone(
    p: Proxy,
    port: u16,
    method: Seq<char>,
    u: UrlModel,
    f: Fields,
)
    requires
        p.policy.bypasses(url::host_or_empty(u)),
    ensures
        !p.intercepts(url::host_or_empty(u), port),
        p.policy.request_verdict(method, u, f) is Err,
{
}

/// Every response that comes from upstream or from the cache carries the tag of the cache.
pub proof fn law_every_response_is_tagged(f: Fields, cache: Cache)
    ensures
        tagged(f, cache).contains_key("x-cicache"@),
        tagged(f, cache)["x-cicache"@] == seq![encode_utf8(tag(cache))],
{
}

/// Nothing that describes the client's hop goes upstream, and the encoding that is asked for does
/// not depend on the client.
pub proof fn law_upstream_requests_are_uniform(f: Fields, name: Seq<char>)
    ensures
        pinned(headers::sanitized(f))["accept-encoding"@] == seq![encode_utf8("identity"@)],
        headers::hop_by_hop().contains(name) ==> !pinned(headers::sanitized(f)).contains_key(name),
{
    reveal_strlit("accept-encoding");
    if headers::hop_by_hop().contains(name) {
        headers::lemma_hop_by_hop_lengths(name);
    }
}

/// Inside a tunnel every request is for something upstream. Outside, `CONNECT` asks for a tunnel, and
/// of the others those that name no authority are for the proxy itself.
pub proof fn law_requests_are_routed(method: Seq<char>, has_authority: bool, tunnelled: bool)
    ensures
        ({
            let connect = method == seq!['C', 'O', 'N', 'N', 'E', 'C', 'T'];
            &&& routed(method, has_authority, tunnelled) is Connect <==> !tunnelled && connect
            &&& routed(method, has_authority, tunnelled) is Control <==> !tunnelled && !connect
                && !has_authority
            &&& routed(method, has_authority, tunnelled) is Upstream <==> tunnelled || (!connect
                && has_authority)
        }),
{
    reveal_strlit("CONNECT");
    assert("CONNECT"@ =~= seq!['C', 'O', 'N', 'N', 'E', 'C', 'T']);
}

/// The endpoints, by their paths, and what they answer.
pub proof fn law_endpoints(path: Seq<char>, endpoint_of: &Control, answer: Option<Message>)
    requires
        call_ensures(Control::answer, (endpoint_of,), answer),
    ensures
        endpoint(path) is Ping <==> path == "/__cicache/ping"@,
        endpoint(path) is Stats <==> path == "/__cicache/stats"@,
        endpoint(path) is Shutdown <==> path == "/__cicache/shutdown"@,
        *endpoint_of is Ping ==> (answer matches Some(m) && m.status == 200 && m.body@ == "ok\n"@),
        *endpoint_of is Shutdown ==> (answer matches Some(m) && m.status == 200 && m.body@
            == "shutting down\n"@),
        *endpoint_of is Unknown ==> (answer matches Some(m) && m.status == 404 && m.body@
            == "unknown control endpoint\n"@),
        *endpoint_of is Stats ==> answer is None,
{
    reveal_strlit("/__cicache/ping");
    reveal_strlit("/__cicache/stats");
    reveal_strlit("/__cicache/shutdown");
    reveal_strlit("\n");
    reveal_strlit("ok");
    reveal_strlit("ok\n");
    reveal_strlit("shutting down");
    reveal_strlit("shutting down\n");
    reveal_strlit("unknown control endpoint");
    reveal_strlit("unknown control endpoint\n");
    assert("/__cicache/ping"@.len() == 15);
    assert("/__cicache/stats"@.len() == 16);
    assert("/__cicache/shutdown"@.len() == 19);
    assert("ok"@ + "\n"@ =~= "ok\n"@);
    assert("shutting down"@ + "\n"@ =~= "shutting down\n"@);
    assert("unknown control endpoint"@ + "\n"@ =~= "unknown control endpoint\n"@);
}

/// A request that makes no sense is answered with status 400, and one whose upstream could not be
/// asked with status 502: the words, and a line feed.
pub proof fn law_complaints(words: &str, bad: Message, gateway: Message)
    requires
        call_ensures(bad_request, (words,), bad),
        call_ensures(bad_gateway, (words,), gateway),
    ensures
        bad.status == 400,
        gateway.status == 502,
        bad.body@ == words@.push('\n'),
        gateway.body@ == words@.push('\n'),
{
    reveal_strlit("\n");
    assert(words@ + "\n"@ =~= words@.push('\n'));
}

/// How a tunnel is treated. It is decrypted where its port, which is 443 where it names none, is one
/// of those that are, and its host is not bypassed; otherwise it is passed through to the same host
/// and port. The requests inside a decrypted one are for the host, with the port where that is not
/// 443.
pub proof fn law_tunnels(
    p: &Proxy,
    host: String,
    port: Option<u16>,
    at: u16,
    asked: Tunnel,
    unnamed: Tunnel,
)
    requires
        at == match port {
            Some(n) => n,
            None => 443,
        },
        call_ensures(Proxy::connect, (p, Some((host, port))), asked),
        call_ensures(Proxy::connect, (p, None), unnamed),
    ensures
        unnamed is Refuse,
        ({
            let decrypted = p.mitm_ports@.contains(at);
            if decrypted && !p.policy.bypasses(host@) {
                asked matches Tunnel::Intercept { host: h, port: n, authority } && h@ == host@ && n
                    == at && authority@ == if at == 443 {
                    host@
                } else {
                    host@.push(':') + numbers::decimal(at as nat)
                }
            } else {
                asked matches Tunnel::Blind { host: h, port: n, reason } && h@ == host@ && n == at
                    && reason@ == if decrypted {
                    "bypassed host"@
                } else {
                    "tunnelled port"@
                }
            }
        }),
{
    reveal_strlit(":");
    assert(host_port(host@, at) =~= host@.push(':') + numbers::decimal(at as nat));
}

/// The URL of a request inside a tunnel is `https://`, the authority of the tunnel, and the path and
/// query of the request to the last character, or a slash where it has none.
pub proof fn law_the_url_inside_a_tunnel(authority: Seq<char>, path: Seq<char>)
    ensures
        ({
            let whole = tunnelled_url(authority, Some(path));
            &&& whole.len() == 8 + authority.len() + path.len()
            &&& whole.take(8) == seq!['h', 't', 't', 'p', 's', ':', '/', '/']
            &&& whole.subrange(8, 8 + authority.len() as int) == authority
            &&& whole.skip(8 + authority.len() as int) == path
        }),
        tunnelled_url(authority, None) == tunnelled_url(authority, Some(seq!['/'])),
{
    reveal_strlit("https://");
    reveal_strlit("/");
    let whole = tunnelled_url(authority, Some(path));
    assert(whole.take(8) =~= seq!['h', 't', 't', 'p', 's', ':', '/', '/']);
    assert(whole.subrange(8, 8 + authority.len() as int) =~= authority);
    assert(whole.skip(8 + authority.len() as int) =~= path);
    assert("/"@ =~= seq!['/']);
}

/// A request inside a tunnel is for what its URL reads as, whatever the request's own form says. Any
/// other is for what its own URL reads as, and the words for one that does not read say so.
pub proof fn law_the_url_of_a_request(
    uri: &str,
    path: &str,
    authority: &str,
    inside: Result<Url, String>,
    pathless: Result<Url, String>,
    outside: Result<Url, String>,
)
    requires
        call_ensures(absolute_url, (uri, Some(path), Some(authority)), inside),
        call_ensures(absolute_url, (uri, None, Some(authority)), pathless),
        call_ensures(absolute_url, (uri, Some(path), None), outside),
    ensures
        ({
            let whole = "https://"@ + authority@ + path@;
            match url::parsed_url(whole) {
                Ok(u) => inside matches Ok(found) && found@ == u,
                Err(e) => inside matches Err(words) && words@ == e,
            }
        }),
        match url::parsed_url("https://"@ + authority@ + "/"@) {
            Ok(u) => pathless matches Ok(found) && found@ == u,
            Err(e) => pathless matches Err(words) && words@ == e,
        },
        match url::parsed_url(uri@) {
            Ok(u) => outside matches Ok(found) && found@ == u,
            Err(e) => outside matches Err(words) && words@ == "unparsable request URI: "@ + e,
        },
{
}

/// A response to a client has the status and the body that it is made with, a length that is the
/// number of bytes of the body, a tag that says what the cache had to do with it, and every other
/// field as it was.
pub proof fn law_responses(
    r: Response,
    status: u16,
    f: Fields,
    body: Seq<u8>,
    cache: Cache,
    name: Seq<char>,
)
    requires
        is_response(r, status, f, body, cache),
    ensures
        r.status == status,
        wire::content(r.body) == body,
        headers::fields(r.headers)["content-length"@] == seq![
            encode_utf8(numbers::decimal(body.len())),
        ],
        headers::fields(r.headers)["x-cicache"@] == seq![
            encode_utf8(
                match cache {
                    Cache::Hit => "HIT"@,
                    Cache::Miss => "MISS"@,
                    Cache::Pass => "PASS"@,
                },
            ),
        ],
        headers::fields(r.headers).contains_key("content-length"@),
        headers::fields(r.headers).contains_key("x-cicache"@),
        name != "content-length"@ && name != "x-cicache"@ ==> headers::values_in(
            headers::fields(r.headers),
            name,
        ) == headers::values_in(f, name),
{
    reveal_strlit("content-length");
    reveal_strlit("x-cicache");
    assert("content-length"@.len() == 14);
    assert("x-cicache"@.len() == 9);
}

/// A response that is streamed has the fields of the upstream's that are passed on, and the tag. A
/// request goes upstream with the client's that are passed on, but that it takes the body in no other
/// encoding than as it is.
pub proof fn law_streams_and_requests(f: Fields, cache: Cache, name: Seq<char>)
    ensures
        ({
            let sent = tagged(headers::sanitized(f), cache);
            &&& sent.contains_key("x-cicache"@)
            &&& sent["x-cicache"@] == seq![
                encode_utf8(
                    match cache {
                        Cache::Hit => "HIT"@,
                        Cache::Miss => "MISS"@,
                        Cache::Pass => "PASS"@,
                    },
                ),
            ]
            &&& name != "x-cicache"@ ==> headers::values_in(sent, name) == headers::values_in(
                headers::sanitized(f),
                name,
            )
        }),
        ({
            let asked = pinned(headers::sanitized(f));
            &&& asked.contains_key("accept-encoding"@)
            &&& asked["accept-encoding"@] == seq![encode_utf8("identity"@)]
            &&& name != "accept-encoding"@ ==> headers::values_in(asked, name)
                == headers::values_in(headers::sanitized(f), name)
        }),
{
}

/// A hit has the status, the headers and the body of its entry; a status that is none becomes 200.
pub proof fn law_hits_replay_their_entry(r: Response, entry: Entry, name: Seq<char>)
    requires
        is_replay(r, entry),
    ensures
        100 <= entry.header.status <= 999 ==> r.status == entry.header.status,
        !(100 <= entry.header.status <= 999) ==> r.status == 200,
        wire::content(r.body) == wire::content(entry.body),
        headers::fields(r.headers)["x-cicache"@] == seq![encode_utf8("HIT"@)],
        name != "content-length"@ && name != "x-cicache"@ ==> headers::values_in(
            headers::fields(r.headers),
            name,
        ) == headers::values_in(entry::replayed(entry.header@.headers), name),
{
    law_responses(
        r,
        r.status,
        entry::replayed(entry.header@.headers),
        wire::content(entry.body),
        Cache::Hit,
        name,
    );
}

/// A tunnel that is passed through blind is counted as such, and its line names the host and the
/// port.
pub proof fn law_blind_tunnels_are_counted(
    stats: &mut Stats,
    host: &str,
    port: u16,
    reason: &str,
    line: String,
)
    requires
        call_ensures(tunnelled, (stats, host, port, reason), line),
    ensures
        final(stats)@ == stats::counted(old(stats)@, Outcome::Pass(reason), 0, 0),
        line@ == stats::log_line(
            Outcome::Pass(reason),
            "CONNECT"@,
            host@.push(':') + numbers::decimal(port as nat),
            0,
            0,
        ),
{
    reveal_strlit(":");
    assert(host_port(host@, port) =~= host@.push(':') + numbers::decimal(port as nat));
}

/// Ten redirects are followed for a request that may be stored, or none where they are not to be.
pub proof fn law_redirects(followed: usize, returned: usize)
    requires
        call_ensures(redirect_limit, (true,), followed),
        call_ensures(redirect_limit, (false,), returned),
    ensures
        followed == 10,
        returned == 0,
{
}

/// A request that failed is counted as an error, and the client is told why, with status 502.
pub proof fn law_failures_are_counted(
    stats: &mut Stats,
    url: &Url,
    reason: &str,
    out: (Message, String),
)
    requires
        call_ensures(failed, (stats, url, reason), out),
    ensures
        final(stats)@ == stats::counted(old(stats)@, Outcome::Error(reason), 0, 0),
        out.0.status == 502,
        out.0.body@ == reason@.push('\n'),
        out.1@ == stats::log_line(Outcome::Error(reason), "GET"@, url::url_text(url@), 0, 0),
{
    reveal_strlit("\n");
    assert(reason@ + "\n"@ =~= reason@.push('\n'));
}

/// Responses are made as stated where a header map is sure to have room, and requests are told apart.
pub proof fn law_responses_are_made(
    status: u16,
    headers: HeaderMap<HeaderValue>,
    body: Bytes,
    cache: Cache,
    built: Option<Response>,
    entry: Entry,
    replayed: Option<Response>,
    streamed: Option<HeaderMap<HeaderValue>>,
    asked: Option<HeaderMap<HeaderValue>>,
)
    requires
        call_ensures(build, (status, headers, body, cache), built),
        call_ensures(replay, (entry,), replayed),
        call_ensures(stream_headers, (&headers, cache), streamed),
        call_ensures(upstream_headers, (&headers,), asked),
    ensures
        headers::roomy(headers::fields(headers)) ==> built is Some && streamed is Some && asked is Some,
        headers::roomy(entry::replayed(entry.header@.headers)) ==> replayed is Some,
        built matches Some(r) ==> is_response(
            r,
            status,
            headers::fields(headers),
            wire::content(body),
            cache,
        ),
        replayed matches Some(r) ==> is_replay(r, entry),
        streamed matches Some(h) ==> headers::fields(h) == tagged(
            headers::sanitized(headers::fields(headers)),
            cache,
        ),
        asked matches Some(h) ==> headers::fields(h) == pinned(
            headers::sanitized(headers::fields(headers)),
        ),
{
}

/// Requests are routed, and endpoints and targets named, as stated.
pub proof fn law_requests_are_told_apart(
    method: &str,
    has_authority: bool,
    inside: bool,
    route: Route,
    path: &str,
    named: Control,
    host: &str,
    port: u16,
    at: String,
    policy: Policy,
    ports: Vec<u16>,
    made: Proxy,
)
    requires
        call_ensures(dispatch, (method, has_authority, inside), route),
        call_ensures(control, (path,), named),
        call_ensures(target, (host, port), at),
        call_ensures(Proxy::new, (policy, ports), made),
    ensures
        route == routed(method@, has_authority, inside),
        named == endpoint(path@),
        at@ == host@.push(':') + numbers::decimal(port as nat),
        made.policy == policy,
        made.mitm_ports == ports,
{
    reveal_strlit(":");
    assert(host_port(host@, port) =~= host@.push(':') + numbers::decimal(port as nat));
}

} // verus!

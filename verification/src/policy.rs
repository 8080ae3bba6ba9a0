//! Decides which responses may be stored and under what key.

use crate::headers::Fields;
use crate::url::{Url, UrlModel};
use crate::{digest, headers, numbers, text, url, wire};
use hyper::header::{HeaderMap, HeaderValue};
use vstd::prelude::*;
use vstd::utf8::encode_utf8;

verus! {

/// Hosts that must never be intercepted for caching: the cache service itself and its blob
/// storage (caching those would be circular), loopback, and the cloud instance-metadata address.
pub open spec fn always_bypass() -> Seq<Seq<char>> {
    seq![
        "actions.githubusercontent.com"@,
        "blob.core.windows.net"@,
        "results-receiver.actions.githubusercontent.com"@,
        "localhost"@,
        "127.0.0.1"@,
        "::1"@,
        "169.254.169.254"@,
    ]
}

/// The hosts that are bypassed whatever the configuration.
fn always_bypassed() -> (out: Vec<&'static str>)
    ensures
        text::words(out@) == always_bypass(),
{
    let out: Vec<&'static str> = vec![
        "actions.githubusercontent.com",
        "blob.core.windows.net",
        "results-receiver.actions.githubusercontent.com",
        "localhost",
        "127.0.0.1",
        "::1",
        "169.254.169.254",
    ];
    assert(text::words(out@) =~= always_bypass());
    out
}

/// Host/path shapes that serve build artifacts addressed by version or digest. Responses from
/// these are stored even when the origin sends weak or absent freshness headers.
pub open spec fn immutable_shapes() -> Seq<(Seq<char>, Seq<char>)> {
    seq![
        ("registry.npmjs.org"@, "/-/"@),
        ("registry.yarnpkg.com"@, "/-/"@),
        ("files.pythonhosted.org"@, ""@),
        ("static.crates.io"@, ""@),
        ("crates.io"@, "/download"@),
        ("index.crates.io"@, ""@),
        ("proxy.golang.org"@, "/@v/"@),
        ("objects.githubusercontent.com"@, ""@),
        ("github.com"@, "/releases/download/"@),
        ("repo1.maven.org"@, ""@),
        ("repo.maven.apache.org"@, ""@),
        ("registry-1.docker.io"@, "/blobs/"@),
        ("production.cloudflare.docker.com"@, ""@),
        ("ghcr.io"@, "/blobs/"@),
        ("nodejs.org"@, "/dist/"@),
        ("static.rust-lang.org"@, ""@),
        ("deb.debian.org"@, ".deb"@),
        ("archive.ubuntu.com"@, ".deb"@),
        ("security.ubuntu.com"@, ".deb"@),
        ("azure.archive.ubuntu.com"@, ".deb"@),
    ]
}

/// The hosts of the artifact shapes, and beside each the piece of its paths.
fn artifact_shapes() -> (out: Vec<(&'static str, &'static str)>)
    ensures
        out@.map_values(|s: (&'static str, &'static str)| (s.0@, s.1@)) == immutable_shapes(),
{
    let out: Vec<(&'static str, &'static str)> = vec![
        ("registry.npmjs.org", "/-/"),
        ("registry.yarnpkg.com", "/-/"),
        ("files.pythonhosted.org", ""),
        ("static.crates.io", ""),
        ("crates.io", "/download"),
        ("index.crates.io", ""),
        ("proxy.golang.org", "/@v/"),
        ("objects.githubusercontent.com", ""),
        ("github.com", "/releases/download/"),
        ("repo1.maven.org", ""),
        ("repo.maven.apache.org", ""),
        ("registry-1.docker.io", "/blobs/"),
        ("production.cloudflare.docker.com", ""),
        ("ghcr.io", "/blobs/"),
        ("nodejs.org", "/dist/"),
        ("static.rust-lang.org", ""),
        ("deb.debian.org", ".deb"),
        ("archive.ubuntu.com", ".deb"),
        ("security.ubuntu.com", ".deb"),
        ("azure.archive.ubuntu.com", ".deb"),
    ];
    assert(out@.map_values(|s: (&'static str, &'static str)| (s.0@, s.1@)) =~= immutable_shapes());
    out
}

/// Query parameters that appear in pre-signed URLs. A URL carrying one of these is unique per
/// request, so an entry keyed on it could never be read back.
pub open spec fn signature_params() -> Seq<Seq<char>> {
    seq![
        "x-amz-signature"@,
        "x-goog-signature"@,
        "signature"@,
        "sig"@,
        "token"@,
        "se"@,
        "sp"@,
    ]
}

/// The names of the query parameters that sign a URL.
fn signature_names() -> (out: Vec<&'static str>)
    ensures
        text::words(out@) == signature_params(),
{
    let out: Vec<&'static str> = vec![
        "x-amz-signature",
        "x-goog-signature",
        "signature",
        "sig",
        "token",
        "se",
        "sp",
    ];
    assert(text::words(out@) =~= signature_params());
    out
}

#[derive(Clone)]
pub struct Policy {
    pub min_size: u64,
    pub max_size: u64,
    pub min_max_age: u64,
    pub cache_all: bool,
    pub cache_authorized: bool,
    pub extra_bypass: Vec<String>,
    pub key_prefix: String,
}

/// Why a response was not stored, for the request log.
#[derive(Debug, Clone, Copy, PartialEq, Eq, Structural)]
pub enum Reject {
    NotGet,
    BypassHost,
    Authorized,
    SignedUrl,
    Status,
    NoStore,
    TooSmall,
    TooLarge,
    NotImmutable,
}

/// The words for a reason in the request log.
pub open spec fn reason(r: Reject) -> Seq<char> {
    match r {
        Reject::NotGet => "not a GET"@,
        Reject::BypassHost => "bypassed host"@,
        Reject::Authorized => "authenticated request"@,
        Reject::SignedUrl => "pre-signed URL"@,
        Reject::Status => "non-200 status"@,
        Reject::NoStore => "no-store/no-cache/private"@,
        Reject::TooSmall => "below min-size"@,
        Reject::TooLarge => "above max-size"@,
        Reject::NotImmutable => "no immutability signal"@,
    }
}

impl Reject {
    /// The words for the reason in the request log.
    pub fn as_str(&self) -> (out: &'static str)
        ensures
            out@ == reason(*self),
    {
        match self {
            Reject::NotGet => "not a GET",
            Reject::BypassHost => "bypassed host",
            Reject::Authorized => "authenticated request",
            Reject::SignedUrl => "pre-signed URL",
            Reject::Status => "non-200 status",
            Reject::NoStore => "no-store/no-cache/private",
            Reject::TooSmall => "below min-size",
            Reject::TooLarge => "above max-size",
            Reject::NotImmutable => "no immutability signal",
        }
    }
}

/// Whether a host is the one that a pattern names, or a subdomain of it.
pub open spec fn host_fits(host: Seq<char>, pattern: Seq<char>) -> bool {
    host == pattern || ("."@ + pattern).is_suffix_of(host)
}

/// Whether a host fits one of several patterns.
pub open spec fn fits_any(host: Seq<char>, patterns: Seq<Seq<char>>) -> bool {
    exists|i: int| 0 <= i < patterns.len() && host_fits(host, #[trigger] patterns[i])
}

/// A host without the brackets that a URL puts around an IPv6 address.
pub open spec fn unbracketed(host: Seq<char>) -> Seq<char> {
    text::trim_end(text::trim_start(host, |c: char| c == '['), |c: char| c == ']')
}

/// Whether one of the names of a URL's query parameters, in lower case, is one that signs it.
pub open spec fn signed(names: Seq<Seq<char>>) -> bool {
    exists|i: int|
        0 <= i < names.len() && signature_params().contains(text::lower(#[trigger] names[i]))
}

/// Whether a host and a path have one of the artifact shapes.
pub open spec fn artifact(host: Seq<char>, path: Seq<char>) -> bool {
    exists|i: int|
        0 <= i < immutable_shapes().len() && host_fits(host, (#[trigger] immutable_shapes()[i]).0)
            && text::occurs(immutable_shapes()[i].1, path)
}

/// Whether a line of `Cache-Control` forbids to store the response. What does not read as text is
/// read byte by byte all the same.
pub open spec fn forbids(line: Seq<u8>) -> bool {
    let control = text::lower(headers::ascii_text(line));
    ||| text::occurs("no-store"@, control)
    ||| text::occurs("no-cache"@, control)
    ||| text::occurs("private"@, control)
}

/// Whether one of the lines of the `Cache-Control` of some headers forbids to store the response.
pub open spec fn forbidden(f: Fields) -> bool {
    exists|i: int|
        0 <= i < headers::values_in(f, "cache-control"@).len() && forbids(
            #[trigger] headers::values_in(f, "cache-control"@)[i],
        )
}

/// The first line of the `Cache-Control` of some headers, in lower case; nothing where there is none
/// or it does not read as text.
pub open spec fn cache_control(f: Fields) -> Seq<char> {
    match headers::first_text(f, "cache-control"@) {
        Some(s) => text::lower(s),
        None => Seq::empty(),
    }
}

/// What follows a prefix in the first of the pieces, trimmed, that begin with it.
pub open spec fn first_after(pieces: Seq<Seq<char>>, prefix: Seq<char>) -> Option<Seq<char>>
    decreases pieces.len(),
{
    if pieces.len() == 0 {
        None
    } else if prefix.is_prefix_of(text::trim(pieces[0])) {
        Some(text::trim(pieces[0]).skip(prefix.len() as int))
    } else {
        first_after(pieces.skip(1), prefix)
    }
}

/// The age that the first `max-age` directive of a `Cache-Control` names.
pub open spec fn age(control: Seq<char>) -> Option<u64> {
    match first_after(text::split(control, ','), "max-age="@) {
        Some(value) => numbers::parsed(value),
        None => None,
    }
}

impl Policy {
    /// Whether a host is passed through untouched.
    pub open spec fn bypasses(&self, host: Seq<char>) -> bool {
        fits_any(unbracketed(host), always_bypass()) || fits_any(
            unbracketed(host),
            text::texts(self.extra_bypass@),
        )
    }

    /// The verdict on a request: the first of the conditions that it does not meet.
    pub open spec fn request_verdict(
        &self,
        method: Seq<char>,
        u: UrlModel,
        f: Fields,
    ) -> Result<(), Reject> {
        if method != "GET"@ {
            Err(Reject::NotGet)
        } else if self.bypasses(url::host_or_empty(u)) {
            Err(Reject::BypassHost)
        } else if !self.cache_authorized && (f.contains_key("authorization"@) || f.contains_key(
            "cookie"@,
        )) {
            Err(Reject::Authorized)
        } else if signed(u.query_names) {
            Err(Reject::SignedUrl)
        } else {
            Ok(())
        }
    }

    /// Whether something says that a response will not change at its URL.
    pub open spec fn lasting(&self, u: UrlModel, f: Fields) -> bool {
        ||| self.cache_all
        ||| text::occurs("immutable"@, cache_control(f))
        ||| age(cache_control(f)) is Some && age(cache_control(f)).unwrap() >= self.min_max_age
        ||| artifact(url::host_or_empty(u), u.path)
    }

    /// The verdict on a response: the first of the conditions that it does not meet.
    pub open spec fn response_verdict(
        &self,
        u: UrlModel,
        status: u16,
        f: Fields,
        len: u64,
    ) -> Result<(), Reject> {
        if status != 200 {
            Err(Reject::Status)
        } else if forbidden(f) {
            Err(Reject::NoStore)
        } else if len < self.min_size {
            Err(Reject::TooSmall)
        } else if len > self.max_size {
            Err(Reject::TooLarge)
        } else if self.lasting(u, f) {
            Ok(())
        } else {
            Err(Reject::NotImmutable)
        }
    }

    /// The key of a URL: the prefix, and a digest of the method and the canonical URL.
    pub open spec fn key_of(&self, u: UrlModel) -> Seq<char> {
        self.key_prefix@ + "-"@ + digest::sha256_hex(
            encode_utf8("GET\n"@) + encode_utf8(url::normalized(u)),
        )
    }
}

impl Policy {
    /// Whether the request is eligible for a cache lookup at all. Checked before going upstream so
    /// that ineligible traffic is streamed straight through.
    pub fn request_eligible(
        &self,
        method: &str,
        url: &Url,
        headers: &HeaderMap<HeaderValue>,
    ) -> (out: Result<(), Reject>)
        ensures
            out == self.request_verdict(method@, url@, headers::fields(*headers)),
    {
        if !text::same_text(method, "GET") {
            return Err(Reject::NotGet);
        }
        if self.is_bypassed(url.host_str()) {
            return Err(Reject::BypassHost);
        }
        proof {
            reveal_strlit("authorization");
            reveal_strlit("cookie");
            assert(text::lower("authorization"@) =~= "authorization"@);
            assert(text::lower("cookie"@) =~= "cookie"@);
        }
        if !self.cache_authorized && (headers::has_name(headers, "authorization")
            || headers::has_name(headers, "cookie")) {
            return Err(Reject::Authorized);
        }
        if is_signed_url(url) {
            return Err(Reject::SignedUrl);
        }
        Ok(())
    }

    /// Whether an upstream response for an eligible request may be stored.
    pub fn response_storable(
        &self,
        url: &Url,
        status: u16,
        headers: &HeaderMap<HeaderValue>,
        len: u64,
    ) -> (out: Result<(), Reject>)
        ensures
            out == self.response_verdict(url@, status, headers::fields(*headers), len),
    {
        if status != 200 {
            return Err(Reject::Status);
        }
        proof {
            reveal_strlit("cache-control");
            assert(text::lower("cache-control"@) =~= "cache-control"@);
            assert(text::lower(Seq::empty()) =~= Seq::empty());
        }
        let value = headers::text_of(headers, "cache-control");
        let chars = text::to_chars(value.as_str());
        let control = text::to_lower(chars.as_slice());
        let directives = text::from_chars(control.as_slice());
        if is_forbidden(headers) {
            return Err(Reject::NoStore);
        }
        if len < self.min_size {
            return Err(Reject::TooSmall);
        }
        if len > self.max_size {
            return Err(Reject::TooLarge);
        }
        let long_lived = match max_age(directives.as_str()) {
            Some(age) => age >= self.min_max_age,
            None => false,
        };
        if self.cache_all || mentions(control.as_slice(), "immutable") || long_lived
            || is_immutable_artifact(url) {
            return Ok(());
        }
        Err(Reject::NotImmutable)
    }

    /// Whether a host is passed through untouched.
    pub fn is_bypassed(&self, host: &str) -> (out: bool)
        ensures
            out == self.bypasses(host@),
    {
        let chars = text::to_chars(host);
        let bare = text::from_chars(text::unwrapped(chars.as_slice(), '[', ']'));
        let always = always_bypassed();
        let mut i: usize = 0;
        while i < always.len()
            invariant
                i <= always.len(),
                bare@ == unbracketed(host@),
                text::words(always@) == always_bypass(),
                forall|j: int|
                    0 <= j < i ==> !host_fits(bare@, #[trigger] text::words(always@)[j]),
            decreases always.len() - i,
        {
            if host_matches(bare.as_str(), always[i]) {
                assert(host_fits(bare@, always_bypass()[i as int]));
                return true;
            }
            i += 1;
        }
        let mut i: usize = 0;
        while i < self.extra_bypass.len()
            invariant
                i <= self.extra_bypass.len(),
                bare@ == unbracketed(host@),
                forall|j: int|
                    0 <= j < i ==> !host_fits(
                        bare@,
                        #[trigger] text::texts(self.extra_bypass@)[j],
                    ),
            decreases self.extra_bypass.len() - i,
        {
            if host_matches(bare.as_str(), self.extra_bypass[i].as_str()) {
                assert(host_fits(bare@, text::texts(self.extra_bypass@)[i as int]));
                return true;
            }
            i += 1;
        }
        false
    }

    /// Cache key for a request. Keys are opaque digests, so the 512-character limit and the
    /// prohibition on commas in Actions cache keys are never a concern.
    pub fn key(&self, url: &Url) -> (out: String)
        ensures
            out@ == self.key_of(url@),
    {
        let canonical = url::normalize(url);
        let mut hashed: Vec<u8> = Vec::new();
        wire::push_all(&mut hashed, wire::text_bytes("GET\n"));
        assert(hashed@ =~= encode_utf8("GET\n"@));
        wire::push_all(&mut hashed, wire::text_bytes(canonical.as_str()));
        let hash = digest::sha_hex(hashed.as_slice());
        let mut out = String::new();
        out.append(self.key_prefix.as_str());
        assert(out@ =~= self.key_prefix@);
        out.append("-");
        out.append(hash.as_str());
        out
    }
}

/// Whether one of the lines of the `Cache-Control` of some headers forbids to store the response.
fn is_forbidden(headers: &HeaderMap<HeaderValue>) -> (out: bool)
    ensures
        out == forbidden(headers::fields(*headers)),
{
    proof {
        reveal_strlit("cache-control");
        assert(text::lower("cache-control"@) =~= "cache-control"@);
    }
    let lines = headers::all_values(headers, "cache-control");
    let ghost all = headers::values_in(headers::fields(*headers), "cache-control"@);
    let mut i: usize = 0;
    while i < lines.len()
        invariant
            i <= lines.len(),
            all == headers::values_in(headers::fields(*headers), "cache-control"@),
            wire::byte_runs(lines@) == all,
            forall|j: int| 0 <= j < i ==> !forbids(#[trigger] all[j]),
        decreases lines.len() - i,
    {
        let chars = headers::byte_text(lines[i].as_slice());
        let control = text::to_lower(chars.as_slice());
        assert(all[i as int] == lines@[i as int]@);
        if mentions(control.as_slice(), "no-store") || mentions(control.as_slice(), "no-cache")
            || mentions(control.as_slice(), "private") {
            assert(forbids(all[i as int]));
            return true;
        }
        i += 1;
    }
    false
}

/// A response that the origin forbids to store on any line of its `Cache-Control` is not stored,
/// whatever the other lines say.
pub proof fn law_any_line_forbids(
    p: Policy,
    u: UrlModel,
    status: u16,
    f: Fields,
    len: u64,
    i: int,
)
    requires
        0 <= i < headers::values_in(f, "cache-control"@).len(),
        forbids(headers::values_in(f, "cache-control"@)[i]),
    ensures
        p.response_verdict(u, status, f, len) is Err,
        status == 200 ==> p.response_verdict(u, status, f, len) == Err::<(), Reject>(
            Reject::NoStore,
        ),
{
}

/// Whether a word occurs in a text.
fn mentions(s: &[char], word: &str) -> (out: bool)
    ensures
        out == text::occurs(word@, s@),
{
    let word = text::to_chars(word);
    text::contains(s, word.as_slice())
}

/// Whether a URL carries a signature in its query.
pub fn is_signed_url(url: &Url) -> (out: bool)
    ensures
        out == signed(url@.query_names),
{
    let signatures = signature_names();
    let mut i: usize = 0;
    while i < url.query_names.len()
        invariant
            i <= url.query_names.len(),
            text::words(signatures@) == signature_params(),
            forall|j: int|
                0 <= j < i ==> !signature_params().contains(
                    text::lower(#[trigger] url@.query_names[j]),
                ),
        decreases url.query_names.len() - i,
    {
        let chars = text::to_chars(url.query_names[i].as_str());
        let name = text::from_chars(text::to_lower(chars.as_slice()).as_slice());
        if text::is_one_of(name.as_str(), signatures.as_slice()) {
            assert(signature_params().contains(text::lower(url@.query_names[i as int])));
            return true;
        }
        i += 1;
    }
    false
}

/// Whether a URL has one of the shapes that serve build artifacts.
pub fn is_immutable_artifact(url: &Url) -> (out: bool)
    ensures
        out == artifact(url::host_or_empty(url@), url@.path),
{
    let shapes = artifact_shapes();
    let ghost view = |s: (&'static str, &'static str)| (s.0@, s.1@);
    let path = text::to_chars(url.path.as_str());
    let host = url.host_str();
    let mut i: usize = 0;
    while i < shapes.len()
        invariant
            i <= shapes.len(),
            shapes@.map_values(view) == immutable_shapes(),
            view == (|s: (&'static str, &'static str)| (s.0@, s.1@)),
            path@ == url@.path,
            host@ == url::host_or_empty(url@),
            forall|j: int|
                0 <= j < i ==> !(host_fits(host@, (#[trigger] immutable_shapes()[j]).0)
                    && text::occurs(immutable_shapes()[j].1, path@)),
        decreases shapes.len() - i,
    {
        let (pattern_host, pattern_path) = shapes[i];
        assert(immutable_shapes()[i as int] == view(shapes@[i as int]));
        if host_matches(host, pattern_host) && mentions(path.as_slice(), pattern_path) {
            return true;
        }
        i += 1;
    }
    false
}

/// Matches a host against a pattern exactly, or as a subdomain of it.
pub fn host_matches(host: &str, pattern: &str) -> (out: bool)
    ensures
        out == host_fits(host@, pattern@),
{
    if text::same_text(host, pattern) {
        return true;
    }
    let mut suffix = String::new();
    suffix.append(".");
    assert(suffix@ =~= "."@);
    suffix.append(pattern);
    let host = text::to_chars(host);
    let suffix = text::to_chars(suffix.as_str());
    text::finishes_with(host.as_slice(), suffix.as_slice())
}

/// The age that the first `max-age` directive of a `Cache-Control` names.
pub fn max_age(cache_control: &str) -> (out: Option<u64>)
    ensures
        out == age(cache_control@),
{
    let chars = text::to_chars(cache_control);
    let directives = text::split_at(chars.as_slice(), ',');
    let prefix = text::to_chars("max-age=");
    let ghost pieces = text::runs(directives@);
    let mut i: usize = 0;
    assert(pieces.skip(0) =~= pieces);
    while i < directives.len()
        invariant
            i <= directives.len(),
            pieces == text::runs(directives@),
            prefix@ == "max-age="@,
            pieces == text::split(cache_control@, ','),
            first_after(pieces, prefix@) == first_after(pieces.skip(i as int), prefix@),
        decreases directives.len() - i,
    {
        let directive = text::trimmed(directives[i].as_slice());
        assert(pieces.skip(i as int)[0] == directives@[i as int]@);
        if text::begins_with(directive, prefix.as_slice()) {
            let value = vstd::slice::slice_subrange(directive, prefix.len(), directive.len());
            assert(value@ =~= directive@.skip(prefix@.len() as int));
            return numbers::parse_u64(value);
        }
        assert(pieces.skip(i as int).skip(1) =~= pieces.skip(i + 1));
        i += 1;
    }
    None
}

/// A response is stored only if all the conditions hold, and whenever they do: the method is GET,
/// the host is not bypassed, the request carries no credentials (or those are allowed), the URL is
/// not pre-signed, the status is 200, the origin does not forbid it, the size is in bounds, and
/// something says that the response lasts.
pub proof fn law_all_conditions_hold(
    p: Policy,
    method: Seq<char>,
    u: UrlModel,
    request: Fields,
    status: u16,
    response: Fields,
    len: u64,
)
    ensures
        (p.request_verdict(method, u, request) is Ok && p.response_verdict(
            u,
            status,
            response,
            len,
        ) is Ok) <==> {
            &&& method == "GET"@
            &&& !p.bypasses(url::host_or_empty(u))
            &&& p.cache_authorized || (!request.contains_key("authorization"@)
                && !request.contains_key("cookie"@))
            &&& !signed(u.query_names)
            &&& status == 200
            &&& !forbidden(response)
            &&& p.min_size <= len <= p.max_size
            &&& p.lasting(u, response)
        },
{
}

/// No configuration makes the cache service, its blob storage, loopback or the metadata address
/// eligible.
pub proof fn law_built_in_bypasses_cannot_be_lifted(
    p: Policy,
    method: Seq<char>,
    u: UrlModel,
    f: Fields,
)
    requires
        fits_any(unbracketed(url::host_or_empty(u)), always_bypass()),
    ensures
        p.request_verdict(method, u, f) is Err,
{
}

/// A configured host is bypassed, and so is each of its subdomains.
pub proof fn law_configured_hosts_are_bypassed(p: Policy, i: int, sub: Seq<char>)
    requires
        0 <= i < p.extra_bypass@.len(),
        unbracketed(p.extra_bypass@[i]@) == p.extra_bypass@[i]@,
        unbracketed(sub + "."@ + p.extra_bypass@[i]@) == sub + "."@ + p.extra_bypass@[i]@,
    ensures
        p.bypasses(p.extra_bypass@[i]@),
        p.bypasses(sub + "."@ + p.extra_bypass@[i]@),
{
    let pattern = p.extra_bypass@[i]@;
    law_subdomains_fit_but_suffixes_do_not(sub, pattern);
    assert(text::texts(p.extra_bypass@)[i] == pattern);
}

/// A subdomain fits the pattern of its domain. A host that merely ends in the same characters does
/// not: before the pattern stands a dot.
pub proof fn law_subdomains_fit_but_suffixes_do_not(sub: Seq<char>, pattern: Seq<char>)
    ensures
        host_fits(pattern, pattern),
        host_fits(sub + "."@ + pattern, pattern),
        sub.len() > 0 && sub.last() != '.' ==> !host_fits(sub + pattern, pattern),
{
    reveal_strlit(".");
    let host = sub + "."@ + pattern;
    assert(host.subrange(host.len() - ("."@ + pattern).len(), host.len() as int) =~= "."@
        + pattern);
    if sub.len() > 0 && sub.last() != '.' {
        let host = sub + pattern;
        if ("."@ + pattern).is_suffix_of(host) {
            assert(host.subrange(host.len() - ("."@ + pattern).len(), host.len() as int)[0] == '.');
            assert(host[sub.len() - 1] == '.');
        }
    }
}

/// A pre-signed URL is never eligible.
pub proof fn law_pre_signed_urls_are_never_eligible(
    p: Policy,
    method: Seq<char>,
    u: UrlModel,
    f: Fields,
)
    requires
        signed(u.query_names),
    ensures
        p.request_verdict(method, u, f) is Err,
{
}

/// Keys ignore fragments and default ports.
pub proof fn law_keys_ignore_default_ports_and_fragments(
    p: Policy,
    u: UrlModel,
    fragment: Option<Seq<char>>,
)
    ensures
        p.key_of(UrlModel { fragment, ..u }) == p.key_of(u),
        u.scheme == "https"@ ==> p.key_of(UrlModel { port: Some(443), ..u }) == p.key_of(
            UrlModel { port: None, ..u },
        ),
        u.scheme == "http"@ ==> p.key_of(UrlModel { port: Some(80), ..u }) == p.key_of(
            UrlModel { port: None, ..u },
        ),
{
    url::law_fragments_are_ignored(u, fragment);
    url::law_default_ports_are_ignored(u);
}

/// A key adds 65 characters to the prefix, and none of them is a comma: neither the limit on the
/// length of a key nor the prohibition on commas is a concern.
pub proof fn law_keys_are_short_and_without_commas(p: Policy, u: UrlModel)
    ensures
        p.key_of(u).len() == p.key_prefix@.len() + 65,
        p.key_of(u).take(p.key_prefix@.len() as int) == p.key_prefix@,
        forall|i: int| p.key_prefix@.len() <= i < p.key_of(u).len() ==> #[trigger] p.key_of(u)[i] != ',',
{
    reveal_strlit("-");
    digest::lemma_digest_shape(encode_utf8("GET\n"@) + encode_utf8(url::normalized(u)));
    assert(p.key_of(u).take(p.key_prefix@.len() as int) =~= p.key_prefix@);
}

/// Changing the prefix invalidates everything previously stored: policies with different prefixes
/// have no key in common.
pub proof fn law_prefixes_share_no_key(p: Policy, q: Policy, u: UrlModel, v: UrlModel)
    requires
        p.key_prefix@ != q.key_prefix@,
    ensures
        p.key_of(u) != q.key_of(v),
{
    law_keys_are_short_and_without_commas(p, u);
    law_keys_are_short_and_without_commas(q, v);
}

/// Whether a host is one of some name, or has that name behind a dot at its end.
pub open spec fn below(host: Seq<char>, name: Seq<char>) -> bool {
    let at = host.len() - name.len();
    host == name || (at > 0 && host[at - 1] == '.' && host.skip(at) == name)
}

/// A host fits a pattern where it is that name, or ends in a dot and that name.
pub proof fn law_hosts_fit_by_whole_labels(host: Seq<char>, pattern: Seq<char>)
    ensures
        host_fits(host, pattern) <==> below(host, pattern),
{
    reveal_strlit(".");
    let at = host.len() - pattern.len();
    let suffix = "."@ + pattern;
    if suffix.is_suffix_of(host) {
        assert(host.subrange(host.len() - suffix.len(), host.len() as int)[0] == '.');
        assert(host.skip(at) =~= host.subrange(at - 1, host.len() as int).skip(1));
        assert(suffix.skip(1) =~= pattern);
    }
    if at > 0 && host[at - 1] == '.' && host.skip(at) == pattern {
        assert(host.subrange(host.len() - suffix.len(), host.len() as int) =~= suffix);
    }
}

/// A host that has no brackets around it is looked at as it is, and in brackets as without them.
proof fn lemma_unbracketed(front: Seq<char>, host: Seq<char>, back: Seq<char>)
    requires
        forall|i: int| 0 <= i < front.len() ==> #[trigger] front[i] == '[',
        forall|i: int| 0 <= i < back.len() ==> #[trigger] back[i] == ']',
        host.len() > 0 ==> host[0] != '[' && host.last() != ']',
    ensures
        unbracketed(front + host + back) == host,
{
    text::law_trimming_the_start(front, host + back, |c: char| c == '[');
    text::law_trimming_the_end(host, back, |c: char| c == ']');
    assert(front + (host + back) =~= front + host + back);
}

/// The hosts that are bypassed are the cache service, its blob storage, loopback and the metadata
/// address, those that are configured, and all below them; no others are. Brackets around an address
/// make no difference.
pub proof fn law_bypassed_hosts(p: Policy, front: Seq<char>, host: Seq<char>, back: Seq<char>)
    requires
        forall|i: int| 0 <= i < front.len() ==> #[trigger] front[i] == '[',
        forall|i: int| 0 <= i < back.len() ==> #[trigger] back[i] == ']',
        host.len() > 0 ==> host[0] != '[' && host.last() != ']',
    ensures
        p.bypasses(host) <==> {
            ||| below(host, "actions.githubusercontent.com"@)
            ||| below(host, "blob.core.windows.net"@)
            ||| below(host, "results-receiver.actions.githubusercontent.com"@)
            ||| below(host, "localhost"@)
            ||| below(host, "127.0.0.1"@)
            ||| below(host, "::1"@)
            ||| below(host, "169.254.169.254"@)
            ||| exists|i: int|
                0 <= i < p.extra_bypass@.len() && below(host, (#[trigger] p.extra_bypass@[i])@)
        },
        p.bypasses(front + host + back) == p.bypasses(host),
{
    let none = Seq::<char>::empty();
    lemma_unbracketed(front, host, back);
    lemma_unbracketed(none, host, none);
    assert(none + host + none =~= host);
    assert forall|name: Seq<char>| #[trigger] host_fits(host, name) == below(host, name) by {
        law_hosts_fit_by_whole_labels(host, name);
    }
    let extra = text::texts(p.extra_bypass@);
    assert(always_bypass()[0] == "actions.githubusercontent.com"@);
    assert(always_bypass()[1] == "blob.core.windows.net"@);
    assert(always_bypass()[2] == "results-receiver.actions.githubusercontent.com"@);
    assert(always_bypass()[3] == "localhost"@);
    assert(always_bypass()[4] == "127.0.0.1"@);
    assert(always_bypass()[5] == "::1"@);
    assert(always_bypass()[6] == "169.254.169.254"@);
    assert(always_bypass().len() == 7);
    if fits_any(host, extra) {
        let i = choose|i: int| 0 <= i < extra.len() && host_fits(host, #[trigger] extra[i]);
        assert(below(host, p.extra_bypass@[i]@));
    }
    assert forall|i: int|
        0 <= i < p.extra_bypass@.len() && below(
            host,
            (#[trigger] p.extra_bypass@[i])@,
        ) implies fits_any(host, extra) by {
        assert(host_fits(host, extra[i]));
    }
    assert forall|i: int| 0 <= i < 7 && host_fits(host, #[trigger] always_bypass()[i]) implies below(
        host,
        always_bypass()[i],
    ) by {}
}

/// Whether a query parameter of some name, in lower case, is a signature.
pub open spec fn signs(name: Seq<char>) -> bool {
    ||| name == "x-amz-signature"@
    ||| name == "x-goog-signature"@
    ||| name == "signature"@
    ||| name == "sig"@
    ||| name == "token"@
    ||| name == "se"@
    ||| name == "sp"@
}

/// The parameters that sign a URL.
proof fn lemma_signature_params(name: Seq<char>)
    ensures
        signature_params().contains(name) == signs(name),
{
    assert(signature_params()[0] == "x-amz-signature"@);
    assert(signature_params()[1] == "x-goog-signature"@);
    assert(signature_params()[2] == "signature"@);
    assert(signature_params()[3] == "sig"@);
    assert(signature_params()[4] == "token"@);
    assert(signature_params()[5] == "se"@);
    assert(signature_params()[6] == "sp"@);
    assert(signature_params().len() == 7);
}

/// A request is refused a lookup for the first of these reasons that holds: its method is not GET;
/// its host is bypassed; it carries credentials or a cookie, and those are not allowed; one of the
/// parameters of its query, whichever it is and however its name is capitalised, is a signature.
/// Otherwise it is looked up.
#[verifier::spinoff_prover]
#[verifier::rlimit(60)]
pub proof fn law_requests_are_judged_in_turn(p: Policy, method: Seq<char>, u: UrlModel, f: Fields)
    ensures
        ({
            let verdict = p.request_verdict(method, u, f);
            let get = method == seq!['G', 'E', 'T'];
            let bypassed = p.bypasses(
                match u.host {
                    Some(h) => h,
                    None => Seq::empty(),
                },
            );
            let credentials = f.contains_key("authorization"@) || f.contains_key("cookie"@);
            let presigned = exists|i: int|
                0 <= i < u.query_names.len() && signs(text::lower(#[trigger] u.query_names[i]));
            let refused = !p.cache_authorized && credentials;
            &&& verdict == Err::<(), Reject>(Reject::NotGet) <==> !get
            &&& verdict == Err::<(), Reject>(Reject::BypassHost) <==> get && bypassed
            &&& verdict == Err::<(), Reject>(Reject::Authorized) <==> get && !bypassed && refused
            &&& verdict == Err::<(), Reject>(Reject::SignedUrl) <==> get && !bypassed && !refused
                && presigned
            &&& verdict is Ok <==> get && !bypassed && !refused && !presigned
        }),
{
    reveal_strlit("GET");
    assert("GET"@ =~= seq!['G', 'E', 'T']);
    assert forall|i: int| 0 <= i < u.query_names.len() implies signature_params().contains(
        text::lower(#[trigger] u.query_names[i]),
    ) == signs(text::lower(u.query_names[i])) by {
        lemma_signature_params(text::lower(u.query_names[i]));
    }
}

/// A parameter that signs a URL makes it ineligible wherever it stands in the query, and whatever
/// stands around it.
pub proof fn law_any_parameter_can_sign(
    p: Policy,
    method: Seq<char>,
    u: UrlModel,
    f: Fields,
    front: Seq<Seq<char>>,
    name: Seq<char>,
    back: Seq<Seq<char>>,
)
    requires
        signs(text::lower(name)),
        u.query_names == front + seq![name] + back,
    ensures
        p.request_verdict(method, u, f) is Err,
{
    law_requests_are_judged_in_turn(p, method, u, f);
    assert(u.query_names[front.len() as int] == name);
}

/// The artifacts are those of the hosts that serve them, and all below, under the paths that they
/// have there.
#[verifier::spinoff_prover]
#[verifier::rlimit(60)]
pub proof fn law_artifacts(host: Seq<char>, path: Seq<char>)
    ensures
        artifact(host, path) <==> {
            ||| below(host, "registry.npmjs.org"@) && text::occurs("/-/"@, path)
            ||| below(host, "registry.yarnpkg.com"@) && text::occurs("/-/"@, path)
            ||| below(host, "files.pythonhosted.org"@)
            ||| below(host, "static.crates.io"@)
            ||| below(host, "crates.io"@) && text::occurs("/download"@, path)
            ||| below(host, "index.crates.io"@)
            ||| below(host, "proxy.golang.org"@) && text::occurs("/@v/"@, path)
            ||| below(host, "objects.githubusercontent.com"@)
            ||| below(host, "github.com"@) && text::occurs("/releases/download/"@, path)
            ||| below(host, "repo1.maven.org"@)
            ||| below(host, "repo.maven.apache.org"@)
            ||| below(host, "registry-1.docker.io"@) && text::occurs("/blobs/"@, path)
            ||| below(host, "production.cloudflare.docker.com"@)
            ||| below(host, "ghcr.io"@) && text::occurs("/blobs/"@, path)
            ||| below(host, "nodejs.org"@) && text::occurs("/dist/"@, path)
            ||| below(host, "static.rust-lang.org"@)
            ||| below(host, "deb.debian.org"@) && text::occurs(".deb"@, path)
            ||| below(host, "archive.ubuntu.com"@) && text::occurs(".deb"@, path)
            ||| below(host, "security.ubuntu.com"@) && text::occurs(".deb"@, path)
            ||| below(host, "azure.archive.ubuntu.com"@) && text::occurs(".deb"@, path)
        },
{
    reveal_strlit("");
    text::law_what_occurs_stands_between(""@, ""@, path, path);
    assert(""@ + ""@ + path =~= path);
    assert forall|name: Seq<char>| #[trigger] host_fits(host, name) == below(host, name) by {
        law_hosts_fit_by_whole_labels(host, name);
    }
    assert(immutable_shapes().len() == 20);
    assert(immutable_shapes()[0] == ("registry.npmjs.org"@, "/-/"@));
    assert(immutable_shapes()[1] == ("registry.yarnpkg.com"@, "/-/"@));
    assert(immutable_shapes()[2] == ("files.pythonhosted.org"@, ""@));
    assert(immutable_shapes()[3] == ("static.crates.io"@, ""@));
    assert(immutable_shapes()[4] == ("crates.io"@, "/download"@));
    assert(immutable_shapes()[5] == ("index.crates.io"@, ""@));
    assert(immutable_shapes()[6] == ("proxy.golang.org"@, "/@v/"@));
    assert(immutable_shapes()[7] == ("objects.githubusercontent.com"@, ""@));
    assert(immutable_shapes()[8] == ("github.com"@, "/releases/download/"@));
    assert(immutable_shapes()[9] == ("repo1.maven.org"@, ""@));
    assert(immutable_shapes()[10] == ("repo.maven.apache.org"@, ""@));
    assert(immutable_shapes()[11] == ("registry-1.docker.io"@, "/blobs/"@));
    assert(immutable_shapes()[12] == ("production.cloudflare.docker.com"@, ""@));
    assert(immutable_shapes()[13] == ("ghcr.io"@, "/blobs/"@));
    assert(immutable_shapes()[14] == ("nodejs.org"@, "/dist/"@));
    assert(immutable_shapes()[15] == ("static.rust-lang.org"@, ""@));
    assert(immutable_shapes()[16] == ("deb.debian.org"@, ".deb"@));
    assert(immutable_shapes()[17] == ("archive.ubuntu.com"@, ".deb"@));
    assert(immutable_shapes()[18] == ("security.ubuntu.com"@, ".deb"@));
    assert(immutable_shapes()[19] == ("azure.archive.ubuntu.com"@, ".deb"@));
}

/// A line of `Cache-Control` forbids to store the response where it holds one of three words, however
/// they are capitalised.
pub proof fn law_what_forbids(line: Seq<u8>)
    ensures
        forbids(line) <==> {
            let control = text::lower(Seq::new(line.len(), |i: int| line[i] as char));
            ||| text::occurs("no-store"@, control)
            ||| text::occurs("no-cache"@, control)
            ||| text::occurs("private"@, control)
        },
{
    assert(headers::ascii_text(line) =~= Seq::new(line.len(), |i: int| line[i] as char));
}

/// A response is refused for the first of these reasons that holds: its status is not 200; a line of
/// its `Cache-Control`, whichever, forbids to store it; it is smaller than the smallest or larger than
/// the largest that is stored; nothing says that it lasts. Otherwise it is stored.
///
/// Each of these says that it lasts, whatever the others say: that everything is stored; the word
/// `immutable` or a `max-age` that is long enough on the first line of its `Cache-Control`; that it is
/// an artifact.
pub proof fn law_responses_are_judged_in_turn(
    p: Policy,
    u: UrlModel,
    status: u16,
    f: Fields,
    len: u64,
    lines: Seq<Seq<u8>>,
    first: Seq<char>,
    host: Seq<char>,
    forbidding: bool,
    lasts: bool,
)
    requires
        lines == if f.contains_key("cache-control"@) {
            f["cache-control"@]
        } else {
            Seq::empty()
        },
        first == if f.contains_key("cache-control"@) && headers::visible(lines[0]) {
            text::lower(headers::ascii_text(lines[0]))
        } else {
            Seq::empty()
        },
        host == match u.host {
            Some(h) => h,
            None => Seq::empty(),
        },
        forbidding == exists|i: int| 0 <= i < lines.len() && forbids(#[trigger] lines[i]),
        lasts == (p.cache_all || text::occurs("immutable"@, first) || (age(first) is Some && age(
            first,
        ).unwrap() >= p.min_max_age) || artifact(host, u.path)),
    ensures
        status != 200 ==> p.response_verdict(u, status, f, len) == Err::<(), Reject>(
            Reject::Status,
        ),
        status == 200 && forbidding ==> p.response_verdict(u, status, f, len) == Err::<(), Reject>(
            Reject::NoStore,
        ),
        status == 200 && !forbidding && len < p.min_size ==> p.response_verdict(u, status, f, len)
            == Err::<(), Reject>(Reject::TooSmall),
        status == 200 && !forbidding && len >= p.min_size && len > p.max_size
            ==> p.response_verdict(u, status, f, len) == Err::<(), Reject>(Reject::TooLarge),
        status == 200 && !forbidding && p.min_size <= len <= p.max_size && !lasts
            ==> p.response_verdict(u, status, f, len) == Err::<(), Reject>(Reject::NotImmutable),
        status == 200 && !forbidding && p.min_size <= len <= p.max_size && lasts
            ==> p.response_verdict(u, status, f, len) is Ok,
{
    assert(headers::values_in(f, "cache-control"@) == lines);
    assert(cache_control(f) == first);
    assert(url::host_or_empty(u) == host);
    assert(forbidden(f) == forbidding);
    assert(p.lasting(u, f) == lasts);
}

/// An artifact is stored whatever age its origin gives it, or none.
pub proof fn law_artifacts_are_stored_whatever_their_age(
    p: Policy,
    u: UrlModel,
    f: Fields,
    g: Fields,
    len: u64,
)
    requires
        u.host is Some,
        artifact(u.host.unwrap(), u.path),
        forall|i: int|
            0 <= i < headers::values_in(f, "cache-control"@).len() ==> !forbids(
                #[trigger] headers::values_in(f, "cache-control"@)[i],
            ),
        forall|i: int|
            0 <= i < headers::values_in(g, "cache-control"@).len() ==> !forbids(
                #[trigger] headers::values_in(g, "cache-control"@)[i],
            ),
        p.min_size <= len <= p.max_size,
    ensures
        p.response_verdict(u, 200, f, len) is Ok,
        p.response_verdict(u, 200, g, len) is Ok,
{
    assert(!forbidden(f));
    assert(!forbidden(g));
    assert(p.lasting(u, f));
    assert(p.lasting(u, g));
}

/// What follows a prefix in pieces of which the first few do not begin with it.
proof fn lemma_first_after(pieces: Seq<Seq<char>>, prefix: Seq<char>, k: int)
    requires
        0 <= k <= pieces.len(),
        forall|j: int| 0 <= j < k ==> !prefix.is_prefix_of(text::trim(#[trigger] pieces[j])),
    ensures
        first_after(pieces, prefix) == first_after(pieces.skip(k), prefix),
    decreases k,
{
    if k == 0 {
        assert(pieces.skip(0) =~= pieces);
    } else {
        let rest = pieces.skip(1);
        assert forall|j: int| 0 <= j < k - 1 implies !prefix.is_prefix_of(
            text::trim(#[trigger] rest[j]),
        ) by {
            assert(rest[j] == pieces[j + 1]);
        }
        assert(!prefix.is_prefix_of(text::trim(pieces[0])));
        lemma_first_after(rest, prefix, k - 1);
        assert(rest.skip(k - 1) =~= pieces.skip(k));
    }
}

/// The age is the number behind `max-age=` in the first of the directives between commas that begins
/// so, white space around a directive aside; there is none where none does.
pub proof fn law_the_first_max_age_counts(
    directives: Seq<Seq<char>>,
    k: int,
    value: Seq<char>,
)
    requires
        directives.len() > 0,
        forall|j: int| 0 <= j < directives.len() ==> !(#[trigger] directives[j]).contains(','),
        0 <= k <= directives.len(),
        forall|j: int|
            0 <= j < k ==> !"max-age="@.is_prefix_of(text::trim(#[trigger] directives[j])),
        k < directives.len() ==> text::trim(directives[k]) == "max-age="@ + value,
    ensures
        age(text::join(directives, seq![','])) == if k < directives.len() {
            numbers::parsed(value)
        } else {
            None
        },
{
    let prefix = "max-age="@;
    text::lemma_split_join(directives, ',');
    lemma_first_after(directives, prefix, k);
    if k < directives.len() {
        let found = prefix + value;
        assert(directives.skip(k)[0] == directives[k]);
        assert(found.subrange(0, prefix.len() as int) =~= prefix);
        assert(found.skip(prefix.len() as int) =~= value);
    }
}

/// The key of a URL is the prefix, a hyphen, and the digest of the word `GET`, a line feed and the
/// URL's text, in which a fragment and the port of the scheme are left out and all else is as it is:
/// its case, its path and its query. A blank at the end of an opaque path without a query is left out
/// with the fragment that it stood before.
pub proof fn law_keys_are_digests_of_the_url(p: Policy, u: UrlModel, port: Seq<char>, end: Seq<char>)
    requires
        port == match u.port {
            Some(n) if !(n == 443 && u.scheme == "https"@) && !(n == 80 && u.scheme == "http"@) =>
            seq![':'] + numbers::decimal(n as nat),
            _ => Seq::empty(),
        },
        u.opaque && !u.has_query ==> exists|blanks: Seq<char>|
            #[trigger] (end + blanks) == u.rest && (forall|i: int|
                0 <= i < blanks.len() ==> #[trigger] blanks[i] == ' ') && (end.len() > 0
                ==> end.last() != ' '),
        !(u.opaque && !u.has_query) ==> end == u.rest,
    ensures
        p.key_of(u) == p.key_prefix@ + seq!['-'] + digest::hex(
            digest::sha256(seq![71u8, 69u8, 84u8, 10u8] + encode_utf8(u.origin + port + end))@,
        ),
{
    reveal_strlit("-");
    reveal_strlit(":");
    reveal_strlit("GET\n");
    assert("-"@ =~= seq!['-']);
    assert(":"@ =~= seq![':']);
    let word = "GET\n"@;
    assert(vstd::utf8::is_ascii_chars(word));
    vstd::utf8::is_ascii_chars_encode_utf8(word);
    assert(encode_utf8(word) =~= seq![71u8, 69u8, 84u8, 10u8]);
    if u.opaque && !u.has_query {
        let blanks = choose|blanks: Seq<char>|
            #[trigger] (end + blanks) == u.rest && (forall|i: int|
                0 <= i < blanks.len() ==> #[trigger] blanks[i] == ' ');
        text::law_trimming_the_end(end, blanks, |c: char| c == ' ');
    }
    assert(url::normalized(u) =~= u.origin + port + end);
}

/// URLs that differ in their canonical text, were it in the case of one letter, differ in what their
/// keys are digests of.
pub proof fn law_different_urls_are_hashed_differently(a: Seq<char>, b: Seq<char>)
    requires
        a != b,
    ensures
        seq![71u8, 69u8, 84u8, 10u8] + encode_utf8(a) != seq![71u8, 69u8, 84u8, 10u8] + encode_utf8(b),
{
    let word = seq![71u8, 69u8, 84u8, 10u8];
    vstd::utf8::encode_utf8_decode_utf8(a);
    vstd::utf8::encode_utf8_decode_utf8(b);
    assert((word + encode_utf8(a)).skip(4) =~= encode_utf8(a));
    assert((word + encode_utf8(b)).skip(4) =~= encode_utf8(b));
}

/// What the log says of each reason.
pub proof fn law_reasons_are_named(r: Reject)
    ensures
        r is NotGet ==> reason(r) == "not a GET"@,
        r is BypassHost ==> reason(r) == "bypassed host"@,
        r is Authorized ==> reason(r) == "authenticated request"@,
        r is SignedUrl ==> reason(r) == "pre-signed URL"@,
        r is Status ==> reason(r) == "non-200 status"@,
        r is NoStore ==> reason(r) == "no-store/no-cache/private"@,
        r is TooSmall ==> reason(r) == "below min-size"@,
        r is TooLarge ==> reason(r) == "above max-size"@,
        r is NotImmutable ==> reason(r) == "no immutability signal"@,
{
}

/// The policy decides as it is stated to: on requests, on responses, and on the key.
pub proof fn law_the_policy_decides(
    p: &Policy,
    method: &str,
    url: &Url,
    headers: &HeaderMap<HeaderValue>,
    status: u16,
    len: u64,
    looked_up: Result<(), Reject>,
    stored: Result<(), Reject>,
    key: String,
)
    requires
        call_ensures(Policy::request_eligible, (p, method, url, headers), looked_up),
        call_ensures(Policy::response_storable, (p, url, status, headers, len), stored),
        call_ensures(Policy::key, (p, url), key),
    ensures
        looked_up == p.request_verdict(method@, url@, headers::fields(*headers)),
        stored == p.response_verdict(url@, status, headers::fields(*headers), len),
        key@ == p.key_of(url@),
{
}

/// What is told of a URL, a host, a `Cache-Control` and a reason.
pub proof fn law_what_is_told(
    p: &Policy,
    url: &Url,
    signed_one: bool,
    artifact_one: bool,
    host: &str,
    pattern: &str,
    bypassed: bool,
    fits: bool,
    control: &str,
    named_age: Option<u64>,
    r: &Reject,
    words: &'static str,
)
    requires
        call_ensures(is_signed_url, (url,), signed_one),
        call_ensures(is_immutable_artifact, (url,), artifact_one),
        call_ensures(Policy::is_bypassed, (p, host), bypassed),
        call_ensures(host_matches, (host, pattern), fits),
        call_ensures(max_age, (control,), named_age),
        call_ensures(Reject::as_str, (r,), words),
    ensures
        signed_one <==> exists|i: int|
            0 <= i < url@.query_names.len() && signs(text::lower(#[trigger] url@.query_names[i])),
        artifact_one <==> artifact(
            match url.host {
                Some(h) => h@,
                None => Seq::empty(),
            },
            url.path@,
        ),
        bypassed <==> p.bypasses(host@),
        fits <==> below(host@, pattern@),
        named_age == age(control@),
        words@ == reason(*r),
{
    assert forall|i: int| 0 <= i < url@.query_names.len() implies signature_params().contains(
        text::lower(#[trigger] url@.query_names[i]),
    ) == signs(text::lower(url@.query_names[i])) by {
        lemma_signature_params(text::lower(url@.query_names[i]));
    }
    law_hosts_fit_by_whole_labels(host@, pattern@);
}

} // verus!

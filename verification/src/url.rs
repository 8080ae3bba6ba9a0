//! URLs as the rest of the crate reads them.

use crate::{numbers, text};
use url::Position;
use vstd::prelude::*;

verus! {

/// A parsed URL, in the parts that decide how its responses are cached and under which key.
#[derive(Debug, Clone)]
pub struct Url {
    pub scheme: String,
    /// The serialization up to the end of the host: scheme, credentials, host.
    pub origin: String,
    pub host: Option<String>,
    /// The port, where it is not the default of the scheme.
    pub port: Option<u16>,
    pub path: String,
    /// The serialization from the end of the port to the end of the query.
    pub rest: String,
    pub has_query: bool,
    /// Whether the path is opaque, as in a `data:` URL.
    pub opaque: bool,
    /// The names of the query's pairs, decoded, in order.
    pub query_names: Vec<String>,
    pub fragment: Option<String>,
}

/// What a [`Url`] holds.
pub struct UrlModel {
    pub scheme: Seq<char>,
    pub origin: Seq<char>,
    pub host: Option<Seq<char>>,
    pub port: Option<u16>,
    pub path: Seq<char>,
    pub rest: Seq<char>,
    pub has_query: bool,
    pub opaque: bool,
    pub query_names: Seq<Seq<char>>,
    pub fragment: Option<Seq<char>>,
}

/// What the URL standard makes of a text: the parts of the URL, or the words that say why it is
/// none.
pub uninterp spec fn parsed_url(text: Seq<char>) -> Result<UrlModel, Seq<char>>;

/// What the result of reading a URL holds.
pub open spec fn model(parsed: Result<Url, String>) -> Result<UrlModel, Seq<char>> {
    match parsed {
        Ok(u) => Ok(u@),
        Err(e) => Err(e@),
    }
}

/// `url::Url::parse` reads a text as an absolute URL. The parts are what the accessors of
/// `url::Url` of the same names return, and the slices of its serialization that
/// `url::Position` marks; the words of an error are its `Display` form.
#[verifier::external_body]
fn parse_parts(text: &str) -> (out: Result<Url, String>)
    ensures
        model(out) == parsed_url(text@),
{
    let u = url::Url::parse(text).map_err(|e| e.to_string())?;
    Ok(Url {
        scheme: u.scheme().to_string(),
        origin: u[..Position::AfterHost].to_string(),
        host: u.host_str().map(str::to_string),
        port: u.port(),
        path: u.path().to_string(),
        rest: u[Position::AfterPort..Position::AfterQuery].to_string(),
        has_query: u.query().is_some(),
        opaque: u.cannot_be_a_base(),
        query_names: u.query_pairs().map(|(name, _)| name.into_owned()).collect(),
        fragment: u.fragment().map(str::to_string),
    })
}

/// The part of a URL's text that names the port, where it does.
pub open spec fn port_text(port: Option<u16>) -> Seq<char> {
    match port {
        Some(p) => ":"@ + numbers::decimal(p as nat),
        None => Seq::empty(),
    }
}

/// The whole text of a URL.
pub open spec fn url_text(u: UrlModel) -> Seq<char> {
    u.origin + port_text(u.port) + u.rest + match u.fragment {
        Some(f) => "#"@ + f,
        None => Seq::empty(),
    }
}

/// The port, unless it is the one that the scheme has by default.
pub open spec fn port_beyond_default(u: UrlModel) -> Option<u16> {
    if (u.scheme == "https"@ && u.port == Some(443u16)) || (u.scheme == "http"@ && u.port == Some(
        80u16,
    )) {
        None
    } else {
        u.port
    }
}

/// The text of a URL without its fragment and without a default port. A blank at the end of an
/// opaque path is only kept in front of a query or a fragment.
pub open spec fn normalized(u: UrlModel) -> Seq<char> {
    u.origin + port_text(port_beyond_default(u)) + if u.opaque && !u.has_query {
        text::trim_end(u.rest, |c: char| c == ' ')
    } else {
        u.rest
    }
}

impl Url {
    /// What the URL holds.
    pub open spec fn view(&self) -> UrlModel {
        UrlModel {
            scheme: self.scheme@,
            origin: self.origin@,
            host: text::optional_string(self.host),
            port: self.port,
            path: self.path@,
            rest: self.rest@,
            has_query: self.has_query,
            opaque: self.opaque,
            query_names: text::texts(self.query_names@),
            fragment: text::optional_string(self.fragment),
        }
    }

    /// Reads a text as an absolute URL, or says in words why it is none.
    pub fn parse(text: &str) -> (out: Result<Url, String>)
        ensures
            model(out) == parsed_url(text@),
    {
        parse_parts(text)
    }

    /// The host, or nothing where the URL has none.
    pub fn host_str(&self) -> (out: &str)
        ensures
            out@ == host_or_empty(self@),
    {
        match &self.host {
            Some(host) => host.as_str(),
            None => {
                proof {
                    reveal_strlit("");
                    assert(""@ =~= Seq::<char>::empty());
                }
                ""
            },
        }
    }

    /// The whole text of the URL.
    pub fn as_str(&self) -> (out: String)
        ensures
            out@ == url_text(self@),
    {
        let mut out = String::new();
        out.append(self.origin.as_str());
        assert(out@ =~= self.origin@);
        push_port(&mut out, self.port);
        out.append(self.rest.as_str());
        match &self.fragment {
            Some(fragment) => {
                let ghost before = out@;
                out.append("#");
                out.append(fragment.as_str());
                assert(out@ =~= before + ("#"@ + fragment@));
            },
            None => {
                assert(out@ =~= out@ + Seq::<char>::empty());
            },
        }
        out
    }
}

/// The host of a URL, or nothing where it has none.
pub open spec fn host_or_empty(u: UrlModel) -> Seq<char> {
    match u.host {
        Some(h) => h,
        None => Seq::empty(),
    }
}

/// Adds the part that names the port to the end of `out`.
fn push_port(out: &mut String, port: Option<u16>)
    ensures
        final(out)@ == old(out)@ + port_text(port),
{
    match port {
        Some(p) => {
            out.append(":");
            numbers::push_decimal(out, p as u128);
        },
        None => {},
    }
    assert(out@ =~= old(out)@ + port_text(port));
}

/// Canonical URL string for keying: default ports and fragments dropped, everything else verbatim.
pub fn normalize(url: &Url) -> (out: String)
    ensures
        out@ == normalized(url@),
{
    let default_port = match url.port {
        Some(443) => text::same_text(url.scheme.as_str(), "https"),
        Some(80) => text::same_text(url.scheme.as_str(), "http"),
        _ => false,
    };
    let mut out = String::new();
    out.append(url.origin.as_str());
    assert(out@ =~= url.origin@);
    push_port(
        &mut out,
        if default_port {
            None
        } else {
            url.port
        },
    );
    if url.opaque && !url.has_query {
        let chars = text::to_chars(url.rest.as_str());
        let kept = text::without_trailing(chars.as_slice(), ' ');
        out.append(text::from_chars(kept).as_str());
    } else {
        out.append(url.rest.as_str());
    }
    out
}

/// Two URLs that differ in nothing but their fragments have the same canonical string.
pub proof fn law_fragments_are_ignored(u: UrlModel, fragment: Option<Seq<char>>)
    ensures
        normalized(UrlModel { fragment, ..u }) == normalized(u),
{
}

/// Naming the default port of the scheme is the same as naming none.
pub proof fn law_default_ports_are_ignored(u: UrlModel)
    ensures
        u.scheme == "https"@ ==> normalized(UrlModel { port: Some(443), ..u }) == normalized(
            UrlModel { port: None, ..u },
        ),
        u.scheme == "http"@ ==> normalized(UrlModel { port: Some(80), ..u }) == normalized(
            UrlModel { port: None, ..u },
        ),
{
}

/// Everything else is verbatim: the text of a URL with a path that is not opaque, with no fragment
/// and no default port, is its own canonical string.
pub proof fn law_the_rest_is_verbatim(u: UrlModel)
    requires
        u.fragment is None,
        port_beyond_default(u) == u.port,
        !u.opaque,
    ensures
        normalized(u) == url_text(u),
{
    assert(normalized(u) =~= url_text(u));
}

/// The text of a URL is its scheme, credentials and host, a colon and its port where it names one,
/// its path and query, and a hash sign and its fragment where it has one, each as it is.
pub proof fn law_the_text_of_a_url(u: UrlModel, port: Seq<char>, fragment: Seq<char>)
    requires
        port == match u.port {
            Some(n) => seq![':'] + numbers::decimal(n as nat),
            None => Seq::empty(),
        },
        fragment == match u.fragment {
            Some(f) => seq!['#'] + f,
            None => Seq::empty(),
        },
    ensures
        url_text(u) == u.origin + port + u.rest + fragment,
        u.host matches Some(h) ==> host_or_empty(u) == h,
        u.host is None ==> host_or_empty(u).len() == 0,
{
    reveal_strlit(":");
    reveal_strlit("#");
    assert(":"@ =~= seq![':']);
    assert("#"@ =~= seq!['#']);
    assert(url_text(u) =~= u.origin + port + u.rest + fragment);
}

/// The canonical string leaves out the fragment and the port that the scheme has by default, and
/// nothing else of a URL whose path is not opaque.
pub proof fn law_the_canonical_string(u: UrlModel, port: Seq<char>)
    requires
        !u.opaque || u.has_query,
        port == match u.port {
            Some(n) if !(n == 443 && u.scheme == "https"@) && !(n == 80 && u.scheme == "http"@) =>
            seq![':'] + numbers::decimal(n as nat),
            _ => Seq::empty(),
        },
    ensures
        normalized(u) == u.origin + port + u.rest,
{
    reveal_strlit(":");
    assert(":"@ =~= seq![':']);
    assert(normalized(u) =~= u.origin + port + u.rest);
}

/// What a URL shows is what it holds.
pub proof fn law_urls_show_their_parts(u: Url)
    ensures
        u@.scheme == u.scheme@,
        u@.origin == u.origin@,
        u@.host == match u.host {
            Some(h) => Some(h@),
            None => None,
        },
        u@.port == u.port,
        u@.path == u.path@,
        u@.rest == u.rest@,
        u@.has_query == u.has_query,
        u@.opaque == u.opaque,
        u@.query_names.len() == u.query_names@.len(),
        forall|i: int|
            0 <= i < u.query_names@.len() ==> #[trigger] u@.query_names[i] == u.query_names@[i]@,
        u@.fragment == match u.fragment {
            Some(f) => Some(f@),
            None => None,
        },
{
}

/// What is told of a URL: its text, its canonical string and its host.
pub proof fn law_what_is_told(
    text: &str,
    read: Result<Url, String>,
    u: &Url,
    whole: String,
    canonical: String,
    host: &str,
)
    requires
        call_ensures(Url::parse, (text,), read),
        call_ensures(Url::as_str, (u,), whole),
        call_ensures(normalize, (u,), canonical),
        call_ensures(Url::host_str, (u,), host),
    ensures
        read matches Ok(found) ==> parsed_url(text@) == Ok::<UrlModel, Seq<char>>(found@),
        read matches Err(words) ==> parsed_url(text@) == Err::<UrlModel, Seq<char>>(words@),
        whole@ == url_text(u@),
        canonical@ == normalized(u@),
        u.host matches Some(h) ==> host@ == h@,
        u.host is None ==> host@.len() == 0,
{
}

} // verus!

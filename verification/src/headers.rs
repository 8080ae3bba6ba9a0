//! Header maps, and what the proxy does to them.

use crate::{text, wire};
use hyper::header::{HeaderMap, HeaderName, HeaderValue};
use vstd::prelude::*;
use vstd::utf8::encode_utf8;

verus! {

/// `http::HeaderMap`, which holds the fields of a request or a response.
#[verifier::external_type_specification]
#[verifier::external_body]
#[verifier::reject_recursive_types(T)]
pub struct ExHeaderMap<T>(HeaderMap<T>);

/// `http::HeaderValue`, a value in a header map.
#[verifier::external_type_specification]
#[verifier::external_body]
pub struct ExHeaderValue(HeaderValue);

/// Header fields: the values of each name, in the order in which they were added.
pub type Fields = Map<Seq<char>, Seq<Seq<u8>>>;

/// What a header map holds, under the lower-case names that it goes by.
pub uninterp spec fn fields(m: HeaderMap<HeaderValue>) -> Map<Seq<char>, Seq<Seq<u8>>>;

/// Whether a character can stand in a header name.
pub open spec fn token_char(c: char) -> bool {
    ||| 'a' <= c && c <= 'z'
    ||| 'A' <= c && c <= 'Z'
    ||| '0' <= c && c <= '9'
    ||| c == '!' || c == '#' || c == '$' || c == '%' || c == '&' || c == '\'' || c == '*'
    ||| c == '+' || c == '-' || c == '.' || c == '^' || c == '_' || c == '`' || c == '|'
    ||| c == '~'
}

/// Whether a text is a header name.
pub open spec fn name_ok(s: Seq<char>) -> bool {
    &&& 0 < s.len() <= 65535
    &&& forall|i: int| 0 <= i < s.len() ==> token_char(#[trigger] s[i])
}

/// Whether a text is a header name as a header map goes by it.
pub open spec fn canonical(s: Seq<char>) -> bool {
    name_ok(s) && text::lower(s) == s
}

/// A header name with its letters in lower case is one that a header map goes by.
pub(crate) proof fn lemma_lower_name(s: Seq<char>)
    requires
        name_ok(s),
    ensures
        canonical(text::lower(s)),
{
    let low = text::lower(s);
    assert forall|i: int| 0 <= i < low.len() implies token_char(#[trigger] low[i]) by {
        assert(token_char(s[i]));
    }
    assert(text::lower(low) =~= low);
}

/// Whether a byte can stand in a header value.
pub open spec fn value_byte(b: u8) -> bool {
    (b >= 32 && b != 127) || b == 9
}

/// Whether bytes are a header value.
pub open spec fn value_ok(v: Seq<u8>) -> bool {
    forall|i: int| 0 <= i < v.len() ==> value_byte(#[trigger] v[i])
}

/// Whether bytes are a header value that reads as text: visible ASCII, blanks and tabs.
pub open spec fn visible(v: Seq<u8>) -> bool {
    forall|i: int| 0 <= i < v.len() ==> (32 <= #[trigger] v[i] < 127 || v[i] == 9)
}

/// The text that bytes spell, one character each.
pub open spec fn ascii_text(v: Seq<u8>) -> Seq<char> {
    Seq::new(v.len(), |i: int| v[i] as char)
}

/// Whether a text is one that a readable value spells.
pub open spec fn plain(t: Seq<char>) -> bool {
    forall|i: int|
        0 <= i < t.len() ==> (' ' <= #[trigger] t[i] && t[i] <= '~') || t[i] == '\t'
}

/// A plain text is a header value.
pub(crate) proof fn lemma_plain_value(t: Seq<char>)
    requires
        plain(t),
    ensures
        value_ok(encode_utf8(t)),
        visible(encode_utf8(t)),
        encode_utf8(t) == Seq::new(t.len(), |i: int| t[i] as u8),
{
    assert(vstd::utf8::is_ascii_chars(t));
    vstd::utf8::is_ascii_chars_encode_utf8(t);
    assert(encode_utf8(t) =~= Seq::new(t.len(), |i: int| t[i] as u8));
}

/// How many names a header map can hold and still take one more whatever they are.
pub const ROOM: usize = 6553;

/// Whether a header map of some fields is sure to have room for two more names.
pub open spec fn roomy(f: Fields) -> bool {
    f.dom().finite() && f.dom().len() < ROOM
}

/// A field of a header map: a name and one of its values.
pub type Field = (Seq<char>, Seq<u8>);

/// The values that a list of fields has under a name, in order.
pub open spec fn values_of(list: Seq<Field>, name: Seq<char>) -> Seq<Seq<u8>>
    decreases list.len(),
{
    if list.len() == 0 {
        Seq::empty()
    } else {
        let before = values_of(list.drop_last(), name);
        if list.last().0 == name {
            before.push(list.last().1)
        } else {
            before
        }
    }
}

/// The values that a header map has under a name, in order.
pub open spec fn values_in(f: Fields, name: Seq<char>) -> Seq<Seq<u8>> {
    if f.contains_key(name) {
        f[name]
    } else {
        Seq::empty()
    }
}

/// Whether a list holds exactly the fields of a header map, those of each name in their order. A
/// name in a header map has at least one value, and no upper-case letters.
pub open spec fn lists(list: Seq<Field>, f: Fields) -> bool {
    &&& forall|name: Seq<char>| #[trigger] values_of(list, name) == values_in(f, name)
    &&& forall|name: Seq<char>| #[trigger] f.contains_key(name) ==> f[name].len() > 0
    &&& forall|i: int| 0 <= i < list.len() ==> text::lower(#[trigger] list[i].0) == list[i].0
}

/// The fields of a vector of names and values.
pub open spec fn field_list(v: Seq<(String, Vec<u8>)>) -> Seq<Field> {
    v.map_values(|p: (String, Vec<u8>)| (p.0@, p.1@))
}

/// `HeaderMap::new` makes a map without fields.
#[verifier::external_body]
pub(crate) fn no_headers() -> (out: HeaderMap<HeaderValue>)
    ensures
        fields(out).dom().is_empty(),
{
    HeaderMap::new()
}

/// `HeaderMap::clone` makes a map with the same fields.
#[verifier::external_body]
pub(crate) fn copy_of(m: &HeaderMap<HeaderValue>) -> (out: HeaderMap<HeaderValue>)
    ensures
        fields(out) == fields(*m),
{
    m.clone()
}

/// `HeaderMap::contains_key` tells whether a map has a field of some name.
#[verifier::external_body]
pub(crate) fn has_name(m: &HeaderMap<HeaderValue>, name: &str) -> (out: bool)
    requires
        canonical(name@),
    ensures
        out == fields(*m).contains_key(name@),
{
    m.contains_key(name)
}

/// `HeaderMap::get` finds the first of the values that a map has under some name.
#[verifier::external_body]
pub(crate) fn first_value(m: &HeaderMap<HeaderValue>, name: &str) -> (out: Option<Vec<u8>>)
    requires
        canonical(name@),
    ensures
        out is Some == fields(*m).contains_key(name@),
        out matches Some(v) ==> v@ == fields(*m)[name@][0],
{
    m.get(name).map(|v| v.as_bytes().to_vec())
}

/// `HeaderMap::get_all` finds all the values that a map has under some name, in their order.
#[verifier::external_body]
pub(crate) fn all_values(m: &HeaderMap<HeaderValue>, name: &str) -> (out: Vec<Vec<u8>>)
    requires
        canonical(name@),
    ensures
        wire::byte_runs(out@) == values_in(fields(*m), name@),
{
    m.get_all(name).iter().map(|v| v.as_bytes().to_vec()).collect()
}

/// `HeaderMap::iter` walks all the fields of a map, those of each name in their order. The order of
/// the names is left open.
#[verifier::external_body]
pub(crate) fn all_fields(m: &HeaderMap<HeaderValue>) -> (out: Vec<(String, Vec<u8>)>)
    ensures
        lists(field_list(out@), fields(*m)),
{
    m.iter().map(|(n, v)| (n.as_str().to_string(), v.as_bytes().to_vec())).collect()
}

/// `HeaderMap::remove` takes all the fields of some name out of a map.
#[verifier::external_body]
pub(crate) fn remove(m: &mut HeaderMap<HeaderValue>, name: &str)
    requires
        canonical(name@),
    ensures
        fields(*final(m)) == fields(*old(m)).remove(name@),
{
    m.remove(name);
}

/// `HeaderMap::try_insert` puts a field into a map in place of all those of the same name, and tells
/// whether there was room. There always is in a map of no more names than [`ROOM`]; in a larger one
/// that depends on how the names are hashed. Without room the fields are what they were.
#[verifier::external_body]
pub(crate) fn insert(m: &mut HeaderMap<HeaderValue>, name: &str, value: &[u8]) -> (ok: bool)
    requires
        canonical(name@),
        value_ok(value@),
    ensures
        fields(*old(m)).dom().len() <= ROOM ==> ok,
        ok ==> fields(*final(m)) == fields(*old(m)).insert(name@, seq![value@]),
        !ok ==> fields(*final(m)) == fields(*old(m)),
{
    m.try_insert(
        HeaderName::from_bytes(name.as_bytes()).unwrap(),
        HeaderValue::from_bytes(value).unwrap(),
    )
    .is_ok()
}

/// `HeaderMap::try_append` puts a field into a map behind those of the same name, and tells whether
/// there was room. There always is in a map of no more names than [`ROOM`]; in a larger one that
/// depends on how the names are hashed. Without room the fields are what they were.
#[verifier::external_body]
pub(crate) fn append(m: &mut HeaderMap<HeaderValue>, name: &str, value: &[u8]) -> (ok: bool)
    requires
        canonical(name@),
        value_ok(value@),
    ensures
        fields(*old(m)).dom().len() <= ROOM ==> ok,
        ok ==> fields(*final(m)) == appended(fields(*old(m)), name@, value@),
        !ok ==> fields(*final(m)) == fields(*old(m)),
{
    m.try_append(
        HeaderName::from_bytes(name.as_bytes()).unwrap(),
        HeaderValue::from_bytes(value).unwrap(),
    )
    .is_ok()
}

/// The fields with one more value under a name.
pub open spec fn appended(f: Fields, name: Seq<char>, value: Seq<u8>) -> Fields {
    f.insert(name, values_in(f, name).push(value))
}

/// `HeaderName::from_bytes` takes a text for a header name and puts its letters in lower case.
#[verifier::external_body]
pub(crate) fn parse_name(s: &str) -> (out: Option<String>)
    ensures
        out is Some == name_ok(s@),
        out matches Some(n) ==> n@ == text::lower(s@),
{
    HeaderName::from_bytes(s.as_bytes()).ok().map(|n| n.as_str().to_string())
}

/// `HeaderValue::from_str` takes the bytes of a text for a header value.
#[verifier::external_body]
pub(crate) fn parse_value(s: &str) -> (out: Option<Vec<u8>>)
    ensures
        out is Some == value_ok(encode_utf8(s@)),
        out matches Some(v) ==> v@ == encode_utf8(s@),
{
    HeaderValue::from_str(s).ok().map(|v| v.as_bytes().to_vec())
}

/// `HeaderValue::to_str` reads a header value as text where it is visible ASCII.
#[verifier::external_body]
pub(crate) fn value_text(v: &[u8]) -> (out: Option<String>)
    ensures
        out is Some == visible(v@),
        out matches Some(s) ==> s@ == ascii_text(v@),
{
    HeaderValue::from_bytes(v).ok().and_then(|v| v.to_str().ok().map(|s| s.to_string()))
}

/// Headers scoped to a single hop, dropped in both directions and never replayed.
pub open spec fn hop_by_hop() -> Seq<Seq<char>> {
    seq![
        "connection"@,
        "keep-alive"@,
        "proxy-authenticate"@,
        "proxy-authorization"@,
        "proxy-connection"@,
        "te"@,
        "trailer"@,
        "transfer-encoding"@,
        "upgrade"@,
    ]
}

/// The names of the headers scoped to a single hop.
pub fn hop_by_hop_names() -> (out: Vec<&'static str>)
    ensures
        text::words(out@) == hop_by_hop(),
        forall|i: int| 0 <= i < out@.len() ==> canonical((#[trigger] out@[i])@),
{
    let out: Vec<&'static str> = vec![
        "connection",
        "keep-alive",
        "proxy-authenticate",
        "proxy-authorization",
        "proxy-connection",
        "te",
        "trailer",
        "transfer-encoding",
        "upgrade",
    ];
    proof {
        reveal_strlit("connection");
        reveal_strlit("keep-alive");
        reveal_strlit("proxy-authenticate");
        reveal_strlit("proxy-authorization");
        reveal_strlit("proxy-connection");
        reveal_strlit("te");
        reveal_strlit("trailer");
        reveal_strlit("transfer-encoding");
        reveal_strlit("upgrade");
        assert forall|i: int| 0 <= i < out@.len() implies canonical((#[trigger] out@[i])@) by {
            assert(text::lower(out@[i]@) =~= out@[i]@);
        }
    }
    assert(text::words(out@) =~= hop_by_hop());
    out
}

/// How long the names of the headers scoped to a single hop are.
pub(crate) proof fn lemma_hop_by_hop_lengths(name: Seq<char>)
    requires
        hop_by_hop().contains(name),
    ensures
        name.len() == 2 || name.len() == 7 || name.len() == 10 || name.len() >= 16,
{
    reveal_strlit("connection");
    reveal_strlit("keep-alive");
    reveal_strlit("proxy-authenticate");
    reveal_strlit("proxy-authorization");
    reveal_strlit("proxy-connection");
    reveal_strlit("te");
    reveal_strlit("trailer");
    reveal_strlit("transfer-encoding");
    reveal_strlit("upgrade");
}

/// The fields that are passed on: all but those scoped to a single hop, and the host.
pub open spec fn sanitized(f: Fields) -> Fields {
    Map::new(
        |name: Seq<char>|
            f.contains_key(name) && !hop_by_hop().contains(name) && name != "host"@,
        |name: Seq<char>| f[name],
    )
}

/// Copies headers for the other side, without those scoped to a single hop and without the host.
pub fn sanitize(headers: &HeaderMap<HeaderValue>) -> (out: HeaderMap<HeaderValue>)
    ensures
        fields(out) == sanitized(fields(*headers)),
{
    let mut out = copy_of(headers);
    proof {
        reveal_strlit("host");
        assert(text::lower("host"@) =~= "host"@);
    }
    remove(&mut out, "host");
    let names = hop_by_hop_names();
    let mut i: usize = 0;
    while i < names.len()
        invariant
            i <= names.len(),
            text::words(names@) == hop_by_hop(),
            forall|j: int| 0 <= j < names@.len() ==> canonical((#[trigger] names@[j])@),
            forall|name: Seq<char>| #[trigger]
                fields(out).contains_key(name) == (fields(*headers).contains_key(name) && name
                    != "host"@ && !hop_by_hop().take(i as int).contains(name)),
            forall|name: Seq<char>| #[trigger]
                fields(out).contains_key(name) ==> fields(out)[name] == fields(*headers)[name],
        decreases names.len() - i,
    {
        let ghost before = fields(out);
        remove(&mut out, names[i]);
        proof {
            let done = hop_by_hop().take(i as int);
            let next = hop_by_hop().take(i + 1);
            assert(next =~= done.push(text::words(names@)[i as int]));
            assert forall|name: Seq<char>| #[trigger]
                next.contains(name) == (done.contains(name) || name == names@[i as int]@) by {
                if done.contains(name) {
                    assert(next[done.index_of(name)] == name);
                }
                if name == names@[i as int]@ {
                    assert(next[i as int] == name);
                }
            }
        }
        i += 1;
    }
    assert(hop_by_hop().take(i as int) =~= hop_by_hop());
    assert(fields(out) =~= sanitized(fields(*headers)));
    out
}

/// The text that bytes spell, one character each.
pub fn byte_text(v: &[u8]) -> (out: Vec<char>)
    ensures
        out@ == ascii_text(v@),
{
    let mut out: Vec<char> = Vec::new();
    let mut i: usize = 0;
    while i < v.len()
        invariant
            i <= v.len(),
            out@ =~= ascii_text(v@.take(i as int)),
        decreases v.len() - i,
    {
        out.push(v[i] as char);
        i += 1;
    }
    assert(v@.take(i as int) =~= v@);
    out
}

/// The first value under a name as text, where there is one and it reads as text.
pub open spec fn first_text(f: Fields, name: Seq<char>) -> Option<Seq<char>> {
    if f.contains_key(name) && visible(f[name][0]) {
        Some(ascii_text(f[name][0]))
    } else {
        None
    }
}

/// The first value under a name as text, or nothing where there is none that reads as text.
pub fn text_of(headers: &HeaderMap<HeaderValue>, name: &str) -> (out: String)
    requires
        canonical(name@),
    ensures
        out@ == (match first_text(fields(*headers), name@) {
            Some(s) => s,
            None => Seq::empty(),
        }),
{
    match first_value(headers, name) {
        Some(value) => match value_text(value.as_slice()) {
            Some(s) => s,
            None => String::new(),
        },
        None => String::new(),
    }
}

/// What is passed on has no more names.
pub(crate) proof fn lemma_sanitized_room(f: Fields)
    requires
        roomy(f),
    ensures
        roomy(sanitized(f)),
{
    assert(sanitized(f).dom().subset_of(f.dom()));
    vstd::set_lib::lemma_len_subset(sanitized(f).dom(), f.dom());
}

/// Dropping the fields scoped to a single hop a second time changes nothing.
pub proof fn law_sanitizing_is_idempotent(f: Fields)
    ensures
        sanitized(sanitized(f)) == sanitized(f),
{
    assert(sanitized(sanitized(f)) =~= sanitized(f));
}

/// What is passed on holds no field scoped to a single hop, and every other field but the host as
/// it was.
pub proof fn law_only_the_hop_is_dropped(f: Fields, name: Seq<char>)
    ensures
        hop_by_hop().contains(name) ==> !sanitized(f).contains_key(name),
        !hop_by_hop().contains(name) && name != "host"@ ==> values_in(sanitized(f), name)
            == values_in(f, name),
{
}

/// What is passed on has none of the fields that are scoped to a hop, and not the host; every other
/// field is passed on with all its values, in their order.
pub proof fn law_what_is_passed_on(f: Fields, name: Seq<char>)
    ensures
        ({
            let dropped = {
                ||| name == "connection"@
                ||| name == "keep-alive"@
                ||| name == "proxy-authenticate"@
                ||| name == "proxy-authorization"@
                ||| name == "proxy-connection"@
                ||| name == "te"@
                ||| name == "trailer"@
                ||| name == "transfer-encoding"@
                ||| name == "upgrade"@
            };
            &&& hop_by_hop().contains(name) == dropped
            &&& sanitized(f).contains_key(name) == (f.contains_key(name) && !dropped && name
                != "host"@)
            &&& sanitized(f).contains_key(name) ==> sanitized(f)[name] == f[name]
        }),
{
    let hop = hop_by_hop();
    assert(hop[0] == "connection"@);
    assert(hop[1] == "keep-alive"@);
    assert(hop[2] == "proxy-authenticate"@);
    assert(hop[3] == "proxy-authorization"@);
    assert(hop[4] == "proxy-connection"@);
    assert(hop[5] == "te"@);
    assert(hop[6] == "trailer"@);
    assert(hop[7] == "transfer-encoding"@);
    assert(hop[8] == "upgrade"@);
    assert(hop.len() == 9);
}

/// The text under a name is that of its first value, where that reads as text; the others do not
/// matter.
pub proof fn law_the_first_value_is_read(f: Fields, name: Seq<char>)
    ensures
        !f.contains_key(name) ==> first_text(f, name) is None,
        f.contains_key(name) && !visible(f[name][0]) ==> first_text(f, name) is None,
        f.contains_key(name) && visible(f[name][0]) ==> first_text(f, name) == Some(
            ascii_text(f[name][0]),
        ),
{
}

/// Headers are copied for the other side as far as they are passed on, and read by their first value.
pub proof fn law_headers_are_copied_and_read(
    m: &HeaderMap<HeaderValue>,
    copied: HeaderMap<HeaderValue>,
    name: &str,
    read: String,
)
    requires
        call_ensures(sanitize, (m,), copied),
        call_ensures(text_of, (m, name), read),
    ensures
        fields(copied) == sanitized(fields(*m)),
        read@ == (match first_text(fields(*m), name@) {
            Some(s) => s,
            None => Seq::empty(),
        }),
{
}

/// The names of the headers scoped to a single hop are told as stated.
pub proof fn law_hop_by_hop_names_are_told(out: Vec<&'static str>, name: Seq<char>)
    requires
        call_ensures(hop_by_hop_names, (), out),
    ensures
        text::words(out@).contains(name) <==> hop_by_hop().contains(name),
{
}

} // verus!

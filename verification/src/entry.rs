//! Wire format for a cached response: a magic number, a length-prefixed JSON header, then the
//! body bytes verbatim.

use crate::headers::{Field, Fields};
use crate::{clock, digest, headers, text, wire};
use bytes::Bytes;
use hyper::header::{HeaderMap, HeaderValue};
use vstd::prelude::*;
use vstd::utf8::encode_utf8;

verus! {

#[derive(Debug, Clone)]
pub struct Header {
    pub url: String,
    pub status: u16,
    pub headers: Vec<(String, String)>,
    pub sha256: String,
    pub stored_at: u64,
}

pub struct Entry {
    pub header: Header,
    pub body: Bytes,
}

/// A line of a recorded header: a name and a value.
pub type Line = (Seq<char>, Seq<char>);

/// What a [`Header`] holds.
pub struct HeaderModel {
    pub url: Seq<char>,
    pub status: u16,
    pub headers: Seq<Line>,
    pub sha256: Seq<char>,
    pub stored_at: u64,
}

/// The lines of a vector of names and values.
pub open spec fn lines(v: Seq<(String, String)>) -> Seq<Line> {
    v.map_values(|p: (String, String)| (p.0@, p.1@))
}

impl Header {
    /// What the header holds.
    pub open spec fn view(&self) -> HeaderModel {
        HeaderModel {
            url: self.url@,
            status: self.status,
            headers: lines(self.headers@),
            sha256: self.sha256@,
            stored_at: self.stored_at,
        }
    }
}

/// Why bytes are not a cache entry that can be served.
#[derive(Debug)]
pub enum EntryError {
    NotAnEntry,
    Truncated,
    /// The header could not be read, with the reader's words.
    Header(String),
    Integrity,
}

/// What an [`EntryError`] says.
pub open spec fn error_text(e: EntryError) -> Seq<char> {
    match e {
        EntryError::NotAnEntry => "not a cache entry"@,
        EntryError::Truncated => "truncated cache entry"@,
        EntryError::Header(s) => s@,
        EntryError::Integrity => "cache entry failed integrity check"@,
    }
}

impl EntryError {
    /// What the error says.
    pub fn message(&self) -> (out: &str)
        ensures
            out@ == error_text(*self),
    {
        match self {
            EntryError::NotAnEntry => "not a cache entry",
            EntryError::Truncated => "truncated cache entry",
            EntryError::Header(s) => s.as_str(),
            EntryError::Integrity => "cache entry failed integrity check",
        }
    }
}

/// The lines that are recorded of some fields: those that do not describe the hop, where the value
/// reads as text.
pub open spec fn recorded(list: Seq<Field>) -> Seq<Line>
    decreases list.len(),
{
    if list.len() == 0 {
        Seq::empty()
    } else {
        let before = recorded(list.drop_last());
        if !headers::hop_by_hop().contains(list.last().0) && headers::visible(list.last().1) {
            before.push((list.last().0, headers::ascii_text(list.last().1)))
        } else {
            before
        }
    }
}

/// The values that lines have under a name, in order.
pub open spec fn texts_of(lines: Seq<Line>, name: Seq<char>) -> Seq<Seq<char>>
    decreases lines.len(),
{
    if lines.len() == 0 {
        Seq::empty()
    } else {
        let before = texts_of(lines.drop_last(), name);
        if lines.last().0 == name {
            before.push(lines.last().1)
        } else {
            before
        }
    }
}

/// Those of some values that read as text.
pub open spec fn readable(values: Seq<Seq<u8>>) -> Seq<Seq<u8>> {
    values.filter(|v: Seq<u8>| headers::visible(v))
}

/// Whether lines record the fields of a header map: under each name that does not describe the
/// hop, its values that read as text, in their order. The order of the names is open, as it is in a
/// header map.
pub open spec fn records(lines: Seq<Line>, f: Fields) -> bool {
    forall|name: Seq<char>| #[trigger]
        texts_of(lines, name) == if headers::hop_by_hop().contains(name) {
            Seq::empty()
        } else {
            readable(headers::values_in(f, name)).map_values(
                |v: Seq<u8>| headers::ascii_text(v),
            )
        }
}

/// Whether an entry records a response: its URL, its status, its fields and its body.
pub open spec fn is_record(
    entry: Entry,
    url: Seq<char>,
    status: u16,
    f: Fields,
    body: Seq<u8>,
) -> bool {
    &&& entry.header.url@ == url
    &&& entry.header.status == status
    &&& records(entry.header@.headers, f)
    &&& entry.header.sha256@ == digest::sha256_hex(body)
    &&& wire::content(entry.body) == body
}

/// The lines of a list of fields have the fields' readable values under each name.
proof fn lemma_recorded_values(list: Seq<Field>, name: Seq<char>)
    ensures
        texts_of(recorded(list), name) == if headers::hop_by_hop().contains(name) {
            Seq::empty()
        } else {
            readable(headers::values_of(list, name)).map_values(
                |v: Seq<u8>| headers::ascii_text(v),
            )
        },
    decreases list.len(),
{
    let read = |v: Seq<u8>| headers::ascii_text(v);
    if list.len() > 0 {
        lemma_recorded_values(list.drop_last(), name);
        let before = recorded(list.drop_last());
        let (n, v) = list.last();
        if !headers::hop_by_hop().contains(n) && headers::visible(v) {
            assert(before.push((n, headers::ascii_text(v))).drop_last() =~= before);
        }
        if n == name {
            let values = headers::values_of(list.drop_last(), name);
            assert(values.push(v).drop_last() =~= values);
            reveal(Seq::filter);
            assert(readable(values.push(v)) == if headers::visible(v) {
                readable(values).push(v)
            } else {
                readable(values)
            });
            assert(readable(values.push(v)).map_values(read) =~= if headers::visible(v) {
                readable(values).map_values(read).push(headers::ascii_text(v))
            } else {
                readable(values).map_values(read)
            });
        }
    } else {
        reveal(Seq::filter);
        assert(readable(headers::values_of(list, name)).map_values(read) =~= Seq::empty());
    }
}

impl Entry {
    /// Records a response as of now.
    pub fn new(
        url: &str,
        status: u16,
        headers: &HeaderMap<HeaderValue>,
        body: Bytes,
    ) -> (out: Self)
        ensures
            is_record(out, url@, status, headers::fields(*headers), wire::content(body)),
    {
        let list = headers::all_fields(headers);
        proof {
            assert forall|name: Seq<char>| #[trigger]
                texts_of(recorded(headers::field_list(list@)), name) == (
                if headers::hop_by_hop().contains(name) {
                    Seq::empty()
                } else {
                    readable(headers::values_in(headers::fields(*headers), name)).map_values(
                        |v: Seq<u8>| headers::ascii_text(v),
                    )
                }) by {
                lemma_recorded_values(headers::field_list(list@), name);
                assert(headers::values_of(headers::field_list(list@), name) == headers::values_in(
                    headers::fields(*headers),
                    name,
                ));
            }
        }
        Entry::new_at(url, status, &list, body, clock::now())
    }

    /// Records a response with the fields given in some order, as of some moment.
    pub fn new_at(
        url: &str,
        status: u16,
        list: &[(String, Vec<u8>)],
        body: Bytes,
        stored_at: u64,
    ) -> (out: Self)
        ensures
            out.header@ == (HeaderModel {
                url: url@,
                status,
                headers: recorded(headers::field_list(list@)),
                sha256: digest::sha256_hex(wire::content(body)),
                stored_at,
            }),
            out.body == body,
    {
        let hop = headers::hop_by_hop_names();
        let mut headers: Vec<(String, String)> = Vec::new();
        let mut i: usize = 0;
        assert(lines(headers@) =~= recorded(headers::field_list(list@.take(0))));
        while i < list.len()
            invariant
                i <= list.len(),
                text::words(hop@) == headers::hop_by_hop(),
                lines(headers@) == recorded(headers::field_list(list@.take(i as int))),
            decreases list.len() - i,
        {
            let name = list[i].0.as_str();
            let ghost now = headers::field_list(list@.take(i + 1));
            assert(now.drop_last() =~= headers::field_list(list@.take(i as int)));
            assert(now.last() == (list@[i as int].0@, list@[i as int].1@));
            let ghost before = lines(headers@);
            if !text::is_one_of(name, hop.as_slice()) {
                match headers::value_text(list[i].1.as_slice()) {
                    Some(value) => {
                        let ghost line = (name@, value@);
                        headers.push((name.to_string(), value));
                        assert(lines(headers@) =~= before.push(line));
                    },
                    None => {},
                }
            }
            i += 1;
        }
        assert(list@.take(i as int) =~= list@);
        let sha256 = digest::sha_hex(wire::as_slice(&body));
        let header = Header { url: url.to_string(), status, headers, sha256, stored_at };
        Entry { header, body }
    }
}

/// The four bytes that every entry begins with.
pub open spec fn magic() -> Seq<u8> {
    seq!['C' as u8, 'I' as u8, 'C' as u8, 'H' as u8]
}

/// The bytes of an entry: the magic number, the length of the header in four bytes, the header, the
/// body.
pub open spec fn framed(header: Seq<u8>, body: Seq<u8>) -> Seq<u8> {
    magic() + wire::le_bytes(header.len(), 4) + header + body
}

/// Where the body of an entry begins, by its length field.
pub open spec fn body_start(raw: Seq<u8>) -> int {
    8 + wire::le_value(raw.subrange(4, 8)) as int
}

/// The header and the body of an entry, or why its bytes hold none.
pub open spec fn unframed(raw: Seq<u8>) -> Result<(Seq<u8>, Seq<u8>), EntryError> {
    if raw.len() < 8 || raw.take(4) != magic() {
        Err(EntryError::NotAnEntry)
    } else if raw.len() < body_start(raw) {
        Err(EntryError::Truncated)
    } else {
        Ok((raw.subrange(8, body_start(raw)), raw.skip(body_start(raw))))
    }
}

/// Puts the bytes of an entry together from its rendered header and its body.
pub fn frame(header: &[u8], body: &Bytes) -> (out: Bytes)
    ensures
        wire::content(out) == framed(header@, wire::content(*body)),
{
    let mut out: Vec<u8> = Vec::new();
    out.push('C' as u8);
    out.push('I' as u8);
    out.push('C' as u8);
    out.push('H' as u8);
    assert(out@ =~= magic());
    wire::push_le(&mut out, header.len() as u64, 4);
    wire::push_all(&mut out, header);
    wire::push_all(&mut out, wire::as_slice(body));
    wire::from_vec(out)
}

/// What was read of an entry, or why nothing was.
pub open spec fn parts(out: Result<(Bytes, Bytes), EntryError>) -> Result<
    (Seq<u8>, Seq<u8>),
    EntryError,
> {
    match out {
        Ok((header, body)) => Ok((wire::content(header), wire::content(body))),
        Err(e) => Err(e),
    }
}

/// Takes the bytes of an entry apart into its rendered header and its body.
pub fn unframe(raw: &Bytes) -> (out: Result<(Bytes, Bytes), EntryError>)
    ensures
        parts(out) == unframed(wire::content(*raw)),
{
    let bytes = wire::as_slice(raw);
    if bytes.len() < 8 {
        return Err(EntryError::NotAnEntry);
    }
    if bytes[0] != 'C' as u8 || bytes[1] != 'I' as u8 || bytes[2] != 'C' as u8 || bytes[3]
        != 'H' as u8 {
        proof {
            let start = bytes@.take(4);
            assert(start != magic()) by {
                if start == magic() {
                    assert(start[0] == magic()[0] && start[1] == magic()[1] && start[2]
                        == magic()[2] && start[3] == magic()[3]);
                }
            }
        }
        return Err(EntryError::NotAnEntry);
    }
    assert(bytes@.take(4) =~= magic());
    let header_len: u64 = wire::read_le(bytes, 4, 4);
    proof {
        wire::lemma_le_range();
    }
    if (bytes.len() as u64) < 8 + header_len {
        return Err(EntryError::Truncated);
    }
    let start: usize = 8 + header_len as usize;
    let header = wire::slice(raw, 8, start);
    let body = wire::slice(raw, start, bytes.len());
    assert(wire::content(body) =~= bytes@.skip(start as int));
    Ok((header, body))
}

/// What becomes of an entry's header and body: an error where the header could not be read or the
/// body is not the one whose digest the header records, and else the entry.
pub open spec fn checked(
    header: Result<Header, String>,
    body: Seq<u8>,
    out: Result<Entry, EntryError>,
) -> bool {
    match header {
        Err(e) => out matches Err(EntryError::Header(s)) && s == e,
        Ok(h) => if h.sha256@ == digest::sha256_hex(body) {
            out matches Ok(entry) && entry.header == h && wire::content(entry.body) == body
        } else {
            out matches Err(EntryError::Integrity)
        },
    }
}

/// Whether a result is what comes of encoding an entry: the frame of what its header is rendered
/// as, or why it was not rendered.
pub open spec fn encodes<F: FnOnce(&Header) -> Result<Vec<u8>, String>>(
    entry: Entry,
    render: F,
    out: Result<Bytes, String>,
) -> bool {
    exists|r: Result<Vec<u8>, String>| #[trigger]
        call_ensures(render, (&entry.header,), r) && match r {
            Ok(json) => out matches Ok(b) && wire::content(b) == framed(
                json@,
                wire::content(entry.body),
            ),
            Err(e) => out == Err::<Bytes, String>(e),
        }
}

/// Whether a result is what comes of decoding bytes: why they hold no entry, or what becomes of the
/// header that was parsed and the body.
pub open spec fn decodes<F: FnOnce(&[u8]) -> Result<Header, String>>(
    raw: Seq<u8>,
    parse: F,
    out: Result<Entry, EntryError>,
) -> bool {
    match unframed(raw) {
        Err(e) => out matches Err(f) && f == e,
        Ok((json, body)) => exists|j: &[u8], r: Result<Header, String>|
            j@ == json && #[trigger] call_ensures(parse, (j,), r) && checked(r, body, out),
    }
}

impl Entry {
    /// Verifies the body of an entry against the digest recorded when it was written.
    pub fn check(header: Result<Header, String>, body: Bytes) -> (out: Result<Self, EntryError>)
        ensures
            checked(header, wire::content(body), out),
    {
        let header = match header {
            Ok(header) => header,
            Err(e) => return Err(EntryError::Header(e)),
        };
        let sha256 = digest::sha_hex(wire::as_slice(&body));
        if !text::same_text(sha256.as_str(), header.sha256.as_str()) {
            return Err(EntryError::Integrity);
        }
        Ok(Entry { header, body })
    }

    /// Puts the bytes of the entry together. `render` writes the header as JSON, or says in words
    /// why it cannot.
    pub fn encode<F: FnOnce(&Header) -> Result<Vec<u8>, String>>(&self, render: F) -> (out: Result<
        Bytes,
        String,
    >)
        requires
            call_requires(render, (&self.header,)),
        ensures
            encodes(*self, render, out),
    {
        match render(&self.header) {
            Ok(json) => Ok(frame(json.as_slice(), &self.body)),
            Err(e) => Err(e),
        }
    }

    /// Decodes an entry and verifies the body against the digest recorded when it was written. A
    /// mismatch is treated as a miss by the caller rather than served. `parse` reads the header from
    /// its JSON, or says in words why it cannot.
    pub fn decode<F: FnOnce(&[u8]) -> Result<Header, String>>(raw: &Bytes, parse: F) -> (out: Result<
        Self,
        EntryError,
    >)
        requires
            unframed(wire::content(*raw)) matches Ok((json, _)) ==> forall|j: &[u8]|
                j@ == json ==> #[trigger] call_requires(parse, (j,)),
        ensures
            decodes(wire::content(*raw), parse, out),
    {
        match unframe(raw) {
            Err(e) => Err(e),
            Ok((json, body)) => {
                let j = wire::as_slice(&json);
                let header = parse(j);
                assert(call_ensures(parse, (j,), header));
                Entry::check(header, body)
            },
        }
    }
}

/// What is framed is taken apart again, where the length of the header fits its field.
pub proof fn law_framing_round_trip(header: Seq<u8>, body: Seq<u8>)
    requires
        header.len() < 0x1_0000_0000,
    ensures
        unframed(framed(header, body)) == Ok::<(Seq<u8>, Seq<u8>), EntryError>((header, body)),
{
    let raw = framed(header, body);
    wire::lemma_le_range();
    wire::lemma_le_round_trip(header.len(), 4);
    assert(raw.take(4) =~= magic());
    assert(raw.subrange(4, 8) =~= wire::le_bytes(header.len(), 4));
    assert(raw.subrange(8, body_start(raw)) =~= header);
    assert(raw.skip(body_start(raw)) =~= body);
}

/// Bytes that were cut off before the end of the header hold no entry.
pub proof fn law_truncation_is_noticed(header: Seq<u8>, body: Seq<u8>, n: int)
    requires
        header.len() < 0x1_0000_0000,
        0 <= n < 8 + header.len(),
    ensures
        unframed(framed(header, body).take(n)) is Err,
{
    let raw = framed(header, body);
    let cut = raw.take(n);
    wire::lemma_le_range();
    wire::lemma_le_round_trip(header.len(), 4);
    if n >= 8 {
        assert(cut.subrange(4, 8) =~= wire::le_bytes(header.len(), 4));
    }
}

/// An entry reads back as it was written, in its header and its body: where a header is parsed back
/// from what it was rendered as, decoding what was encoded gives the entry again. An entry records
/// the digest of its body, and the length of its header fits its field.
pub proof fn law_entry_round_trip<
    R: FnOnce(&Header) -> Result<Vec<u8>, String>,
    P: FnOnce(&[u8]) -> Result<Header, String>,
>(entry: Entry, render: R, parse: P, raw: Bytes, out: Result<Entry, EntryError>)
    requires
        entry.header.sha256@ == digest::sha256_hex(wire::content(entry.body)),
        forall|json: Vec<u8>| #[trigger]
            call_ensures(render, (&entry.header,), Ok(json)) ==> json@.len() < 0x1_0000_0000,
        forall|json: Vec<u8>, j: &[u8], r: Result<Header, String>|
            #[trigger] call_ensures(render, (&entry.header,), Ok(json)) && #[trigger] call_ensures(
                parse,
                (j,),
                r,
            ) && j@ == json@ ==> (r matches Ok(h) && h@ == entry.header@),
        encodes(entry, render, Ok(raw)),
        decodes(wire::content(raw), parse, out),
    ensures
        out matches Ok(e) && e.header@ == entry.header@ && wire::content(e.body) == wire::content(
            entry.body,
        ),
{
    let rendered = choose|r: Result<Vec<u8>, String>| #[trigger]
        call_ensures(render, (&entry.header,), r) && match r {
            Ok(json) => wire::content(raw) == framed(json@, wire::content(entry.body)),
            Err(_) => false,
        };
    let json = rendered->Ok_0;
    assert(call_ensures(render, (&entry.header,), Ok(json)));
    law_framing_round_trip(json@, wire::content(entry.body));
    let (j, r) = choose|j: &[u8], r: Result<Header, String>|
        j@ == json@ && #[trigger] call_ensures(parse, (j,), r) && checked(
            r,
            wire::content(entry.body),
            out,
        );
    assert(r matches Ok(h) && h@ == entry.header@);
}

/// What is decoded has the digest that its header records: a body that was damaged is never
/// served.
pub proof fn law_decoded_bodies_are_intact(
    header: Result<Header, String>,
    body: Seq<u8>,
    out: Result<Entry, EntryError>,
)
    requires
        checked(header, body, out),
    ensures
        out matches Ok(e) ==> e.header.sha256@ == digest::sha256_hex(wire::content(e.body)),
{
}

/// The fields that lines are replayed as. A line whose name or value does not parse is left out.
pub open spec fn replayed(lines: Seq<Line>) -> Fields
    decreases lines.len(),
{
    if lines.len() == 0 {
        Map::empty()
    } else {
        let before = replayed(lines.drop_last());
        let (name, value) = lines.last();
        if headers::name_ok(name) && headers::value_ok(encode_utf8(value)) {
            headers::appended(before, text::lower(name), encode_utf8(value))
        } else {
            before
        }
    }
}

/// Replaying more lines gives at least the same names.
proof fn lemma_replayed_names(lines: Seq<Line>, n: int)
    requires
        0 <= n <= lines.len(),
    ensures
        replayed(lines).dom().finite(),
        replayed(lines.take(n)).dom().subset_of(replayed(lines).dom()),
        replayed(lines.take(n)).dom().len() <= replayed(lines).dom().len(),
    decreases lines.len(),
{
    if lines.len() == 0 {
        assert(lines.take(n) =~= lines);
    } else if n == lines.len() {
        lemma_replayed_names(lines.drop_last(), n - 1);
        assert(lines.take(n) =~= lines);
    } else {
        lemma_replayed_names(lines.drop_last(), n);
        assert(lines.drop_last().take(n) =~= lines.take(n));
    }
    vstd::set_lib::lemma_len_subset(replayed(lines.take(n)).dom(), replayed(lines).dom());
}

impl Entry {
    /// The recorded headers as a header map, where one has room for them. That is sure for as many
    /// names as a header map has room for whatever they are.
    pub fn try_header_map(&self) -> (out: Option<HeaderMap<HeaderValue>>)
        ensures
            replayed(self.header@.headers).dom().len() <= headers::ROOM ==> out is Some,
            out matches Some(map) ==> headers::fields(map) == replayed(self.header@.headers),
    {
        let mut map = headers::no_headers();
        let ghost all = self.header@.headers;
        let mut i: usize = 0;
        assert(headers::fields(map) =~= replayed(all.take(0)));
        while i < self.header.headers.len()
            invariant
                i <= self.header.headers.len(),
                all == lines(self.header.headers@),
                headers::fields(map) == replayed(all.take(i as int)),
            decreases self.header.headers.len() - i,
        {
            let line = &self.header.headers[i];
            proof {
                lemma_replayed_names(all, i as int);
                assert(all.take(i + 1).drop_last() =~= all.take(i as int));
                assert(all.take(i + 1).last() == (line.0@, line.1@));
            }
            match (headers::parse_name(line.0.as_str()), headers::parse_value(line.1.as_str())) {
                (Some(name), Some(value)) => {
                    proof {
                        headers::lemma_lower_name(line.0@);
                    }
                    if !headers::append(&mut map, name.as_str(), value.as_slice()) {
                        return None;
                    }
                },
                _ => {},
            }
            i += 1;
        }
        assert(all.take(i as int) =~= all);
        Some(map)
    }

    /// The recorded headers as a header map. A header map is sure to have room for a limited number of
    /// names.
    pub fn header_map(&self) -> (out: HeaderMap<HeaderValue>)
        requires
            replayed(self.header@.headers).dom().len() <= headers::ROOM,
        ensures
            headers::fields(out) == replayed(self.header@.headers),
    {
        match self.try_header_map() {
            Some(map) => map,
            None => headers::no_headers(),
        }
    }
}

/// Lines with lower-case names and plain values are replayed under each name as they are.
proof fn lemma_replayed_values(lines: Seq<Line>, name: Seq<char>)
    requires
        headers::name_ok(name),
        forall|i: int|
            0 <= i < lines.len() ==> text::lower((#[trigger] lines[i]).0) == lines[i].0 && headers::plain(
                lines[i].1,
            ),
    ensures
        headers::values_in(replayed(lines), name) == texts_of(lines, name).map_values(
            |t: Seq<char>| encode_utf8(t),
        ),
    decreases lines.len(),
{
    let bytes = |t: Seq<char>| encode_utf8(t);
    if lines.len() > 0 {
        let before = lines.drop_last();
        assert forall|i: int| 0 <= i < before.len() implies text::lower(
            (#[trigger] before[i]).0,
        ) == before[i].0 && headers::plain(before[i].1) by {
            assert(before[i] == lines[i]);
        }
        lemma_replayed_values(before, name);
        let line = lines.last();
        assert(line == lines[lines.len() - 1]);
        headers::lemma_plain_value(line.1);
        assert(texts_of(before, name).push(line.1).map_values(bytes) =~= texts_of(
            before,
            name,
        ).map_values(bytes).push(encode_utf8(line.1)));
    } else {
        assert(texts_of(lines, name).map_values(bytes) =~= Seq::empty());
    }
}

/// A line is among the values of its name.
proof fn lemma_line_among_texts(lines: Seq<Line>, i: int)
    requires
        0 <= i < lines.len(),
    ensures
        texts_of(lines, lines[i].0).contains(lines[i].1),
    decreases lines.len(),
{
    let name = lines[i].0;
    let before = texts_of(lines.drop_last(), name);
    if i == lines.len() - 1 {
        assert(texts_of(lines, name).last() == lines[i].1);
    } else {
        lemma_line_among_texts(lines.drop_last(), i);
        assert(lines.drop_last()[i] == lines[i]);
        let k = before.index_of(lines[i].1);
        assert(texts_of(lines, name)[k] == lines[i].1);
    }
}

/// What was recorded of a header map is replayed: under each name that does not describe the hop,
/// all the values that read as text, byte for byte and in their order. Nothing that describes the
/// hop is replayed. The names in a header map are in lower case.
pub proof fn law_headers_are_replayed(lines: Seq<Line>, f: Fields, name: Seq<char>)
    requires
        records(lines, f),
        forall|n: Seq<char>| #[trigger] f.contains_key(n) ==> text::lower(n) == n,
        headers::name_ok(name),
    ensures
        headers::values_in(replayed(lines), name) == if headers::hop_by_hop().contains(name) {
            Seq::empty()
        } else {
            readable(headers::values_in(f, name))
        },
{
    let read = |v: Seq<u8>| headers::ascii_text(v);
    let bytes = |t: Seq<char>| encode_utf8(t);
    assert forall|i: int| 0 <= i < lines.len() implies text::lower((#[trigger] lines[i]).0)
        == lines[i].0 && headers::plain(lines[i].1) by {
        lemma_line_among_texts(lines, i);
        let n = lines[i].0;
        let values = readable(headers::values_in(f, n));
        let k = texts_of(lines, n).index_of(lines[i].1);
        assert(texts_of(lines, n)[k] == lines[i].1);
        assert(texts_of(lines, n) == values.map_values(read));
        lemma_readable(headers::values_in(f, n));
        assert(headers::visible(values[k]));
        assert(lines[i].1 == headers::ascii_text(values[k]));
        assert(f.contains_key(n));
    }
    lemma_replayed_values(lines, name);
    let values = readable(headers::values_in(f, name));
    if !headers::hop_by_hop().contains(name) {
        lemma_readable(headers::values_in(f, name));
        assert forall|i: int| 0 <= i < values.len() implies bytes(read(#[trigger] values[i]))
            == values[i] by {
            let t = headers::ascii_text(values[i]);
            assert(headers::visible(values[i]));
            assert forall|j: int| 0 <= j < t.len() implies (' ' <= #[trigger] t[j] && t[j] <= '~')
                || t[j] == '\t' by {
                assert(t[j] == values[i][j] as char);
            }
            headers::lemma_plain_value(t);
            assert(encode_utf8(t) =~= values[i]);
        }
        assert(values.map_values(read).map_values(bytes) =~= values);
    } else {
        assert(Seq::<Seq<char>>::empty().map_values(bytes) =~= Seq::empty());
    }
}

/// The readable ones of some values are readable, and there are none among no values.
proof fn lemma_readable(values: Seq<Seq<u8>>)
    ensures
        forall|i: int|
            0 <= i < readable(values).len() ==> headers::visible(#[trigger] readable(values)[i]),
        values.len() == 0 ==> readable(values).len() == 0,
    decreases values.len(),
{
    reveal(Seq::filter);
    if values.len() > 0 {
        lemma_readable(values.drop_last());
        let before = readable(values.drop_last());
        assert(readable(values) == if headers::visible(values.last()) {
            before.push(values.last())
        } else {
            before
        });
    }
}

/// A single value that reads as text is left as it is.
pub(crate) proof fn lemma_readable_one(value: Seq<u8>)
    requires
        headers::visible(value),
    ensures
        readable(seq![value]) == seq![value],
{
    reveal(Seq::filter);
    let none = seq![value].drop_last();
    assert(none =~= Seq::empty());
    assert(readable(none) =~= Seq::empty());
    assert(readable(seq![value]) == readable(none).push(value));
    assert(readable(seq![value]) =~= seq![value]);
}

/// What an entry records of a response: its URL, its status and its body as they are, the digest of
/// the body, and under each name that does not describe the hop its values that read as text.
pub proof fn law_what_is_recorded(
    entry: Entry,
    url: Seq<char>,
    status: u16,
    f: Fields,
    body: Seq<u8>,
    name: Seq<char>,
)
    requires
        is_record(entry, url, status, f, body),
    ensures
        entry.header@.url == url,
        entry.header@.status == status,
        entry.header@.sha256 == digest::hex(digest::sha256(body)@),
        wire::content(entry.body) == body,
        texts_of(entry.header@.headers, name) == if headers::hop_by_hop().contains(name) {
            Seq::empty()
        } else {
            readable(headers::values_in(f, name)).map_values(
                |v: Seq<u8>| headers::ascii_text(v),
            )
        },
{
    let values = readable(headers::values_in(f, name));
    assert(values.map_values(|v: Seq<u8>| headers::ascii_text(v)) =~= values.map_values(
        |v: Seq<u8>| headers::ascii_text(v),
    ));
}

/// Fields are recorded one by one, in their order: each that does not describe the hop and reads as
/// text, under its name and with that text.
pub proof fn law_fields_are_recorded_in_order(list: Seq<Field>, name: Seq<char>, value: Seq<u8>)
    ensures
        recorded(Seq::empty()).len() == 0,
        recorded(list.push((name, value))) == if headers::hop_by_hop().contains(name)
            || !headers::visible(value) {
            recorded(list)
        } else {
            recorded(list).push((name, headers::ascii_text(value)))
        },
{
    assert(list.push((name, value)).drop_last() =~= list);
}

/// The values of lines under a name are those of the lines of that name, in their order.
pub proof fn law_lines_under_a_name(lines: Seq<Line>, line: Line, name: Seq<char>)
    ensures
        texts_of(Seq::empty(), name).len() == 0,
        texts_of(lines.push(line), name) == if line.0 == name {
            texts_of(lines, name).push(line.1)
        } else {
            texts_of(lines, name)
        },
{
    assert(lines.push(line).drop_last() =~= lines);
}

/// The values that read as text are kept, in their order, and no others.
pub proof fn law_readable_values(values: Seq<Seq<u8>>, value: Seq<u8>)
    ensures
        readable(Seq::empty()).len() == 0,
        readable(values.push(value)) == if headers::visible(value) {
            readable(values).push(value)
        } else {
            readable(values)
        },
{
    reveal(Seq::filter);
    assert(values.push(value).drop_last() =~= values);
}

/// Lines are replayed one by one, in their order: each whose name and value can stand in a header,
/// with its value behind those that its name already has, whatever the case of the name.
pub proof fn law_lines_are_replayed_in_order(lines: Seq<Line>, line: Line, name: Seq<char>)
    ensures
        !replayed(Seq::empty()).contains_key(name),
        headers::values_in(replayed(lines.push(line)), name) == if headers::name_ok(line.0)
            && headers::value_ok(encode_utf8(line.1)) && text::lower(line.0) == name {
            headers::values_in(replayed(lines), name).push(encode_utf8(line.1))
        } else {
            headers::values_in(replayed(lines), name)
        },
{
    assert(lines.push(line).drop_last() =~= lines);
}

/// The bytes of an entry are four that name the format, the length of the header in four bytes with
/// the lowest first, the header, and the body.
pub proof fn law_the_layout_of_an_entry(header: Seq<u8>, body: Seq<u8>)
    requires
        header.len() < 0x1_0000_0000,
    ensures
        ({
            let raw = framed(header, body);
            &&& raw.len() == 8 + header.len() + body.len()
            &&& raw.take(4) == seq![67u8, 73u8, 67u8, 72u8]
            &&& raw[4] + 256 * (raw[5] + 256 * (raw[6] + 256 * raw[7])) == header.len()
            &&& raw.subrange(8, 8 + header.len() as int) == header
            &&& raw.skip(8 + header.len() as int) == body
        }),
{
    let raw = framed(header, body);
    let n = header.len();
    wire::lemma_le_range();
    wire::lemma_le_round_trip(n, 4);
    wire::law_lowest_byte_first(n, wire::le_bytes(n, 4));
    assert(raw.take(4) =~= seq![67u8, 73u8, 67u8, 72u8]);
    assert(raw.subrange(4, 8) =~= wire::le_bytes(n, 4));
    assert(raw[4] == raw.subrange(4, 8)[0]);
    assert(raw[5] == raw.subrange(4, 8)[1]);
    assert(raw[6] == raw.subrange(4, 8)[2]);
    assert(raw[7] == raw.subrange(4, 8)[3]);
    assert(raw.subrange(8, 8 + n as int) =~= header);
    assert(raw.skip(8 + n as int) =~= body);
}

/// Bytes that are too few or do not begin as an entry does are none; those that end before the header
/// does are cut off; of all others the header is as long as the length says, and the rest is the body.
pub proof fn law_reading_the_layout(raw: Seq<u8>, n: int)
    requires
        raw.len() >= 8 ==> n == raw[4] + 256 * (raw[5] + 256 * (raw[6] + 256 * raw[7])),
    ensures
        ({
            let named = raw.len() >= 8 && raw[0] == 67 && raw[1] == 73 && raw[2] == 67 && raw[3]
                == 72;
            &&& !named ==> unframed(raw) == Err::<(Seq<u8>, Seq<u8>), EntryError>(
                EntryError::NotAnEntry,
            )
            &&& named && raw.len() < 8 + n ==> unframed(raw) == Err::<
                (Seq<u8>, Seq<u8>),
                EntryError,
            >(EntryError::Truncated)
            &&& named && raw.len() >= 8 + n ==> unframed(raw) == Ok::<
                (Seq<u8>, Seq<u8>),
                EntryError,
            >((raw.subrange(8, 8 + n), raw.skip(8 + n)))
        }),
{
    if raw.len() >= 8 {
        let field = raw.subrange(4, 8);
        wire::law_lowest_byte_first(0, field);
        assert(field[0] == raw[4] && field[1] == raw[5] && field[2] == raw[6] && field[3] == raw[7]);
        assert(body_start(raw) == 8 + n);
        let start = raw.take(4);
        assert(start[0] == raw[0] && start[1] == raw[1] && start[2] == raw[2] && start[3] == raw[3]);
        if raw[0] == 67 && raw[1] == 73 && raw[2] == 67 && raw[3] == 72 {
            assert(start =~= magic());
        } else {
            assert(magic()[0] == 67 && magic()[1] == 73 && magic()[2] == 67 && magic()[3] == 72);
        }
    }
}

/// What is decoded is what stands in the bytes: the body is all that follows the header, and its
/// digest is the one that the header records. Bytes that hold no entry, or are cut off, are said to
/// be; so is a header that cannot be read, and a body that is not the one whose digest was recorded.
pub proof fn law_decoding<F: FnOnce(&[u8]) -> Result<Header, String>>(
    raw: Seq<u8>,
    parse: F,
    out: Result<Entry, EntryError>,
    header: Seq<u8>,
    body: Seq<u8>,
)
    requires
        decodes(raw, parse, out),
        unframed(raw) == Ok::<(Seq<u8>, Seq<u8>), EntryError>((header, body)),
    ensures
        match out {
            Ok(e) => wire::content(e.body) == body && e.header@.sha256 == digest::hex(
                digest::sha256(body)@,
            ) && exists|j: &[u8]| #[trigger] call_ensures(parse, (j,), Ok(e.header)) && j@ == header,
            Err(EntryError::Header(words)) => exists|j: &[u8]| #[trigger]
                call_ensures(parse, (j,), Err(words)) && j@ == header,
            Err(EntryError::Integrity) => exists|j: &[u8], h: Header| #[trigger]
                call_ensures(parse, (j,), Ok(h)) && j@ == header && h@.sha256 != digest::hex(
                    digest::sha256(body)@,
                ),
            Err(_) => false,
        },
{
    let (j, r) = choose|j: &[u8], r: Result<Header, String>|
        j@ == header && #[trigger] call_ensures(parse, (j,), r) && checked(r, body, out);
    match r {
        Ok(h) => {
            assert(call_ensures(parse, (j,), Ok(h)));
        },
        Err(e) => {
            assert(call_ensures(parse, (j,), Err(e)));
        },
    }
}

/// Bytes that hold no entry are refused for that, whatever a header could be read as.
pub proof fn law_decoding_what_is_none<F: FnOnce(&[u8]) -> Result<Header, String>>(
    raw: Seq<u8>,
    parse: F,
    out: Result<Entry, EntryError>,
    why: EntryError,
)
    requires
        decodes(raw, parse, out),
        unframed(raw) == Err::<(Seq<u8>, Seq<u8>), EntryError>(why),
    ensures
        out == Err::<Entry, EntryError>(why),
{
}

/// An entry is served exactly where its header was read and the digest of its body is the recorded
/// one; it then has that header and that body.
pub proof fn law_bodies_are_checked(
    header: Result<Header, String>,
    body: Bytes,
    out: Result<Entry, EntryError>,
)
    requires
        call_ensures(Entry::check, (header, body), out),
    ensures
        header matches Err(words) ==> out == Err::<Entry, EntryError>(EntryError::Header(words)),
        header matches Ok(h) ==> (h.sha256@ == digest::hex(digest::sha256(wire::content(body))@)
            ==> (out matches Ok(e) && e.header == h && wire::content(e.body) == wire::content(body))),
        header matches Ok(h) ==> (h.sha256@ != digest::hex(digest::sha256(wire::content(body))@)
            ==> out == Err::<Entry, EntryError>(EntryError::Integrity)),
{
}

/// The bytes of an entry are laid out around what its header is rendered as, and the body is not
/// touched; what could not be rendered is not written.
pub proof fn law_encoding<F: FnOnce(&Header) -> Result<Vec<u8>, String>>(
    entry: Entry,
    render: F,
    out: Result<Bytes, String>,
)
    requires
        encodes(entry, render, out),
    ensures
        match out {
            Ok(b) => exists|json: Vec<u8>| #[trigger]
                call_ensures(render, (&entry.header,), Ok(json)) && wire::content(b) == framed(
                    json@,
                    wire::content(entry.body),
                ),
            Err(words) => call_ensures(render, (&entry.header,), Err(words)),
        },
{
    let r = choose|r: Result<Vec<u8>, String>| #[trigger]
        call_ensures(render, (&entry.header,), r) && match r {
            Ok(json) => out matches Ok(b) && wire::content(b) == framed(
                json@,
                wire::content(entry.body),
            ),
            Err(e) => out == Err::<Bytes, String>(e),
        };
    match r {
        Ok(json) => {
            assert(call_ensures(render, (&entry.header,), Ok(json)));
        },
        Err(e) => {
            assert(call_ensures(render, (&entry.header,), Err(e)));
        },
    }
}

/// What is said of bytes that are not served.
pub proof fn law_entry_errors_are_named(e: EntryError)
    ensures
        e is NotAnEntry ==> error_text(e) == "not a cache entry"@,
        e is Truncated ==> error_text(e) == "truncated cache entry"@,
        e is Integrity ==> error_text(e) == "cache entry failed integrity check"@,
        e matches EntryError::Header(words) ==> error_text(e) == words@,
{
}

/// A record of a response with its fields in some order holds what was given, as of the moment that
/// was given.
pub proof fn law_records_as_of_a_moment(
    url: &str,
    status: u16,
    list: &[(String, Vec<u8>)],
    body: Bytes,
    stored_at: u64,
    out: Entry,
)
    requires
        call_ensures(Entry::new_at, (url, status, list, body, stored_at), out),
    ensures
        out.header.url@ == url@,
        out.header.status == status,
        out.header.stored_at == stored_at,
        out.header.sha256@ == digest::hex(digest::sha256(wire::content(body))@),
        out.body == body,
        out.header.headers@.len() == recorded(headers::field_list(list@)).len(),
        forall|i: int|
            0 <= i < out.header.headers@.len() ==> ((#[trigger] out.header.headers@[i]).0@,
                out.header.headers@[i].1@) == recorded(headers::field_list(list@))[i],
{
    let h = out.header@;
    assert(h.url == url@ && h.status == status && h.stored_at == stored_at);
    assert(lines(out.header.headers@) == recorded(headers::field_list(list@)));
    assert forall|i: int| 0 <= i < out.header.headers@.len() implies ((
    #[trigger] out.header.headers@[i]).0@, out.header.headers@[i].1@) == recorded(
        headers::field_list(list@),
    )[i] by {
        assert(lines(out.header.headers@)[i] == (
            out.header.headers@[i].0@,
            out.header.headers@[i].1@,
        ));
    }
}

/// Entries are put together and taken apart as they are laid out, and replayed as they were recorded.
pub proof fn law_entries_are_framed_and_replayed(
    header: &[u8],
    body: &Bytes,
    framed_one: Bytes,
    raw: &Bytes,
    taken: Result<(Bytes, Bytes), EntryError>,
    entry: &Entry,
    map: Option<HeaderMap<HeaderValue>>,
    e: &EntryError,
    words: &str,
)
    requires
        call_ensures(frame, (header, body), framed_one),
        call_ensures(unframe, (raw,), taken),
        call_ensures(Entry::try_header_map, (entry,), map),
        call_ensures(EntryError::message, (e,), words),
    ensures
        wire::content(framed_one) == framed(header@, wire::content(*body)),
        taken matches Ok((h, b)) ==> unframed(wire::content(*raw)) == Ok::<
            (Seq<u8>, Seq<u8>),
            EntryError,
        >((wire::content(h), wire::content(b))),
        taken matches Err(why) ==> unframed(wire::content(*raw)) == Err::<
            (Seq<u8>, Seq<u8>),
            EntryError,
        >(why),
        map matches Some(m) ==> headers::fields(m) == replayed(entry.header@.headers),
        replayed(entry.header@.headers).dom().len() <= headers::ROOM ==> map is Some,
        words@ == error_text(*e),
{
}

/// A response is recorded as it was received.
pub proof fn law_responses_are_recorded(
    url: &str,
    status: u16,
    headers: &HeaderMap<HeaderValue>,
    body: Bytes,
    out: Entry,
)
    requires
        call_ensures(Entry::new, (url, status, headers, body), out),
    ensures
        out.header.url@ == url@,
        out.header.status == status,
        wire::content(out.body) == wire::content(body),
        out.header.sha256@ == digest::hex(digest::sha256(wire::content(body))@),
        records(out.header@.headers, headers::fields(*headers)),
{
}

/// What a header shows is what it holds.
pub proof fn law_headers_show_their_parts(h: Header, i: int)
    ensures
        h@.url == h.url@,
        h@.status == h.status,
        h@.sha256 == h.sha256@,
        h@.stored_at == h.stored_at,
        h@.headers.len() == h.headers@.len(),
        0 <= i < h.headers@.len() ==> h@.headers[i] == (h.headers@[i].0@, h.headers@[i].1@),
{
}

/// Lines record fields where they have, under each name that does not describe the hop, the values
/// that read as text, and under any other nothing.
pub proof fn law_what_records_are(lines: Seq<Line>, f: Fields)
    ensures
        records(lines, f) <==> forall|name: Seq<char>| #[trigger]
            texts_of(lines, name) == if headers::hop_by_hop().contains(name) {
                Seq::empty()
            } else {
                readable(headers::values_in(f, name)).map_values(
                    |v: Seq<u8>| headers::ascii_text(v),
                )
            },
{
}

/// Entries are encoded and decoded as stated, with what renders and parses their headers.
pub proof fn law_entries_are_encoded_and_decoded<
    R: FnOnce(&Header) -> Result<Vec<u8>, String>,
    P: FnOnce(&[u8]) -> Result<Header, String>,
>(
    entry: &Entry,
    render: R,
    encoded: Result<Bytes, String>,
    raw: &Bytes,
    parse: P,
    decoded: Result<Entry, EntryError>,
)
    requires
        call_ensures(Entry::encode::<R>, (entry, render), encoded),
        call_ensures(Entry::decode::<P>, (raw, parse), decoded),
    ensures
        encodes(*entry, render, encoded),
        decodes(wire::content(*raw), parse, decoded),
{
}

} // verus!

//! Byte buffers, and the numbers and texts inside them.

use bytes::Bytes;
use vstd::prelude::*;
use vstd::utf8::{decode_utf8, encode_utf8, valid_utf8};

verus! {

/// `bytes::Bytes`, a buffer that is shared and never changed.
#[verifier::external_type_specification]
#[verifier::external_body]
pub struct ExBytes(Bytes);

/// What a buffer holds. A `Bytes` never changes once it is made.
pub uninterp spec fn content(b: Bytes) -> Seq<u8>;

/// `Bytes::from(Vec<u8>)` makes a buffer of the vector's bytes.
#[verifier::external_body]
pub(crate) fn from_vec(v: Vec<u8>) -> (out: Bytes)
    ensures
        content(out) == v@,
{
    Bytes::from(v)
}

/// `Bytes::as_ref` reads the whole buffer.
#[verifier::external_body]
pub(crate) fn as_slice(b: &Bytes) -> (out: &[u8])
    ensures
        out@ == content(*b),
{
    b.as_ref()
}

/// `Bytes::slice` makes a buffer of the bytes in a range of another. It panics on a range that
/// reaches past the end.
#[verifier::external_body]
pub(crate) fn slice(b: &Bytes, from: usize, to: usize) -> (out: Bytes)
    requires
        from <= to <= content(*b).len(),
    ensures
        content(out) == content(*b).subrange(from as int, to as int),
{
    b.slice(from..to)
}

/// A buffer with the bytes of another.
pub(crate) fn shared(b: &Bytes) -> (out: Bytes)
    ensures
        content(out) == content(*b),
{
    let len = as_slice(b).len();
    assert(content(*b).subrange(0, len as int) =~= content(*b));
    slice(b, 0, len)
}

/// `std::str::from_utf8` reads bytes as text where they are UTF-8, and fails where they are not.
#[verifier::external_body]
pub(crate) fn utf8_text(b: &[u8]) -> (out: Option<String>)
    ensures
        out is Some == valid_utf8(b@),
        out matches Some(s) ==> s@ == decode_utf8(b@),
{
    std::str::from_utf8(b).ok().map(|s| s.to_string())
}

/// What bytes that are not UTF-8 read as where nothing may fail: the text with a replacement
/// character for what cannot be read.
pub uninterp spec fn replaced(b: Seq<u8>) -> Seq<char>;

/// `String::from_utf8_lossy` reads bytes as text. UTF-8 reads as what it spells.
#[verifier::external_body]
pub(crate) fn lossy_text(b: &[u8]) -> (out: String)
    ensures
        valid_utf8(b@) ==> out@ == decode_utf8(b@),
        !valid_utf8(b@) ==> out@ == replaced(b@),
{
    String::from_utf8_lossy(b).into_owned()
}

/// What bytes read as where nothing may fail.
pub open spec fn lossy(b: Seq<u8>) -> Seq<char> {
    if valid_utf8(b) {
        decode_utf8(b)
    } else {
        replaced(b)
    }
}

/// The bytes of a vector of byte vectors.
pub open spec fn byte_runs(v: Seq<Vec<u8>>) -> Seq<Seq<u8>> {
    v.map_values(|b: Vec<u8>| b@)
}

/// The `count` low bytes of `n`, the lowest first.
pub open spec fn le_bytes(n: nat, count: nat) -> Seq<u8>
    decreases count,
{
    if count == 0 {
        Seq::empty()
    } else {
        seq![(n % 256) as u8] + le_bytes(n / 256, (count - 1) as nat)
    }
}

/// The number whose bytes these are, the lowest first.
pub open spec fn le_value(s: Seq<u8>) -> nat
    decreases s.len(),
{
    if s.len() == 0 {
        0
    } else {
        s[0] as nat + 256 * le_value(s.drop_first())
    }
}

/// How many numbers `count` bytes can spell.
pub open spec fn le_range(count: nat) -> nat
    decreases count,
{
    if count == 0 {
        1
    } else {
        256 * le_range((count - 1) as nat)
    }
}

/// Four bytes reach to 2^32 and eight to 2^64.
pub proof fn lemma_le_range()
    ensures
        le_range(4) == 0x1_0000_0000,
        le_range(8) == 0x1_0000_0000_0000_0000,
{
    reveal_with_fuel(le_range, 9);
}

/// Numbers that fit are read back from their bytes.
pub proof fn lemma_le_round_trip(n: nat, count: nat)
    ensures
        le_bytes(n, count).len() == count,
        n < le_range(count) ==> le_value(le_bytes(n, count)) == n,
    decreases count,
{
    if count > 0 {
        lemma_le_round_trip(n / 256, (count - 1) as nat);
        let s = le_bytes(n, count);
        assert(s.drop_first() =~= le_bytes(n / 256, (count - 1) as nat));
        assert(s[0] == (n % 256) as u8);
    }
}

/// The number that `count` bytes spell is in their range.
pub proof fn lemma_le_value_range(s: Seq<u8>)
    ensures
        le_value(s) < le_range(s.len()),
    decreases s.len(),
{
    if s.len() > 0 {
        lemma_le_value_range(s.drop_first());
    }
}

/// Adds the `count` low bytes of `n` to the end of `out`, the lowest first.
pub(crate) fn push_le(out: &mut Vec<u8>, n: u64, count: usize)
    ensures
        final(out)@ == old(out)@ + le_bytes(n as nat, count as nat),
    decreases count,
{
    if count > 0 {
        out.push((n % 256) as u8);
        push_le(out, n / 256, count - 1);
    }
    assert(out@ =~= old(out)@ + le_bytes(n as nat, count as nat));
}

/// The number that `count` bytes of `raw` spell, from position `at` on.
pub(crate) fn read_le(raw: &[u8], at: usize, count: usize) -> (out: u64)
    requires
        at + count <= raw.len(),
        count <= 8,
    ensures
        out == le_value(raw@.subrange(at as int, at + count)),
        out < le_range(count as nat),
    decreases count,
{
    let ghost s = raw@.subrange(at as int, at + count);
    proof {
        lemma_le_value_range(s);
        reveal_with_fuel(le_range, 9);
    }
    if count == 0 {
        return 0;
    }
    let rest = read_le(raw, at + 1, count - 1);
    assert(s.drop_first() =~= raw@.subrange(at + 1, at + count));
    proof {
        lemma_le_value_range(s.drop_first());
    }
    assert(rest < 0x100_0000_0000_0000);
    raw[at] as u64 + 256 * rest
}

/// Adds bytes to the end of `out`.
pub(crate) fn push_all(out: &mut Vec<u8>, b: &[u8])
    ensures
        final(out)@ == old(out)@ + b@,
{
    out.extend_from_slice(b);
    assert(out@ =~= old(out)@ + b@);
}

/// The UTF-8 bytes of a text.
pub(crate) fn text_bytes(s: &str) -> (out: &[u8])
    ensures
        out@ == encode_utf8(s@),
{
    s.as_bytes()
}

/// The lowest byte stands first, and each of the others counts 256 times as much as the one before.
pub proof fn law_lowest_byte_first(n: nat, s: Seq<u8>)
    requires
        s.len() == 4,
    ensures
        le_value(s) == s[0] + 256 * (s[1] + 256 * (s[2] + 256 * s[3])),
        le_bytes(n, 4) == seq![
            (n % 256) as u8,
            (n / 256 % 256) as u8,
            (n / 0x1_0000 % 256) as u8,
            (n / 0x100_0000 % 256) as u8,
        ],
{
    reveal_with_fuel(le_value, 5);
    reveal_with_fuel(le_bytes, 5);
    assert(s.drop_first()[0] == s[1]);
    assert(s.drop_first().drop_first()[0] == s[2]);
    assert(s.drop_first().drop_first().drop_first()[0] == s[3]);
    assert(le_bytes(n, 4) =~= seq![
        (n % 256) as u8,
        (n / 256 % 256) as u8,
        (n / 0x1_0000 % 256) as u8,
        (n / 0x100_0000 % 256) as u8,
    ]);
}

/// Bytes that are UTF-8 read as what they spell, and others with replacements.
pub proof fn law_bytes_read_as_text(b: Seq<u8>)
    ensures
        valid_utf8(b) ==> lossy(b) == decode_utf8(b),
        !valid_utf8(b) ==> lossy(b) == replaced(b),
{
}

/// Each byte counts 256 times as much as the one before it.
pub proof fn law_bytes_count_by_their_place(first: u8, rest: Seq<u8>, n: nat, count: nat)
    ensures
        le_value(Seq::empty()) == 0,
        le_value(seq![first] + rest) == first + 256 * le_value(rest),
        le_bytes(n, 0).len() == 0,
        count > 0 ==> le_bytes(n, count) == seq![(n % 256) as u8] + le_bytes(
            n / 256,
            (count - 1) as nat,
        ),
{
    assert((seq![first] + rest).drop_first() =~= rest);
}

} // verus!

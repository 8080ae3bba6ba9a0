//! Digests, and the text forms of bytes.

use base64::Engine;
use sha2::Digest;
use vstd::prelude::*;

verus! {

/// The SHA-256 digest of some bytes.
pub uninterp spec fn sha256(data: Seq<u8>) -> [u8; 32];

/// `sha2::Sha256::digest` hashes the whole of its argument.
#[verifier::external_body]
pub(crate) fn sha256_of(data: &[u8]) -> (out: [u8; 32])
    ensures
        out == sha256(data@),
{
    sha2::Sha256::digest(data).into()
}

/// The hexadecimal digit that stands for `d`, letters in lower case.
pub open spec fn hex_digit(d: u8) -> char {
    if d < 10 {
        ('0' as u8 + d) as char
    } else {
        ('a' as u8 + (d - 10)) as char
    }
}

/// Bytes as hexadecimal digits, the high half of each byte first.
pub open spec fn hex(data: Seq<u8>) -> Seq<char> {
    Seq::new(
        2 * data.len(),
        |i: int|
            if i % 2 == 0 {
                hex_digit(data[i / 2] / 16)
            } else {
                hex_digit(data[i / 2] % 16)
            },
    )
}

/// `hex::encode` writes two digits for each byte, letters in lower case. It panics where what it
/// writes would not fit in memory.
#[verifier::external_body]
pub(crate) fn hex_of(data: &[u8]) -> (out: String)
    requires
        data@.len() <= usize::MAX / 4,
    ensures
        out@ == hex(data@),
{
    hex::encode(data)
}

/// The character that stands for a value below 64 in the standard alphabet of base64.
pub open spec fn base64_digit(n: nat) -> char {
    if n < 26 {
        ('A' as u8 + n) as u8 as char
    } else if n < 52 {
        ('a' as u8 + (n - 26)) as u8 as char
    } else if n < 62 {
        ('0' as u8 + (n - 52)) as u8 as char
    } else if n == 62 {
        '+'
    } else {
        '/'
    }
}

/// Bytes in base64, in the standard alphabet and with padding: four characters for three bytes.
pub open spec fn base64(data: Seq<u8>) -> Seq<char>
    decreases data.len(),
{
    if data.len() == 0 {
        Seq::empty()
    } else {
        let a = data[0] as nat;
        let b = if data.len() > 1 {
            data[1] as nat
        } else {
            0
        };
        let c = if data.len() > 2 {
            data[2] as nat
        } else {
            0
        };
        seq![
            base64_digit(a / 4),
            base64_digit(a % 4 * 16 + b / 16),
            if data.len() > 1 {
                base64_digit(b % 16 * 4 + c / 64)
            } else {
                '='
            },
            if data.len() > 2 {
                base64_digit(c % 64)
            } else {
                '='
            },
        ] + base64(
            if data.len() > 3 {
                data.skip(3)
            } else {
                Seq::empty()
            },
        )
    }
}

/// `base64`'s `STANDARD` engine encodes the whole of its argument as RFC 4648 has it, in the standard
/// alphabet and with padding. It panics where what it writes would not fit in memory.
#[verifier::external_body]
pub(crate) fn base64_of(data: &[u8]) -> (out: String)
    requires
        data@.len() <= usize::MAX / 4,
    ensures
        out@ == base64(data@),
{
    base64::engine::general_purpose::STANDARD.encode(data)
}

/// The digest of some bytes in hexadecimal digits.
pub open spec fn sha256_hex(data: Seq<u8>) -> Seq<char> {
    hex(sha256(data)@)
}

/// Whether a character is a hexadecimal digit as digests are written.
pub open spec fn is_hex_digit(c: char) -> bool {
    ('0' <= c && c <= '9') || ('a' <= c && c <= 'f')
}

/// A digest is written in 64 hexadecimal digits.
pub proof fn lemma_digest_shape(data: Seq<u8>)
    ensures
        sha256_hex(data).len() == 64,
        forall|i: int| 0 <= i < 64 ==> is_hex_digit(#[trigger] sha256_hex(data)[i]),
{
}

/// The hexadecimal form of the digest of some bytes.
pub fn sha_hex(data: &[u8]) -> (out: String)
    ensures
        out@ == sha256_hex(data@),
{
    let digest = sha256_of(data);
    hex_of(digest.as_slice())
}

/// A digest is written as the hexadecimal form of the SHA-256 of all the bytes.
pub proof fn law_digests_are_written(data: &[u8], out: String)
    requires
        call_ensures(sha_hex, (data,), out),
    ensures
        out@ == hex(sha256(data@)@),
        out@.len() == 64,
{
    lemma_digest_shape(data@);
}

} // verus!

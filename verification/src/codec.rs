//! Byte codecs the library takes from outside crates: SHA-256, unpadded
//! URL-safe base64 and URL percent-encoding.
use vstd::prelude::*;
use base64::Engine;
use sha2::Digest;
use vstd::utf8::{decode_utf8, encode_utf8, valid_utf8};

verus! {

/// The SHA-256 digest of a byte string.
pub uninterp spec fn sha256_of(data: Seq<u8>) -> Seq<u8>;

/// A digit of the URL-safe base64 alphabet: `A`–`Z`, `a`–`z`, `0`–`9`, `-`,
/// `_`.
pub open spec fn b64_digit(v: int) -> char {
    if v < 26 {
        ('A' as int + v) as char
    } else if v < 52 {
        ('a' as int + v - 26) as char
    } else if v < 62 {
        ('0' as int + v - 52) as char
    } else if v == 62 {
        '-'
    } else {
        '_'
    }
}

/// Unpadded URL-safe base64 (RFC 4648 §5, no `=`) of a byte string: each
/// three bytes give four digits of six bits, most significant first; a last
/// two bytes give three digits and a last byte two, the missing bits zero.
pub open spec fn base64url_of(d: Seq<u8>) -> Seq<char>
    decreases d.len(),
{
    if d.len() >= 3 {
        let n = d[0] * 65536 + d[1] * 256 + d[2];
        seq![b64_digit(n / 262144), b64_digit((n / 4096) % 64), b64_digit((n / 64) % 64), b64_digit(n % 64)]
            + base64url_of(d.skip(3))
    } else if d.len() == 2 {
        let n = d[0] * 256 + d[1];
        seq![b64_digit(n / 1024), b64_digit((n / 16) % 64), b64_digit((n % 16) * 4)]
    } else if d.len() == 1 {
        seq![b64_digit(d[0] as int / 4), b64_digit((d[0] as int % 4) * 16)]
    } else {
        seq![]
    }
}


/// The value of a hexadecimal digit byte (either case).
pub open spec fn hex_value(b: u8) -> Option<u8> {
    if 0x30 <= b <= 0x39 {
        Some((b - 0x30) as u8)
    } else if 0x41 <= b <= 0x46 {
        Some((b - 0x41 + 10) as u8)
    } else if 0x61 <= b <= 0x66 {
        Some((b - 0x61 + 10) as u8)
    } else {
        None
    }
}

/// Percent-decoding of bytes: `%` and two hex digits give the byte they
/// spell; any other byte, a lone `%` among them, stays as it is (`+` too).
pub open spec fn pct_decode(b: Seq<u8>) -> Seq<u8>
    decreases b.len(),
{
    if b.len() == 0 {
        seq![]
    } else if b[0] == 0x25 && b.len() >= 3 && hex_value(b[1]) is Some && hex_value(b[2]) is Some {
        seq![(hex_value(b[1])->0 * 16 + hex_value(b[2])->0) as u8] + pct_decode(b.skip(3))
    } else {
        seq![b[0]] + pct_decode(b.skip(1))
    }
}

/// Percent-decoding of a text: a text without `%` is itself; otherwise the
/// decoded bytes of its UTF-8, `None` when they are not UTF-8.
pub open spec fn url_decoded(s: Seq<char>) -> Option<Seq<char>> {
    if !s.contains('%') {
        Some(s)
    } else if valid_utf8(pct_decode(encode_utf8(s))) {
        Some(decode_utf8(pct_decode(encode_utf8(s))))
    } else {
        None
    }
}

/// `sha2::Sha256::digest`: the 32-byte SHA-256 digest of `data`. The
/// contract names the digest and states its length, nothing more.
#[verifier::external_body]
pub(crate) fn sha256(data: &[u8]) -> (r: Vec<u8>)
    ensures
        r@ == sha256_of(data@),
        r@.len() == 32,
{
    sha2::Sha256::digest(data).to_vec()
}

/// `base64::engine::general_purpose::URL_SAFE_NO_PAD.encode`: unpadded
/// URL-safe base64 of the bytes.
#[verifier::external_body]
pub(crate) fn base64url(data: &[u8]) -> (r: String)
    ensures
        r@ == base64url_of(data@),
{
    base64::engine::general_purpose::URL_SAFE_NO_PAD.encode(data)
}

/// ASCII letters, digits and `-`, `_`, `.`, `~`: left as they are by
/// percent-encoding.
pub open spec fn is_unreserved(c: char) -> bool {
    ('a' <= c && c <= 'z') || ('A' <= c && c <= 'Z') || ('0' <= c && c <= '9') || c == '-' || c
        == '_' || c == '.' || c == '~'
}

/// An upper-case hexadecimal digit.
pub open spec fn hex_upper(d: u8) -> char {
    if d < 10 {
        ('0' as int + d) as char
    } else {
        ('A' as int + d - 10) as char
    }
}

/// What a byte of UTF-8 becomes: itself when it is an unreserved ASCII
/// character, else `%` and its two upper-case hex digits.
pub open spec fn pct_byte(b: u8) -> Seq<char> {
    if is_unreserved(b as char) {
        seq![b as char]
    } else {
        seq!['%', hex_upper(b / 16), hex_upper(b % 16)]
    }
}

pub open spec fn pct_bytes(bs: Seq<u8>) -> Seq<char>
    decreases bs.len(),
{
    if bs.len() == 0 {
        seq![]
    } else {
        pct_bytes(bs.drop_last()) + pct_byte(bs.last())
    }
}

/// Percent-encoding of a text: every byte of its UTF-8 outside the
/// unreserved set as `%XX`.
pub open spec fn url_encoded(s: Seq<char>) -> Seq<char> {
    pct_bytes(encode_utf8(s))
}

/// `urlencoding::encode`: every byte of the text's UTF-8 except ASCII
/// letters, digits and `-`, `_`, `.`, `~` is written `%XX` with upper-case
/// hex digits; a text made only of unreserved characters comes back
/// unchanged.
#[verifier::external_body]
pub(crate) fn url_encode(s: &str) -> (r: String)
    ensures
        r@ == url_encoded(s@),
        (forall|i: int| 0 <= i < s@.len() ==> is_unreserved(#[trigger] s@[i])) ==> r@ == s@,
{
    urlencoding::encode(s).into_owned()
}

/// `urlencoding::decode`: each `%` followed by two hex digits becomes the
/// byte they spell, every other byte stays; a text without `%` comes back
/// unchanged, and `None` stands for the crate's error when the decoded bytes
/// are not UTF-8.
#[verifier::external_body]
pub(crate) fn url_decode(s: &str) -> (r: Option<String>)
    ensures
        match r {
            Some(v) => url_decoded(s@) == Some(v@) && (!s@.contains('%') ==> v@ == s@),
            None => url_decoded(s@) is None && s@.contains('%'),
        },
{
    match urlencoding::decode(s) {
        Ok(v) => Some(v.into_owned()),
        Err(_) => None,
    }
}

} // verus!

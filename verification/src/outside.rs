//! The library's calls into `std` text routines and into outside crates
//! (`uuid`, `sha2`, `base64`, `rand_core`), each behind a trusted wrapper
//! whose contract states what the called function is documented to do.

use base64::Engine;
use rand_core::RngCore;
use sha2::Digest;
use vstd::prelude::*;
use vstd::string::StringSliceAdditionalSpecFns;

verus! {

// ---------------------------------------------------------------------------
// UUID text (uuid crate)
// ---------------------------------------------------------------------------

/// An ASCII hexadecimal digit, in either case.
pub open spec fn is_hex_byte(c: u8) -> bool {
    ||| 0x30 <= c <= 0x39
    ||| 0x41 <= c <= 0x46
    ||| 0x61 <= c <= 0x66
}

/// ASCII lower-casing of one byte.
pub open spec fn ascii_lower(c: u8) -> u8 {
    if 0x41 <= c <= 0x5A {
        (c + 32) as u8
    } else {
        c
    }
}

/// The 36-byte hyphenated form `xxxxxxxx-xxxx-xxxx-xxxx-xxxxxxxxxxxx`.
pub open spec fn uuid_hyphenated(b: Seq<u8>) -> bool {
    &&& b.len() == 36
    &&& forall|i: int|
        0 <= i < 36 ==> if i == 8 || i == 13 || i == 18 || i == 23 {
            #[trigger] b[i] == 0x2D
        } else {
            is_hex_byte(b[i])
        }
}

/// The prefix `urn:uuid:`, as bytes.
pub open spec fn urn_prefix() -> Seq<u8> {
    seq![0x75u8, 0x72u8, 0x6Eu8, 0x3Au8, 0x75u8, 0x75u8, 0x69u8, 0x64u8, 0x3Au8]
}

/// The texts that `uuid::Uuid::parse_str` accepts: 32 hex digits, the
/// hyphenated form, the hyphenated form in braces, or the hyphenated form
/// behind a case-insensitive `urn:uuid:` prefix.
pub open spec fn uuid_text(b: Seq<u8>) -> bool {
    ||| b.len() == 32 && forall|i: int| 0 <= i < 32 ==> is_hex_byte(#[trigger] b[i])
    ||| b.len() == 36 && uuid_hyphenated(b)
    ||| b.len() == 38 && b[0] == 0x7Bu8 && b[37] == 0x7Du8 && uuid_hyphenated(b.subrange(1, 37))
    ||| b.len() == 45 && (forall|i: int|
        0 <= i < 9 ==> ascii_lower(#[trigger] b[i]) == urn_prefix()[i]) && uuid_hyphenated(
        b.subrange(9, 45),
    )
}

/// Calls `uuid::Uuid::parse_str` and reports whether it succeeded; the
/// contract claims that the parser accepts exactly the texts of `uuid_text`
/// (the grammar of `try_parse` in the crate's `parser.rs`).
#[verifier::external_body]
pub(crate) fn parses_as_uuid(text: &str) -> (ok: bool)
    ensures
        ok == uuid_text(text.spec_bytes()),
{
    uuid::Uuid::parse_str(text).is_ok()
}

// ---------------------------------------------------------------------------
// URL-safe base64 without padding (base64 crate)
// ---------------------------------------------------------------------------

/// The character of a 6-bit value in the URL-safe base64 alphabet.
pub open spec fn url_safe_digit(v: int) -> char {
    if v < 26 {
        (65 + v) as char
    } else if v < 52 {
        (97 + v - 26) as char
    } else if v < 62 {
        (48 + v - 52) as char
    } else if v == 62 {
        '-'
    } else {
        '_'
    }
}

/// RFC 4648 base64 with the URL-safe alphabet and no `=` padding.
pub open spec fn base64_url(b: Seq<u8>) -> Seq<char>
    decreases b.len(),
{
    if b.len() == 0 {
        seq![]
    } else if b.len() == 1 {
        seq![url_safe_digit(b[0] as int / 4), url_safe_digit((b[0] as int % 4) * 16)]
    } else if b.len() == 2 {
        seq![
            url_safe_digit(b[0] as int / 4),
            url_safe_digit((b[0] as int % 4) * 16 + b[1] as int / 16),
            url_safe_digit((b[1] as int % 16) * 4),
        ]
    } else {
        seq![
            url_safe_digit(b[0] as int / 4),
            url_safe_digit((b[0] as int % 4) * 16 + b[1] as int / 16),
            url_safe_digit((b[1] as int % 16) * 4 + b[2] as int / 64),
            url_safe_digit(b[2] as int % 64),
        ] + base64_url(b.subrange(3, b.len() as int))
    }
}

/// Calls `URL_SAFE_NO_PAD.encode` of the `base64` crate; the contract claims
/// the RFC 4648 URL-safe encoding without padding that its documentation
/// describes.
#[verifier::external_body]
pub(crate) fn encode_base64_url(data: &[u8]) -> (text: String)
    requires
        data@.len() <= usize::MAX / 2,
    ensures
        text@ == base64_url(data@),
{
    base64::engine::general_purpose::URL_SAFE_NO_PAD.encode(data)
}

// ---------------------------------------------------------------------------
// SHA-256 (sha2 crate)
// ---------------------------------------------------------------------------

/// The SHA-256 digest of a byte string.
pub uninterp spec fn sha256_digest(data: Seq<u8>) -> Seq<u8>;

/// Calls `sha2::Sha256::digest`; the contract names its result and states
/// only that a SHA-256 digest is 32 bytes long.
#[verifier::external_body]
pub(crate) fn sha256(data: &[u8]) -> (digest: Vec<u8>)
    ensures
        digest@ == sha256_digest(data@),
        digest@.len() == 32,
{
    sha2::Sha256::digest(data).to_vec()
}

// ---------------------------------------------------------------------------
// Operating-system randomness (rand_core crate)
// ---------------------------------------------------------------------------

/// Calls `OsRng.try_fill_bytes` of `rand_core` on a 32-byte buffer and hands
/// the bytes back, or `None` where the system source failed. Nothing is
/// stated of the bytes: they are random.
#[verifier::external_body]
pub(crate) fn os_random_32() -> (bytes: Option<[u8; 32]>) {
    let mut bytes = [0u8; 32];
    match rand_core::OsRng.try_fill_bytes(&mut bytes) {
        Ok(()) => Some(bytes),
        Err(_) => None,
    }
}

// ---------------------------------------------------------------------------
// Unicode case mapping (std)
// ---------------------------------------------------------------------------

/// The Unicode lower-case mapping of a text, as `str::to_lowercase` computes it.
pub uninterp spec fn lowercase(s: Seq<char>) -> Seq<char>;

/// The Unicode upper-case mapping of a text, as `str::to_uppercase` computes it.
pub uninterp spec fn uppercase(s: Seq<char>) -> Seq<char>;

/// Calls `str::to_lowercase`; the contract names its result.
#[verifier::external_body]
pub(crate) fn to_lowercase(s: &str) -> (r: String)
    ensures
        r@ == lowercase(s@),
{
    s.to_lowercase()
}

/// Calls `str::to_uppercase`; the contract names its result.
#[verifier::external_body]
pub(crate) fn to_uppercase(s: &str) -> (r: String)
    ensures
        r@ == uppercase(s@),
{
    s.to_uppercase()
}

} // verus!

//! Thin wrappers around the hashing, MAC, encoding, compression, clock and
//! JSON crates. Each wrapper states what the called function promises, in
//! terms of the spec functions below.
use vstd::prelude::*;

use hmac::Mac;
use sha2::Digest;
use std::io::Read;
use std::io::Write;

verus! {

#[verifier::external_type_specification]
#[verifier::external_body]
pub struct ExJsonValue(serde_json::Value);

/// SHA-256 digest of a byte string.
pub uninterp spec fn sha256_of(data: Seq<u8>) -> Seq<u8>;

/// HMAC-SHA256 tag of `msg` under `key`.
pub uninterp spec fn hmac_sha256_of(key: Seq<u8>, msg: Seq<u8>) -> Seq<u8>;

/// Text produced by URL-safe, unpadded base64 encoding of a byte string.
pub uninterp spec fn b64url_of(data: Seq<u8>) -> Seq<char>;

/// Bytes given back by URL-safe, unpadded base64 decoding, if the text is accepted.
pub uninterp spec fn b64url_decoded_of(text: Seq<char>) -> Option<Seq<u8>>;

/// zlib stream produced at the default compression level.
pub uninterp spec fn zlib_of(data: Seq<u8>) -> Seq<u8>;

/// Bytes given back by zlib inflation, if the stream is accepted.
pub uninterp spec fn inflated_of(data: Seq<u8>) -> Option<Seq<u8>>;

/// Bytes that serde_json writes for a JSON value.
pub uninterp spec fn json_bytes_of(value: serde_json::Value) -> Seq<u8>;

/// JSON value that serde_json reads from bytes, if it accepts them.
pub uninterp spec fn json_parsed_of(data: Seq<u8>) -> Option<serde_json::Value>;

/// Whether a count of seconds since the unix epoch is a representable date-time.
pub uninterp spec fn representable_unix_time(secs: int) -> bool;

/// A character of the URL-safe base64 alphabet.
pub open spec fn is_b64url_char(c: char) -> bool {
    ('A' <= c && c <= 'Z') || ('a' <= c && c <= 'z') || ('0' <= c && c <= '9') || c == '-' || c
        == '_'
}

/// Digit value of a base62 character (`0-9`, then `A-Z`, then `a-z`), or -1.
pub open spec fn b62_digit(c: char) -> int {
    if '0' <= c && c <= '9' {
        (c as int) - ('0' as int)
    } else if 'A' <= c && c <= 'Z' {
        (c as int) - ('A' as int) + 10
    } else if 'a' <= c && c <= 'z' {
        (c as int) - ('a' as int) + 36
    } else {
        -1
    }
}

/// Every character is a base62 digit, and there is at least one.
pub open spec fn b62_well_formed(s: Seq<char>) -> bool {
    s.len() > 0 && forall|i: int| 0 <= i < s.len() ==> b62_digit(#[trigger] s[i]) >= 0
}

/// Big-endian positional value of a sequence of base62 digits.
pub open spec fn b62_value(s: Seq<char>) -> int
    decreases s.len(),
{
    if s.len() == 0 {
        0
    } else {
        b62_value(s.drop_last()) * 62 + b62_digit(s.last())
    }
}

/// Position of the last `:` in `s`, if any.
pub open spec fn last_colon(s: Seq<char>) -> Option<int>
    decreases s.len(),
{
    if s.len() == 0 {
        None
    } else if s.last() == ':' {
        Some(s.len() - 1)
    } else {
        last_colon(s.drop_last())
    }
}

/// A point in time: whole seconds since the unix epoch and the nanoseconds
/// within that second.
#[derive(Clone, Copy, Debug, PartialEq, Eq, Structural)]
pub struct UnixTime {
    pub secs: i64,
    pub nanos: u32,
}

impl UnixTime {
    /// Nanoseconds since the unix epoch.
    pub open spec fn total_nanos(self) -> int {
        self.secs * 1_000_000_000 + self.nanos
    }
}

/// Relies on sha2's `Sha256::digest`.
#[verifier::external_body]
pub(crate) fn sha256(data: &[u8]) -> (r: Vec<u8>)
    ensures
        r@ == sha256_of(data@),
{
    sha2::Sha256::digest(data).to_vec()
}

/// Relies on hmac's `Hmac<Sha256>` (`new_from_slice`, which takes keys of any
/// length, `update`, `finalize`).
#[verifier::external_body]
pub(crate) fn hmac_sha256(key: &[u8], msg: &[u8]) -> (r: Vec<u8>)
    ensures
        r@ == hmac_sha256_of(key@, msg@),
        r@.len() == 32,
{
    let mut mac = hmac::Hmac::<sha2::Sha256>::new_from_slice(key).expect("HMAC takes any key");
    mac.update(msg);
    mac.finalize().into_bytes().to_vec()
}

/// Relies on hmac's `verify_slice`: it accepts exactly the tag that
/// `finalize` would give, comparing in constant time.
#[verifier::external_body]
pub(crate) fn hmac_sha256_verify(key: &[u8], msg: &[u8], tag: &[u8]) -> (r: bool)
    ensures
        r == (tag@ == hmac_sha256_of(key@, msg@)),
{
    let mut mac = hmac::Hmac::<sha2::Sha256>::new_from_slice(key).expect("HMAC takes any key");
    mac.update(msg);
    mac.verify_slice(tag).is_ok()
}

/// Relies on base64's `encode_config` with `URL_SAFE_NO_PAD`: the output uses
/// the URL-safe alphabet only and decodes back to the input.
#[verifier::external_body]
pub(crate) fn b64url_encode(data: &[u8]) -> (r: String)
    ensures
        r@ == b64url_of(data@),
        r@.len() == (4 * data@.len() + 2) / 3,
        forall|i: int| 0 <= i < r@.len() ==> is_b64url_char(#[trigger] r@[i]),
        b64url_decoded_of(r@) == Some(data@),
{
    base64::encode_config(data, base64::URL_SAFE_NO_PAD)
}

/// Relies on base64's `decode_config` with `URL_SAFE_NO_PAD`.
#[verifier::external_body]
pub(crate) fn b64url_decode(text: &str) -> (r: Option<Vec<u8>>)
    ensures
        r is Some <==> b64url_decoded_of(text@) is Some,
        r is Some ==> b64url_decoded_of(text@) == Some(r->0@),
{
    base64::decode_config(text, base64::URL_SAFE_NO_PAD).ok()
}

/// Relies on flate2's `ZlibEncoder` at `Compression::default()`; its output
/// inflates back to the input.
#[verifier::external_body]
pub(crate) fn zlib_compress(data: &[u8]) -> (r: Vec<u8>)
    ensures
        r@ == zlib_of(data@),
        inflated_of(r@) == Some(data@),
{
    let mut encoder = flate2::write::ZlibEncoder::new(Vec::new(), flate2::Compression::default());
    encoder.write_all(data).expect("writing to a Vec does not fail");
    encoder.finish().expect("writing to a Vec does not fail")
}

/// Relies on flate2's `ZlibDecoder`, read to the end.
#[verifier::external_body]
pub(crate) fn zlib_decompress(data: &[u8]) -> (r: Option<Vec<u8>>)
    ensures
        r is Some <==> inflated_of(data@) is Some,
        r is Some ==> inflated_of(data@) == Some(r->0@),
{
    let mut out = Vec::new();
    match flate2::read::ZlibDecoder::new(data).read_to_end(&mut out) {
        Ok(_) => Some(out),
        Err(_) => None,
    }
}

/// Base62 digit for a value below 62.
pub open spec fn b62_char(d: int) -> char {
    if d < 10 {
        (d + 48) as u32 as char
    } else if d < 36 {
        (d + 55) as u32 as char
    } else {
        (d + 61) as u32 as char
    }
}

/// Shortest base62 text (standard alphabet, most significant digit first) of `n`.
pub open spec fn b62_text(n: nat) -> Seq<char>
    decreases n,
{
    if n < 62 {
        seq![b62_char(n as int)]
    } else {
        b62_text(n / 62) + seq![b62_char((n % 62) as int)]
    }
}

/// Relies on base62's `encode`: the shortest digit string (standard alphabet)
/// whose big-endian value is `n`.
#[verifier::external_body]
pub(crate) fn b62_encode(n: u64) -> (r: String)
    ensures
        r@ == b62_text(n as nat),
        b62_well_formed(r@),
        b62_value(r@) == n,
{
    base62::encode(n)
}

/// Relies on base62's `decode`: it refuses empty input, characters outside
/// the standard alphabet, and values that do not fit in a `u128`.
#[verifier::external_body]
pub(crate) fn b62_decode(text: &str) -> (r: Option<u128>)
    ensures
        r is Some <==> (b62_well_formed(text@) && b62_value(text@) <= u128::MAX),
        r is Some ==> r->0 == b62_value(text@),
{
    base62::decode(text).ok()
}

/// Relies on str's `strip_prefix`: the text after a leading `.`, if there is one.
#[verifier::external_body]
pub(crate) fn strip_dot(s: &str) -> (r: Option<String>)
    ensures
        r is Some <==> (s@.len() > 0 && s@[0] == '.'),
        r matches Some(t) ==> t@ == s@.skip(1),
{
    s.strip_prefix('.').map(|t| t.to_string())
}

/// Relies on str's `rsplit_once`: the text before and after the last `:`.
#[verifier::external_body]
pub(crate) fn split_last_colon(s: &str) -> (r: Option<(String, String)>)
    ensures
        r is Some <==> last_colon(s@) is Some,
        r matches Some((a, b)) ==> a@ == s@.take(last_colon(s@)->0) && b@ == s@.skip(
            last_colon(s@)->0 + 1,
        ),
{
    s.rsplit_once(':').map(|(a, b)| (a.to_string(), b.to_string()))
}

/// Relies on time's `OffsetDateTime::now_utc`, read as `unix_timestamp` and
/// `nanosecond` (which is below one second). The instant is a valid
/// date-time, so its second is representable.
#[verifier::external_body]
pub(crate) fn now_utc() -> (r: UnixTime)
    ensures
        r.nanos < 1_000_000_000,
        representable_unix_time(r.secs as int),
{
    let now = time::OffsetDateTime::now_utc();
    UnixTime { secs: now.unix_timestamp(), nanos: now.nanosecond() }
}

/// Relies on time's `OffsetDateTime::from_unix_timestamp`, which refuses
/// seconds outside the supported range of dates.
#[verifier::external_body]
pub(crate) fn unix_time_in_range(secs: i64) -> (r: bool)
    ensures
        r == representable_unix_time(secs as int),
{
    time::OffsetDateTime::from_unix_timestamp(secs).is_ok()
}

/// Relies on serde_json's `to_vec`; a `Value` always serialises, and the
/// bytes depend on the value alone.
#[verifier::external_body]
pub(crate) fn json_to_vec(value: &serde_json::Value) -> (r: Vec<u8>)
    ensures
        r@ == json_bytes_of(*value),
{
    serde_json::to_vec(value).expect("a JSON value always serialises")
}

/// Relies on serde_json's `from_slice`; the value read depends on the bytes alone.
#[verifier::external_body]
pub(crate) fn json_from_slice(data: &[u8]) -> (r: Option<serde_json::Value>)
    ensures
        r == json_parsed_of(data@),
{
    serde_json::from_slice(data).ok()
}

} // verus!

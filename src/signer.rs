//! Key derivation, the plain signer and the value codec.
use vstd::prelude::*;
use vstd::string::StringExecFns;
use vstd::utf8::encode_utf8;

use crate::external::{
    b64url_decode, b64url_decoded_of, b64url_encode, b64url_of, hmac_sha256, hmac_sha256_of,
    hmac_sha256_verify, inflated_of, json_bytes_of, json_parsed_of, is_b64url_char, json_from_slice, json_to_vec, last_colon,
    sha256, sha256_of, split_last_colon, strip_dot, zlib_compress, zlib_decompress, zlib_of,
};
use crate::SignatureError;

verus! {

/// The bytes of `"signer"`, which separate this key's purpose from other
/// uses of the same secret and salt.
pub open spec fn signer_tag() -> Seq<u8> {
    seq![115u8, 105u8, 103u8, 110u8, 101u8, 114u8]
}

/// The signing key: SHA-256 over salt, `"signer"` and secret key.
pub open spec fn derived_key(key: Seq<u8>, salt: Seq<u8>) -> Seq<u8> {
    sha256_of(salt + signer_tag() + key)
}

/// The signature segment for `value` under signing key `k`.
pub open spec fn signature_of(k: Seq<u8>, value: Seq<char>) -> Seq<char> {
    b64url_of(hmac_sha256_of(k, encode_utf8(value)))
}

/// `value:signature`.
pub open spec fn signed_text(k: Seq<u8>, value: Seq<char>) -> Seq<char> {
    value + seq![':'] + signature_of(k, value)
}

/// What verifying `signed` under signing key `k` gives: the text before the
/// last `:` when the text after it decodes to that text's MAC.
pub open spec fn unsigned_text(k: Seq<u8>, signed: Seq<char>) -> Result<Seq<char>, SignatureError> {
    match last_colon(signed) {
        None => Err(SignatureError::MissingSeparator),
        Some(i) => match b64url_decoded_of(signed.skip(i + 1)) {
            None => Err(SignatureError::FormatError),
            Some(tag) => if tag == hmac_sha256_of(k, encode_utf8(signed.take(i))) {
                Ok(signed.take(i))
            } else {
                Err(SignatureError::InvalidSignature)
            },
        },
    }
}

/// The view of a textual result.
pub open spec fn text_result(r: Result<String, SignatureError>) -> Result<Seq<char>, SignatureError> {
    match r {
        Ok(s) => Ok(s@),
        Err(e) => Err(e),
    }
}

/// The view of a byte result.
pub open spec fn bytes_result(r: Result<Vec<u8>, SignatureError>) -> Result<Seq<u8>, SignatureError> {
    match r {
        Ok(b) => Ok(b@),
        Err(e) => Err(e),
    }
}

/// The JSON value read from a payload, or `ObjectFormatError`.
pub open spec fn json_read(payload: Seq<u8>) -> Result<serde_json::Value, SignatureError> {
    match json_parsed_of(payload) {
        Some(v) => Ok(v),
        None => Err(SignatureError::ObjectFormatError),
    }
}

/// The JSON value carried by an encoded text, or `ObjectFormatError`.
pub open spec fn object_of(text: Seq<char>) -> Result<serde_json::Value, SignatureError> {
    match decoded_payload(text) {
        Err(e) => Err(e),
        Ok(p) => json_read(p),
    }
}

/// The JSON value carried by a verified text; a verification error is
/// passed on before any decoding.
pub open spec fn object_result(t: Result<Seq<char>, SignatureError>) -> Result<
    serde_json::Value,
    SignatureError,
> {
    match t {
        Err(e) => Err(e),
        Ok(text) => object_of(text),
    }
}

/// Number of `:` characters in `s`.
pub open spec fn colon_count(s: Seq<char>) -> nat
    decreases s.len(),
{
    if s.len() == 0 {
        0
    } else {
        colon_count(s.drop_last()) + if s.last() == ':' {
            1nat
        } else {
            0nat
        }
    }
}

/// Characters of an encoded text: URL-safe base64, but for a leading `.`.
pub open spec fn token_chars(s: Seq<char>) -> bool {
    forall|i: int|
        0 <= i < s.len() ==> (i == 0 && s[i] == '.') || is_b64url_char(#[trigger] s[i])
}

/// Counting `:` distributes over concatenation.
pub proof fn lemma_colon_count_concat(a: Seq<char>, b: Seq<char>)
    ensures
        colon_count(a + b) == colon_count(a) + colon_count(b),
    decreases b.len(),
{
    if b.len() == 0 {
        assert(a + b =~= a);
    } else {
        assert((a + b).drop_last() =~= a + b.drop_last());
        assert((a + b).last() == b.last());
        lemma_colon_count_concat(a, b.drop_last());
    }
}

/// A text without `:` has none to count.
pub proof fn lemma_colon_count_none(s: Seq<char>)
    requires
        forall|j: int| 0 <= j < s.len() ==> s[j] != ':',
    ensures
        colon_count(s) == 0,
    decreases s.len(),
{
    if s.len() > 0 {
        assert(s.last() == s[s.len() - 1]);
        assert forall|j: int| 0 <= j < s.drop_last().len() implies s.drop_last()[j] != ':' by {
            assert(s.drop_last()[j] == s[j]);
        }
        lemma_colon_count_none(s.drop_last());
    }
}

/// `value`, `:`, then a text without `:` holds one `:` more than `value`.
pub proof fn lemma_colon_count_join(a: Seq<char>, b: Seq<char>)
    requires
        forall|j: int| 0 <= j < b.len() ==> b[j] != ':',
    ensures
        colon_count(a + seq![':'] + b) == colon_count(a) + 1,
{
    let c = seq![':'];
    assert(c.drop_last() =~= Seq::<char>::empty());
    assert(c.last() == ':');
    assert(colon_count(Seq::<char>::empty()) == 0);
    assert(colon_count(c) == 1);
    lemma_colon_count_concat(a + c, b);
    lemma_colon_count_concat(a, c);
    lemma_colon_count_none(b);
}

/// Everything after the last `:` is free of `:`.
pub proof fn lemma_after_last_colon(s: Seq<char>, j: int)
    requires
        0 <= j < s.len(),
        last_colon(s) is Some,
        last_colon(s)->0 < j,
    ensures
        s[j] != ':',
    decreases s.len(),
{
    assert(s.last() == s[s.len() - 1]);
    if s.last() != ':' {
        if j < s.len() - 1 {
            assert(s.drop_last()[j] == s[j]);
            lemma_after_last_colon(s.drop_last(), j);
        }
    }
}

/// The last `:` lies inside the text and is a `:`.
pub proof fn lemma_last_colon_range(s: Seq<char>)
    ensures
        last_colon(s) is Some ==> 0 <= last_colon(s)->0 < s.len() && s[last_colon(s)->0] == ':',
    decreases s.len(),
{
    if s.len() > 0 {
        assert(s.last() == s[s.len() - 1]);
        lemma_last_colon_range(s.drop_last());
        if s.last() != ':' && last_colon(s) is Some {
            assert(s.drop_last()[last_colon(s)->0] == s[last_colon(s)->0]);
        }
    }
}

/// A token that verifies as `value`, with its value segment replaced by any
/// other text whose MAC differs from that of `value` (no HMAC-SHA256
/// collision), is refused with `InvalidSignature`.
pub proof fn lemma_altered_value_refused(k: Seq<u8>, value: Seq<char>, sig: Seq<char>, altered: Seq<
    char,
>)
    requires
        unsigned_text(k, value + seq![':'] + sig) == Ok::<Seq<char>, SignatureError>(value),
        hmac_sha256_of(k, encode_utf8(altered)) != hmac_sha256_of(k, encode_utf8(value)),
    ensures
        unsigned_text(k, altered + seq![':'] + sig) == Err::<Seq<char>, SignatureError>(
            SignatureError::InvalidSignature,
        ),
{
    let s = value + seq![':'] + sig;
    lemma_last_colon_range(s);
    let i = last_colon(s)->0;
    assert(s.take(i) == value);
    assert(i == value.len());
    assert forall|j: int| 0 <= j < sig.len() implies sig[j] != ':' by {
        assert(s[value.len() + 1 + j] == sig[j]);
        lemma_after_last_colon(s, value.len() + 1 + j);
    }
    assert(s.skip(i + 1) =~= sig);
    let t = altered + seq![':'] + sig;
    lemma_last_colon_of_join(altered, sig);
    assert(t.take(altered.len() as int) =~= altered);
    assert(t.skip(altered.len() as int + 1) =~= sig);
}

/// Compression is used only when it saves at least two bytes.
pub open spec fn compression_pays(payload: Seq<u8>) -> bool {
    zlib_of(payload).len() + 1 < payload.len()
}

/// Text form of a payload: base64url of the payload, or `.` and base64url of
/// its zlib stream when compression is asked for and pays.
pub open spec fn encoded_text(payload: Seq<u8>, compress: bool) -> Seq<char> {
    if compress && compression_pays(payload) {
        seq!['.'] + b64url_of(zlib_of(payload))
    } else {
        b64url_of(payload)
    }
}

/// Payload read back from its text form.
pub open spec fn decoded_payload(text: Seq<char>) -> Result<Seq<u8>, SignatureError> {
    if text.len() > 0 && text[0] == '.' {
        match b64url_decoded_of(text.skip(1)) {
            None => Err(SignatureError::ObjectFormatError),
            Some(z) => match inflated_of(z) {
                None => Err(SignatureError::ObjectFormatError),
                Some(p) => Ok(p),
            },
        }
    } else {
        match b64url_decoded_of(text) {
            None => Err(SignatureError::ObjectFormatError),
            Some(p) => Ok(p),
        }
    }
}

/// The last `:` of `a`, `:`, `b` is the middle one when `b` has none.
pub proof fn lemma_last_colon_of_join(a: Seq<char>, b: Seq<char>)
    requires
        forall|j: int| 0 <= j < b.len() ==> b[j] != ':',
    ensures
        last_colon(a + seq![':'] + b) == Some(a.len() as int),
    decreases b.len(),
{
    let s = a + seq![':'] + b;
    if b.len() == 0 {
        assert(s.last() == ':');
    } else {
        assert(s.last() == b.last());
        assert(s.drop_last() =~= a + seq![':'] + b.drop_last());
        lemma_last_colon_of_join(a, b.drop_last());
    }
}

/// `s` followed by `:` and `t`.
pub(crate) fn join_colon(s: String, t: &str) -> (r: String)
    ensures
        r@ == s@ + seq![':'] + t@,
{
    proof {
        reveal_strlit(":");
    }
    let mut r = s;
    r.append(":");
    r.append(t);
    r
}

/// Turns a payload into text, compressing it when asked and when that saves
/// at least two bytes; a compressed form is marked by a leading `.`, and
/// the text always reads back to the payload.
pub fn encode_payload(payload: &[u8], compress: bool) -> (r: String)
    ensures
        r@ == encoded_text(payload@, compress),
        decoded_payload(r@) == Ok::<Seq<u8>, SignatureError>(payload@),
        token_chars(r@),
        forall|j: int| 0 <= j < r@.len() ==> r@[j] != ':',
        (r@.len() > 0 && r@[0] == '.') <==> (compress && compression_pays(payload@)),
{
    if compress {
        let z = zlib_compress(payload);
        if payload.len() >= 1 && z.len() < payload.len() - 1 {
            let body = b64url_encode(z.as_slice());
            proof {
                reveal_strlit(".");
            }
            let mut r = String::from_str(".");
            r.append(body.as_str());
            assert(r@[0] == '.');
            assert(r@.skip(1) =~= body@);
            assert forall|j: int| 0 <= j < r@.len() implies (j == 0 && r@[j] == '.')
                || is_b64url_char(#[trigger] r@[j]) by {
                if j > 0 {
                    assert(r@[j] == body@[j - 1]);
                }
            }
            assert forall|j: int| 0 <= j < r@.len() implies r@[j] != ':' by {
                if j > 0 {
                    assert(r@[j] == body@[j - 1]);
                    assert(is_b64url_char(body@[j - 1]));
                }
            }
            return r;
        }
    }
    let r = b64url_encode(payload);
    assert(r@.len() > 0 ==> is_b64url_char(r@[0]));
    assert(!(r@.len() > 0 && r@[0] == '.'));
    assert forall|j: int| 0 <= j < r@.len() implies r@[j] != ':' by {
        assert(is_b64url_char(r@[j]));
    }
    r
}

/// Reads a payload back from its text form.
pub fn decode_payload(text: &str) -> (r: Result<Vec<u8>, SignatureError>)
    ensures
        bytes_result(r) == decoded_payload(text@),
{
    match strip_dot(text) {
        Some(rest) => match b64url_decode(rest.as_str()) {
            None => Err(SignatureError::ObjectFormatError),
            Some(z) => match zlib_decompress(z.as_slice()) {
                None => Err(SignatureError::ObjectFormatError),
                Some(p) => Ok(p),
            },
        },
        None => match b64url_decode(text) {
            None => Err(SignatureError::ObjectFormatError),
            Some(p) => Ok(p),
        },
    }
}

/// Signs and verifies text with HMAC-SHA256 under a key derived from a
/// secret and a salt.
pub struct BaseSigner {
    key: Vec<u8>,
}

impl View for BaseSigner {
    type V = Seq<u8>;

    /// The derived signing key.
    closed spec fn view(&self) -> Seq<u8> {
        self.key@
    }
}

impl BaseSigner {
    /// Derives the signing key from `key` and `salt`.
    pub fn new(key: &[u8], salt: &[u8]) -> (s: Self)
        ensures
            s@ == derived_key(key@, salt@),
    {
        let mut material: Vec<u8> = Vec::new();
        for i in 0..salt.len()
            invariant
                material@ == salt@.take(i as int),
        {
            material.push(salt[i]);
            assert(material@ == salt@.take(i + 1));
        }
        assert(salt@.take(salt@.len() as int) == salt@);
        let tag: [u8; 6] = [115u8, 105u8, 103u8, 110u8, 101u8, 114u8];
        for i in 0..6
            invariant
                material@ == salt@ + signer_tag().take(i as int),
                tag@ == signer_tag(),
        {
            material.push(tag[i]);
            assert(material@ == salt@ + signer_tag().take(i + 1));
        }
        assert(signer_tag().take(6) == signer_tag());
        for i in 0..key.len()
            invariant
                material@ == salt@ + signer_tag() + key@.take(i as int),
        {
            material.push(key[i]);
            assert(material@ == salt@ + signer_tag() + key@.take(i + 1));
        }
        assert(key@.take(key@.len() as int) == key@);
        BaseSigner { key: sha256(material.as_slice()) }
    }

    /// Appends `:` and the signature of `value`. Verifying the result gives
    /// `value` back, whatever `:` characters it holds.
    pub fn sign(&self, value: String) -> (r: String)
        ensures
            r@ == signed_text(self@, value@),
            unsigned_text(self@, r@) == Ok::<Seq<char>, SignatureError>(value@),
            signature_of(self@, value@).len() == 43,
            forall|j: int|
                0 <= j < signature_of(self@, value@).len() ==> is_b64url_char(
                    #[trigger] signature_of(self@, value@)[j],
                ),
            r@.len() == value@.len() + 44,
            colon_count(r@) == colon_count(value@) + 1,
    {
        let tag = hmac_sha256(self.key.as_slice(), value.as_str().as_bytes());
        let sig = b64url_encode(tag.as_slice());
        let ghost v = value@;
        let r = join_colon(value, sig.as_str());
        proof {
            assert forall|j: int| 0 <= j < sig@.len() implies sig@[j] != ':' by {
                assert(is_b64url_char(sig@[j]));
            }
            lemma_last_colon_of_join(v, sig@);
            lemma_colon_count_join(v, sig@);
            assert(r@.take(v.len() as int) =~= v);
            assert(r@.skip(v.len() as int + 1) =~= sig@);
        }
        r
    }

    /// Checks the signature after the last `:` and gives back the text before it.
    pub fn unsign(&self, signed_value: String) -> (r: Result<String, SignatureError>)
        ensures
            text_result(r) == unsigned_text(self@, signed_value@),
    {
        match split_last_colon(signed_value.as_str()) {
            None => Err(SignatureError::MissingSeparator),
            Some((value, sig)) => match b64url_decode(sig.as_str()) {
                None => Err(SignatureError::FormatError),
                Some(tag) => {
                    if hmac_sha256_verify(
                        self.key.as_slice(),
                        value.as_str().as_bytes(),
                        tag.as_slice(),
                    ) {
                        Ok(value)
                    } else {
                        Err(SignatureError::InvalidSignature)
                    }
                },
            },
        }
    }

    /// Serialises `obj` to JSON and turns the bytes into text; see `encode_payload`.
    pub fn encode_object(&self, obj: &serde_json::Value, compress: bool) -> (r: String)
        ensures
            r@ == encoded_text(json_bytes_of(*obj), compress),
            decoded_payload(r@) == Ok::<Seq<u8>, SignatureError>(json_bytes_of(*obj)),
            token_chars(r@),
            forall|j: int| 0 <= j < r@.len() ==> r@[j] != ':',
            (r@.len() > 0 && r@[0] == '.') ==> compress,
    {
        let bytes = json_to_vec(obj);
        encode_payload(bytes.as_slice(), compress)
    }

    /// Reads a JSON value back from its text form.
    pub fn decode_object(&self, value: String) -> (r: Result<serde_json::Value, SignatureError>)
        ensures
            r == object_of(value@),
    {
        match decode_payload(value.as_str()) {
            Err(e) => Err(e),
            Ok(bytes) => match json_from_slice(bytes.as_slice()) {
                Some(obj) => Ok(obj),
                None => Err(SignatureError::ObjectFormatError),
            },
        }
    }

    /// Encodes `obj` and signs the text. Verifying the token gives back that
    /// text, and reading it gives whatever serde_json reads from the bytes it
    /// wrote for `obj`.
    pub fn sign_object(&self, obj: &serde_json::Value, compress: bool) -> (r: String)
        ensures
            r@ == signed_text(self@, encoded_text(json_bytes_of(*obj), compress)),
            unsigned_text(self@, r@) == Ok::<Seq<char>, SignatureError>(
                encoded_text(json_bytes_of(*obj), compress),
            ),
            object_result(unsigned_text(self@, r@)) == json_read(json_bytes_of(*obj)),
            colon_count(r@) == 1,
    {
        let value = self.encode_object(obj, compress);
        proof {
            lemma_colon_count_none(value@);
        }
        self.sign(value)
    }

    /// Verifies `signed_object` and decodes the JSON value it carries.
    pub fn unsign_object(&self, signed_object: String) -> (r: Result<
        serde_json::Value,
        SignatureError,
    >)
        ensures
            r == object_result(unsigned_text(self@, signed_object@)),
    {
        match self.unsign(signed_object) {
            Ok(value) => self.decode_object(value),
            Err(e) => Err(e),
        }
    }
}

} // verus!

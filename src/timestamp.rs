//! The timestamped signer, which appends the signing time before signing and
//! can refuse tokens older than a maximum age.
use vstd::prelude::*;

use crate::external::{
    b62_decode, b62_encode, b62_text, b62_value, b62_well_formed, json_bytes_of, last_colon, now_utc,
    representable_unix_time, split_last_colon, unix_time_in_range, UnixTime,
};
use crate::signer::{
    colon_count, derived_key, encoded_text, join_colon, json_read, lemma_colon_count_join,
    lemma_colon_count_none, lemma_last_colon_of_join, object_result, signed_text, text_result,
    unsigned_text, BaseSigner,
};
use crate::SignatureError;

verus! {

/// A span of time, as whole seconds and further nanoseconds.
#[derive(Clone, Copy, Debug, PartialEq, Eq, Structural)]
pub struct Duration {
    pub seconds: i64,
    pub nanoseconds: i32,
}

impl Duration {
    /// The span in nanoseconds.
    pub open spec fn total_nanos(self) -> int {
        self.seconds * 1_000_000_000 + self.nanoseconds
    }

    /// A span of whole seconds.
    pub fn seconds(seconds: i64) -> (d: Duration)
        ensures
            d.total_nanos() == seconds * 1_000_000_000,
    {
        Duration { seconds, nanoseconds: 0 }
    }

    /// A span of `seconds` and `nanoseconds`.
    pub fn new(seconds: i64, nanoseconds: i32) -> (d: Duration)
        ensures
            d.seconds == seconds,
            d.nanoseconds == nanoseconds,
    {
        Duration { seconds, nanoseconds }
    }
}

/// `value:timestamp`, the timestamp being the base62 text of `secs`.
pub open spec fn timestamped(value: Seq<char>, secs: nat) -> Seq<char> {
    value + seq![':'] + b62_text(secs)
}

/// A timestamp segment that reads as a representable unix time.
pub open spec fn timestamp_accepted(ts: Seq<char>) -> bool {
    b62_well_formed(ts) && b62_value(ts) <= i64::MAX && representable_unix_time(b62_value(ts))
}

/// Verification without an age limit: the text before the timestamp.
pub open spec fn timestamp_stripped(k: Seq<u8>, signed: Seq<char>) -> Result<
    Seq<char>,
    SignatureError,
> {
    match unsigned_text(k, signed) {
        Err(e) => Err(e),
        Ok(tv) => match last_colon(tv) {
            None => Err(SignatureError::MissingTimestamp),
            Some(i) => Ok(tv.take(i)),
        },
    }
}

/// Verification at instant `now` (nanoseconds since the epoch) with an age
/// limit of `max_age` nanoseconds.
pub open spec fn age_checked(k: Seq<u8>, signed: Seq<char>, max_age: int, now: int) -> Result<
    Seq<char>,
    SignatureError,
> {
    match unsigned_text(k, signed) {
        Err(e) => Err(e),
        Ok(tv) => match last_colon(tv) {
            None => Err(SignatureError::MissingTimestamp),
            Some(i) => {
                let ts = tv.skip(i + 1);
                if !timestamp_accepted(ts) {
                    Err(SignatureError::TimestampFormatError)
                } else if now - b62_value(ts) * 1_000_000_000 <= max_age {
                    Ok(tv.take(i))
                } else {
                    Err(SignatureError::SignatureExpired)
                }
            },
        },
    }
}

/// The age verdict on `token`, signed at second `secs` over `value`: it is
/// accepted while at most the maximum age has passed, and expired after.
pub open spec fn expires_after(k: Seq<u8>, token: Seq<char>, value: Seq<char>, secs: int) -> bool {
    forall|max_age: int, at: int|
        #[trigger] age_checked(k, token, max_age, at) == if at - secs * 1_000_000_000 <= max_age {
            Ok::<Seq<char>, SignatureError>(value)
        } else {
            Err(SignatureError::SignatureExpired)
        }
}

/// A signer that binds the signing time into each token.
pub struct TimestampSigner {
    inner: BaseSigner,
}

impl View for TimestampSigner {
    type V = Seq<u8>;

    /// The derived signing key.
    closed spec fn view(&self) -> Seq<u8> {
        self.inner@
    }
}

impl TimestampSigner {
    /// Derives the signing key from `key` and `salt`.
    pub fn new(key: &[u8], salt: &[u8]) -> (s: Self)
        ensures
            s@ == derived_key(key@, salt@),
    {
        TimestampSigner { inner: BaseSigner::new(key, salt) }
    }

    /// Signs `value` as of `now_secs` seconds after the epoch. The token is
    /// accepted with a maximum age exactly while no more than that age has
    /// passed since `now_secs`.
    pub fn sign_at(&self, value: String, now_secs: u64) -> (r: String)
        ensures
            r@ == signed_text(self@, timestamped(value@, now_secs as nat)),
            unsigned_text(self@, r@) == Ok::<Seq<char>, SignatureError>(
                timestamped(value@, now_secs as nat),
            ),
            timestamp_stripped(self@, r@) == Ok::<Seq<char>, SignatureError>(value@),
            colon_count(r@) == colon_count(value@) + 2,
            now_secs <= i64::MAX && representable_unix_time(now_secs as int) ==> expires_after(
                self@,
                r@,
                value@,
                now_secs as int,
            ),
    {
        let ts = b62_encode(now_secs);
        let ghost v = value@;
        let tv = join_colon(value, ts.as_str());
        proof {
            assert forall|j: int| 0 <= j < ts@.len() implies ts@[j] != ':' by {
                assert(b62_well_formed(ts@));
            }
            lemma_last_colon_of_join(v, ts@);
            lemma_colon_count_join(v, ts@);
            assert(tv@.take(v.len() as int) =~= v);
            assert(tv@.skip(v.len() as int + 1) =~= ts@);
        }
        self.inner.sign(tv)
    }

    /// Signs `value` as of the current second.
    pub fn sign(&self, value: String) -> (r: String)
        ensures
            exists|t: u64|
                {
                    &&& r@ == signed_text(self@, #[trigger] timestamped(value@, t as nat))
                    &&& unsigned_text(self@, r@) == Ok::<Seq<char>, SignatureError>(
                        timestamped(value@, t as nat),
                    )
                    &&& (t <= i64::MAX ==> expires_after(self@, r@, value@, t as int))
                },
            timestamp_stripped(self@, r@) == Ok::<Seq<char>, SignatureError>(value@),
            colon_count(r@) == colon_count(value@) + 2,
    {
        let now = now_utc();
        let secs: i64 = now.secs;
        let t = secs as u64;
        assert(secs < 0 ==> (secs as u64) > 0x7fff_ffff_ffff_ffffu64) by (bit_vector);
        let ghost v = value@;
        let r = self.sign_at(value, t);
        assert(t <= i64::MAX ==> t as int == secs as int);
        assert({
            &&& r@ == signed_text(self@, timestamped(v, t as nat))
            &&& unsigned_text(self@, r@) == Ok::<Seq<char>, SignatureError>(
                timestamped(v, t as nat),
            )
            &&& (t <= i64::MAX ==> expires_after(self@, r@, v, t as int))
        });
        r
    }

    /// Verifies the signature and drops the timestamp, whatever its age.
    pub fn unsign(&self, signed_value: String) -> (r: Result<String, SignatureError>)
        ensures
            text_result(r) == timestamp_stripped(self@, signed_value@),
    {
        match self.inner.unsign(signed_value) {
            Err(e) => Err(e),
            Ok(tv) => match split_last_colon(tv.as_str()) {
                Some((value, _)) => Ok(value),
                None => Err(SignatureError::MissingTimestamp),
            },
        }
    }

    /// Verifies the signature and the timestamp as of instant `now`, and
    /// refuses a token older than `max_age`.
    pub fn unsign_with_age_at(&self, signed_value: String, max_age: Duration, now: UnixTime) -> (r:
        Result<String, SignatureError>)
        ensures
            text_result(r) == age_checked(
                self@,
                signed_value@,
                max_age.total_nanos(),
                now.total_nanos(),
            ),
    {
        match self.inner.unsign(signed_value) {
            Err(e) => Err(e),
            Ok(tv) => match split_last_colon(tv.as_str()) {
                None => Err(SignatureError::MissingTimestamp),
                Some((value, ts)) => match b62_decode(ts.as_str()) {
                    None => Err(SignatureError::TimestampFormatError),
                    Some(n) => {
                        if n > i64::MAX as u128 {
                            Err(SignatureError::TimestampFormatError)
                        } else if !unix_time_in_range(n as i64) {
                            Err(SignatureError::TimestampFormatError)
                        } else {
                            let secs: i128 = now.secs as i128 - n as i128;
                            assert(-0x1_0000_0000_0000_0000 <= secs <= 0x1_0000_0000_0000_0000);
                            assert(-0x1_0000_0000_0000_0000 * 1_000_000_000 <= secs * 1_000_000_000
                                <= 0x1_0000_0000_0000_0000 * 1_000_000_000) by (nonlinear_arith)
                                requires
                                    -0x1_0000_0000_0000_0000 <= secs <= 0x1_0000_0000_0000_0000,
                            ;
                            let distance: i128 = secs * 1_000_000_000 + now.nanos as i128;
                            let s: i128 = max_age.seconds as i128;
                            assert(-0x1_0000_0000_0000_0000 * 1_000_000_000 <= s * 1_000_000_000
                                <= 0x1_0000_0000_0000_0000 * 1_000_000_000) by (nonlinear_arith)
                                requires
                                    -0x1_0000_0000_0000_0000 <= s <= 0x1_0000_0000_0000_0000,
                            ;
                            let limit: i128 = s * 1_000_000_000 + max_age.nanoseconds as i128;
                            assert(distance == now.total_nanos() - n * 1_000_000_000)
                                by (nonlinear_arith)
                                requires
                                    distance == secs * 1_000_000_000 + now.nanos,
                                    secs == now.secs - n,
                            ;
                            if distance <= limit {
                                Ok(value)
                            } else {
                                Err(SignatureError::SignatureExpired)
                            }
                        }
                    },
                },
            },
        }
    }

    /// Verifies the signature and the timestamp as of the current time, and
    /// refuses a token older than `max_age`.
    pub fn unsign_with_age(&self, signed_value: String, max_age: Duration) -> (r: Result<
        String,
        SignatureError,
    >)
        ensures
            exists|now: UnixTime|
                text_result(r) == age_checked(
                    self@,
                    signed_value@,
                    max_age.total_nanos(),
                    #[trigger] now.total_nanos(),
                ),
    {
        let now = now_utc();
        self.unsign_with_age_at(signed_value, max_age, now)
    }

    /// Encodes `obj` and signs the text as of `now_secs`; verifying the token
    /// gives back that text, and reading it gives whatever serde_json reads
    /// from the bytes it wrote for `obj`.
    pub fn sign_object_at(&self, obj: &serde_json::Value, compress: bool, now_secs: u64) -> (r:
        String)
        ensures
            r@ == signed_text(
                self@,
                timestamped(encoded_text(json_bytes_of(*obj), compress), now_secs as nat),
            ),
            timestamp_stripped(self@, r@) == Ok::<Seq<char>, SignatureError>(
                encoded_text(json_bytes_of(*obj), compress),
            ),
            object_result(timestamp_stripped(self@, r@)) == json_read(json_bytes_of(*obj)),
            colon_count(r@) == 2,
            now_secs <= i64::MAX && representable_unix_time(now_secs as int) ==> expires_after(
                self@,
                r@,
                encoded_text(json_bytes_of(*obj), compress),
                now_secs as int,
            ),
    {
        let value = self.inner.encode_object(obj, compress);
        proof {
            lemma_colon_count_none(value@);
        }
        self.sign_at(value, now_secs)
    }

    /// Encodes `obj` and signs the text as of the current second.
    pub fn sign_object(&self, obj: &serde_json::Value, compress: bool) -> (r: String)
        ensures
            exists|t: u64|
                {
                    &&& r@ == signed_text(
                        self@,
                        #[trigger] timestamped(encoded_text(json_bytes_of(*obj), compress), t as nat),
                    )
                    &&& (t <= i64::MAX ==> expires_after(
                        self@,
                        r@,
                        encoded_text(json_bytes_of(*obj), compress),
                        t as int,
                    ))
                },
            timestamp_stripped(self@, r@) == Ok::<Seq<char>, SignatureError>(
                encoded_text(json_bytes_of(*obj), compress),
            ),
            object_result(timestamp_stripped(self@, r@)) == json_read(json_bytes_of(*obj)),
            colon_count(r@) == 2,
    {
        let now = now_utc();
        let secs: i64 = now.secs;
        let t = secs as u64;
        assert(secs < 0 ==> (secs as u64) > 0x7fff_ffff_ffff_ffffu64) by (bit_vector);
        let r = self.sign_object_at(obj, compress, t);
        assert(t <= i64::MAX ==> t as int == secs as int);
        assert(r@ == signed_text(
            self@,
            timestamped(encoded_text(json_bytes_of(*obj), compress), t as nat),
        ));
        r
    }

    /// Verifies `signed_object`, whatever its age, and decodes the JSON value.
    pub fn unsign_object(&self, signed_object: String) -> (r: Result<
        serde_json::Value,
        SignatureError,
    >)
        ensures
            r == object_result(timestamp_stripped(self@, signed_object@)),
    {
        match self.unsign(signed_object) {
            Ok(value) => self.inner.decode_object(value),
            Err(e) => Err(e),
        }
    }

    /// Verifies `signed_value` and its age as of instant `now`, and decodes
    /// the JSON value.
    pub fn unsign_object_with_age_at(
        &self,
        signed_value: String,
        max_age: Duration,
        now: UnixTime,
    ) -> (r: Result<serde_json::Value, SignatureError>)
        ensures
            r == object_result(
                age_checked(self@, signed_value@, max_age.total_nanos(), now.total_nanos()),
            ),
    {
        match self.unsign_with_age_at(signed_value, max_age, now) {
            Ok(value) => self.inner.decode_object(value),
            Err(e) => Err(e),
        }
    }

    /// Verifies `signed_value` and its age as of the current time, and
    /// decodes the JSON value.
    pub fn unsign_object_with_age(&self, signed_value: String, max_age: Duration) -> (r: Result<
        serde_json::Value,
        SignatureError,
    >)
        ensures
            exists|now: UnixTime|
                r == object_result(
                    age_checked(
                        self@,
                        signed_value@,
                        max_age.total_nanos(),
                        #[trigger] now.total_nanos(),
                    ),
                ),
    {
        let now = now_utc();
        self.unsign_object_with_age_at(signed_value, max_age, now)
    }
}

/// Signs `obj` as of the current second with a signer made from `key` and `salt`.
pub fn dumps(obj: &serde_json::Value, key: &[u8], salt: &[u8], compress: bool) -> (r: String)
    ensures
        exists|t: u64|
            {
                &&& r@ == signed_text(
                    derived_key(key@, salt@),
                    #[trigger] timestamped(encoded_text(json_bytes_of(*obj), compress), t as nat),
                )
                &&& (t <= i64::MAX ==> expires_after(
                    derived_key(key@, salt@),
                    r@,
                    encoded_text(json_bytes_of(*obj), compress),
                    t as int,
                ))
            },
        object_result(timestamp_stripped(derived_key(key@, salt@), r@)) == json_read(
            json_bytes_of(*obj),
        ),
        colon_count(r@) == 2,
{
    let signer = TimestampSigner::new(key, salt);
    signer.sign_object(obj, compress)
}

/// Verifies `signed_value` with a signer made from `key` and `salt`, refusing
/// it when older than `max_age`, and decodes the JSON value.
pub fn loads(signed_value: String, key: &[u8], salt: &[u8], max_age: Duration) -> (r: Result<
    serde_json::Value,
    SignatureError,
>)
    ensures
        exists|now: UnixTime|
            r == object_result(
                age_checked(
                    derived_key(key@, salt@),
                    signed_value@,
                    max_age.total_nanos(),
                    #[trigger] now.total_nanos(),
                ),
            ),
{
    let signer = TimestampSigner::new(key, salt);
    signer.unsign_object_with_age(signed_value, max_age)
}

} // verus!

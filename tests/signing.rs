use django_signing::{
    decode_payload, dumps, encode_payload, loads, BaseSigner, Duration, SignatureError,
    TimestampSigner, UnixTime,
};

const KEY: &[u8] = b"secret";
const SALT: &[u8] = b"salt";

fn json(text: &str) -> serde_json::Value {
    serde_json::from_str(text).unwrap()
}

fn replace_last_char(token: &str) -> String {
    let mut chars: Vec<char> = token.chars().collect();
    let last = chars.len() - 1;
    // Both replacements keep the unused low bits of the final symbol zero.
    chars[last] = if chars[last] == 'A' { 'E' } else { 'A' };
    chars.into_iter().collect()
}

#[test]
fn sign_then_unsign_hello() {
    let signer = BaseSigner::new(KEY, SALT);
    let token = signer.sign("hello".to_string());
    assert_eq!(signer.unsign(token), Ok("hello".to_string()));
}

#[test]
fn corrupted_final_signature_character_is_invalid() {
    let signer = BaseSigner::new(KEY, SALT);
    let token = signer.sign("hello".to_string());
    let bad = replace_last_char(&token);
    assert_ne!(bad, token);
    assert_eq!(signer.unsign(bad), Err(SignatureError::InvalidSignature));
}

#[test]
fn dumps_then_loads_within_max_age() {
    let obj = json("{\"a\":1}");
    let token = dumps(&obj, KEY, SALT, false);
    assert_eq!(loads(token, KEY, SALT, Duration::seconds(60)), Ok(obj));
}

#[test]
fn loads_with_zero_max_age_on_earlier_token_expires() {
    let signer = TimestampSigner::new(KEY, SALT);
    let text = encode_payload(b"{\"a\":1}", false);
    let token = signer.sign_at(text, 1_000_000_000);
    assert_eq!(
        loads(token, KEY, SALT, Duration::seconds(0)),
        Err(SignatureError::SignatureExpired)
    );
}

#[test]
fn value_with_colons_round_trips() {
    let signer = BaseSigner::new(KEY, SALT);
    let token = signer.sign("a:b:c".to_string());
    assert!(token.starts_with("a:b:c:"));
    assert_eq!(signer.unsign(token), Ok("a:b:c".to_string()));
    let timed = TimestampSigner::new(KEY, SALT);
    let token = timed.sign("a:b:c".to_string());
    assert_eq!(timed.unsign(token.clone()), Ok("a:b:c".to_string()));
    assert_eq!(
        timed.unsign_with_age(token, Duration::seconds(60)),
        Ok("a:b:c".to_string())
    );
}

#[test]
fn value_round_trip_for_several_strings() {
    for (key, salt) in [(&b"k"[..], &b""[..]), (&b""[..], &b"s"[..]), (KEY, SALT)] {
        let signer = BaseSigner::new(key, salt);
        for v in ["", ":", "::", "héllo wörld", "x:", ":y", "plain"] {
            let token = signer.sign(v.to_string());
            assert_eq!(signer.unsign(token), Ok(v.to_string()));
        }
    }
}

#[test]
fn signature_segment_is_unpadded_base64url_of_a_256_bit_mac() {
    let signer = BaseSigner::new(KEY, SALT);
    let token = signer.sign("hello".to_string());
    let sig = &token["hello:".len()..];
    assert_eq!(sig.len(), 43);
    assert!(sig
        .chars()
        .all(|c| c.is_ascii_alphanumeric() || c == '-' || c == '_'));
}

#[test]
fn key_and_salt_both_change_the_signature() {
    let a = BaseSigner::new(KEY, SALT).sign("hello".to_string());
    let b = BaseSigner::new(KEY, b"other").sign("hello".to_string());
    let c = BaseSigner::new(b"other", SALT).sign("hello".to_string());
    assert_ne!(a, b);
    assert_ne!(a, c);
    assert_ne!(b, c);
    assert_eq!(a, BaseSigner::new(KEY, SALT).sign("hello".to_string()));
    assert_eq!(
        BaseSigner::new(KEY, b"other").unsign(a),
        Err(SignatureError::InvalidSignature)
    );
}

#[test]
fn flipping_any_byte_is_detected() {
    let signer = BaseSigner::new(KEY, SALT);
    let token = signer.sign("payload".to_string());
    let bytes = token.as_bytes().to_vec();
    for i in 0..bytes.len() {
        if bytes[i] == b':' {
            continue;
        }
        let mut changed = bytes.clone();
        changed[i] = if bytes[i] == b'x' { b'y' } else { b'x' };
        let changed = String::from_utf8(changed).unwrap();
        let r = signer.unsign(changed);
        assert!(
            r == Err(SignatureError::InvalidSignature) || r == Err(SignatureError::FormatError),
            "byte {} accepted",
            i
        );
    }
}

#[test]
fn expiry_boundary_is_inclusive() {
    let signer = TimestampSigner::new(KEY, SALT);
    let t0: u64 = 1_700_000_000;
    let token = signer.sign_at("v".to_string(), t0);
    let at = UnixTime { secs: (t0 + 60) as i64, nanos: 0 };
    assert_eq!(
        signer.unsign_with_age_at(token.clone(), Duration::seconds(60), at),
        Ok("v".to_string())
    );
    let late = UnixTime { secs: (t0 + 60) as i64, nanos: 1 };
    assert_eq!(
        signer.unsign_with_age_at(token.clone(), Duration::seconds(60), late),
        Err(SignatureError::SignatureExpired)
    );
    assert_eq!(
        signer.unsign_with_age_at(token.clone(), Duration::new(60, 1), late),
        Ok("v".to_string())
    );
    let same = UnixTime { secs: t0 as i64, nanos: 0 };
    assert_eq!(
        signer.unsign_with_age_at(token, Duration::seconds(0), same),
        Ok("v".to_string())
    );
}

#[test]
fn timestamp_segment_is_base62_of_the_signing_second() {
    let signer = TimestampSigner::new(KEY, SALT);
    let token = signer.sign_at("v".to_string(), 1337);
    assert!(token.starts_with("v:LZ:"));
    let token = signer.sign_at("v".to_string(), 1_000_000_000);
    assert!(token.starts_with("v:15ftgG:"));
    assert_eq!(signer.unsign(token), Ok("v".to_string()));
}

#[test]
fn payload_encoding_exact_values() {
    assert_eq!(encode_payload(b"hello", false), "aGVsbG8");
    assert_eq!(encode_payload(b"{\"a\":1}", false), "eyJhIjoxfQ");
    assert_eq!(decode_payload("aGVsbG8"), Ok(b"hello".to_vec()));
    let obj = json("{\"a\":1}");
    assert_eq!(BaseSigner::new(KEY, SALT).encode_object(&obj, false), "eyJhIjoxfQ");
}

#[test]
fn compression_only_when_it_pays() {
    assert_eq!(encode_payload(b"", true), "");
    assert_eq!(encode_payload(b"abc", true), "YWJj");
    assert_eq!(encode_payload(b"hello", true), "aGVsbG8");
    let long = vec![b'a'; 1000];
    let text = encode_payload(&long, true);
    assert!(text.starts_with('.'));
    assert!(text.len() < encode_payload(&long, false).len());
    assert_eq!(text[1..].find('.'), None);
    assert_eq!(decode_payload(&text), Ok(long));
}

#[test]
fn object_round_trip_with_and_without_compression() {
    let obj = json("{\"list\":[1,2,3],\"name\":\"aaaaaaaaaaaaaaaaaaaaaaaaaaaaaaaaaaaaaaaaaaaaaaaaaaaaaa\",\"none\":null,\"ok\":true}");
    let base = BaseSigner::new(KEY, SALT);
    let timed = TimestampSigner::new(KEY, SALT);
    for compress in [false, true] {
        let token = base.sign_object(&obj, compress);
        assert_eq!(token.starts_with('.'), compress);
        assert_eq!(base.unsign_object(token), Ok(obj.clone()));
        let token = timed.sign_object(&obj, compress);
        assert_eq!(timed.unsign_object(token.clone()), Ok(obj.clone()));
        assert_eq!(
            timed.unsign_object_with_age(token, Duration::seconds(60)),
            Ok(obj.clone())
        );
        let token = dumps(&obj, KEY, SALT, compress);
        assert_eq!(loads(token, KEY, SALT, Duration::seconds(60)), Ok(obj.clone()));
    }
}

#[test]
fn missing_separator() {
    let signer = BaseSigner::new(KEY, SALT);
    assert_eq!(
        signer.unsign("no separator here".to_string()),
        Err(SignatureError::MissingSeparator)
    );
    assert_eq!(signer.unsign(String::new()), Err(SignatureError::MissingSeparator));
}

#[test]
fn format_error_on_bad_signature_text() {
    let signer = BaseSigner::new(KEY, SALT);
    assert_eq!(
        signer.unsign("hello:not base64!".to_string()),
        Err(SignatureError::FormatError)
    );
}

#[test]
fn missing_timestamp() {
    let token = BaseSigner::new(KEY, SALT).sign("hello".to_string());
    let timed = TimestampSigner::new(KEY, SALT);
    assert_eq!(timed.unsign(token.clone()), Err(SignatureError::MissingTimestamp));
    assert_eq!(
        timed.unsign_with_age(token, Duration::seconds(60)),
        Err(SignatureError::MissingTimestamp)
    );
}

#[test]
fn timestamp_format_errors() {
    let base = BaseSigner::new(KEY, SALT);
    let timed = TimestampSigner::new(KEY, SALT);
    let now = UnixTime { secs: 1_700_000_000, nanos: 0 };
    let long = Duration::seconds(1_000_000_000_000);
    for ts in ["", "!!", "zzzzzzzzzzzz", "4SbCEFs"] {
        let token = base.sign(format!("hello:{}", ts));
        assert_eq!(
            timed.unsign_with_age_at(token.clone(), long, now),
            Err(SignatureError::TimestampFormatError),
            "timestamp {:?}",
            ts
        );
        assert_eq!(timed.unsign(token), Ok("hello".to_string()));
    }
}

#[test]
fn object_format_error() {
    let base = BaseSigner::new(KEY, SALT);
    let token = base.sign("not json".to_string());
    assert_eq!(base.unsign_object(token), Err(SignatureError::ObjectFormatError));
    let token = base.sign(encode_payload(b"{not json", false));
    assert_eq!(base.unsign_object(token), Err(SignatureError::ObjectFormatError));
    assert_eq!(decode_payload(".AAAA"), Err(SignatureError::ObjectFormatError));
    assert_eq!(decode_payload("!"), Err(SignatureError::ObjectFormatError));
}

#[test]
fn signature_errors_come_before_object_errors() {
    let base = BaseSigner::new(KEY, SALT);
    assert_eq!(
        base.unsign_object("garbage".to_string()),
        Err(SignatureError::MissingSeparator)
    );
    assert_eq!(
        loads("x:AAAA".to_string(), KEY, SALT, Duration::seconds(60)),
        Err(SignatureError::InvalidSignature)
    );
}

#[test]
fn encoding_depends_on_the_object_alone() {
    let obj = json("{\"b\":[true,null],\"a\":\"x:y\"}");
    let a = BaseSigner::new(KEY, SALT).encode_object(&obj, false);
    let b = BaseSigner::new(b"other", b"pepper").encode_object(&obj, false);
    assert_eq!(a, b);
    assert!(!a.contains(':'));
    assert!(a
        .chars()
        .all(|c| c.is_ascii_alphanumeric() || c == '-' || c == '_'));
}

#[test]
fn token_colon_counts() {
    let obj = json("{\"a\":\"x:y:z\"}");
    let base = BaseSigner::new(KEY, SALT);
    let timed = TimestampSigner::new(KEY, SALT);
    assert_eq!(base.sign_object(&obj, false).matches(':').count(), 1);
    assert_eq!(timed.sign_object(&obj, true).matches(':').count(), 2);
    assert_eq!(dumps(&obj, KEY, SALT, false).matches(':').count(), 2);
    let token = timed.sign("a:b".to_string());
    assert_eq!(token.matches(':').count(), 3);
    assert_eq!(base.sign("a:b".to_string()).len(), "a:b".len() + 44);
}

#[test]
fn timestamped_token_reads_as_value_and_timestamp_to_the_base_signer() {
    let base = BaseSigner::new(KEY, SALT);
    let timed = TimestampSigner::new(KEY, SALT);
    let token = timed.sign_at("v".to_string(), 1337);
    assert_eq!(base.unsign(token), Ok("v:LZ".to_string()));
    let obj = json("{\"a\":1}");
    let token = timed.sign_object_at(&obj, false, 1337);
    assert_eq!(token, base.sign("eyJhIjoxfQ:LZ".to_string()));
    let at = UnixTime { secs: 1397, nanos: 0 };
    assert_eq!(
        timed.unsign_object_with_age_at(token.clone(), Duration::seconds(60), at),
        Ok(obj)
    );
    let late = UnixTime { secs: 1397, nanos: 5 };
    assert_eq!(
        timed.unsign_object_with_age_at(token, Duration::seconds(60), late),
        Err(SignatureError::SignatureExpired)
    );
}

#[test]
fn altered_value_segment_is_invalid_signature() {
    let signer = BaseSigner::new(KEY, SALT);
    let token = signer.sign("payload".to_string());
    let sig = &token["payload:".len()..];
    for altered in ["paylоad", "Payload", "payload:", "", "p:ayload"] {
        assert_eq!(
            signer.unsign(format!("{}:{}", altered, sig)),
            Err(SignatureError::InvalidSignature)
        );
    }
}

//! Signing of strings and JSON values with HMAC-SHA256, with an optional
//! creation timestamp and maximum age.
use vstd::prelude::*;

pub mod external;
pub mod signer;
pub mod timestamp;

pub use external::UnixTime;
pub use signer::{decode_payload, encode_payload, BaseSigner};
pub use timestamp::{dumps, loads, Duration, TimestampSigner};

verus! {

/// Why a signed token was refused.
#[derive(Clone, Copy, Debug, PartialEq, Eq, Structural)]
pub enum SignatureError {
    MissingSeparator,
    FormatError,
    InvalidSignature,
    MissingTimestamp,
    TimestampFormatError,
    SignatureExpired,
    ObjectFormatError,
}

} // verus!

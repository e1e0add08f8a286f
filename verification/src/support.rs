//! Identifiers, clock readings and encodings that come from outside crates.

use base64::Engine;
use vstd::prelude::*;

verus! {

/// `uuid::Uuid::new_v4().to_string()`: a random version-4 UUID in its
/// hyphenated lower-case form, 36 characters with hyphens at 8, 13, 18 and
/// 23 and the version digit `4` at 14. The digits themselves are random and
/// left unsaid.
#[verifier::external_body]
pub(crate) fn new_uuid_string() -> (s: String)
    ensures
        s@.len() == 36,
        s@[8] == '-' && s@[13] == '-' && s@[18] == '-' && s@[23] == '-',
        s@[14] == '4',
{
    uuid::Uuid::new_v4().to_string()
}

/// `time::OffsetDateTime::now_utc().to_string()`: the current UTC time in
/// the `time` crate's display form. It depends on the clock, so nothing is
/// stated of it.
#[verifier::external_body]
pub(crate) fn now_utc_string() -> (s: String) {
    time::OffsetDateTime::now_utc().to_string()
}

/// Standard base64 (RFC 4648 alphabet, with padding) of `b`.
pub uninterp spec fn base64_standard(b: Seq<u8>) -> Seq<char>;

/// `base64::engine::general_purpose::STANDARD.encode(b)`.
#[verifier::external_body]
pub(crate) fn base64_encode(b: &[u8]) -> (s: String)
    ensures
        s@ == base64_standard(b@),
{
    base64::engine::general_purpose::STANDARD.encode(b)
}

/// The bytes standard base64 (RFC 4648 alphabet, padding required) reads
/// from the text `s`; `None` when `s` is not valid standard base64.
pub uninterp spec fn base64_standard_decoded(s: Seq<char>) -> Option<Seq<u8>>;

/// `base64::engine::general_purpose::STANDARD.decode(s)`, its error read
/// as `None`.
#[verifier::external_body]
pub(crate) fn base64_decode(s: &str) -> (r: Option<Vec<u8>>)
    ensures
        match r {
            Some(b) => base64_standard_decoded(s@) == Some(b@),
            None => base64_standard_decoded(s@) is None,
        },
{
    base64::engine::general_purpose::STANDARD.decode(s).ok()
}

} // verus!

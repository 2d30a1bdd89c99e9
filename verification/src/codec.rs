use vstd::prelude::*;
use vstd::utf8::{decode_utf8, valid_utf8};

verus! {

/// The bytes that base64's URL-safe engine (`general_purpose::URL_SAFE`:
/// the `-`/`_` alphabet, canonical `=` padding required, no trailing bits)
/// decodes `input` to, or `None` where it reports a `DecodeError`.
pub uninterp spec fn url_safe_base64_decoded(input: Seq<u8>) -> Option<Seq<u8>>;

/// Calls `base64::Engine::decode` on `general_purpose::URL_SAFE`.
/// Trusted: the result, `Ok` turned into `Some` and `Err` into `None`, is
/// the named result above, which depends on the input bytes alone.
#[verifier::external_body]
pub(crate) fn decode_url_safe_base64(input: &[u8]) -> (res: Option<Vec<u8>>)
    ensures
        match res {
            Some(v) => url_safe_base64_decoded(input@) == Some(v@),
            None => url_safe_base64_decoded(input@) is None,
        },
{
    base64::Engine::decode(&base64::engine::general_purpose::URL_SAFE, input).ok()
}

/// Calls `String::from_utf8`.
/// Trusted, as std documents it: the call succeeds exactly when the bytes
/// are valid UTF-8, and then the string holds the characters they encode.
#[verifier::external_body]
pub(crate) fn string_from_utf8(bytes: Vec<u8>) -> (res: Option<String>)
    ensures
        res is Some <==> valid_utf8(bytes@),
        res matches Some(s) ==> s@ == decode_utf8(bytes@),
{
    String::from_utf8(bytes).ok()
}

} // verus!

//! Base64 encoding and decoding of the binary payloads carried in JSON text fields.
use vstd::prelude::*;

verus! {

/// The bytes that standard padded base64 text decodes to, or `None` when the
/// text is not valid standard base64.
pub uninterp spec fn base64_decoded(text: Seq<char>) -> Option<Seq<u8>>;

/// Decodes `text` with `base64::engine::general_purpose::STANDARD`
/// (`Engine::decode`). The result is the name above applied to the text:
/// the bytes on success, `None` on a decode error.
#[verifier::external_body]
pub(crate) fn decode_base64(text: &str) -> (r: Option<Vec<u8>>)
    ensures
        r matches Some(v) ==> base64_decoded(text@) == Some(v@),
        r is None ==> base64_decoded(text@) is None,
{
    base64::Engine::decode(&base64::engine::general_purpose::STANDARD, text).ok()
}

/// The standard padded base64 text of `bytes`.
pub uninterp spec fn base64_encoded(bytes: Seq<u8>) -> Seq<char>;

/// Encodes `bytes` with `base64::engine::general_purpose::STANDARD`
/// (`Engine::encode`): the name above applied to the bytes, and text that
/// the same engine decodes back to exactly those bytes.
#[verifier::external_body]
pub(crate) fn encode_base64(bytes: &[u8]) -> (r: String)
    ensures
        r@ == base64_encoded(bytes@),
        base64_decoded(r@) == Some(bytes@),
{
    base64::Engine::encode(&base64::engine::general_purpose::STANDARD, bytes)
}

/// The decoded bytes, or nothing when the text does not decode.
pub open spec fn decoded_or_empty(text: Seq<char>) -> Seq<u8> {
    match base64_decoded(text) {
        Some(b) => b,
        None => Seq::empty(),
    }
}

} // verus!

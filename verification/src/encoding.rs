//! Base64 (standard alphabet, padded) and hex text encodings of bytes, as the
//! `base64` and `hex` crates compute them.
use vstd::prelude::*;

verus! {

/// The bytes `base64::engine::general_purpose::STANDARD.decode` reads from a
/// text, or `None` when it reports an error.
pub uninterp spec fn base64_decoded(text: Seq<char>) -> Option<Seq<u8>>;

/// The text (`Display`) of the error `STANDARD.decode` reports for a text
/// it cannot decode.
pub uninterp spec fn base64_error_text(text: Seq<char>) -> Seq<char>;

/// The text `base64::engine::general_purpose::STANDARD.encode` writes for bytes.
pub uninterp spec fn base64_encoded(bytes: Seq<u8>) -> Seq<char>;

/// The bytes `hex::decode` reads from a text, or `None` when it reports an error.
pub uninterp spec fn hex_decoded(text: Seq<char>) -> Option<Seq<u8>>;

/// Decodes standard padded base64 with `STANDARD.decode`, an error as its
/// `Display` text. Claims: the bytes are `base64_decoded` of the text; an
/// error comes exactly when that is `None`, with `base64_error_text` of it.
#[verifier::external_body]
pub(crate) fn b64_decode(text: &str) -> (r: Result<Vec<u8>, String>)
    ensures
        match r {
            Ok(b) => base64_decoded(text@) == Some(b@),
            Err(e) => base64_decoded(text@) is None && e@ == base64_error_text(text@),
        },
{
    match base64::Engine::decode(&base64::engine::general_purpose::STANDARD, text) {
        Ok(b) => Ok(b),
        Err(e) => Err(e.to_string()),
    }
}

/// Encodes bytes as standard padded base64 with `STANDARD.encode`. Claims:
/// the text is `base64_encoded` of the bytes, and decoding it with the same
/// engine gives the bytes back (the engine writes canonical padded text).
#[verifier::external_body]
pub(crate) fn b64_encode(bytes: &[u8]) -> (r: String)
    ensures
        r@ == base64_encoded(bytes@),
        base64_decoded(r@) == Some(bytes@),
{
    base64::Engine::encode(&base64::engine::general_purpose::STANDARD, bytes)
}

/// Decodes hex text with `hex::decode`. Claims: the result is `hex_decoded`
/// of the text.
#[verifier::external_body]
pub(crate) fn hex_decode(text: &str) -> (r: Option<Vec<u8>>)
    ensures
        match r {
            Some(b) => hex_decoded(text@) == Some(b@),
            None => hex_decoded(text@) is None,
        },
{
    hex::decode(text).ok()
}

} // verus!

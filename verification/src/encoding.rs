//! Base64, as the protocol carries bytes.

use base64::engine::general_purpose::STANDARD;
use base64::Engine;
use vstd::prelude::*;

verus! {

/// What a text is decoded as: bytes, or why it is no base64.
pub type Decoding = Result<Seq<u8>, Seq<char>>;

/// What came of a decoding, in specifications.
pub open spec fn decoding(decoded: Result<Vec<u8>, String>) -> Decoding {
    match decoded {
        Ok(bytes) => Ok(bytes@),
        Err(why) => Err(why@),
    }
}

/// How base64's `STANDARD` engine encodes `bytes`.
pub uninterp spec fn base64_encoded(bytes: Seq<u8>) -> Seq<char>;

/// What base64's `STANDARD` engine decodes `text` as, the error by the text
/// it shows.
pub uninterp spec fn base64_decoded(text: Seq<char>) -> Decoding;

/// `Engine::encode` of `STANDARD`: the standard alphabet with padding. The
/// text depends on the bytes alone and is named [`base64_encoded`];
/// `Engine::decode` of `STANDARD` decodes it as the bytes. A slice spans
/// no more than `isize::MAX` bytes, for which the length of the text does
/// not overflow.
#[verifier::external_body]
pub(crate) fn encode(bytes: &[u8]) -> (text: String)
    ensures
        text@ == base64_encoded(bytes@),
        base64_decoded(text@) == Decoding::Ok(bytes@),
{
    STANDARD.encode(bytes)
}

/// `Engine::decode` of `STANDARD`, the error by the text it shows. What it
/// decodes depends on the text alone and is named [`base64_decoded`].
#[verifier::external_body]
pub(crate) fn decode(text: &str) -> (decoded: Result<Vec<u8>, String>)
    ensures
        decoding(decoded) == base64_decoded(text@),
{
    STANDARD.decode(text).map_err(|e| e.to_string())
}

} // verus!

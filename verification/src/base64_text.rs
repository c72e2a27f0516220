//! Base64.
use base64::engine::general_purpose::STANDARD;
use base64::Engine;
use vstd::prelude::*;

verus! {

/// The bytes that a text stands for in standard Base64; nothing if it is not
/// Base64.
pub uninterp spec fn base64_bytes(text: Seq<char>) -> Option<Seq<u8>>;

/// How bytes are written in standard Base64.
pub uninterp spec fn base64_text(bytes: Seq<u8>) -> Seq<char>;

pub open spec fn opt_bytes(r: Option<Vec<u8>>) -> Option<Seq<u8>> {
    match r {
        Some(v) => Some(v@),
        None => None,
    }
}

/// `decode` of the `STANDARD` engine of base64. What it gives depends on the
/// text alone.
#[verifier::external_body]
pub(crate) fn decode_base64(text: &str) -> (r: Option<Vec<u8>>)
    ensures
        opt_bytes(r) == base64_bytes(text@),
{
    STANDARD.decode(text).ok()
}

/// `encode` of the `STANDARD` engine of base64. What it gives depends on the
/// bytes alone, and decoding it gives the bytes back.
#[verifier::external_body]
pub(crate) fn encode_base64(bytes: &[u8]) -> (r: String)
    ensures
        r@ == base64_text(bytes@),
        base64_bytes(r@) == Some(bytes@),
{
    STANDARD.encode(bytes)
}

} // verus!

use vstd::prelude::*;

verus! {

/// What base64's standard engine (padded alphabet) makes of a byte string.
pub uninterp spec fn base64_of(b: Seq<u8>) -> Seq<char>;

/// Relies on `base64::Engine::encode` of `base64::engine::general_purpose::STANDARD`:
/// the text depends on the bytes alone, and no bytes give no text.
#[verifier::external_body]
pub(crate) fn encode_base64(b: &Vec<u8>) -> (r: String)
    ensures
        r@ == base64_of(b@),
        b@.len() == 0 ==> r@.len() == 0,
{
    base64::Engine::encode(&base64::engine::general_purpose::STANDARD, b)
}

} // verus!

verus! {

/// Relies on `base64::Engine::decode` of the standard engine, which requires
/// canonical padding and rejects trailing bits: what it accepts is exactly
/// the encoding of the bytes it returns.
#[verifier::external_body]
pub(crate) fn decode_base64(s: &String) -> (r: Option<Vec<u8>>)
    ensures
        r matches Some(b) ==> base64_of(b@) == s@,
{
    base64::Engine::decode(&base64::engine::general_purpose::STANDARD, s.as_bytes()).ok()
}

} // verus!

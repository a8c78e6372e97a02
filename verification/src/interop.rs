//! Trusted, minimal wrappers around outside code. Each wrapper's body makes
//! one outside call; its contract states only what that call's documentation
//! promises.
use base64::Engine;
use vstd::prelude::*;
use vstd::utf8::*;

verus! {

/// Relies on `String::from_utf8`: it succeeds exactly on valid UTF-8 input,
/// and the returned string wraps exactly the given bytes.
#[verifier::external_body]
pub(crate) fn bytes_to_string(b: Vec<u8>) -> (r: Option<String>)
    ensures
        r is Some <==> valid_utf8(b@),
        r matches Some(s) ==> s@ == decode_utf8(b@),
{
    String::from_utf8(b).ok()
}

/// Relies on `String::push`: it appends exactly the given character.
#[verifier::external_body]
pub(crate) fn string_push(s: &mut String, c: char)
    ensures
        final(s)@ == old(s)@.push(c),
{
    s.push(c)
}

/// What the standard base64 engine encodes the given bytes to: base64 with
/// padding, a function of the input alone.
pub uninterp spec fn base64_of(b: Seq<u8>) -> Seq<char>;

/// What the standard base64 engine decodes the given text to: the bytes, or
/// nothing when the text is not valid base64. A function of the input alone.
pub uninterp spec fn base64_decoded(s: Seq<char>) -> Option<Seq<u8>>;

/// Relies on the standard base64 engine's `encode`; its `decode`
/// is documented to invert it.
#[verifier::external_body]
pub fn base64_encode(b: &Vec<u8>) -> (r: String)
    ensures
        r@ == base64_of(b@),
        base64_decoded(r@) == Some(b@),
{
    base64::engine::general_purpose::STANDARD.encode(b)
}

/// Relies on the standard base64 engine's `decode`: it either decodes the
/// whole input or reports an error, and its configuration (padding required,
/// canonical padding, no stray trailing bits) accepts only canonical
/// encodings, so a decoded input is the encoding of its own result.
#[verifier::external_body]
pub fn base64_decode(s: &str) -> (r: Option<Vec<u8>>)
    ensures
        r is Some <==> base64_decoded(s@) is Some,
        r matches Some(v) ==> Some(v@) == base64_decoded(s@) && s@ == base64_of(v@),
{
    base64::engine::general_purpose::STANDARD.decode(s).ok()
}

} // verus!

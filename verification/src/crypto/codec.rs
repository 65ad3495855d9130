use base64::DecodeError;
use std::string::FromUtf8Error;
use vstd::prelude::*;
use vstd::utf8::{encode_utf8, valid_utf8};

verus! {

/// The standard base64 text, with padding, that `base64::encode` produces for
/// `bytes`.
pub uninterp spec fn base64_encode(bytes: Seq<u8>) -> Seq<char>;

/// The bytes that `base64::decode` reads from `text`, or `None` where `text`
/// is not standard base64.
pub uninterp spec fn base64_decode(text: Seq<char>) -> Option<Seq<u8>>;

/// The base64 text for this many bytes is short enough for both
/// `base64::encode` and `base64::decode` to size their outputs without
/// overflow.
pub open spec fn fits_encoder(len: nat) -> bool {
    len / 3 < (usize::MAX - 7) / 4
}

/// `base64::decode` sizes its output without overflow for this text.
pub open spec fn fits_decoder(text: Seq<char>) -> bool {
    encode_utf8(text).len() + 7 <= usize::MAX
}

/// What is known of the text that the encoder wrote for `bytes`: it is the
/// encoder's output, it holds four characters of one byte each for every
/// three bytes or part thereof, and the decoder reads `bytes` back from it.
pub open spec fn base64_sealed(bytes: Seq<u8>, text: Seq<char>) -> bool {
    &&& text == base64_encode(bytes)
    &&& encode_utf8(text).len() == 4 * ((bytes.len() + 2) / 3)
    &&& base64_decode(text) == Some(bytes)
}

/// Calls `base64::encode`.
///
/// Trusted: the result is the standard base64 form of `bytes`, padded to a
/// multiple of four ASCII characters, and `base64::decode` reads `bytes` back
/// from it. The `requires` leaves out the lengths for which the crate's size
/// calculation overflows and panics.
#[verifier::external_body]
pub(crate) fn encode_base64(bytes: &[u8]) -> (text: String)
    requires
        fits_encoder(bytes@.len()),
    ensures
        text@ == base64_encode(bytes@),
        base64_sealed(bytes@, text@),
{
    base64::encode(bytes)
}

/// Calls `base64::decode`.
///
/// Trusted: the outcome depends on `text` alone. The `requires` leaves out
/// the lengths for which the crate's size calculation overflows and panics.
#[verifier::external_body]
pub(crate) fn decode_base64(text: &str) -> (r: Result<Vec<u8>, DecodeError>)
    requires
        fits_decoder(text@),
    ensures
        match r {
            Ok(bytes) => base64_decode(text@) == Some(bytes@),
            Err(_) => base64_decode(text@) is None,
        },
{
    base64::decode(text)
}

/// Calls `String::from_utf8`.
///
/// Trusted: it succeeds exactly on well-formed UTF-8, and the string it
/// returns is made of the bytes it was given.
#[verifier::external_body]
pub(crate) fn string_from_utf8(bytes: Vec<u8>) -> (r: Result<String, FromUtf8Error>)
    ensures
        match r {
            Ok(text) => valid_utf8(bytes@) && encode_utf8(text@) == bytes@,
            Err(_) => !valid_utf8(bytes@),
        },
{
    String::from_utf8(bytes)
}

} // verus!

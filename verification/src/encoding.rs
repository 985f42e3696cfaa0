//! Conversions between bytes and text that the standard library and the
//! `hex` and `base64` crates perform. None of the contracts in this file
//! is proved: each states what the outside function is documented to do.

use vstd::prelude::*;
use vstd::utf8::{decode_utf8, valid_utf8};

verus! {

/// The error of `base64`'s decoder.
#[verifier::external_type_specification]
#[verifier::external_body]
pub struct ExDecodeError(base64::DecodeError);

/// What the standard base64 alphabet with padding decodes `input` to, or
/// nothing where `input` is not canonical base64.
pub uninterp spec fn base64_decoded(input: Seq<u8>) -> Option<Seq<u8>>;

/// The standard base64 text for `bytes`, padded.
pub uninterp spec fn base64_encoded(bytes: Seq<u8>) -> Seq<char>;

/// What is left of `text` without the white space at both ends.
pub uninterp spec fn trimmed(text: Seq<char>) -> Seq<char>;

/// The lower-case hexadecimal digit for `n`, for `n` below sixteen.
pub open spec fn hex_digit(n: int) -> char {
    "0123456789abcdef"@[n]
}

/// Two lower-case hexadecimal digits for each byte, the high half first.
pub open spec fn hex_text(bytes: Seq<u8>) -> Seq<char> {
    Seq::new(
        2 * bytes.len(),
        |i: int|
            if i % 2 == 0 {
                hex_digit(bytes[i / 2] as int / 16)
            } else {
                hex_digit(bytes[i / 2] as int % 16)
            },
    )
}

/// `std::str::from_utf8`: the text that `bytes` encode, where they are
/// valid UTF-8, and nothing where they are not. The contract states that
/// the standard library accepts exactly the byte strings that `valid_utf8`
/// describes and decodes them as `decode_utf8` does.
#[verifier::external_body]
pub(crate) fn utf8_text(bytes: &[u8]) -> (text: Option<String>)
    ensures
        match text {
            Some(t) => valid_utf8(bytes@) && t@ == decode_utf8(bytes@),
            None => !valid_utf8(bytes@),
        },
{
    match std::str::from_utf8(bytes) {
        Ok(s) => Some(s.to_owned()),
        Err(_) => None,
    }
}

/// `String::push`: the character is appended to the text.
#[verifier::external_body]
pub(crate) fn push_char(text: &mut String, c: char)
    ensures
        final(text)@ == old(text)@.push(c),
{
    text.push(c);
}

/// `str::trim`: the text without leading and trailing white space. The
/// contract only names the result.
#[verifier::external_body]
pub(crate) fn trim_text(text: &str) -> (r: String)
    ensures
        r@ == trimmed(text@),
{
    text.trim().to_owned()
}

/// `hex::encode`: lower-case hexadecimal, two digits for each byte. The
/// input is kept short enough for the length of the result to be computed.
#[verifier::external_body]
pub(crate) fn hex_encode(bytes: &[u8]) -> (r: String)
    requires
        2 * bytes@.len() <= usize::MAX,
    ensures
        r@ == hex_text(bytes@),
{
    hex::encode(bytes)
}

/// `Engine::decode` of `base64`'s `STANDARD` engine. The contract names
/// what is decoded and says that an error comes exactly where nothing is.
#[verifier::external_body]
pub(crate) fn base64_decode(input: &[u8]) -> (r: Result<Vec<u8>, base64::DecodeError>)
    ensures
        match r {
            Ok(bytes) => base64_decoded(input@) == Some(bytes@),
            Err(_) => base64_decoded(input@) is None,
        },
{
    base64::Engine::decode(&base64::engine::general_purpose::STANDARD, input)
}

/// `Engine::encode` of `base64`'s `STANDARD` engine. The input is kept
/// short enough for the length of the result to be computed, where the
/// engine would panic otherwise. The contract only names the result.
#[verifier::external_body]
pub(crate) fn base64_encode(bytes: &[u8]) -> (r: String)
    requires
        (bytes@.len() / 3 + 1) * 4 <= usize::MAX,
    ensures
        r@ == base64_encoded(bytes@),
{
    base64::Engine::encode(&base64::engine::general_purpose::STANDARD, bytes)
}

/// The `Display` text of a `base64` decoding error. Nothing is stated of it.
#[verifier::external_body]
pub(crate) fn decode_error_text(error: &base64::DecodeError) -> (r: String) {
    error.to_string()
}

} // verus!

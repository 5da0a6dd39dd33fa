//! Text to base64 and back, with the standard alphabet and padding. The
//! encoding itself is the work of the `base64` crate.

use vstd::prelude::*;
use vstd::utf8::{decode_utf8, encode_utf8, valid_utf8};
use vstd::string::StringSliceAdditionalSpecFns;
use base64::Engine;
use crate::chars::text_from_utf8;

verus! {

/// The base64 text that the standard engine of the `base64` crate, with
/// padding, writes for `bytes`.
pub uninterp spec fn standard_encoding(bytes: Seq<u8>) -> Seq<char>;

/// What the standard engine of the `base64` crate, with padding, makes of
/// `text`: the bytes that it reads from it, or the fault for which it
/// refuses it.
pub uninterp spec fn standard_decoding(text: Seq<u8>) -> Result<Seq<u8>, Base64Fault>;

/// Why the engine refused a text.
#[derive(Clone, Copy, Debug, PartialEq, Eq, Structural)]
pub enum Base64Fault {
    /// A byte that is no base64 symbol, or padding before the end.
    InvalidByte { offset: usize, byte: u8 },
    /// A number of symbols that no encoding has.
    InvalidLength { length: usize },
    /// A last symbol with bits set that no byte would take.
    InvalidLastSymbol { offset: usize, byte: u8 },
    /// Padding that is missing or too long.
    InvalidPadding,
}

/// Why base64 text could not be turned back into text.
#[derive(Debug, PartialEq, Eq)]
pub enum Base64Error {
    /// The engine refused the text.
    Refused(Base64Fault),
    /// The decoded bytes, held here, are not UTF-8 text.
    InvalidUtf8 { bytes: Vec<u8> },
}

/// `Engine::encode_string` of `base64::engine::general_purpose::STANDARD`,
/// called on an empty string. What it writes depends on the bytes alone;
/// the contract only names it.
#[verifier::external_body]
fn encode_standard(bytes: &[u8]) -> (text: String)
    ensures
        text@ == standard_encoding(bytes@),
{
    let mut text = String::new();
    base64::engine::general_purpose::STANDARD.encode_string(bytes, &mut text);
    text
}

/// `Engine::decode` of `base64::engine::general_purpose::STANDARD`. Whether
/// it accepts the text, the bytes that it then returns, and the fault that
/// it reports otherwise, depend on the text alone; the contract only names
/// them. The fault is handed on variant by variant.
#[verifier::external_body]
fn decode_standard(text: &[u8]) -> (bytes: Result<Vec<u8>, Base64Fault>)
    ensures
        match bytes {
            Ok(decoded) => standard_decoding(text@) == Ok::<Seq<u8>, Base64Fault>(decoded@),
            Err(fault) => standard_decoding(text@) == Err::<Seq<u8>, Base64Fault>(fault),
        },
{
    match base64::engine::general_purpose::STANDARD.decode(text) {
        Ok(decoded) => Ok(decoded),
        Err(base64::DecodeError::InvalidByte(offset, byte)) => Err(
            Base64Fault::InvalidByte { offset, byte },
        ),
        Err(base64::DecodeError::InvalidLength(length)) => Err(
            Base64Fault::InvalidLength { length },
        ),
        Err(base64::DecodeError::InvalidLastSymbol(offset, byte)) => Err(
            Base64Fault::InvalidLastSymbol { offset, byte },
        ),
        Err(base64::DecodeError::InvalidPadding) => Err(Base64Fault::InvalidPadding),
    }
}

/// The base64 encoding of the UTF-8 bytes of `input`.
pub fn base64_encode(input: &str) -> (text: String)
    ensures
        text@ == standard_encoding(encode_utf8(input@)),
{
    encode_standard(input.as_bytes())
}

/// The text that the outcome of a decoding stands for: decoded bytes that
/// are UTF-8 give their text, others are handed back in the error, and a
/// fault of the engine is passed on.
pub fn text_of_decoded(decoded: Result<Vec<u8>, Base64Fault>) -> (text: Result<
    String,
    Base64Error,
>)
    ensures
        match decoded {
            Ok(bytes) => match text {
                Ok(t) => valid_utf8(bytes@) && t@ == decode_utf8(bytes@),
                Err(Base64Error::InvalidUtf8 { bytes: held }) => !valid_utf8(bytes@) && held@
                    == bytes@,
                Err(Base64Error::Refused(_)) => false,
            },
            Err(fault) => text == Err::<String, Base64Error>(Base64Error::Refused(fault)),
        },
{
    match decoded {
        Ok(bytes) => match text_from_utf8(bytes) {
            Ok(text) => Ok(text),
            Err(rejected) => Err(Base64Error::InvalidUtf8 { bytes: rejected }),
        },
        Err(fault) => Err(Base64Error::Refused(fault)),
    }
}

/// The text whose UTF-8 bytes `input` encodes in base64.
pub fn base64_decode(input: &str) -> (text: Result<String, Base64Error>)
    ensures
        match standard_decoding(encode_utf8(input@)) {
            Ok(bytes) => match text {
                Ok(t) => valid_utf8(bytes) && t@ == decode_utf8(bytes),
                Err(Base64Error::InvalidUtf8 { bytes: held }) => !valid_utf8(bytes) && held@
                    == bytes,
                Err(Base64Error::Refused(_)) => false,
            },
            Err(fault) => text == Err::<String, Base64Error>(Base64Error::Refused(fault)),
        },
{
    text_of_decoded(decode_standard(input.as_bytes()))
}

} // verus!

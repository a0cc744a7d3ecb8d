//! Base64 in both directions.
use vstd::prelude::*;
use vstd::utf8::{decode_utf8, encode_utf8, valid_utf8};
use base64::engine::general_purpose::{STANDARD, URL_SAFE, URL_SAFE_NO_PAD};
use base64::{DecodeError, Engine};
use crate::cli::base64_opts::{Base64Formatter, Base64Subcommand};
use crate::text::{string_from_utf8, trim, trimmed};

verus! {

/// `DecodeError` of the crate base64, known here by its name alone.
#[verifier::external_type_specification]
#[verifier::external_body]
pub struct ExDecodeError(base64::DecodeError);

/// The base64 text of `data` in the alphabet for URLs or in the standard one,
/// with padding or without.
pub uninterp spec fn base64_text(url_safe: bool, padded: bool, data: Seq<u8>) -> Seq<char>;

/// The bytes that the base64 text `text` stands for in the alphabet for URLs
/// or in the standard one, with padding or without, where it stands for any.
pub uninterp spec fn base64_bytes(url_safe: bool, padded: bool, text: Seq<u8>) -> Option<Seq<u8>>;

/// Why a base64 command produced nothing.
#[derive(PartialEq, Eq, Structural, Debug, Clone, Copy)]
pub enum Base64Error {
    /// The input is not UTF-8.
    InputNotText,
    /// The input is too long for its base64 text to be held.
    TooLong,
    /// The input is no base64 text in the alphabet asked for.
    NotBase64,
    /// The bytes behind the base64 text are not UTF-8.
    OutputNotText,
}

/// `Engine::encode` of the crate base64, on its engine `STANDARD`: the
/// padded base64 text of `data` in the standard alphabet. It panics where the
/// length of that text does not fit the machine, which half the range of
/// lengths keeps well away from.
#[verifier::external_body]
pub(crate) fn encode_standard(data: &[u8]) -> (text: String)
    requires
        data@.len() <= usize::MAX / 2,
    ensures
        text@ == base64_text(false, true, data@),
{
    STANDARD.encode(data)
}

/// `Engine::encode` of the crate base64, on its engine `URL_SAFE`: the padded
/// base64 text of `data` in the alphabet for URLs. It panics as on the
/// engine `STANDARD`.
#[verifier::external_body]
pub(crate) fn encode_url_safe(data: &[u8]) -> (text: String)
    requires
        data@.len() <= usize::MAX / 2,
    ensures
        text@ == base64_text(true, true, data@),
{
    URL_SAFE.encode(data)
}

/// `Engine::encode` of the crate base64, on its engine `URL_SAFE_NO_PAD`: the
/// base64 text of `data` in the alphabet for URLs, without padding. It
/// panics as on the engine `STANDARD`.
#[verifier::external_body]
pub(crate) fn encode_url_safe_no_pad(data: &[u8]) -> (text: String)
    requires
        data@.len() <= usize::MAX / 2,
    ensures
        text@ == base64_text(true, false, data@),
{
    URL_SAFE_NO_PAD.encode(data)
}

/// `Engine::decode` of the crate base64, on its engine `STANDARD`: the bytes
/// that `text` stands for, or the crate's error where it is no padded base64
/// text of the standard alphabet.
#[verifier::external_body]
pub(crate) fn decode_standard(text: &[u8]) -> (r: Result<Vec<u8>, DecodeError>)
    ensures
        match r {
            Ok(data) => base64_bytes(false, true, text@) == Some(data@),
            Err(_) => base64_bytes(false, true, text@) is None,
        },
{
    STANDARD.decode(text)
}

/// `Engine::decode` of the crate base64, on its engine `URL_SAFE`: the bytes
/// that `text` stands for, or the crate's error where it is no padded base64
/// text of the alphabet for URLs.
#[verifier::external_body]
pub(crate) fn decode_url_safe(text: &[u8]) -> (r: Result<Vec<u8>, DecodeError>)
    ensures
        match r {
            Ok(data) => base64_bytes(true, true, text@) == Some(data@),
            Err(_) => base64_bytes(true, true, text@) is None,
        },
{
    URL_SAFE.decode(text)
}

/// `Engine::decode` of the crate base64, on its engine `URL_SAFE_NO_PAD`: the
/// bytes that `text` stands for, or the crate's error where it is no base64
/// text of the alphabet for URLs without padding.
#[verifier::external_body]
pub(crate) fn decode_url_safe_no_pad(text: &[u8]) -> (r: Result<Vec<u8>, DecodeError>)
    ensures
        match r {
            Ok(data) => base64_bytes(true, false, text@) == Some(data@),
            Err(_) => base64_bytes(true, false, text@) is None,
        },
{
    URL_SAFE_NO_PAD.decode(text)
}

/// Whether `format` asks for the alphabet for URLs.
pub open spec fn is_url_safe(format: Base64Formatter) -> bool {
    format == Base64Formatter::URLSAFE
}

/// What was read, as text without the white space at its two ends.
pub fn read_all(raw: Vec<u8>) -> (r: Result<String, Base64Error>)
    ensures
        match r {
            Ok(text) => valid_utf8(raw@) && text@ == trimmed(decode_utf8(raw@)),
            Err(e) => !valid_utf8(raw@) && e == Base64Error::InputNotText,
        },
{
    match string_from_utf8(raw) {
        Some(text) => {
            proof {
                vstd::utf8::encode_utf8_decode_utf8(text@);
            }
            Ok(trim(text.as_str()).to_owned())
        },
        None => Err(Base64Error::InputNotText),
    }
}

/// The base64 text of `content` in the alphabet that `format` asks for.
pub fn process_base64_encode(content: &str, format: Base64Formatter) -> (r: Result<
    String,
    Base64Error,
>)
    ensures
        match r {
            Ok(text) => encode_utf8(content@).len() <= usize::MAX / 2 && text@ == base64_text(
                is_url_safe(format),
                true,
                encode_utf8(content@),
            ),
            Err(e) => encode_utf8(content@).len() > usize::MAX / 2 && e == Base64Error::TooLong,
        },
{
    let data: &[u8] = content.as_bytes();
    if data.len() > usize::MAX / 2 {
        return Err(Base64Error::TooLong);
    }
    match format {
        Base64Formatter::NORMAL => Ok(encode_standard(data)),
        Base64Formatter::URLSAFE => Ok(encode_url_safe(data)),
    }
}

/// The text behind what a base64 text decoded to, where it decoded to anything.
pub open spec fn decoded_text(decoded: Option<Seq<u8>>) -> Result<Seq<char>, Base64Error> {
    match decoded {
        None => Err(Base64Error::NotBase64),
        Some(data) => if valid_utf8(data) {
            Ok(decode_utf8(data))
        } else {
            Err(Base64Error::OutputNotText)
        },
    }
}

/// The text behind what a base64 text decoded to: `decoded` is what the
/// decoding gave.
pub fn text_of_decoded(decoded: Option<Vec<u8>>) -> (r: Result<String, Base64Error>)
    ensures
        match r {
            Ok(text) => decoded_text(
                match decoded {
                    Some(data) => Some(data@),
                    None => None,
                },
            ) == Ok::<Seq<char>, Base64Error>(text@),
            Err(e) => decoded_text(
                match decoded {
                    Some(data) => Some(data@),
                    None => None,
                },
            ) == Err::<Seq<char>, Base64Error>(e),
        },
{
    match decoded {
        None => Err(Base64Error::NotBase64),
        Some(data) => match string_from_utf8(data) {
            Some(text) => {
                proof {
                    vstd::utf8::encode_utf8_decode_utf8(text@);
                }
                Ok(text)
            },
            None => Err(Base64Error::OutputNotText),
        },
    }
}

/// What a decoding gave, without the reason where it gave nothing.
pub(crate) fn decoded_bytes(decoded: Result<Vec<u8>, DecodeError>) -> (r: Option<Vec<u8>>)
    ensures
        r == match decoded {
            Ok(data) => Some(data),
            Err(_) => None,
        },
{
    match decoded {
        Ok(data) => Some(data),
        Err(_) => None,
    }
}

/// The text that the base64 text `content` stands for in the alphabet that
/// `format` asks for.
pub fn process_base64_decode(content: &str, format: Base64Formatter) -> (r: Result<
    String,
    Base64Error,
>)
    ensures
        match r {
            Ok(text) => decoded_text(base64_bytes(is_url_safe(format), true, encode_utf8(content@)))
                == Ok::<Seq<char>, Base64Error>(text@),
            Err(e) => decoded_text(base64_bytes(is_url_safe(format), true, encode_utf8(content@)))
                == Err::<Seq<char>, Base64Error>(e),
        },
{
    let decoded: Option<Vec<u8>> = match format {
        Base64Formatter::NORMAL => decoded_bytes(decode_standard(content.as_bytes())),
        Base64Formatter::URLSAFE => decoded_bytes(decode_url_safe(content.as_bytes())),
    };
    text_of_decoded(decoded)
}

/// What the base64 command writes out for `content`, the text that its input held.
pub fn process_base64(cmd: Base64Subcommand, content: &str) -> (r: Result<String, Base64Error>)
    ensures
        match cmd {
            Base64Subcommand::Encode(opts) => match r {
                Ok(text) => encode_utf8(content@).len() <= usize::MAX / 2 && text@
                    == base64_text(is_url_safe(opts.format), true, encode_utf8(content@)),
                Err(e) => encode_utf8(content@).len() > usize::MAX / 2 && e
                    == Base64Error::TooLong,
            },
            Base64Subcommand::Decode(opts) => match r {
                Ok(text) => decoded_text(
                    base64_bytes(is_url_safe(opts.format), true, encode_utf8(content@)),
                ) == Ok::<Seq<char>, Base64Error>(text@),
                Err(e) => decoded_text(
                    base64_bytes(is_url_safe(opts.format), true, encode_utf8(content@)),
                ) == Err::<Seq<char>, Base64Error>(e),
            },
        },
{
    match cmd {
        Base64Subcommand::Encode(opts) => process_base64_encode(content, opts.format),
        Base64Subcommand::Decode(opts) => process_base64_decode(content, opts.format),
    }
}

} // verus!

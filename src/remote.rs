use vstd::prelude::*;
use vstd::utf8::{valid_utf8, decode_utf8};
use base64::Engine;
use crate::error::ConfigError;

verus! {

#[verifier::external_type_specification]
#[verifier::external_body]
pub struct ExDecodeError(base64::DecodeError);

/// The bytes that base64's standard alphabet, with canonical padding, gives for
/// a text, or `None` where the text is not such an encoding.
pub uninterp spec fn base64_standard_decoding(text: Seq<char>) -> Option<Seq<u8>>;

/// Whether a character has the Unicode `White_Space` property, the property that
/// `char::is_whitespace` tests.
pub open spec fn is_white_space(c: char) -> bool {
    let v = c as u32;
    (0x9 <= v && v <= 0xD) || v == 0x20 || v == 0x85 || v == 0xA0 || v == 0x1680 || (0x2000
        <= v && v <= 0x200A) || v == 0x2028 || v == 0x2029 || v == 0x202F || v == 0x205F || v
        == 0x3000
}

/// A text without its leading whitespace.
pub open spec fn trimmed_start(text: Seq<char>) -> Seq<char>
    decreases text.len(),
{
    if text.len() > 0 && is_white_space(text[0]) {
        trimmed_start(text.drop_first())
    } else {
        text
    }
}

/// A text without its trailing whitespace.
pub open spec fn trimmed_end(text: Seq<char>) -> Seq<char>
    decreases text.len(),
{
    if text.len() > 0 && is_white_space(text.last()) {
        trimmed_end(text.drop_last())
    } else {
        text
    }
}

/// A text with its leading and trailing whitespace removed.
pub open spec fn trimmed(text: Seq<char>) -> Seq<char> {
    trimmed_end(trimmed_start(text))
}

/// Relies on `str::trim`: the text without its leading and trailing whitespace,
/// whitespace being what `char::is_whitespace` accepts.
#[verifier::external_body]
fn trim_whitespace(text: &str) -> (r: &str)
    ensures
        r@ == trimmed(text@),
{
    text.trim()
}

/// Relies on `base64::engine::general_purpose::STANDARD.decode`: the decoded bytes,
/// or an error where the text is not a valid standard encoding.
#[verifier::external_body]
fn decode_base64(text: &str) -> (r: Result<Vec<u8>, base64::DecodeError>)
    ensures
        match r {
            Ok(bytes) => base64_standard_decoding(text@) == Some(bytes@),
            Err(_) => base64_standard_decoding(text@) is None,
        },
{
    base64::engine::general_purpose::STANDARD.decode(text)
}

/// Relies on `String::from_utf8`: the characters of the bytes where they are
/// valid UTF-8, `None` otherwise.
#[verifier::external_body]
fn utf8_text(bytes: Vec<u8>) -> (r: Option<String>)
    ensures
        match r {
            Some(s) => valid_utf8(bytes@) && s@ == decode_utf8(bytes@),
            None => !valid_utf8(bytes@),
        },
{
    String::from_utf8(bytes).ok()
}

/// The text that base64-decoded bytes stand for.
pub fn decoded_text(bytes: Vec<u8>) -> (r: Result<String, ConfigError>)
    ensures
        valid_utf8(bytes@) ==> r is Ok && r->Ok_0@ == decode_utf8(bytes@),
        !valid_utf8(bytes@) ==> r == Err::<String, ConfigError>(ConfigError::Decode),
{
    match utf8_text(bytes) {
        Some(text) => Ok(text),
        None => Err(ConfigError::Decode),
    }
}

/// The document text carried by the body of a remote subscription response:
/// the body, trimmed, is the base64 encoding of the UTF-8 text.
pub fn decode_remote_payload(body: &str) -> (r: Result<String, ConfigError>)
    ensures
        match base64_standard_decoding(trimmed(body@)) {
            Some(bytes) => if valid_utf8(bytes) {
                r is Ok && r->Ok_0@ == decode_utf8(bytes)
            } else {
                r == Err::<String, ConfigError>(ConfigError::Decode)
            },
            None => r == Err::<String, ConfigError>(ConfigError::Decode),
        },
{
    let text = trim_whitespace(body);
    match decode_base64(text) {
        Ok(bytes) => decoded_text(bytes),
        Err(_) => Err(ConfigError::Decode),
    }
}

} // verus!

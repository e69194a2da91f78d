//! Text responses: bytes read as UTF-8.

use crate::data::{KsData, KsValue};
use crate::error::DecodeError;
use vstd::prelude::*;
use vstd::utf8::{decode_utf8, valid_utf8};

verus! {

/// What the content of a text line decodes to: its characters, where the
/// bytes are valid UTF-8, and `InvalidText` where they are not.
pub open spec fn text_value(content: Seq<u8>) -> Result<KsValue, DecodeError> {
    if valid_utf8(content) {
        Ok(KsValue::Text(decode_utf8(content)))
    } else {
        Err(DecodeError::InvalidText)
    }
}

/// `String::from_utf8` of the standard library, with its error dropped.
///
/// Trusted, not proved: the call succeeds exactly on valid UTF-8, and the
/// string it returns holds the characters that the bytes encode.
#[verifier::external_body]
fn string_from_utf8(bytes: Vec<u8>) -> (text: Option<String>)
    ensures
        text is Some <==> valid_utf8(bytes@),
        text matches Some(s) ==> s@ == decode_utf8(bytes@),
{
    String::from_utf8(bytes).ok()
}

/// Turns the content of a text line, its terminator already removed, into a
/// text response.
pub fn read_text(content: Vec<u8>) -> (result: Result<KsData, DecodeError>)
    ensures
        match result {
            Ok(data) => text_value(content@) == Ok::<KsValue, DecodeError>(data@),
            Err(e) => text_value(content@) == Err::<KsValue, DecodeError>(e),
        },
{
    match string_from_utf8(content) {
        Some(text) => Ok(KsData::from_text(text)),
        None => Err(DecodeError::InvalidText),
    }
}

} // verus!

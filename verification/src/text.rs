//! Turning the bytes of a text file into a string.

use vstd::prelude::*;
use vstd::utf8::{encode_utf8, valid_utf8};

verus! {

/// Why bytes could not be taken as text.
#[derive(Clone, Copy, Debug, PartialEq, Eq, Structural)]
pub enum TextError {
    /// The bytes are no valid UTF-8.
    InvalidUtf8,
}

/// Calls `String::from_utf8` and drops the detail of its error. Unproved:
/// the call succeeds exactly on valid UTF-8, and the string then consists
/// of the very bytes that were handed in.
#[verifier::external_body]
fn string_from_utf8(bytes: Vec<u8>) -> (r: Option<String>)
    ensures
        match r {
            Some(text) => valid_utf8(bytes@) && encode_utf8(text@) == bytes@,
            None => !valid_utf8(bytes@),
        },
{
    match String::from_utf8(bytes) {
        Ok(text) => Some(text),
        Err(_) => None,
    }
}

/// The text that the bytes of a file encode in UTF-8: the string made of
/// exactly these bytes, or an error where they are no valid UTF-8.
pub fn utf8_text(bytes: Vec<u8>) -> (r: Result<String, TextError>)
    ensures
        match r {
            Ok(text) => valid_utf8(bytes@) && encode_utf8(text@) == bytes@,
            Err(e) => !valid_utf8(bytes@) && e == TextError::InvalidUtf8,
        },
{
    match string_from_utf8(bytes) {
        Some(text) => Ok(text),
        None => Err(TextError::InvalidUtf8),
    }
}

} // verus!

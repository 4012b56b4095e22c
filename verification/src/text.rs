//! Bytes as text: what the standard library makes of bytes that are to be
//! shown.

use vstd::prelude::*;
use vstd::utf8::{decode_utf8, valid_utf8};

verus! {

/// The bytes of the text that `{:?}` writes for a vector of bytes.
pub uninterp spec fn debug_bytes(raw: Seq<u8>) -> Seq<u8>;

/// The text that `{:?}` writes for the error that `String::from_utf8` gives
/// for bytes that are no UTF-8.
pub uninterp spec fn utf8_error_text(raw: Seq<u8>) -> Seq<char>;

/// `core::str::from_utf8`: whether the bytes are UTF-8.
#[verifier::external_body]
pub(crate) fn is_utf8(raw: &Vec<u8>) -> (r: bool)
    ensures
        r == valid_utf8(raw@),
{
    std::str::from_utf8(raw).is_ok()
}

/// `format!("{:?}", ..)` of a vector of bytes, as bytes.
#[verifier::external_body]
pub(crate) fn show_bytes(raw: &Vec<u8>) -> (r: Vec<u8>)
    ensures
        r@ == debug_bytes(raw@),
{
    format!("{:?}", raw).into_bytes()
}

/// `String::from_utf8`: the text that the bytes encode, if they are UTF-8; if
/// not, what `{:?}` writes for the error.
#[verifier::external_body]
pub(crate) fn read_text(raw: Vec<u8>) -> (r: Result<String, String>)
    ensures
        match r {
            Ok(s) => valid_utf8(raw@) && s@ == decode_utf8(raw@),
            Err(t) => !valid_utf8(raw@) && t@ == utf8_error_text(raw@),
        },
{
    String::from_utf8(raw).map_err(|e| format!("{:?}", e))
}

} // verus!

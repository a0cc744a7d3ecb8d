//! The options of the password command.
use vstd::prelude::*;
use vstd::slice::slice_subrange;
use crate::resp::wire::{decimal_in, parse_decimal, PLUS};
use vstd::utf8::encode_utf8;

verus! {

/// Said of a length that is no number from 0 to 255.
pub const MSG_LENGTH: &'static str = "invalid length";

/// The number from 0 to 255 that `text` spells: an optional `+`, then digits.
pub open spec fn length_of(text: Seq<u8>) -> Option<nat> {
    if text.len() > 0 && text[0] == PLUS {
        decimal_in(text.skip(1), 255)
    } else {
        decimal_in(text, 255)
    }
}

/// The length that `length` spells.
pub fn validate_length_more_than_zero(length: &str) -> (r: Result<u8, String>)
    ensures
        match r {
            Ok(n) => length_of(encode_utf8(length@)) == Some(n as nat),
            Err(message) => length_of(encode_utf8(length@)) is None && message@ == MSG_LENGTH@,
        },
{
    let bytes: &[u8] = length.as_bytes();
    let n: usize = bytes.len();
    let start: usize = if n > 0 && bytes[0] == PLUS {
        1
    } else {
        0
    };
    let body: &[u8] = slice_subrange(bytes, start, n);
    assert(start == 1 ==> body@ =~= bytes@.skip(1));
    assert(start == 0 ==> body@ =~= bytes@);
    match parse_decimal(body, 255) {
        Some(v) => Ok(v as u8),
        None => Err(MSG_LENGTH.to_owned()),
    }
}

} // verus!

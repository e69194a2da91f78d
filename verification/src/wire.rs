//! The wire format, as a function from the bytes of a stream to the response
//! that stands at their front.
//!
//! A text response is any run of bytes that does not start with `#`, up to
//! and including the next line feed. A binary block is `#`, one digit `k`,
//! `k` decimal digits that give a length `n`, `n` payload bytes, and a line
//! terminator.

use crate::data::KsValue;
use crate::error::DecodeError;
use crate::length::{declared_length, digit_value, is_digit};
use crate::line::{line_len, strip_newline};
use crate::text::text_value;
use vstd::prelude::*;

verus! {

/// The byte `#`, which opens a binary block.
pub const HASH: u8 = 0x23;

/// The outcome of decoding one response from the front of a stream.
pub struct Decoded {
    /// The response, or why there is none.
    pub result: Result<KsValue, DecodeError>,
    /// How many bytes were taken from the stream.
    pub consumed: nat,
}

/// The stream ended before the bytes asked for: everything left is drained.
pub open spec fn closed_early(s: Seq<u8>) -> Decoded {
    Decoded { result: Err(DecodeError::IoError), consumed: s.len() }
}

/// Decodes a text response from `s`, whose first byte is not `#`. The lead
/// byte is content; the line read that follows it stops after the next line
/// feed, or at the end of the stream.
pub open spec fn decode_line(s: Seq<u8>) -> Decoded
    recommends
        s.len() >= 1,
{
    let end = 1 + line_len(s.skip(1));
    Decoded { result: text_value(strip_newline(s.take(end as int))), consumed: end }
}

/// Decodes a binary block from `s`, whose first byte is `#`.
///
/// A digit count of `0` is taken as written: the length field is then empty
/// and declares a payload of no bytes.
pub open spec fn decode_block(s: Seq<u8>) -> Decoded
    recommends
        s.len() >= 1,
{
    if s.len() < 2 {
        closed_early(s)
    } else if !is_digit(s[1]) {
        Decoded { result: Err(DecodeError::InvalidLengthDigitCount), consumed: 2 }
    } else {
        let body = 2 + digit_value(s[1]);
        if s.len() < body {
            closed_early(s)
        } else {
            match declared_length(s.subrange(2, body as int)) {
                None => Decoded { result: Err(DecodeError::InvalidLengthField), consumed: body },
                Some(n) => {
                    let tail = body + n;
                    if s.len() < tail {
                        closed_early(s)
                    } else {
                        let end = tail + line_len(s.skip(tail as int));
                        if strip_newline(s.subrange(tail as int, end as int)).len() > 0 {
                            Decoded { result: Err(DecodeError::TrailingGarbage), consumed: end }
                        } else {
                            Decoded {
                                result: Ok(KsValue::Bin(s.subrange(body as int, tail as int))),
                                consumed: end,
                            }
                        }
                    }
                },
            }
        }
    }
}

/// Decodes the response at the front of `s`, the bytes that a stream still
/// holds: the lead byte decides between text and binary block.
pub open spec fn decode(s: Seq<u8>) -> Decoded {
    if s.len() == 0 {
        closed_early(s)
    } else if s[0] == HASH {
        decode_block(s)
    } else {
        decode_line(s)
    }
}

} // verus!

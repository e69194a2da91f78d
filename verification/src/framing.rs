//! The framing rule that the decoder inverts, and what decoding gives on
//! framed and on malformed input.

use crate::data::KsValue;
use crate::error::DecodeError;
use crate::length::{
    all_digits, decimal_digits, declared_length, digit_value, is_digit,
    lemma_decimal_digits_len, lemma_decimal_digits_value, lemma_nine_digits_fit, pow10,
    MAX_PAYLOAD, ZERO,
};
use crate::line::{lemma_line_len_stops, no_line_feed, strip_newline, terminator, CR, LF};
use crate::wire::{closed_early, decode, Decoded, HASH};
use vstd::prelude::*;
use vstd::utf8::{decode_utf8, encode_utf8, valid_utf8};

verus! {

/// Whether `content` can be framed as a text line and read back. It must not
/// start with `#`, which would open a block. It must hold no line feed after
/// its first byte, where the line read would stop early. And before a bare
/// line feed it must not end in a carriage return, which would be stripped.
pub open spec fn frames_as_text(content: Seq<u8>, crlf: bool) -> bool {
    &&& content.len() > 0 ==> content[0] != HASH
    &&& forall|i: int| 1 <= i < content.len() ==> #[trigger] content[i] != LF
    &&& !crlf && content.len() > 0 ==> content.last() != CR
}

/// The header of a block with a payload of `n` bytes: `#`, the number of
/// digits in the length, and the length in decimal.
pub open spec fn block_header(n: nat) -> Seq<u8> {
    seq![HASH, (ZERO + decimal_digits(n).len()) as u8] + decimal_digits(n)
}

/// The frame of a text line with the bytes `content`.
pub open spec fn text_frame(content: Seq<u8>, crlf: bool) -> Seq<u8> {
    content + terminator(crlf)
}

/// The frame of a binary block with the bytes `payload`.
pub open spec fn block_frame(payload: Seq<u8>, crlf: bool) -> Seq<u8> {
    block_header(payload.len()) + payload + terminator(crlf)
}

/// The frame of a response: the inverse of decoding.
pub open spec fn frame(value: KsValue, crlf: bool) -> Seq<u8> {
    match value {
        KsValue::Text(text) => text_frame(encode_utf8(text), crlf),
        KsValue::Bin(payload) => block_frame(payload, crlf),
    }
}

/// Whether `value` can be framed and read back.
pub open spec fn frameable(value: KsValue, crlf: bool) -> bool {
    match value {
        KsValue::Text(text) => frames_as_text(encode_utf8(text), crlf),
        KsValue::Bin(payload) => payload.len() <= MAX_PAYLOAD,
    }
}

/// Whether a frame is closed by a line feed that a line read cannot take
/// for the lead byte. The one frame that is not is the empty text line
/// before a bare line feed; it reads back only where the stream ends after
/// it.
pub open spec fn self_delimiting(value: KsValue, crlf: bool) -> bool {
    value matches KsValue::Text(text) ==> crlf || encode_utf8(text).len() > 0
}

/// What the header of a block is made of, and that decoding reads the
/// length back from it.
pub proof fn lemma_block_header(n: nat)
    requires
        n <= MAX_PAYLOAD,
    ensures
        block_header(n).len() == 2 + decimal_digits(n).len(),
        1 <= decimal_digits(n).len() <= 9,
        block_header(n)[0] == HASH,
        is_digit(block_header(n)[1]),
        block_header(n)[1] - ZERO == decimal_digits(n).len(),
        block_header(n).subrange(2, block_header(n).len() as int) == decimal_digits(n),
        declared_length(decimal_digits(n)) == Some(n),
{
    lemma_decimal_digits_value(n);
    assert(pow10(9) == 1_000_000_000) by {
        reveal_with_fuel(pow10, 10);
    }
    lemma_decimal_digits_len(n, 9);
    lemma_nine_digits_fit(decimal_digits(n));
    assert(block_header(n).subrange(2, block_header(n).len() as int) =~= decimal_digits(n));
}

/// A text line decodes to its content: the terminator is removed and no
/// other byte is altered. The bytes that follow the line stay in the stream.
pub proof fn lemma_text_line_decodes(content: Seq<u8>, crlf: bool, rest: Seq<u8>)
    requires
        frames_as_text(content, crlf),
        valid_utf8(content),
        content.len() == 0 && !crlf ==> rest.len() == 0,
    ensures
        decode(text_frame(content, crlf) + rest) == (Decoded {
            result: Ok(KsValue::Text(decode_utf8(content))),
            consumed: text_frame(content, crlf).len(),
        }),
{
    let line = text_frame(content, crlf);
    let s = line + rest;
    let after_lead = s.skip(1);
    if content.len() == 0 && !crlf {
        assert(after_lead =~= Seq::<u8>::empty());
    } else {
        let before = if crlf {
            content.skip(1) + seq![CR]
        } else {
            content.skip(1)
        };
        let before = if content.len() == 0 {
            Seq::<u8>::empty()
        } else {
            before
        };
        assert(after_lead =~= before + seq![LF] + rest);
        lemma_line_len_stops(before, rest);
    }
    assert(s.take(line.len() as int) =~= line);
    assert(strip_newline(line) =~= content);
}

/// A binary block decodes to its payload, byte for byte, whatever the
/// payload holds. The bytes that follow the block stay in the stream.
pub proof fn lemma_block_decodes(payload: Seq<u8>, crlf: bool, rest: Seq<u8>)
    requires
        payload.len() <= MAX_PAYLOAD,
    ensures
        decode(block_frame(payload, crlf) + rest) == (Decoded {
            result: Ok(KsValue::Bin(payload)),
            consumed: block_frame(payload, crlf).len(),
        }),
{
    let n = payload.len();
    let header = block_header(n);
    let s = block_frame(payload, crlf) + rest;
    let body = header.len() as int;
    let tail = body + n;
    lemma_block_header(n);
    assert(s[0] == header[0]);
    assert(s[1] == header[1]);
    assert(s.subrange(2, body) =~= decimal_digits(n));
    assert(s.subrange(body, tail) =~= payload);
    let before = if crlf {
        seq![CR]
    } else {
        Seq::<u8>::empty()
    };
    assert(s.skip(tail) =~= before + seq![LF] + rest);
    lemma_line_len_stops(before, rest);
    assert(s.subrange(tail, tail + before.len() + 1) =~= terminator(crlf));
    assert(strip_newline(terminator(crlf)) =~= Seq::<u8>::empty());
}

/// Framing a response and decoding the frame gives the response back, and
/// takes exactly the frame from the stream.
pub proof fn lemma_round_trip(value: KsValue, crlf: bool, rest: Seq<u8>)
    requires
        frameable(value, crlf),
        self_delimiting(value, crlf) || rest.len() == 0,
    ensures
        decode(frame(value, crlf) + rest) == (Decoded {
            result: Ok(value),
            consumed: frame(value, crlf).len(),
        }),
{
    match value {
        KsValue::Text(text) => {
            vstd::utf8::encode_utf8_valid_utf8(text);
            vstd::utf8::encode_utf8_decode_utf8(text);
            lemma_text_line_decodes(encode_utf8(text), crlf, rest);
        },
        KsValue::Bin(payload) => {
            lemma_block_decodes(payload, crlf, rest);
        },
    }
}

/// A byte after `#` that is not a digit is refused at once: two bytes are
/// taken from the stream, and nothing after them is read.
pub proof fn lemma_digit_count_refused(s: Seq<u8>)
    requires
        s.len() >= 2,
        s[0] == HASH,
        !is_digit(s[1]),
    ensures
        decode(s) == (Decoded {
            result: Err(DecodeError::InvalidLengthDigitCount),
            consumed: 2,
        }),
{
}

/// A length field is refused exactly where one of its bytes is not a digit:
/// it has at most nine bytes, so its value always fits.
pub proof fn lemma_length_field_refused(s: Seq<u8>)
    requires
        s.len() >= 2,
        s[0] == HASH,
        is_digit(s[1]),
        s.len() >= 2 + digit_value(s[1]),
    ensures
        decode(s).result == Err::<KsValue, DecodeError>(DecodeError::InvalidLengthField)
            <==> !all_digits(s.subrange(2, 2 + digit_value(s[1]) as int)),
        !all_digits(s.subrange(2, 2 + digit_value(s[1]) as int)) ==> decode(s).consumed == 2
            + digit_value(s[1]),
{
    let field = s.subrange(2, 2 + digit_value(s[1]) as int);
    if all_digits(field) {
        lemma_nine_digits_fit(field);
    }
}

/// The bytes of a block whose payload is followed by `extra` before the
/// terminator.
pub open spec fn padded_block_frame(payload: Seq<u8>, extra: Seq<u8>, crlf: bool) -> Seq<u8> {
    block_header(payload.len()) + payload + extra + terminator(crlf)
}

/// Bytes between the payload and the line feed are refused, unless they are
/// the one carriage return that belongs to the terminator.
pub proof fn lemma_trailing_garbage_refused(
    payload: Seq<u8>,
    extra: Seq<u8>,
    crlf: bool,
    rest: Seq<u8>,
)
    requires
        payload.len() <= MAX_PAYLOAD,
        extra.len() > 0,
        no_line_feed(extra),
        crlf || extra != seq![CR],
    ensures
        decode(padded_block_frame(payload, extra, crlf) + rest) == (Decoded {
            result: Err(DecodeError::TrailingGarbage),
            consumed: padded_block_frame(payload, extra, crlf).len(),
        }),
{
    let n = payload.len();
    let header = block_header(n);
    let s = padded_block_frame(payload, extra, crlf) + rest;
    let body = header.len() as int;
    let tail = body + n;
    lemma_block_header(n);
    assert(s[0] == header[0]);
    assert(s[1] == header[1]);
    assert(s.subrange(2, body) =~= decimal_digits(n));
    let before = if crlf {
        extra + seq![CR]
    } else {
        extra
    };
    assert(no_line_feed(before));
    assert(s.skip(tail) =~= before + seq![LF] + rest);
    lemma_line_len_stops(before, rest);
    let line = s.subrange(tail, tail + before.len() + 1);
    assert(line =~= extra + terminator(crlf));
    if crlf {
        assert(strip_newline(line) =~= extra);
    } else if extra.last() == CR {
        assert(strip_newline(line) =~= extra.drop_last());
        if extra.len() == 1 {
            assert(extra =~= seq![CR]);
        }
    } else {
        assert(strip_newline(line) =~= extra);
    }
}

/// A stream that closes before the payload is complete gives `IoError`,
/// never a shorter block: the header declares `n` bytes, and fewer follow.
pub proof fn lemma_short_payload_fails(s: Seq<u8>, n: nat)
    requires
        s.len() >= 2,
        s[0] == HASH,
        is_digit(s[1]),
        s.len() >= 2 + digit_value(s[1]),
        declared_length(s.subrange(2, 2 + digit_value(s[1]) as int)) == Some(n),
        s.len() < 2 + digit_value(s[1]) + n,
    ensures
        decode(s) == closed_early(s),
        decode(s).result == Err::<KsValue, DecodeError>(DecodeError::IoError),
{
}

} // verus!

use ks_lxi::{ByteStream, DecodeError, KsData, KsHook};

fn decode(bytes: &[u8]) -> (Result<KsData, DecodeError>, usize) {
    let mut stream = ByteStream::new(bytes.to_vec());
    let result = KsHook::read(&mut stream);
    (result, bytes.len() - stream.remaining())
}

fn text(s: &str) -> Result<KsData, DecodeError> {
    Ok(KsData::from_text(String::from(s)))
}

fn bin(b: &[u8]) -> Result<KsData, DecodeError> {
    Ok(KsData::from_bin(b.to_vec()))
}

#[test]
fn emulate() {
    let mut wire: Vec<u8> = Vec::new();
    wire.extend_from_slice(b"Emulator\n");
    wire.extend_from_slice(b"#14\x00\xff\x0a\x80\n");
    wire.extend_from_slice(b"Emulator\n");
    let mut stream = ByteStream::new(wire);

    assert_eq!(KsHook::read(&mut stream).unwrap(), KsData::from_text(String::from("Emulator")));
    assert_eq!(KsHook::read(&mut stream).unwrap(), KsData::from_bin(vec![0, 255, 10, 128]));
    assert_eq!(KsHook::read(&mut stream).unwrap(), KsData::from_text(String::from("Emulator")));
    assert_eq!(stream.remaining(), 0);
}

#[test]
fn text_line_with_line_feed() {
    assert_eq!(decode(b"Emulator\n"), (text("Emulator"), 9));
}

#[test]
fn text_line_with_carriage_return_and_line_feed() {
    assert_eq!(decode(b"Emulator\r\n"), (text("Emulator"), 10));
}

#[test]
fn text_line_keeps_inner_carriage_return() {
    assert_eq!(decode(b"a\rb\n"), (text("a\rb"), 4));
    assert_eq!(decode(b"ab\r\r\n"), (text("ab\r"), 5));
}

#[test]
fn text_line_stops_at_first_line_feed() {
    assert_eq!(decode(b"one\ntwo\n"), (text("one"), 4));
}

#[test]
fn text_line_without_terminator_runs_to_the_end() {
    assert_eq!(decode(b"abc"), (text("abc"), 3));
    assert_eq!(decode(b"abc\r"), (text("abc\r"), 4));
}

#[test]
fn text_line_may_be_empty() {
    assert_eq!(decode(b"\r\n"), (text(""), 2));
    assert_eq!(decode(b"\n"), (text(""), 1));
}

#[test]
fn lead_line_feed_is_content() {
    assert_eq!(decode(b"\nabc\n"), (text("\nabc"), 5));
}

#[test]
fn text_line_with_hash_inside() {
    assert_eq!(decode(b"a#12\n"), (text("a#12"), 5));
}

#[test]
fn text_line_in_utf8() {
    assert_eq!(decode("caf\u{e9} \u{3a9} \u{1f600}\n".as_bytes()), (text("caf\u{e9} \u{3a9} \u{1f600}"), 14));
}

#[test]
fn text_line_not_utf8() {
    assert_eq!(decode(b"ab\xff\n"), (Err(DecodeError::InvalidText), 4));
    assert_eq!(decode(b"\xc3\n"), (Err(DecodeError::InvalidText), 2));
    assert_eq!(decode(b"\xed\xa0\x80\n"), (Err(DecodeError::InvalidText), 4));
}

#[test]
fn binary_block_scenario() {
    assert_eq!(decode(b"#14\x00\xff\x0a\x80\n"), (bin(&[0, 255, 10, 128]), 8));
}

#[test]
fn binary_block_zero_length() {
    assert_eq!(decode(b"#10\n"), (bin(&[]), 4));
}

#[test]
fn binary_block_with_carriage_return_and_line_feed() {
    assert_eq!(decode(b"#13abc\r\n"), (bin(b"abc"), 8));
}

#[test]
fn binary_block_with_leading_zeros() {
    assert_eq!(decode(b"#40003abc\n"), (bin(b"abc"), 10));
}

#[test]
fn binary_block_payload_may_hold_framing_bytes() {
    assert_eq!(decode(b"#15#\n\r\n#\n"), (bin(b"#\n\r\n#"), 9));
}

#[test]
fn binary_block_without_terminator_at_the_end() {
    assert_eq!(decode(b"#12ab"), (bin(b"ab"), 5));
}

#[test]
fn binary_block_leaves_what_follows() {
    assert_eq!(decode(b"#12ab\nnext\n"), (bin(b"ab"), 6));
}

#[test]
fn binary_block_with_two_length_digits() {
    let payload: Vec<u8> = (0..12u8).collect();
    let mut wire = b"#212".to_vec();
    wire.extend_from_slice(&payload);
    wire.push(b'\n');
    assert_eq!(decode(&wire), (Ok(KsData::from_bin(payload)), 17));
}

#[test]
fn digit_count_zero_declares_an_empty_payload() {
    assert_eq!(decode(b"#0\n"), (bin(&[]), 3));
    assert_eq!(decode(b"#0\r\nnext\n"), (bin(&[]), 4));
    assert_eq!(decode(b"#0ab\n"), (Err(DecodeError::TrailingGarbage), 5));
}

#[test]
fn digit_count_not_a_digit() {
    assert_eq!(decode(b"#A4abcd\n"), (Err(DecodeError::InvalidLengthDigitCount), 2));
    assert_eq!(decode(b"#\n"), (Err(DecodeError::InvalidLengthDigitCount), 2));
    assert_eq!(decode(b"#/1a\n"), (Err(DecodeError::InvalidLengthDigitCount), 2));
    assert_eq!(decode(b"#:1a\n"), (Err(DecodeError::InvalidLengthDigitCount), 2));
    assert_eq!(decode(b"#\xd9\xa1"), (Err(DecodeError::InvalidLengthDigitCount), 2));
}

#[test]
fn digit_count_error_leaves_the_rest_unread() {
    let mut stream = ByteStream::new(b"#Axyz\n".to_vec());
    assert_eq!(KsHook::read(&mut stream), Err(DecodeError::InvalidLengthDigitCount));
    assert_eq!(stream.remaining(), 4);
    assert_eq!(KsHook::read(&mut stream), text("xyz"));
}

#[test]
fn length_field_not_a_number() {
    assert_eq!(decode(b"#21xab\n"), (Err(DecodeError::InvalidLengthField), 4));
    assert_eq!(decode(b"#2 1a\n"), (Err(DecodeError::InvalidLengthField), 4));
    assert_eq!(decode(b"#2+1a\n"), (Err(DecodeError::InvalidLengthField), 4));
    assert_eq!(decode(b"#2-1a\n"), (Err(DecodeError::InvalidLengthField), 4));
    assert_eq!(decode(b"#1\xffa\n"), (Err(DecodeError::InvalidLengthField), 3));
}

#[test]
fn trailing_garbage_after_payload() {
    assert_eq!(decode(b"#14\x00\xff\x0a\x80XY\n"), (Err(DecodeError::TrailingGarbage), 10));
    assert_eq!(decode(b"#12abX\r\n"), (Err(DecodeError::TrailingGarbage), 8));
    assert_eq!(decode(b"#12ab\r\r\n"), (Err(DecodeError::TrailingGarbage), 8));
    assert_eq!(decode(b"#12abXY"), (Err(DecodeError::TrailingGarbage), 7));
    assert_eq!(decode(b"#12ab\r"), (Err(DecodeError::TrailingGarbage), 6));
}

#[test]
fn stream_closed_before_the_lead_byte() {
    assert_eq!(decode(b""), (Err(DecodeError::IoError), 0));
}

#[test]
fn stream_closed_in_the_header() {
    assert_eq!(decode(b"#"), (Err(DecodeError::IoError), 1));
    assert_eq!(decode(b"#2"), (Err(DecodeError::IoError), 2));
    assert_eq!(decode(b"#21"), (Err(DecodeError::IoError), 3));
}

#[test]
fn stream_closed_in_the_payload() {
    assert_eq!(decode(b"#14\x00\xff"), (Err(DecodeError::IoError), 5));
    assert_eq!(decode(b"#14"), (Err(DecodeError::IoError), 3));
    assert_eq!(decode(b"#3999abc\n"), (Err(DecodeError::IoError), 9));
}

#[test]
fn round_trip_of_binary_payloads() {
    for len in [0usize, 1, 9, 10, 99, 100, 255, 1000, 4096] {
        let payload: Vec<u8> = (0..len).map(|i| (i * 7 + 3) as u8).collect();
        let digits = format!("{}", len);
        let mut wire = format!("#{}{}", digits.len(), digits).into_bytes();
        wire.extend_from_slice(&payload);
        wire.push(b'\n');
        let total = wire.len();
        wire.extend_from_slice(b"tail\n");
        assert_eq!(decode(&wire), (Ok(KsData::from_bin(payload)), total));
    }
}

#[test]
fn round_trip_of_text() {
    for line in ["Emulator", "+1.25E-3", "KEYSIGHT,34461A,0,1.0", "a", "\u{b5}V \u{2126}", " spaced  "] {
        for terminator in ["\n", "\r\n"] {
            let mut wire = String::from(line).into_bytes();
            wire.extend_from_slice(terminator.as_bytes());
            let total = wire.len();
            wire.extend_from_slice(b"#10\n");
            assert_eq!(decode(&wire), (text(line), total));
        }
    }
}

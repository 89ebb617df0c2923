use rust_tuyapi::error::{ErrorKind, ParseErrorKind};
use rust_tuyapi::frame::{length_value_tuya, match_frame, push_be32, read_be32};

#[test]
fn length_covers_itself_and_the_data() {
    let (rest, data) = length_value_tuya(b"\x00\x00\x00\x0cabcdefghijk").unwrap();
    assert_eq!(data, b"abcdefgh");
    assert_eq!(rest, b"ijk");
    let (rest, data) = length_value_tuya(b"\x00\x00\x00\x04").unwrap();
    assert_eq!(data, b"");
    assert_eq!(rest, b"");
}

#[test]
fn length_that_the_input_does_not_cover_is_incomplete() {
    assert!(matches!(
        length_value_tuya(b"\x00\x00\x00\x0c"),
        Err(ErrorKind::ParsingIncomplete)
    ));
    assert!(matches!(
        length_value_tuya(b"\x00\x00\x00\x0cabcdefg"),
        Err(ErrorKind::ParsingIncomplete)
    ));
    assert!(matches!(
        length_value_tuya(b"\xff\xff\xff\xffabcdefg"),
        Err(ErrorKind::ParsingIncomplete)
    ));
}

#[test]
fn length_needs_four_bytes_and_counts_them() {
    assert!(matches!(
        length_value_tuya(b"\x00\x00\x00"),
        Err(ErrorKind::ParseError(ParseErrorKind::Eof))
    ));
    assert!(matches!(
        length_value_tuya(b""),
        Err(ErrorKind::ParseError(ParseErrorKind::Eof))
    ));
    assert!(matches!(
        length_value_tuya(b"\x00\x00\x00\x03abc"),
        Err(ErrorKind::ParseError(ParseErrorKind::LengthValue))
    ));
    assert!(matches!(
        length_value_tuya(b"\x00\x00\x00\x00"),
        Err(ErrorKind::ParseError(ParseErrorKind::LengthValue))
    ));
}

#[test]
fn numbers_are_written_and_read_most_significant_byte_first() {
    let mut out = vec![0xee];
    push_be32(&mut out, 0x0102_03ff);
    push_be32(&mut out, 0);
    push_be32(&mut out, u32::MAX);
    assert_eq!(
        out,
        vec![0xee, 1, 2, 3, 0xff, 0, 0, 0, 0, 0xff, 0xff, 0xff, 0xff]
    );
    assert_eq!(read_be32(&out, 1), 0x0102_03ff);
    assert_eq!(read_be32(&out, 5), 0);
    assert_eq!(read_be32(&out, 9), u32::MAX);
    assert_eq!(read_be32(&out, 0), 0xee01_0203);
}

#[test]
fn frame_is_matched_where_it_stands() {
    let mut buffer = vec![0xff, 0xff];
    buffer.extend(
        hex::decode("000055aa00000007000000090000000c00000000b051ab030000aa55").unwrap(),
    );
    buffer.extend(b"xyz");
    let (span, next) = match_frame(&buffer, 2).unwrap();
    assert_eq!(span.seq_nr, 7);
    assert_eq!(span.command, 9);
    assert_eq!(span.start, 18);
    assert_eq!(span.end, 26);
    assert_eq!(next, 30);
    assert!(matches!(
        match_frame(&buffer, 0),
        Err(ErrorKind::ParseError(ParseErrorKind::Tag))
    ));
    assert!(matches!(
        match_frame(&buffer, 30),
        Err(ErrorKind::ParseError(ParseErrorKind::Tag))
    ));
    assert!(matches!(
        match_frame(&buffer, buffer.len()),
        Err(ErrorKind::ParseError(ParseErrorKind::Tag))
    ));
    assert!(matches!(
        match_frame(&buffer[..20], 2),
        Err(ErrorKind::ParsingIncomplete)
    ));
}

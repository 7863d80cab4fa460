use opus_headers::error::{decimal_string, DidNotFindBothHeaders, DidNotReadEnough, ParseError};
use opus_headers::packet_stream::OggFault;

#[test]
fn numbers_are_written_in_decimal() {
    assert_eq!(decimal_string(0), "0");
    assert_eq!(decimal_string(7), "7");
    assert_eq!(decimal_string(9), "9");
    assert_eq!(decimal_string(10), "10");
    assert_eq!(decimal_string(109), "109");
    assert_eq!(decimal_string(1_234_567_890), "1234567890");
    assert_eq!(decimal_string(usize::MAX), usize::MAX.to_string());
    for value in 0..2000usize {
        assert_eq!(decimal_string(value), value.to_string());
    }
}

#[test]
fn short_read_says_what_was_read_and_what_was_expected() {
    let error = DidNotReadEnough { expected: 27, got: 3 };
    assert_eq!(error.message(), "Only read 3 bytes, expected 27");
    let error = DidNotReadEnough { expected: 4_294_967_295, got: 0 };
    assert_eq!(error.message(), "Only read 0 bytes, expected 4294967295");
}

#[test]
fn missing_headers_in_words() {
    assert_eq!(
        DidNotFindBothHeaders.message(),
        "Could not find either the identification or comment header in the given Reader"
    );
}

#[test]
fn every_error_has_its_message() {
    assert_eq!(
        ParseError::Io(DidNotReadEnough { expected: 8, got: 5 }).message(),
        "Only read 5 bytes, expected 8"
    );
    assert_eq!(
        ParseError::Encoding.message(),
        "A string of the comment header is not valid UTF-8"
    );
    assert_eq!(ParseError::InvalidOggPage.message(), "missing Ogg page magic");
    assert_eq!(
        ParseError::InvalidOpusHeader.message(),
        "Opus header is missing the magic signature"
    );
    assert_eq!(
        ParseError::CommentHeaderTooLarge.message(),
        "Opus comment header is larger than 120MB"
    );
    assert_eq!(
        ParseError::CommentTooLong.message(),
        "A comment claims to be longer than the Header itself"
    );
    assert_eq!(
        ParseError::HeadersNotFound.message(),
        DidNotFindBothHeaders.message()
    );
    assert_eq!(
        ParseError::UnexpectedEndOfStream.message(),
        "The container ends in the middle of a page"
    );
}

#[test]
fn errors_convert_into_parse_errors() {
    let short = DidNotReadEnough { expected: 2, got: 1 };
    assert_eq!(ParseError::from(short), ParseError::Io(short));
    assert_eq!(
        ParseError::from(DidNotFindBothHeaders),
        ParseError::HeadersNotFound
    );
    let converted: ParseError = short.into();
    assert_eq!(converted, ParseError::Io(short));
}

#[test]
fn outside_errors_convert_into_parse_errors() {
    let not_utf8 = std::str::from_utf8(&[0xff]).unwrap_err();
    assert_eq!(ParseError::from(not_utf8), ParseError::Encoding);
    assert_eq!(
        ParseError::from(OggFault::NoCapturePatternFound),
        ParseError::InvalidOggPage
    );
    assert_eq!(
        ParseError::from(OggFault::InvalidStreamStructVer(1)),
        ParseError::InvalidOggPage
    );
    assert_eq!(
        ParseError::from(OggFault::HashMismatch(1, 2)),
        ParseError::InvalidOggPage
    );
    assert_eq!(
        ParseError::from(OggFault::InvalidData),
        ParseError::InvalidOggPage
    );
    assert_eq!(
        ParseError::from(OggFault::ReadError),
        ParseError::UnexpectedEndOfStream
    );
}

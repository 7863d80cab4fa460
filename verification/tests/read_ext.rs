use opus_headers::conversion::{to_i16, to_u16, to_u32, to_u64};
use opus_headers::error::DidNotReadEnough;
use opus_headers::read_ext::{ReadExt, SliceReader};

#[test]
fn to_u16_puts_the_first_byte_lowest() {
    assert_eq!(to_u16(&[0x34, 0x12]), 0x1234);
    assert_eq!(to_u16(&[0xff, 0xff]), 65535);
    assert_eq!(to_u16(&[0x00, 0x01, 0x77]), 256);
}

#[test]
fn to_u32_puts_the_first_byte_lowest() {
    assert_eq!(to_u32(&[0x80, 0xbb, 0x00, 0x00]), 48000);
    assert_eq!(to_u32(&[0x78, 0x56, 0x34, 0x12]), 0x1234_5678);
    assert_eq!(to_u32(&[0xff, 0xff, 0xff, 0xff, 0x01]), u32::MAX);
}

#[test]
fn to_u64_puts_the_first_byte_lowest() {
    assert_eq!(
        to_u64(&[0xef, 0xcd, 0xab, 0x89, 0x67, 0x45, 0x23, 0x01]),
        0x0123_4567_89ab_cdef
    );
    assert_eq!(to_u64(&[0xff; 8]), u64::MAX);
}

#[test]
fn to_i16_reads_twos_complement() {
    assert_eq!(to_i16(&[0xff, 0xff]), -1);
    assert_eq!(to_i16(&[0x00, 0x80]), i16::MIN);
    assert_eq!(to_i16(&[0xff, 0x7f]), i16::MAX);
    assert_eq!(to_i16(&[0x00, 0xff]), -256);
    assert_eq!(to_i16(&[0x2a, 0x00]), 42);
}

#[test]
fn conversions_agree_with_std() {
    for value in [0u32, 1, 255, 256, 65535, 65536, 48000, 0x8000_0000, u32::MAX] {
        assert_eq!(to_u32(&value.to_le_bytes()), value);
    }
    for value in [0i16, 1, -1, 127, -128, 255, -256, i16::MAX, i16::MIN] {
        assert_eq!(to_i16(&value.to_le_bytes()), value);
    }
    for value in [0u64, 1, u32::MAX as u64 + 1, 1 << 63, u64::MAX] {
        assert_eq!(to_u64(&value.to_le_bytes()), value);
    }
}

#[test]
fn reader_delivers_the_bytes_front_to_back() {
    let data = [1u8, 2, 3, 4, 5, 6, 7];
    let mut reader = SliceReader::new(&data);
    assert_eq!(reader.read_byte_vec(3), Ok(vec![1, 2, 3]));
    assert_eq!(reader.read_byte_vec(0), Ok(vec![]));
    assert_eq!(reader.read_u8_le(), Ok(4));
    assert!(!reader.is_empty());
    assert_eq!(reader.read_byte_vec(3), Ok(vec![5, 6, 7]));
    assert!(reader.is_empty());
}

#[test]
fn reader_says_how_much_was_missing() {
    let data = [1u8, 2, 3];
    let mut reader = SliceReader::new(&data);
    assert_eq!(
        reader.read_byte_vec(4),
        Err(DidNotReadEnough { expected: 4, got: 3 })
    );
    assert_eq!(
        reader.read_u32_le(),
        Err(DidNotReadEnough { expected: 4, got: 3 })
    );
    assert_eq!(
        reader.read_eight_bytes(),
        Err(DidNotReadEnough { expected: 8, got: 3 })
    );
    let mut empty = SliceReader::new(&[]);
    assert!(empty.is_empty());
    assert_eq!(
        empty.read_u8_le(),
        Err(DidNotReadEnough { expected: 1, got: 0 })
    );
    assert_eq!(
        empty.read_i8_le(),
        Err(DidNotReadEnough { expected: 1, got: 0 })
    );
    assert_eq!(
        empty.read_u16_le(),
        Err(DidNotReadEnough { expected: 2, got: 0 })
    );
    assert_eq!(
        empty.read_i16_le(),
        Err(DidNotReadEnough { expected: 2, got: 0 })
    );
    assert_eq!(
        empty.read_i32_le(),
        Err(DidNotReadEnough { expected: 4, got: 0 })
    );
    assert_eq!(
        empty.read_u64_le(),
        Err(DidNotReadEnough { expected: 8, got: 0 })
    );
    assert_eq!(
        empty.read_i64_le(),
        Err(DidNotReadEnough { expected: 8, got: 0 })
    );
    assert_eq!(
        empty.read_four_bytes(),
        Err(DidNotReadEnough { expected: 4, got: 0 })
    );
}

#[test]
fn reader_keeps_its_bytes_after_a_failed_read() {
    let data = [9u8, 8];
    let mut reader = SliceReader::new(&data);
    assert!(reader.read_u32_le().is_err());
    assert_eq!(reader.read_u16_le(), Ok(0x0809));
}

#[test]
fn reader_decodes_unsigned_numbers() {
    let data = [
        0xfe, 0x34, 0x12, 0x78, 0x56, 0x34, 0x12, 0xef, 0xcd, 0xab, 0x89, 0x67, 0x45, 0x23, 0x01,
    ];
    let mut reader = SliceReader::new(&data);
    assert_eq!(reader.read_u8_le(), Ok(0xfe));
    assert_eq!(reader.read_u16_le(), Ok(0x1234));
    assert_eq!(reader.read_u32_le(), Ok(0x1234_5678));
    assert_eq!(reader.read_u64_le(), Ok(0x0123_4567_89ab_cdef));
    assert!(reader.is_empty());
}

#[test]
fn reader_decodes_signed_numbers() {
    let mut data = Vec::new();
    data.extend_from_slice(&(-1i8).to_le_bytes());
    data.extend_from_slice(&i8::MIN.to_le_bytes());
    data.extend_from_slice(&100i8.to_le_bytes());
    data.extend_from_slice(&(-300i16).to_le_bytes());
    data.extend_from_slice(&(-2i32).to_le_bytes());
    data.extend_from_slice(&i32::MIN.to_le_bytes());
    data.extend_from_slice(&i32::MAX.to_le_bytes());
    data.extend_from_slice(&(-3i64).to_le_bytes());
    data.extend_from_slice(&i64::MIN.to_le_bytes());
    data.extend_from_slice(&i64::MAX.to_le_bytes());
    let mut reader = SliceReader::new(&data);
    assert_eq!(reader.read_i8_le(), Ok(-1));
    assert_eq!(reader.read_i8_le(), Ok(i8::MIN));
    assert_eq!(reader.read_i8_le(), Ok(100));
    assert_eq!(reader.read_i16_le(), Ok(-300));
    assert_eq!(reader.read_i32_le(), Ok(-2));
    assert_eq!(reader.read_i32_le(), Ok(i32::MIN));
    assert_eq!(reader.read_i32_le(), Ok(i32::MAX));
    assert_eq!(reader.read_i64_le(), Ok(-3));
    assert_eq!(reader.read_i64_le(), Ok(i64::MIN));
    assert_eq!(reader.read_i64_le(), Ok(i64::MAX));
    assert!(reader.is_empty());
}

#[test]
fn reader_hands_out_fixed_arrays() {
    let data = *b"OggSOpusHead!";
    let mut reader = SliceReader::new(&data);
    assert_eq!(reader.read_four_bytes(), Ok(*b"OggS"));
    assert_eq!(reader.read_eight_bytes(), Ok(*b"OpusHead"));
    assert_eq!(reader.read_byte_vec(1), Ok(vec![b'!']));
}

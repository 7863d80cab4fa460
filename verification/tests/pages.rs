use opus_headers::error::{DidNotReadEnough, ParseError};
use opus_headers::ogg_page::OggPage;
use opus_headers::read_ext::SliceReader;

fn page(header_type: u8, sequence: u32, lacing: &[u8], payload: &[u8]) -> Vec<u8> {
    let mut bytes = Vec::new();
    bytes.extend_from_slice(b"OggS");
    bytes.push(0);
    bytes.push(header_type);
    bytes.extend_from_slice(&(-2i64).to_le_bytes());
    bytes.extend_from_slice(&0x0102_0304u32.to_le_bytes());
    bytes.extend_from_slice(&sequence.to_le_bytes());
    bytes.extend_from_slice(&0xdead_beefu32.to_le_bytes());
    bytes.push(lacing.len() as u8);
    bytes.extend_from_slice(lacing);
    bytes.extend_from_slice(payload);
    bytes
}

fn short(expected: usize, got: usize) -> ParseError {
    ParseError::Io(DidNotReadEnough { expected, got })
}

#[test]
fn page_fields_are_read_in_order() {
    let bytes = page(0x02, 7, &[3, 0, 2], &[10, 11, 12, 13, 14]);
    let mut reader = SliceReader::new(&bytes);
    let page = OggPage::parse(&mut reader).unwrap();
    assert_eq!(page.version, 0);
    assert_eq!(page.header_type, 0x02);
    assert_eq!(page.granule_position, -2);
    assert_eq!(page.bitstream_serial_number, 0x0102_0304);
    assert_eq!(page.page_sequence_number, 7);
    assert_eq!(page.crc_checksum, 0xdead_beef);
    assert_eq!(page.page_segments, 3);
    assert_eq!(page.segment_table, vec![3, 0, 2]);
    assert_eq!(page.payload, vec![10, 11, 12, 13, 14]);
    assert!(reader.is_empty());
}

#[test]
fn payload_is_as_long_as_the_lacing_values_add_up_to() {
    let tables: [&[u8]; 5] = [&[], &[0], &[255, 255, 17], &[1, 2, 3, 4], &[255; 255]];
    for table in tables {
        let total: usize = table.iter().map(|&value| value as usize).sum();
        let mut bytes = page(0, 1, table, &vec![0x5a; total]);
        bytes.extend_from_slice(b"what follows the page");
        let mut reader = SliceReader::new(&bytes);
        let page = OggPage::parse(&mut reader).unwrap();
        assert_eq!(page.payload.len(), total);
        assert_eq!(page.segment_table, table);
        assert_eq!(page.page_segments as usize, table.len());
        assert_eq!(reader.remaining_bytes(), b"what follows the page");
    }
}

#[test]
fn largest_page_is_read_whole() {
    let payload: Vec<u8> = (0..255 * 255).map(|i| (i % 251) as u8).collect();
    let bytes = page(0x04, 3, &[255; 255], &payload);
    assert_eq!(bytes.len(), 27 + 255 + 65025);
    let mut reader = SliceReader::new(&bytes);
    let page = OggPage::parse(&mut reader).unwrap();
    assert_eq!(page.payload, payload);
    assert!(reader.is_empty());
}

#[test]
fn altered_capture_pattern_is_rejected() {
    let good = page(0, 0, &[1], &[42]);
    for position in 0..4 {
        for delta in [1u8, 0x20, 0x80, 0xff] {
            let mut bytes = good.clone();
            bytes[position] = bytes[position].wrapping_add(delta);
            let mut reader = SliceReader::new(&bytes);
            assert_eq!(OggPage::parse(&mut reader), Err(ParseError::InvalidOggPage));
            let mut reader = SliceReader::new(&bytes);
            assert_eq!(OggPage::parse_next(&mut reader), Err(ParseError::InvalidOggPage));
        }
    }
}

#[test]
fn capture_pattern_is_not_searched_for() {
    let mut bytes = vec![0u8];
    bytes.extend_from_slice(&page(0, 0, &[1], &[42]));
    let mut reader = SliceReader::new(&bytes);
    assert_eq!(OggPage::parse(&mut reader), Err(ParseError::InvalidOggPage));
}

#[test]
fn checksum_is_not_verified() {
    let mut bytes = page(0, 0, &[2], &[1, 2]);
    bytes[22] ^= 0xff;
    let mut reader = SliceReader::new(&bytes);
    let page = OggPage::parse(&mut reader).unwrap();
    assert_eq!(page.crc_checksum, 0xdead_beef ^ 0xff);
    assert_eq!(page.payload, vec![1, 2]);
}

#[test]
fn input_that_ends_in_a_field_is_a_short_read() {
    let bytes = page(0, 0, &[2, 1], &[7, 8, 9]);
    let expected = [
        (0, short(4, 0)),
        (3, short(4, 3)),
        (4, short(1, 0)),
        (5, short(1, 0)),
        (6, short(8, 0)),
        (13, short(8, 7)),
        (14, short(4, 0)),
        (17, short(4, 3)),
        (18, short(4, 0)),
        (22, short(4, 0)),
        (25, short(4, 3)),
        (26, short(1, 0)),
        (27, short(2, 0)),
        (28, short(2, 1)),
        (29, short(3, 0)),
        (31, short(3, 2)),
    ];
    for (length, error) in expected {
        let mut reader = SliceReader::new(&bytes[..length]);
        assert_eq!(OggPage::parse(&mut reader), Err(error), "input of {} bytes", length);
    }
    let mut reader = SliceReader::new(&bytes);
    assert!(OggPage::parse(&mut reader).is_ok());
}

#[test]
fn page_with_short_payload_is_rejected() {
    let bytes = page(0, 0, &[255, 1], &[0; 100]);
    let mut reader = SliceReader::new(&bytes);
    assert_eq!(OggPage::parse(&mut reader), Err(short(256, 100)));
}

#[test]
fn parse_next_finds_the_end_of_the_input() {
    let mut bytes = page(0, 0, &[1], &[1]);
    bytes.extend_from_slice(&page(1, 1, &[], &[]));
    let mut reader = SliceReader::new(&bytes);
    assert_eq!(OggPage::parse_next(&mut reader).unwrap().unwrap().payload, vec![1]);
    let second = OggPage::parse_next(&mut reader).unwrap().unwrap();
    assert_eq!(second.page_sequence_number, 1);
    assert!(second.payload.is_empty());
    assert_eq!(OggPage::parse_next(&mut reader), Ok(None));
    assert_eq!(OggPage::parse_next(&mut reader), Ok(None));
    assert_eq!(OggPage::parse(&mut reader), Err(short(4, 0)));
}

#[test]
fn parse_next_rejects_a_page_that_is_cut_off() {
    let bytes = page(0, 0, &[1], &[1]);
    let mut reader = SliceReader::new(&bytes[..2]);
    assert_eq!(OggPage::parse_next(&mut reader), Err(short(4, 2)));
    let mut reader = SliceReader::new(&bytes[..20]);
    assert_eq!(OggPage::parse_next(&mut reader), Err(short(4, 2)));
}

#[test]
fn flags_are_read_bit_by_bit() {
    for header_type in 0..=255u8 {
        let bytes = page(header_type, 0, &[], &[]);
        let mut reader = SliceReader::new(&bytes);
        let page = OggPage::parse(&mut reader).unwrap();
        assert_eq!(page.is_continuation(), header_type & 1 != 0);
        assert_eq!(page.is_first(), header_type & 2 != 0);
        assert_eq!(page.is_last(), header_type & 4 != 0);
    }
}

#[test]
fn wrong_capture_pattern_costs_its_four_bytes() {
    let mut bytes = b"OggX".to_vec();
    bytes.extend_from_slice(&page(0, 0, &[1], &[42]));
    let mut reader = SliceReader::new(&bytes);
    assert_eq!(OggPage::parse(&mut reader), Err(ParseError::InvalidOggPage));
    assert_eq!(reader.remaining_bytes(), &bytes[4..]);
    let mut reader = SliceReader::new(&bytes);
    assert_eq!(OggPage::parse_next(&mut reader), Err(ParseError::InvalidOggPage));
    assert_eq!(reader.remaining_bytes(), &bytes[4..]);
}

#[test]
fn no_more_than_one_page_is_taken() {
    let mut bytes = page(0, 0, &[255; 255], &vec![7; 65025]);
    assert_eq!(bytes.len(), 65307);
    bytes.extend_from_slice(&[1, 2, 3]);
    let mut reader = SliceReader::new(&bytes);
    assert!(OggPage::parse(&mut reader).is_ok());
    assert_eq!(reader.remaining_bytes(), &[1, 2, 3]);
}

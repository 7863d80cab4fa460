use opus_headers::error::{DidNotReadEnough, ParseError};
use opus_headers::opus_header_structs::{ChannelMappingTable, IdentificationHeader};
use opus_headers::read_ext::SliceReader;

fn head(
    version: u8,
    channel_count: u8,
    pre_skip: u16,
    input_sample_rate: u32,
    output_gain: i16,
    family: u8,
    table: &[u8],
) -> Vec<u8> {
    let mut bytes = Vec::new();
    bytes.extend_from_slice(b"OpusHead");
    bytes.push(version);
    bytes.push(channel_count);
    bytes.extend_from_slice(&pre_skip.to_le_bytes());
    bytes.extend_from_slice(&input_sample_rate.to_le_bytes());
    bytes.extend_from_slice(&output_gain.to_le_bytes());
    bytes.push(family);
    bytes.extend_from_slice(table);
    bytes
}

fn short(expected: usize, got: usize) -> ParseError {
    ParseError::Io(DidNotReadEnough { expected, got })
}

#[test]
fn stereo_header_without_mapping_table() {
    let bytes = head(1, 2, 312, 48000, 0, 0, &[]);
    let mut reader = SliceReader::new(&bytes);
    let header = IdentificationHeader::parse(&mut reader).unwrap();
    assert_eq!(
        header,
        IdentificationHeader {
            version: 1,
            channel_count: 2,
            pre_skip: 312,
            input_sample_rate: 48000,
            output_gain: 0,
            channel_mapping_family: 0,
            channel_mapping_table: None,
        }
    );
    assert!(reader.is_empty());
}

#[test]
fn family_zero_leaves_the_bytes_behind_the_header_alone() {
    let bytes = head(1, 1, 0, 8000, -1, 0, &[2, 1, 0, 1]);
    let mut reader = SliceReader::new(&bytes);
    let header = IdentificationHeader::parse(&mut reader).unwrap();
    assert_eq!(header.channel_mapping_table, None);
    assert_eq!(header.output_gain, -1);
    assert_eq!(header.input_sample_rate, 8000);
    assert_eq!(reader.remaining_bytes(), &[2, 1, 0, 1]);
}

#[test]
fn header_with_mapping_table() {
    let bytes = head(1, 6, 3840, 44100, -256, 1, &[4, 2, 0, 4, 1, 2, 0xaa, 0xbb]);
    let mut reader = SliceReader::new(&bytes);
    let header = IdentificationHeader::parse(&mut reader).unwrap();
    assert_eq!(header.channel_count, 6);
    assert_eq!(header.pre_skip, 3840);
    assert_eq!(header.input_sample_rate, 44100);
    assert_eq!(header.output_gain, -256);
    assert_eq!(header.channel_mapping_family, 1);
    assert_eq!(
        header.channel_mapping_table,
        Some(ChannelMappingTable {
            stream_count: 4,
            coupled_stream_count: 2,
            channel_mapping: vec![0, 4, 1, 2],
        })
    );
    assert_eq!(reader.remaining_bytes(), &[0xaa, 0xbb]);
}

#[test]
fn mapping_table_may_map_255_streams() {
    let mut table = vec![255u8, 0];
    table.extend((0..255).map(|i| i as u8));
    let bytes = head(1, 255, 0, 48000, 0, 255, &table);
    let mut reader = SliceReader::new(&bytes);
    let header = IdentificationHeader::parse(&mut reader).unwrap();
    let table = header.channel_mapping_table.unwrap();
    assert_eq!(table.stream_count, 255);
    assert_eq!(table.channel_mapping.len(), 255);
    assert_eq!(table.channel_mapping[254], 254);
}

#[test]
fn mapping_table_of_no_streams() {
    let mut reader = SliceReader::new(&[0, 0, 9]);
    assert_eq!(
        ChannelMappingTable::parse(&mut reader),
        Ok(ChannelMappingTable {
            stream_count: 0,
            coupled_stream_count: 0,
            channel_mapping: vec![],
        })
    );
    assert_eq!(reader.remaining_bytes(), &[9]);
}

#[test]
fn mapping_table_that_is_cut_off() {
    let mut reader = SliceReader::new(&[]);
    assert_eq!(ChannelMappingTable::parse(&mut reader), Err(short(1, 0)));
    let mut reader = SliceReader::new(&[3]);
    assert_eq!(ChannelMappingTable::parse(&mut reader), Err(short(1, 0)));
    let mut reader = SliceReader::new(&[3, 1, 0, 1]);
    assert_eq!(ChannelMappingTable::parse(&mut reader), Err(short(3, 2)));
}

#[test]
fn altered_head_signature_is_rejected() {
    let good = head(1, 2, 312, 48000, 0, 0, &[]);
    for position in 0..8 {
        for delta in [1u8, 0x20, 0x80, 0xff] {
            let mut bytes = good.clone();
            bytes[position] = bytes[position].wrapping_add(delta);
            let mut reader = SliceReader::new(&bytes);
            assert_eq!(
                IdentificationHeader::parse(&mut reader),
                Err(ParseError::InvalidOpusHeader)
            );
        }
    }
}

#[test]
fn tags_signature_is_no_head_signature() {
    let mut bytes = head(1, 2, 312, 48000, 0, 0, &[]);
    bytes[..8].copy_from_slice(b"OpusTags");
    let mut reader = SliceReader::new(&bytes);
    assert_eq!(
        IdentificationHeader::parse(&mut reader),
        Err(ParseError::InvalidOpusHeader)
    );
}

#[test]
fn header_that_is_cut_off_is_a_short_read() {
    let bytes = head(1, 2, 312, 48000, 0, 1, &[2, 0, 0, 1]);
    let expected = [
        (0, short(8, 0)),
        (7, short(8, 7)),
        (8, short(1, 0)),
        (9, short(1, 0)),
        (10, short(2, 0)),
        (11, short(2, 1)),
        (12, short(4, 0)),
        (15, short(4, 3)),
        (16, short(2, 0)),
        (17, short(2, 1)),
        (18, short(1, 0)),
        (19, short(1, 0)),
        (20, short(1, 0)),
        (21, short(2, 0)),
        (22, short(2, 1)),
    ];
    for (length, error) in expected {
        let mut reader = SliceReader::new(&bytes[..length]);
        assert_eq!(
            IdentificationHeader::parse(&mut reader),
            Err(error),
            "input of {} bytes",
            length
        );
    }
    let mut reader = SliceReader::new(&bytes);
    assert!(IdentificationHeader::parse(&mut reader).is_ok());
}

#[test]
fn short_signature_is_a_short_read_and_no_wrong_signature() {
    let mut reader = SliceReader::new(b"Opus");
    assert_eq!(IdentificationHeader::parse(&mut reader), Err(short(8, 4)));
    let mut reader = SliceReader::new(b"nothing");
    assert_eq!(IdentificationHeader::parse(&mut reader), Err(short(8, 7)));
}

#[test]
fn wrong_head_signature_costs_its_eight_bytes() {
    let mut bytes = head(1, 2, 312, 48000, 0, 0, &[]);
    bytes[7] = b'!';
    let mut reader = SliceReader::new(&bytes);
    assert_eq!(
        IdentificationHeader::parse(&mut reader),
        Err(ParseError::InvalidOpusHeader)
    );
    assert_eq!(reader.remaining_bytes(), &bytes[8..]);
}

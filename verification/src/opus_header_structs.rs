//! The identification header: the fixed fields of the stream, and the channel mapping
//! table where there is one.

use crate::conversion::{as_signed, le_value};
use crate::error::{io, short_read, ParseError};
use crate::read_ext::{is_rest_of, lemma_rest_of_skipped, ReadExt};
use vstd::prelude::*;

verus! {

/// The identification header.
#[derive(Debug, Clone, PartialEq, Eq)]
pub struct IdentificationHeader {
    pub version: u8,
    pub channel_count: u8,
    pub pre_skip: u16,
    pub input_sample_rate: u32,
    pub output_gain: i16,
    pub channel_mapping_family: u8,
    /// Present if and only if `channel_mapping_family` is not 0.
    pub channel_mapping_table: Option<ChannelMappingTable>,
}

/// The part of the identification header that only a stream with a channel mapping
/// family other than 0 has.
#[derive(Debug, Clone, PartialEq, Eq)]
pub struct ChannelMappingTable {
    pub stream_count: u8,
    pub coupled_stream_count: u8,
    /// One byte for each of the `stream_count` streams.
    pub channel_mapping: Vec<u8>,
}

/// A channel mapping table as a mathematical value.
pub ghost struct ChannelMappingTableView {
    pub stream_count: u8,
    pub coupled_stream_count: u8,
    pub channel_mapping: Seq<u8>,
}

/// An identification header as a mathematical value.
pub ghost struct IdentificationHeaderView {
    pub version: u8,
    pub channel_count: u8,
    pub pre_skip: u16,
    pub input_sample_rate: u32,
    pub output_gain: i16,
    pub channel_mapping_family: u8,
    pub channel_mapping_table: Option<ChannelMappingTableView>,
}

impl View for ChannelMappingTable {
    type V = ChannelMappingTableView;

    open spec fn view(&self) -> ChannelMappingTableView {
        ChannelMappingTableView {
            stream_count: self.stream_count,
            coupled_stream_count: self.coupled_stream_count,
            channel_mapping: self.channel_mapping@,
        }
    }
}

impl View for IdentificationHeader {
    type V = IdentificationHeaderView;

    open spec fn view(&self) -> IdentificationHeaderView {
        IdentificationHeaderView {
            version: self.version,
            channel_count: self.channel_count,
            pre_skip: self.pre_skip,
            input_sample_rate: self.input_sample_rate,
            output_gain: self.output_gain,
            channel_mapping_family: self.channel_mapping_family,
            channel_mapping_table: match self.channel_mapping_table {
                Some(table) => Some(table@),
                None => None,
            },
        }
    }
}

impl ChannelMappingTableView {
    /// The table maps as many streams as it counts.
    pub open spec fn well_formed(self) -> bool {
        self.channel_mapping.len() == self.stream_count
    }

    /// The number of bytes that the table takes in the header.
    pub open spec fn size(self) -> nat {
        2 + self.channel_mapping.len()
    }
}

impl IdentificationHeaderView {
    /// The table is there exactly when the family is not 0, and is well formed.
    pub open spec fn well_formed(self) -> bool {
        &&& self.channel_mapping_table is Some <==> self.channel_mapping_family != 0
        &&& self.channel_mapping_table matches Some(table) ==> table.well_formed()
    }

    /// The number of bytes that the header takes in its packet.
    pub open spec fn size(self) -> nat {
        match self.channel_mapping_table {
            Some(table) => 19 + table.size(),
            None => 19,
        }
    }
}

/// The signature that the identification header starts with: `OpusHead`.
pub open spec fn head_signature() -> Seq<u8> {
    seq![0x4fu8, 0x70u8, 0x75u8, 0x73u8, 0x48u8, 0x65u8, 0x61u8, 0x64u8]
}

/// The channel mapping table that `bytes` starts with, or the short read that
/// reading it meets.
pub open spec fn channel_mapping_table_at(
    bytes: Seq<u8>,
) -> Result<ChannelMappingTableView, ParseError> {
    let len = bytes.len();
    if len < 1 {
        Err(short_read(len, 0, 1))
    } else if len < 2 {
        Err(short_read(len, 1, 1))
    } else if len < 2 + bytes[0] {
        Err(short_read(len, 2, bytes[0] as nat))
    } else {
        Ok(
            ChannelMappingTableView {
                stream_count: bytes[0],
                coupled_stream_count: bytes[1],
                channel_mapping: bytes.subrange(2, 2 + bytes[0]),
            },
        )
    }
}

/// The identification header that `bytes` starts with, or the error that reading it
/// meets: the first, in the order of the fields, of a field that the input ends in
/// and a signature that is not `OpusHead`.
pub open spec fn identification_header_at(
    bytes: Seq<u8>,
) -> Result<IdentificationHeaderView, ParseError> {
    let len = bytes.len();
    if len < 8 {
        Err(short_read(len, 0, 8))
    } else if bytes.subrange(0, 8) != head_signature() {
        Err(ParseError::InvalidOpusHeader)
    } else if len < 9 {
        Err(short_read(len, 8, 1))
    } else if len < 10 {
        Err(short_read(len, 9, 1))
    } else if len < 12 {
        Err(short_read(len, 10, 2))
    } else if len < 16 {
        Err(short_read(len, 12, 4))
    } else if len < 18 {
        Err(short_read(len, 16, 2))
    } else if len < 19 {
        Err(short_read(len, 18, 1))
    } else {
        let table = if bytes[18] != 0 {
            match channel_mapping_table_at(bytes.skip(19)) {
                Ok(table) => Ok(Some(table)),
                Err(e) => Err(e),
            }
        } else {
            Ok(None)
        };
        match table {
            Err(e) => Err(e),
            Ok(channel_mapping_table) => Ok(
                IdentificationHeaderView {
                    version: bytes[8],
                    channel_count: bytes[9],
                    pre_skip: le_value(bytes.subrange(10, 12)) as u16,
                    input_sample_rate: le_value(bytes.subrange(12, 16)) as u32,
                    output_gain: as_signed(le_value(bytes.subrange(16, 18)), 0x1_0000) as i16,
                    channel_mapping_family: bytes[18],
                    channel_mapping_table,
                },
            ),
        }
    }
}

/// An input of eight bytes or more that differs from the signature `OpusHead` in any
/// of the first eight is rejected as `InvalidOpusHeader`, whatever else it holds.
pub proof fn lemma_altered_head_signature_is_rejected(bytes: Seq<u8>, position: int)
    requires
        0 <= position < 8 <= bytes.len(),
        bytes[position] != head_signature()[position],
    ensures
        identification_header_at(bytes) == Err::<IdentificationHeaderView, ParseError>(
            ParseError::InvalidOpusHeader,
        ),
{
}

/// An identification header that is accepted is well formed, and it is as long as
/// the input at most.
pub proof fn lemma_identification_header_at_well_formed(bytes: Seq<u8>)
    ensures
        identification_header_at(bytes) matches Ok(header) ==> header.well_formed()
            && header.size() <= bytes.len(),
{
}

impl ChannelMappingTable {
    /// Reads a channel mapping table: the two counts, then one byte for each stream.
    ///
    /// The outcome is that of `channel_mapping_table_at` on the bytes that the source
    /// has left, and a table that was read is gone from the source. After an error
    /// bytes are gone from the front of the source and nowhere else.
    pub fn parse<T: ReadExt>(reader: &mut T) -> (r: Result<ChannelMappingTable, ParseError>)
        ensures
            is_rest_of(final(reader).remaining(), old(reader).remaining()),
            match (r, channel_mapping_table_at(old(reader).remaining())) {
                (Ok(table), Ok(expected)) => {
                    &&& table@ == expected
                    &&& table@.well_formed()
                    &&& final(reader).remaining() == old(reader).remaining().skip(
                        table@.size() as int,
                    )
                },
                (Err(e), Err(expected)) => e == expected,
                _ => false,
            },
    {
        let ghost input = reader.remaining();
        proof {
            lemma_rest_of_skipped(input);
        }
        let stream_count = io(reader.read_u8_le())?;
        let coupled_stream_count = io(reader.read_u8_le())?;
        assert(reader.remaining() =~= input.skip(2));
        let channel_mapping = io(reader.read_byte_vec(stream_count as usize))?;
        assert(channel_mapping@ =~= input.subrange(2, 2 + stream_count));
        assert(reader.remaining() =~= input.skip(2 + stream_count));
        Ok(ChannelMappingTable { stream_count, coupled_stream_count, channel_mapping })
    }
}

impl IdentificationHeader {
    /// Reads an identification header.
    ///
    /// The outcome is that of `identification_header_at` on the bytes that the source
    /// has left, and a header that was read is gone from the source. After an error
    /// bytes are gone from the front of the source and nowhere else; after a wrong
    /// signature they are its eight bytes.
    pub fn parse<T: ReadExt>(reader: &mut T) -> (r: Result<IdentificationHeader, ParseError>)
        ensures
            is_rest_of(final(reader).remaining(), old(reader).remaining()),
            r == Err::<IdentificationHeader, ParseError>(ParseError::InvalidOpusHeader)
                ==> final(reader).remaining() == old(reader).remaining().skip(8),
            match (r, identification_header_at(old(reader).remaining())) {
                (Ok(header), Ok(expected)) => {
                    &&& header@ == expected
                    &&& header@.well_formed()
                    &&& final(reader).remaining() == old(reader).remaining().skip(
                        header@.size() as int,
                    )
                },
                (Err(e), Err(expected)) => e == expected,
                _ => false,
            },
    {
        let ghost input = reader.remaining();
        proof {
            lemma_rest_of_skipped(input);
        }
        let signature = io(reader.read_eight_bytes())?;
        assert(signature@ =~= input.subrange(0, 8));
        if !(signature[0] == 0x4f && signature[1] == 0x70 && signature[2] == 0x75
            && signature[3] == 0x73 && signature[4] == 0x48 && signature[5] == 0x65
            && signature[6] == 0x61 && signature[7] == 0x64) {
            assert(signature@ != head_signature());
            return Err(ParseError::InvalidOpusHeader);
        }
        assert(signature@ =~= head_signature());
        let version = io(reader.read_u8_le())?;
        assert(reader.remaining() =~= input.skip(9));
        let channel_count = io(reader.read_u8_le())?;
        assert(reader.remaining() =~= input.skip(10));
        let pre_skip = io(reader.read_u16_le())?;
        assert(input.skip(10).take(2) =~= input.subrange(10, 12));
        assert(reader.remaining() =~= input.skip(12));
        let input_sample_rate = io(reader.read_u32_le())?;
        assert(input.skip(12).take(4) =~= input.subrange(12, 16));
        assert(reader.remaining() =~= input.skip(16));
        let output_gain = io(reader.read_i16_le())?;
        assert(input.skip(16).take(2) =~= input.subrange(16, 18));
        assert(reader.remaining() =~= input.skip(18));
        let channel_mapping_family = io(reader.read_u8_le())?;
        assert(reader.remaining() =~= input.skip(19));
        let channel_mapping_table = if channel_mapping_family != 0 {
            let table = ChannelMappingTable::parse(reader)?;
            assert(reader.remaining() =~= input.skip(19 + table@.size() as int));
            Some(table)
        } else {
            None
        };
        Ok(
            IdentificationHeader {
                version,
                channel_count,
                pre_skip,
                input_sample_rate,
                output_gain,
                channel_mapping_family,
                channel_mapping_table,
            },
        )
    }
}

} // verus!

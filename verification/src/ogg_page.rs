//! The page: the framing unit of the Ogg container.
//!
//! A page is read as it stands. Its checksum is carried along and never verified, and
//! a page that does not start with the capture pattern is an error: the reader does
//! not search the input for the next one.

use crate::conversion::{as_signed, le_value};
use crate::error::{io, short_read, DidNotReadEnough, ParseError};
use crate::read_ext::{is_rest_of, lemma_rest_of_skipped, ReadExt};
use vstd::prelude::*;

verus! {

/// The header flag of a page that continues the packet of the page before it.
pub const CONTINUATION: u8 = 0x01;

/// The header flag of the first page of a logical stream.
pub const FIRST_PAGE: u8 = 0x02;

/// The header flag of the last page of a logical stream.
pub const LAST_PAGE: u8 = 0x04;

/// The number of bytes of a page before its segment table.
pub const PAGE_HEADER_LEN: usize = 27;

/// The most bytes that a page can take: its header, 255 lacing values, and 255 bytes
/// of payload for each of them.
pub const MAX_PAGE_LEN: usize = 65307;

/// One page of the container.
#[derive(Debug, Clone, PartialEq, Eq)]
pub struct OggPage {
    pub version: u8,
    /// The flags `CONTINUATION`, `FIRST_PAGE` and `LAST_PAGE`.
    pub header_type: u8,
    pub granule_position: i64,
    pub bitstream_serial_number: u32,
    pub page_sequence_number: u32,
    /// The checksum as the page states it. It is not verified.
    pub crc_checksum: u32,
    /// The number of entries of the segment table.
    pub page_segments: u8,
    /// The lacing values. Their sum is the length of the payload.
    pub segment_table: Vec<u8>,
    pub payload: Vec<u8>,
}

/// A page as a mathematical value.
pub ghost struct OggPageView {
    pub version: u8,
    pub header_type: u8,
    pub granule_position: i64,
    pub bitstream_serial_number: u32,
    pub page_sequence_number: u32,
    pub crc_checksum: u32,
    pub page_segments: u8,
    pub segment_table: Seq<u8>,
    pub payload: Seq<u8>,
}

impl View for OggPage {
    type V = OggPageView;

    open spec fn view(&self) -> OggPageView {
        OggPageView {
            version: self.version,
            header_type: self.header_type,
            granule_position: self.granule_position,
            bitstream_serial_number: self.bitstream_serial_number,
            page_sequence_number: self.page_sequence_number,
            crc_checksum: self.crc_checksum,
            page_segments: self.page_segments,
            segment_table: self.segment_table@,
            payload: self.payload@,
        }
    }
}

impl OggPageView {
    /// The segment table has as many entries as the page says, and the payload is as
    /// long as the lacing values add up to.
    pub open spec fn well_formed(self) -> bool {
        &&& self.segment_table.len() == self.page_segments
        &&& self.payload.len() == lacing_sum(self.segment_table)
    }

    /// The number of bytes that the page takes in the container.
    pub open spec fn size(self) -> nat {
        PAGE_HEADER_LEN as nat + self.segment_table.len() + self.payload.len()
    }

    pub open spec fn is_continuation(self) -> bool {
        self.header_type & CONTINUATION != 0
    }

    pub open spec fn is_first(self) -> bool {
        self.header_type & FIRST_PAGE != 0
    }

    pub open spec fn is_last(self) -> bool {
        self.header_type & LAST_PAGE != 0
    }
}

/// What reading the pages of one packet comes to.
pub ghost struct PageRun {
    /// The payloads of the pages, one after the other.
    pub data: Seq<u8>,
    /// The page that was read behind them and begins the next packet, if there is
    /// one.
    pub next: Option<OggPageView>,
    /// The bytes that are left in the input.
    pub rest: Seq<u8>,
}

/// A page that may be there, as a mathematical value.
pub open spec fn optional_page_view(page: Option<OggPage>) -> Option<OggPageView> {
    match page {
        Some(page) => Some(page@),
        None => None,
    }
}

/// The capture pattern that every page starts with: `OggS`.
pub open spec fn capture_pattern() -> Seq<u8> {
    seq![0x4fu8, 0x67u8, 0x67u8, 0x53u8]
}

/// The sum of the lacing values of a segment table.
pub open spec fn lacing_sum(table: Seq<u8>) -> nat
    decreases table.len(),
{
    if table.len() == 0 {
        0
    } else {
        lacing_sum(table.drop_last()) + table.last() as nat
    }
}

/// The page that `bytes` starts with, or the error that reading it meets: the first,
/// in the order of the fields, of a field that the input ends in and a capture
/// pattern that is not `OggS`.
pub open spec fn page_at(bytes: Seq<u8>) -> Result<OggPageView, ParseError> {
    let len = bytes.len();
    if len < 4 {
        Err(short_read(len, 0, 4))
    } else if bytes.subrange(0, 4) != capture_pattern() {
        Err(ParseError::InvalidOggPage)
    } else if len < 5 {
        Err(short_read(len, 4, 1))
    } else if len < 6 {
        Err(short_read(len, 5, 1))
    } else if len < 14 {
        Err(short_read(len, 6, 8))
    } else if len < 18 {
        Err(short_read(len, 14, 4))
    } else if len < 22 {
        Err(short_read(len, 18, 4))
    } else if len < 26 {
        Err(short_read(len, 22, 4))
    } else if len < 27 {
        Err(short_read(len, 26, 1))
    } else {
        let segments = bytes[26] as int;
        if len < 27 + segments {
            Err(short_read(len, 27, segments as nat))
        } else {
            let table = bytes.subrange(27, 27 + segments);
            let payload_len = lacing_sum(table) as int;
            if len < 27 + segments + payload_len {
                Err(short_read(len, (27 + segments) as nat, payload_len as nat))
            } else {
                Ok(
                    OggPageView {
                        version: bytes[4],
                        header_type: bytes[5],
                        granule_position: as_signed(
                            le_value(bytes.subrange(6, 14)),
                            0x1_0000_0000_0000_0000,
                        ) as i64,
                        bitstream_serial_number: le_value(bytes.subrange(14, 18)) as u32,
                        page_sequence_number: le_value(bytes.subrange(18, 22)) as u32,
                        crc_checksum: le_value(bytes.subrange(22, 26)) as u32,
                        page_segments: bytes[26],
                        segment_table: table,
                        payload: bytes.subrange(27 + segments, 27 + segments + payload_len),
                    },
                )
            }
        }
    }
}

/// A segment table of `n` entries adds up to at most 255 times `n`.
pub proof fn lemma_lacing_sum_bound(table: Seq<u8>)
    ensures
        lacing_sum(table) <= 255 * table.len(),
    decreases table.len(),
{
    if table.len() > 0 {
        lemma_lacing_sum_bound(table.drop_last());
    }
}

/// Every page that `page_at` accepts is well formed: its payload is as long as its
/// lacing values add up to. It is no longer than the input and than `MAX_PAGE_LEN`.
pub proof fn lemma_page_at_well_formed(bytes: Seq<u8>)
    ensures
        page_at(bytes) matches Ok(page) ==> page.well_formed() && page.size() <= bytes.len()
            && page.size() <= MAX_PAGE_LEN,
{
    if let Ok(page) = page_at(bytes) {
        lemma_lacing_sum_bound(page.segment_table);
    }
}

/// An input on which reading a page ends in a short read is shorter than the
/// longest page.
pub proof fn lemma_short_page_is_short(bytes: Seq<u8>)
    ensures
        page_at(bytes) matches Err(ParseError::Io(_)) ==> bytes.len() < MAX_PAGE_LEN,
{
    if bytes.len() >= 27 {
        let segments = bytes[26] as int;
        if bytes.len() >= 27 + segments {
            lemma_lacing_sum_bound(bytes.subrange(27, 27 + segments));
        }
    }
}

/// An input of four bytes or more that differs from the capture pattern in any of
/// the first four is rejected as `InvalidOggPage`, whatever else it holds. So altering
/// any byte of the capture pattern of a page has the page rejected.
pub proof fn lemma_altered_capture_pattern_is_rejected(bytes: Seq<u8>, position: int)
    requires
        0 <= position < 4 <= bytes.len(),
        bytes[position] != capture_pattern()[position],
    ensures
        page_at(bytes) == Err::<OggPageView, ParseError>(ParseError::InvalidOggPage),
{
}

/// Adds up the lacing values of a segment table.
fn payload_len(table: &Vec<u8>) -> (total: usize)
    requires
        table@.len() <= 255,
    ensures
        total == lacing_sum(table@),
{
    let mut total: usize = 0;
    let mut i: usize = 0;
    while i < table.len()
        invariant
            i <= table@.len() <= 255,
            total == lacing_sum(table@.take(i as int)),
            total <= 255 * i,
        decreases table@.len() - i,
    {
        assert(table@.take(i + 1).drop_last() =~= table@.take(i as int));
        total = total + table[i] as usize;
        i += 1;
    }
    assert(table@.take(i as int) =~= table@);
    total
}

impl OggPage {
    /// Whether the page continues the packet of the page before it.
    pub fn is_continuation(&self) -> (r: bool)
        ensures
            r == self@.is_continuation(),
    {
        self.header_type & CONTINUATION != 0
    }

    /// Whether the page is the first of its logical stream.
    pub fn is_first(&self) -> (r: bool)
        ensures
            r == self@.is_first(),
    {
        self.header_type & FIRST_PAGE != 0
    }

    /// Whether the page is the last of its logical stream.
    pub fn is_last(&self) -> (r: bool)
        ensures
            r == self@.is_last(),
    {
        self.header_type & LAST_PAGE != 0
    }

    /// Reads the next page, or finds the source at its end.
    ///
    /// With no byte left there is no page and no error. With any byte left the
    /// outcome is that of `page_at` on the bytes left, and a page that was read is
    /// gone from the source. Whatever the outcome, no more than `MAX_PAGE_LEN` bytes
    /// are taken from the front of the source; after a wrong capture pattern they
    /// are its four bytes.
    pub fn parse_next<T: ReadExt>(reader: &mut T) -> (r: Result<Option<OggPage>, ParseError>)
        ensures
            is_rest_of(final(reader).remaining(), old(reader).remaining()),
            old(reader).remaining().len() - final(reader).remaining().len() <= MAX_PAGE_LEN,
            r == Err::<Option<OggPage>, ParseError>(ParseError::InvalidOggPage)
                ==> final(reader).remaining() == old(reader).remaining().skip(4),
            match r {
                Ok(None) => {
                    &&& old(reader).remaining().len() == 0
                    &&& final(reader).remaining() == old(reader).remaining()
                },
                Ok(Some(page)) => {
                    &&& page_at(old(reader).remaining()) matches Ok(expected)
                    &&& page@ == expected
                    &&& page@.well_formed()
                    &&& page@.size() <= old(reader).remaining().len()
                    &&& final(reader).remaining() == old(reader).remaining().skip(
                        page@.size() as int,
                    )
                },
                Err(e) => {
                    &&& old(reader).remaining().len() > 0
                    &&& page_at(old(reader).remaining()) matches Err(expected)
                    &&& e == expected
                },
            },
    {
        let ghost input = reader.remaining();
        proof {
            lemma_rest_of_skipped(input);
            lemma_short_page_is_short(input);
            lemma_page_at_well_formed(input);
        }
        let pattern = match reader.read_four_bytes() {
            Ok(pattern) => pattern,
            Err(e) => {
                if e.got == 0 {
                    assert(reader.remaining() =~= input);
                    return Ok(None);
                }
                return Err(ParseError::Io(e));
            },
        };
        assert(pattern@ =~= input.subrange(0, 4));
        if !(pattern[0] == 0x4f && pattern[1] == 0x67 && pattern[2] == 0x67 && pattern[3]
            == 0x53) {
            assert(pattern@ != capture_pattern());
            return Err(ParseError::InvalidOggPage);
        }
        assert(pattern@ =~= capture_pattern());
        assert(reader.remaining() == input.skip(4));
        let version = io(reader.read_u8_le())?;
        assert(reader.remaining() =~= input.skip(5));
        let header_type = io(reader.read_u8_le())?;
        assert(reader.remaining() =~= input.skip(6));
        let granule_position = io(reader.read_i64_le())?;
        assert(input.skip(6).take(8) =~= input.subrange(6, 14));
        assert(reader.remaining() =~= input.skip(14));
        let bitstream_serial_number = io(reader.read_u32_le())?;
        assert(input.skip(14).take(4) =~= input.subrange(14, 18));
        assert(reader.remaining() =~= input.skip(18));
        let page_sequence_number = io(reader.read_u32_le())?;
        assert(input.skip(18).take(4) =~= input.subrange(18, 22));
        assert(reader.remaining() =~= input.skip(22));
        let crc_checksum = io(reader.read_u32_le())?;
        assert(input.skip(22).take(4) =~= input.subrange(22, 26));
        assert(reader.remaining() =~= input.skip(26));
        let page_segments = io(reader.read_u8_le())?;
        assert(reader.remaining() =~= input.skip(27));
        let segment_table = io(reader.read_byte_vec(page_segments as usize))?;
        assert(segment_table@ =~= input.subrange(27, 27 + page_segments));
        assert(reader.remaining() =~= input.skip(27 + page_segments));
        let total = payload_len(&segment_table);
        let payload = io(reader.read_byte_vec(total))?;
        assert(payload@ =~= input.subrange(27 + page_segments, 27 + page_segments + total));
        assert(reader.remaining() =~= input.skip(27 + page_segments + total));
        Ok(
            Some(
                OggPage {
                    version,
                    header_type,
                    granule_position,
                    bitstream_serial_number,
                    page_sequence_number,
                    crc_checksum,
                    page_segments,
                    segment_table,
                    payload,
                },
            ),
        )
    }

    /// Reads one page.
    ///
    /// The outcome is that of `page_at` on the bytes that the source has left. For
    /// every page that is accepted the payload is as long as the lacing values add
    /// up to, and the page is gone from the source. Whatever the outcome, no more
    /// than `MAX_PAGE_LEN` bytes are taken from the front of the source; after a
    /// wrong capture pattern they are its four bytes.
    pub fn parse<T: ReadExt>(reader: &mut T) -> (r: Result<OggPage, ParseError>)
        ensures
            is_rest_of(final(reader).remaining(), old(reader).remaining()),
            old(reader).remaining().len() - final(reader).remaining().len() <= MAX_PAGE_LEN,
            r == Err::<OggPage, ParseError>(ParseError::InvalidOggPage)
                ==> final(reader).remaining() == old(reader).remaining().skip(4),
            match (r, page_at(old(reader).remaining())) {
                (Ok(page), Ok(expected)) => {
                    &&& page@ == expected
                    &&& page.payload@.len() == lacing_sum(page.segment_table@)
                    &&& page.segment_table@.len() == page.page_segments
                    &&& final(reader).remaining() == old(reader).remaining().skip(
                        page@.size() as int,
                    )
                },
                (Err(e), Err(expected)) => e == expected,
                _ => false,
            },
    {
        match OggPage::parse_next(reader) {
            Ok(Some(page)) => Ok(page),
            Ok(None) => Err(ParseError::Io(DidNotReadEnough { expected: 4, got: 0 })),
            Err(e) => Err(e),
        }
    }
}

} // verus!

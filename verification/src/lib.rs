//! Reads the headers and the audio packets of an Opus stream in an Ogg container.
//!
//! The input is a sequence of pages. The first page holds the identification header,
//! the pages after it hold the comment header, and all later pages hold the audio
//! packets. Any fault in the input ends the parse with an error: nothing is repaired
//! and no partial result is given.

pub mod comment_header;
pub mod conversion;
pub mod error;
pub mod ogg_page;
pub mod opus_header_structs;
pub mod opus_packets;
pub mod packet_stream;
pub mod read_ext;

use crate::comment_header::{
    comment_at, comment_header_at, comment_pages_at, gather_comment_pages, CommentHeader,
    CommentHeaderView,
};
use crate::error::ParseError;
use crate::ogg_page::{page_at, OggPage};
use crate::opus_header_structs::{
    identification_header_at, IdentificationHeader, IdentificationHeaderView,
};
use crate::opus_packets::{packets_at, OpusPacket, OpusPackets};
use crate::packet_stream::{
    audio_packet, end_error, fault_ahead, fault_error, header_packet, next_packet, ogg_fault,
    ogg_packets, open_stream, packets_ahead, OggFault,
};
use crate::read_ext::{is_rest_of, lemma_rest_of_rest, ReadExt, SliceReader};
use vstd::prelude::*;

verus! {

/// The most bytes that a comment header may hold: 120 MiB.
pub const MAX_COMMENT_HEADER_LEN: u32 = 125_829_120;

/// Both headers of an Opus stream.
#[derive(Debug, Clone, PartialEq, Eq)]
pub struct OpusHeaders {
    pub id: IdentificationHeader,
    pub comments: CommentHeader,
}

/// Both headers as a mathematical value.
pub ghost struct OpusHeadersView {
    pub id: IdentificationHeaderView,
    pub comments: CommentHeaderView,
}

impl View for OpusHeaders {
    type V = OpusHeadersView;

    open spec fn view(&self) -> OpusHeadersView {
        OpusHeadersView { id: self.id@, comments: self.comments@ }
    }
}

/// The headers of the stream that `bytes` holds from its beginning, and the bytes
/// that are left when they have been read.
///
/// The first page must have the first-page flag: one without it is `InvalidOggPage`.
/// Its payload is the identification header. The pages behind it hold the comment
/// header, as `comment_at` says. An input without a page for either is
/// `HeadersNotFound`. The end of the comment header is found by reading the page
/// behind it, so where there is such a page, the bytes that are left are those behind
/// it.
pub open spec fn headers_at(bytes: Seq<u8>) -> Result<(OpusHeadersView, Seq<u8>), ParseError> {
    if bytes.len() == 0 {
        Err(ParseError::HeadersNotFound)
    } else {
        match page_at(bytes) {
            Err(e) => Err(e),
            Ok(first) => if !first.is_first() {
                Err(ParseError::InvalidOggPage)
            } else {
                match identification_header_at(first.payload) {
                    Err(e) => Err(e),
                    Ok(id) => match comment_at(
                        bytes.skip(first.size() as int),
                        MAX_COMMENT_HEADER_LEN as nat,
                    ) {
                        Err(e) => Err(e),
                        Ok((comments, run)) => Ok((OpusHeadersView { id, comments }, run.rest)),
                    },
                }
            },
        }
    }
}

/// The audio packets of the stream that `bytes` holds from its beginning, and the
/// bytes that are left when the stream has ended.
///
/// The first page must have the first-page flag: one without it is `InvalidOggPage`.
/// It and the pages of the comment header are passed over: they are read as pages and
/// not decoded. A stream that ends with the comment header has no packets.
pub open spec fn stream_packets_at(
    bytes: Seq<u8>,
) -> Result<(Seq<Seq<u8>>, Seq<u8>), ParseError> {
    if bytes.len() == 0 {
        Err(ParseError::HeadersNotFound)
    } else {
        match page_at(bytes) {
            Err(e) => Err(e),
            Ok(first) => if !first.is_first() {
                Err(ParseError::InvalidOggPage)
            } else {
                match comment_pages_at(
                    bytes.skip(first.size() as int),
                    MAX_COMMENT_HEADER_LEN as nat,
                ) {
                    Err(e) => Err(e),
                    Ok(run) => match run.next {
                        None => Ok((Seq::empty(), run.rest)),
                        Some(page) => packets_at(page, run.rest),
                    },
                }
            },
        }
    }
}

/// Reads both headers of a stream from its beginning.
///
/// The outcome is that of `headers_at` on the bytes that the source has left: the
/// headers, or the first error. The page behind the comment header, which begins the
/// first audio packet, is read and dropped: to go on with the audio packets, read
/// the stream with `parse_packets` from its beginning. Whatever the outcome, bytes
/// are gone from the front of the source and nowhere else.
pub fn parse<T: ReadExt>(reader: &mut T) -> (r: Result<OpusHeaders, ParseError>)
    ensures
        is_rest_of(final(reader).remaining(), old(reader).remaining()),
        match (r, headers_at(old(reader).remaining())) {
            (Ok(headers), Ok((expected, rest))) => {
                &&& headers@ == expected
                &&& final(reader).remaining() == rest
            },
            (Err(e), Err(expected)) => e == expected,
            _ => false,
        },
{
    let first = match OggPage::parse_next(reader)? {
        Some(page) => page,
        None => {
            return Err(ParseError::HeadersNotFound);
        },
    };
    if !first.is_first() {
        return Err(ParseError::InvalidOggPage);
    }
    let mut payload = SliceReader::new(first.payload.as_slice());
    let id = IdentificationHeader::parse(&mut payload)?;
    proof {
        lemma_rest_of_rest(old(reader).remaining(), reader.remaining());
    }
    let (comments, _) = CommentHeader::assemble(reader, MAX_COMMENT_HEADER_LEN)?;
    Ok(OpusHeaders { id, comments })
}

/// Reads the audio packets of a stream from its beginning.
///
/// The outcome is that of `stream_packets_at` on the bytes that the source has left:
/// the packets in order, with the bytes behind the stream left in the source, or the
/// first error. Whatever the outcome, bytes are gone from the front of the source and
/// nowhere else.
pub fn parse_packets<T: ReadExt>(reader: &mut T) -> (r: Result<OpusPackets, ParseError>)
    ensures
        is_rest_of(final(reader).remaining(), old(reader).remaining()),
        match (r, stream_packets_at(old(reader).remaining())) {
            (Ok(packets), Ok((expected, rest))) => {
                &&& packets@ == expected
                &&& final(reader).remaining() == rest
            },
            (Err(e), Err(expected)) => e == expected,
            _ => false,
        },
{
    let first = match OggPage::parse_next(reader)? {
        Some(page) => page,
        None => {
            return Err(ParseError::HeadersNotFound);
        },
    };
    if !first.is_first() {
        return Err(ParseError::InvalidOggPage);
    }
    proof {
        lemma_rest_of_rest(old(reader).remaining(), reader.remaining());
    }
    let (_, next) = gather_comment_pages(reader, MAX_COMMENT_HEADER_LEN)?;
    proof {
        lemma_rest_of_rest(old(reader).remaining(), reader.remaining());
    }
    match next {
        Some(page) => OpusPackets::parse(reader, page),
        None => {
            let packets = OpusPackets(Vec::new());
            Ok(packets)
        },
    }
}

/// The headers that two packets hold: the first the identification header, the
/// second the comment header, with its own length as the declared length. A second
/// packet of more than `MAX_COMMENT_HEADER_LEN` bytes is `CommentHeaderTooLarge`.
pub open spec fn headers_of_packets(
    first: Seq<u8>,
    second: Seq<u8>,
) -> Result<OpusHeadersView, ParseError> {
    match identification_header_at(first) {
        Err(e) => Err(e),
        Ok(id) => if second.len() > MAX_COMMENT_HEADER_LEN {
            Err(ParseError::CommentHeaderTooLarge)
        } else {
            match comment_header_at(second, second.len()) {
                Err(e) => Err(e),
                Ok((comments, _)) => Ok(OpusHeadersView { id, comments }),
            }
        },
    }
}

/// The headers of a stream, given its packets and how they end.
///
/// The first packet holds the identification header and the second the comment
/// header, as `headers_of_packets` says. Where a packet is due and the packets have
/// ended, the error is `end_error` of how they ended; the identification header is
/// decoded before the second packet is asked for, so its error comes first.
pub open spec fn headers_of_stream(
    packets: Seq<Seq<u8>>,
    fault: Option<OggFault>,
) -> Result<OpusHeadersView, ParseError> {
    if packets.len() == 0 {
        Err(end_error(fault))
    } else {
        match identification_header_at(packets[0]) {
            Err(e) => Err(e),
            Ok(_) => if packets.len() == 1 {
                Err(end_error(fault))
            } else {
                headers_of_packets(packets[0], packets[1])
            },
        }
    }
}

/// The audio packets of a stream, given its packets and how they end.
///
/// The first two packets hold the headers and are passed over; without them the
/// error is `end_error` of how the packets ended. Every packet is read before there
/// is a result, so a fault behind the last packet is the error of the whole.
pub open spec fn audio_of_stream(
    packets: Seq<Seq<u8>>,
    fault: Option<OggFault>,
) -> Result<Seq<Seq<u8>>, ParseError> {
    if packets.len() < 2 {
        Err(end_error(fault))
    } else {
        match fault {
            Some(fault) => Err(fault_error(fault)),
            None => Ok(packets.skip(2)),
        }
    }
}

/// Decodes the comment header that a packet holds.
fn comments_from_packet(packet: &[u8]) -> (r: Result<CommentHeader, ParseError>)
    ensures
        packet@.len() > MAX_COMMENT_HEADER_LEN ==> r == Err::<CommentHeader, ParseError>(
            ParseError::CommentHeaderTooLarge,
        ),
        packet@.len() <= MAX_COMMENT_HEADER_LEN ==> match (
            r,
            comment_header_at(packet@, packet@.len()),
        ) {
            (Ok(comments), Ok((expected, _))) => comments@ == expected,
            (Err(e), Err(expected)) => e == expected,
            _ => false,
        },
{
    if packet.len() > MAX_COMMENT_HEADER_LEN as usize {
        return Err(ParseError::CommentHeaderTooLarge);
    }
    let mut reader = SliceReader::new(packet);
    CommentHeader::parse(&mut reader, packet.len() as u32)
}

/// Decodes both headers from the first two packets of a stream.
pub fn headers_from_packets(first: &[u8], second: &[u8]) -> (r: Result<OpusHeaders, ParseError>)
    ensures
        match (r, headers_of_packets(first@, second@)) {
            (Ok(headers), Ok(expected)) => headers@ == expected,
            (Err(e), Err(expected)) => e == expected,
            _ => false,
        },
{
    let mut reader = SliceReader::new(first);
    let id = IdentificationHeader::parse(&mut reader)?;
    let comments = comments_from_packet(second)?;
    Ok(OpusHeaders { id, comments })
}

/// Reads both headers of a stream from a container held in memory, with the packets
/// taken from `ogg`.
///
/// This is not the reading of `parse`: `ogg` verifies the checksum of every page,
/// looks for the next capture pattern where none stands, and cuts the packets by the
/// lacing values.
///
/// The outcome is that of `headers_of_stream` on the packets that `ogg` finds in
/// `data` and on how they end. `ogg` hands a packet over when it has gathered it
/// whole, so the ceiling on the comment header is held against the packet as it
/// comes, not page by page.
pub fn parse_from_read(data: Vec<u8>) -> (r: Result<OpusHeaders, ParseError>)
    ensures
        match (r, headers_of_stream(ogg_packets(data@), ogg_fault(data@))) {
            (Ok(headers), Ok(expected)) => headers@ == expected,
            (Err(e), Err(expected)) => e == expected,
            _ => false,
        },
{
    let mut stream = open_stream(data);
    let first = header_packet(next_packet(&mut stream))?;
    let mut reader = SliceReader::new(first.as_slice());
    let id = IdentificationHeader::parse(&mut reader)?;
    let second = header_packet(next_packet(&mut stream))?;
    let comments = comments_from_packet(second.as_slice())?;
    Ok(OpusHeaders { id, comments })
}

/// Reads the audio packets of a stream from a container held in memory, with the
/// packets taken from `ogg`.
///
/// This is not the reading of `parse_packets`: `ogg` verifies the checksum of every
/// page, looks for the next capture pattern where none stands, and cuts the packets
/// by the lacing values, so that one page may hold several.
///
/// The outcome is that of `audio_of_stream` on the packets that `ogg` finds in
/// `data` and on how they end: every packet behind the two of the headers, in order,
/// where the container has two packets or more and ends without a fault.
pub fn get_opus_payload_from_read(data: Vec<u8>) -> (r: Result<OpusPackets, ParseError>)
    ensures
        match (r, audio_of_stream(ogg_packets(data@), ogg_fault(data@))) {
            (Ok(packets), Ok(expected)) => packets@ == expected,
            (Err(e), Err(expected)) => e == expected,
            _ => false,
        },
{
    let mut stream = open_stream(data);
    let mut skipped: usize = 0;
    while skipped < 2
        invariant
            skipped <= 2,
            skipped <= ogg_packets(data@).len(),
            packets_ahead(stream) == ogg_packets(data@).skip(skipped as int),
            fault_ahead(stream) == ogg_fault(data@),
        decreases 2 - skipped,
    {
        header_packet(next_packet(&mut stream))?;
        skipped += 1;
    }
    let mut packets: Vec<OpusPacket> = Vec::new();
    loop
        invariant
            ogg_packets(data@).len() >= 2,
            fault_ahead(stream) == ogg_fault(data@),
            OpusPackets(packets)@ + packets_ahead(stream) == ogg_packets(data@).skip(2),
        decreases packets_ahead(stream).len(),
    {
        match audio_packet(next_packet(&mut stream))? {
            Some(packet) => {
                packets.push(packet);
            },
            None => {
                return Ok(OpusPackets(packets));
            },
        }
    }
}

} // verus!

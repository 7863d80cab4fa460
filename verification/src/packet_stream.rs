//! Packets as the `ogg` crate frames them.
//!
//! `ogg` reads the container in full: it finds the pages, verifies their checksums
//! and cuts the packets by the lacing values. What it does is not verified here:
//! `open_stream` and `next_packet` say what the library takes from it on trust.

use crate::error::ParseError;
use crate::opus_packets::OpusPacket;
use vstd::prelude::*;
use vstd::std_specs::convert::FromSpecImpl;

verus! {

/// A fault that `ogg` reports in a container: the variants of `ogg::OggReadError`,
/// each with the numbers it carries.
#[derive(Debug, Clone, Copy, PartialEq, Eq, Structural)]
pub enum OggFault {
    /// No capture pattern was found where a page was due.
    NoCapturePatternFound,
    /// A page states a stream structure version other than 0: the one given.
    InvalidStreamStructVer(u8),
    /// The checksum that a page states, and the one that its bytes give.
    HashMismatch(u32, u32),
    /// A read failed. Of a container held in memory this means that it ended in the
    /// middle of a page.
    ReadError,
    /// The pages do not follow one another as the format asks.
    InvalidData,
}

/// A reader of the `ogg` crate, `ogg::PacketReader`, over a container that is held in
/// memory.
#[verifier::external_body]
pub struct PacketStream {
    reader: ogg::PacketReader<std::io::Cursor<Vec<u8>>>,
}

/// The packets that `ogg::PacketReader::new` and then `read_packet`, called again and
/// again, deliver from a container that holds `data`, up to the first call that
/// delivers none.
pub uninterp spec fn ogg_packets(data: Seq<u8>) -> Seq<Seq<u8>>;

/// How the packets of a container that holds `data` end: the fault that the first
/// call of `read_packet` which delivers none reports, or `None` where that call
/// finds the container at its end.
pub uninterp spec fn ogg_fault(data: Seq<u8>) -> Option<OggFault>;

/// The packets that a reader has yet to deliver before the first call of
/// `read_packet` that delivers none.
pub uninterp spec fn packets_ahead(stream: PacketStream) -> Seq<Seq<u8>>;

/// The fault that the first call of `read_packet` which delivers no packet will
/// report, or `None` where that call will find the container at its end.
pub uninterp spec fn fault_ahead(stream: PacketStream) -> Option<OggFault>;

/// `ogg::PacketReader::new` on a cursor over `data`. The reader has read nothing yet:
/// what it will deliver are the packets of `data`, and they will end as those of
/// `data` end.
#[verifier::external_body]
pub(crate) fn open_stream(data: Vec<u8>) -> (stream: PacketStream)
    ensures
        packets_ahead(stream) == ogg_packets(data@),
        fault_ahead(stream) == ogg_fault(data@),
{
    PacketStream { reader: ogg::PacketReader::new(std::io::Cursor::new(data)) }
}

/// `ogg::PacketReader::read_packet`, with the packet reduced to its data and the
/// error to its variant. A packet that is delivered is the first of those ahead; the
/// others stay ahead, and so does the way they end. Where none is delivered, none
/// was ahead, and the call is the one that says how the packets end: with the
/// container, or with the fault that is reported.
#[verifier::external_body]
pub(crate) fn next_packet(stream: &mut PacketStream) -> (r: Result<Option<Vec<u8>>, OggFault>)
    ensures
        match r {
            Ok(Some(data)) => {
                &&& packets_ahead(*old(stream)).len() > 0
                &&& data@ == packets_ahead(*old(stream))[0]
                &&& packets_ahead(*final(stream)) == packets_ahead(*old(stream)).drop_first()
                &&& fault_ahead(*final(stream)) == fault_ahead(*old(stream))
            },
            Ok(None) => {
                &&& packets_ahead(*old(stream)).len() == 0
                &&& fault_ahead(*old(stream)) is None
            },
            Err(fault) => {
                &&& packets_ahead(*old(stream)).len() == 0
                &&& fault_ahead(*old(stream)) == Some(fault)
            },
        },
{
    match stream.reader.read_packet() {
        Ok(Some(packet)) => Ok(Some(packet.data)),
        Ok(None) => Ok(None),
        Err(ogg::OggReadError::NoCapturePatternFound) => Err(OggFault::NoCapturePatternFound),
        Err(ogg::OggReadError::InvalidStreamStructVer(version)) => Err(
            OggFault::InvalidStreamStructVer(version),
        ),
        Err(ogg::OggReadError::HashMismatch(stated, found)) => Err(
            OggFault::HashMismatch(stated, found),
        ),
        Err(ogg::OggReadError::ReadError(_)) => Err(OggFault::ReadError),
        Err(ogg::OggReadError::InvalidData) => Err(OggFault::InvalidData),
    }
}

/// The error that a fault of the container is reported as: a container that ends in
/// the middle of a page is `UnexpectedEndOfStream`, and every other fault is a page
/// that is not valid, `InvalidOggPage`.
pub open spec fn fault_error(fault: OggFault) -> ParseError {
    match fault {
        OggFault::ReadError => ParseError::UnexpectedEndOfStream,
        _ => ParseError::InvalidOggPage,
    }
}

/// The error of a stream whose packets end before the one that is due: that of the
/// fault, or `HeadersNotFound` where the container has ended.
pub open spec fn end_error(fault: Option<OggFault>) -> ParseError {
    match fault {
        Some(fault) => fault_error(fault),
        None => ParseError::HeadersNotFound,
    }
}

impl From<OggFault> for ParseError {
    fn from(fault: OggFault) -> (error: ParseError) {
        match fault {
            OggFault::ReadError => ParseError::UnexpectedEndOfStream,
            _ => ParseError::InvalidOggPage,
        }
    }
}

impl FromSpecImpl<OggFault> for ParseError {
    open spec fn obeys_from_spec() -> bool {
        true
    }

    open spec fn from_spec(fault: OggFault) -> ParseError {
        fault_error(fault)
    }
}

/// What a read means where a packet of the headers is due: the packet, or
/// `HeadersNotFound` where the container has ended, or the error of the fault that
/// `ogg` reports.
pub fn header_packet(read: Result<Option<Vec<u8>>, OggFault>) -> (r: Result<Vec<u8>, ParseError>)
    ensures
        match read {
            Ok(Some(data)) => r == Ok::<Vec<u8>, ParseError>(data),
            Ok(None) => r == Err::<Vec<u8>, ParseError>(ParseError::HeadersNotFound),
            Err(fault) => r == Err::<Vec<u8>, ParseError>(fault_error(fault)),
        },
{
    match read {
        Ok(Some(data)) => Ok(data),
        Ok(None) => Err(ParseError::HeadersNotFound),
        Err(fault) => Err(ParseError::from(fault)),
    }
}

/// What a read means where the headers have been passed: an audio packet, or the
/// end of the stream, or the error of the fault that `ogg` reports.
pub fn audio_packet(
    read: Result<Option<Vec<u8>>, OggFault>,
) -> (r: Result<Option<OpusPacket>, ParseError>)
    ensures
        match read {
            Ok(Some(data)) => r == Ok::<Option<OpusPacket>, ParseError>(Some(OpusPacket(data))),
            Ok(None) => r == Ok::<Option<OpusPacket>, ParseError>(None),
            Err(fault) => r == Err::<Option<OpusPacket>, ParseError>(fault_error(fault)),
        },
{
    match read {
        Ok(Some(data)) => Ok(Some(OpusPacket(data))),
        Ok(None) => Ok(None),
        Err(fault) => Err(ParseError::from(fault)),
    }
}

} // verus!

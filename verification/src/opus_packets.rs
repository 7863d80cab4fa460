//! The audio packets: what the pages after the headers add up to.
//!
//! Packet boundaries are taken from the pages alone. A page without the continuation
//! flag begins a packet; a page with it extends the packet before it. The page with
//! the last-page flag ends the stream, and so does the end of the input.

use crate::error::ParseError;
use crate::ogg_page::{optional_page_view, page_at, OggPage, OggPageView, PageRun};
use crate::read_ext::{is_rest_of, lemma_rest_of_rest, lemma_rest_of_skipped, ReadExt};
use vstd::prelude::*;

verus! {

/// One audio packet: the bytes of one access unit.
#[derive(Debug, Default, Clone, PartialEq, Eq)]
pub struct OpusPacket(pub Vec<u8>);

/// The audio packets of a stream, in order.
#[derive(Debug, Default, Clone, PartialEq, Eq)]
pub struct OpusPackets(pub Vec<OpusPacket>);

impl View for OpusPacket {
    type V = Seq<u8>;

    open spec fn view(&self) -> Seq<u8> {
        self.0@
    }
}

impl View for OpusPackets {
    type V = Seq<Seq<u8>>;

    open spec fn view(&self) -> Seq<Seq<u8>> {
        self.0@.map_values(|packet: OpusPacket| packet@)
    }
}

/// What follows the pages of a packet that have been read so far, in an input of
/// which `bytes` are left.
///
/// At the end of the input the packet is complete and nothing follows. A page with the
/// continuation flag belongs to the packet; if it has the last-page flag too, the
/// packet ends with it and nothing follows. A page without the continuation flag ends
/// the packet and begins the next one. A page that cannot be read is an error.
pub open spec fn packet_tail_at(bytes: Seq<u8>) -> Result<PageRun, ParseError>
    decreases bytes.len(),
{
    if bytes.len() == 0 {
        Ok(PageRun { data: Seq::empty(), next: None, rest: bytes })
    } else {
        match page_at(bytes) {
            Err(e) => Err(e),
            Ok(page) => {
                let after = bytes.skip(page.size() as int);
                if !page.is_continuation() {
                    Ok(PageRun { data: Seq::empty(), next: Some(page), rest: after })
                } else if page.is_last() {
                    Ok(PageRun { data: page.payload, next: None, rest: after })
                } else {
                    match packet_tail_at(after) {
                        Err(e) => Err(e),
                        Ok(tail) => Ok(
                            PageRun {
                                data: page.payload + tail.data,
                                next: tail.next,
                                rest: tail.rest,
                            },
                        ),
                    }
                }
            },
        }
    }
}

/// The packet that begins with the page `first`, in an input of which `bytes` are
/// left behind that page.
///
/// The first page begins the packet whatever its continuation flag says. If it has
/// the last-page flag the packet is its payload and the input is not touched.
pub open spec fn packet_at(first: OggPageView, bytes: Seq<u8>) -> Result<PageRun, ParseError> {
    if first.is_last() {
        Ok(PageRun { data: first.payload, next: None, rest: bytes })
    } else {
        match packet_tail_at(bytes) {
            Err(e) => Err(e),
            Ok(tail) => Ok(
                PageRun { data: first.payload + tail.data, next: tail.next, rest: tail.rest },
            ),
        }
    }
}

/// The packets of the stream whose next packet begins with the page `first`, in an
/// input of which `bytes` are left behind that page; and the bytes that are left
/// when the stream has ended.
pub open spec fn packets_at(
    first: OggPageView,
    bytes: Seq<u8>,
) -> Result<(Seq<Seq<u8>>, Seq<u8>), ParseError>
    decreases bytes.len(),
    via packets_at_terminates
{
    match packet_at(first, bytes) {
        Err(e) => Err(e),
        Ok(read) => match read.next {
            None => Ok((seq![read.data], read.rest)),
            Some(next) => match packets_at(next, read.rest) {
                Err(e) => Err(e),
                Ok((more, rest)) => Ok((seq![read.data] + more, rest)),
            },
        },
    }
}

/// The pages that are read from an input of which `bytes` are left: every page up to
/// the first that has the last-page flag, or up to the end of the input. A page that
/// cannot be read is an error.
pub open spec fn pages_at(bytes: Seq<u8>) -> Result<Seq<OggPageView>, ParseError>
    decreases bytes.len(),
{
    if bytes.len() == 0 {
        Ok(Seq::empty())
    } else {
        match page_at(bytes) {
            Err(e) => Err(e),
            Ok(page) => if page.is_last() {
                Ok(seq![page])
            } else {
                match pages_at(bytes.skip(page.size() as int)) {
                    Err(e) => Err(e),
                    Ok(more) => Ok(seq![page] + more),
                }
            },
        }
    }
}

/// The pages of the stream whose next packet begins with the page `first`, in an
/// input of which `bytes` are left behind that page: that page and, unless it has the
/// last-page flag, the pages that are read behind it.
pub open spec fn stream_pages_at(
    first: OggPageView,
    bytes: Seq<u8>,
) -> Result<Seq<OggPageView>, ParseError> {
    if first.is_last() {
        Ok(seq![first])
    } else {
        match pages_at(bytes) {
            Err(e) => Err(e),
            Ok(pages) => Ok(seq![first] + pages),
        }
    }
}

/// The packets that a sequence of pages adds up to: a page with the continuation
/// flag extends the packet before it, and every other page begins a packet, as does
/// a page with the flag that has no packet before it.
pub open spec fn packets_of(pages: Seq<OggPageView>) -> Seq<Seq<u8>>
    decreases pages.len(),
{
    if pages.len() == 0 {
        Seq::empty()
    } else {
        let before = packets_of(pages.drop_last());
        let page = pages.last();
        if page.is_continuation() && before.len() > 0 {
            before.drop_last().push(before.last() + page.payload)
        } else {
            before.push(page.payload)
        }
    }
}

/// The packets that `pages` add up to behind a packet that has begun and holds
/// `current` so far.
spec fn packets_after(current: Seq<u8>, pages: Seq<OggPageView>) -> Seq<Seq<u8>>
    decreases pages.len(),
{
    if pages.len() == 0 {
        seq![current]
    } else if pages[0].is_continuation() {
        packets_after(current + pages[0].payload, pages.drop_first())
    } else {
        seq![current] + packets_after(pages[0].payload, pages.drop_first())
    }
}

/// One more page at the end extends the last packet or adds a packet.
proof fn lemma_packets_after_push(current: Seq<u8>, pages: Seq<OggPageView>, page: OggPageView)
    ensures
        packets_after(current, pages).len() > 0,
        packets_after(current, pages.push(page)) == if page.is_continuation() {
            packets_after(current, pages).drop_last().push(
                packets_after(current, pages).last() + page.payload,
            )
        } else {
            packets_after(current, pages).push(page.payload)
        },
    decreases pages.len(),
{
    if pages.len() == 0 {
        reveal_with_fuel(packets_after, 2);
    } else {
        assert(pages.push(page).drop_first() =~= pages.drop_first().push(page));
        if pages[0].is_continuation() {
            lemma_packets_after_push(current + pages[0].payload, pages.drop_first(), page);
        } else {
            lemma_packets_after_push(pages[0].payload, pages.drop_first(), page);
        }
    }
}

/// The packets of a page and the pages behind it are those behind the packet that
/// the page begins.
proof fn lemma_packets_of_front(first: OggPageView, pages: Seq<OggPageView>)
    ensures
        packets_of(seq![first] + pages) == packets_after(first.payload, pages),
    decreases pages.len(),
{
    let all = seq![first] + pages;
    if pages.len() == 0 {
        reveal_with_fuel(packets_of, 2);
    } else {
        assert(all.drop_last() =~= seq![first] + pages.drop_last());
        lemma_packets_of_front(first, pages.drop_last());
        lemma_packets_after_push(first.payload, pages.drop_last(), pages.last());
        assert(pages.drop_last().push(pages.last()) =~= pages);
    }
}

/// The packets behind a packet that has begun, read page by page, are those that the
/// pages of the input add up to behind it.
proof fn lemma_packets_behind(current: Seq<u8>, bytes: Seq<u8>)
    ensures
        match packet_tail_at(bytes) {
            Err(e) => pages_at(bytes) == Err::<Seq<OggPageView>, ParseError>(e),
            Ok(tail) => match tail.next {
                None => pages_at(bytes) matches Ok(pages) && packets_after(current, pages)
                    == seq![current + tail.data],
                Some(next) => match packets_at(next, tail.rest) {
                    Err(e) => pages_at(bytes) == Err::<Seq<OggPageView>, ParseError>(e),
                    Ok((more, _)) => pages_at(bytes) matches Ok(pages) && packets_after(
                        current,
                        pages,
                    ) == seq![current + tail.data] + more,
                },
            },
        },
    decreases bytes.len(),
{
    if bytes.len() > 0 {
        if let Ok(page) = page_at(bytes) {
            let after = bytes.skip(page.size() as int);
            if page.is_last() {
                reveal_with_fuel(packets_after, 2);
            } else {
                if page.is_continuation() {
                    lemma_packets_behind(current + page.payload, after);
                } else {
                    lemma_packets_behind(page.payload, after);
                }
                if let Ok(more) = pages_at(after) {
                    assert((seq![page] + more).drop_first() =~= more);
                }
                if let Ok(tail) = packet_tail_at(after) {
                    assert(current + (page.payload + tail.data) =~= (current + page.payload)
                        + tail.data);
                }
            }
        }
    }
}

/// The packets of a stream are those that its pages add up to, and where a page
/// cannot be read, its error is the error of the stream.
pub proof fn lemma_packets_are_those_of_the_pages(first: OggPageView, bytes: Seq<u8>)
    ensures
        match (packets_at(first, bytes), stream_pages_at(first, bytes)) {
            (Ok((packets, _)), Ok(pages)) => packets == packets_of(pages),
            (Err(e), Err(expected)) => e == expected,
            _ => false,
        },
{
    if first.is_last() {
        lemma_packets_of_front(first, Seq::empty());
    } else {
        lemma_packets_behind(first.payload, bytes);
        if let Ok(pages) = pages_at(bytes) {
            lemma_packets_of_front(first, pages);
        }
    }
}

#[via_fn]
proof fn packets_at_terminates(first: OggPageView, bytes: Seq<u8>) {
    lemma_packet_tail_consumes(bytes);
}

/// Reading a packet never gives bytes back, and where a page that begins the next
/// packet was read, the input has become shorter.
pub proof fn lemma_packet_tail_consumes(bytes: Seq<u8>)
    ensures
        packet_tail_at(bytes) matches Ok(tail) ==> tail.rest.len() <= bytes.len() && (tail.next
            is Some ==> tail.rest.len() < bytes.len() && tail.next->0.well_formed()),
    decreases bytes.len(),
{
    if bytes.len() > 0 {
        if let Ok(page) = page_at(bytes) {
            if page.is_continuation() && !page.is_last() {
                lemma_packet_tail_consumes(bytes.skip(page.size() as int));
            }
        }
    }
}

impl OpusPacket {
    /// Reads one packet, given the page that begins it.
    ///
    /// The pages that follow are read for as long as they continue the packet. The
    /// outcome is that of `packet_at`: the packet, and the page that was read behind
    /// it if that page begins the next packet; or the error of the first page that
    /// cannot be read. Whatever the outcome, bytes are gone from the front of the
    /// source and nowhere else.
    pub fn parse<T: ReadExt>(
        reader: &mut T,
        first_page: OggPage,
    ) -> (r: Result<(OpusPacket, Option<OggPage>), ParseError>)
        ensures
            is_rest_of(final(reader).remaining(), old(reader).remaining()),
            match (r, packet_at(first_page@, old(reader).remaining())) {
                (Ok((packet, next)), Ok(expected)) => {
                    &&& packet@ == expected.data
                    &&& optional_page_view(next) == expected.next
                    &&& final(reader).remaining() == expected.rest
                },
                (Err(e), Err(expected)) => e == expected,
                _ => false,
            },
    {
        proof {
            lemma_rest_of_skipped(reader.remaining());
            assert(reader.remaining().skip(0) =~= reader.remaining());
        }
        let ended = first_page.is_last();
        let mut data = first_page.payload;
        if ended {
            return Ok((OpusPacket(data), None));
        }
        loop
            invariant
                !first_page@.is_last(),
                is_rest_of(reader.remaining(), old(reader).remaining()),
                packet_at(first_page@, old(reader).remaining()) == match packet_tail_at(
                    reader.remaining(),
                ) {
                    Err(e) => Err(e),
                    Ok(tail) => Ok(
                        PageRun { data: data@ + tail.data, next: tail.next, rest: tail.rest },
                    ),
                },
            decreases reader.remaining().len(),
        {
            proof {
                lemma_rest_of_rest(old(reader).remaining(), reader.remaining());
            }
            match OggPage::parse_next(reader)? {
                None => {
                    return Ok((OpusPacket(data), None));
                },
                Some(page) => {
                    if !page.is_continuation() {
                        return Ok((OpusPacket(data), Some(page)));
                    }
                    let ended = page.is_last();
                    let ghost so_far = data@;
                    let mut payload = page.payload;
                    data.append(&mut payload);
                    proof {
                        if let Ok(tail) = packet_tail_at(reader.remaining()) {
                            assert(so_far + (page@.payload + tail.data) =~= data@ + tail.data);
                        }
                    }
                    if ended {
                        return Ok((OpusPacket(data), None));
                    }
                },
            }
        }
    }
}

impl OpusPackets {
    /// Reads the packets of a stream, given the page that begins its first packet.
    ///
    /// Pages are read until one has the last-page flag or the input ends. The packets
    /// are those that these pages add up to, in order, and the source is left where
    /// `packets_at` says. The error of the first page that cannot be read is the
    /// error of the whole: there is no partial result. Whatever the outcome, bytes
    /// are gone from the front of the source and nowhere else.
    pub fn parse<T: ReadExt>(
        reader: &mut T,
        first_page: OggPage,
    ) -> (r: Result<OpusPackets, ParseError>)
        ensures
            is_rest_of(final(reader).remaining(), old(reader).remaining()),
            match (r, stream_pages_at(first_page@, old(reader).remaining())) {
                (Ok(packets), Ok(pages)) => packets@ == packets_of(pages),
                (Err(e), Err(expected)) => e == expected,
                _ => false,
            },
            match (r, packets_at(first_page@, old(reader).remaining())) {
                (Ok(packets), Ok((expected, rest))) => {
                    &&& packets@ == expected
                    &&& final(reader).remaining() == rest
                },
                (Err(e), Err(expected)) => e == expected,
                _ => false,
            },
    {
        proof {
            lemma_packets_are_those_of_the_pages(first_page@, reader.remaining());
            lemma_rest_of_skipped(reader.remaining());
            assert(reader.remaining().skip(0) =~= reader.remaining());
        }
        let mut packets: Vec<OpusPacket> = Vec::new();
        let mut next_page = first_page;
        loop
            invariant
                is_rest_of(reader.remaining(), old(reader).remaining()),
                match (
                    packets_at(first_page@, old(reader).remaining()),
                    stream_pages_at(first_page@, old(reader).remaining()),
                ) {
                    (Ok((expected, _)), Ok(pages)) => expected == packets_of(pages),
                    (Err(e), Err(expected)) => e == expected,
                    _ => false,
                },
                packets_at(first_page@, old(reader).remaining()) == match packets_at(
                    next_page@,
                    reader.remaining(),
                ) {
                    Err(e) => Err(e),
                    Ok((more, rest)) => Ok((OpusPackets(packets)@ + more, rest)),
                },
            decreases reader.remaining().len(),
        {
            let ghost before = reader.remaining();
            let ghost done = OpusPackets(packets)@;
            proof {
                lemma_packet_tail_consumes(before);
                lemma_rest_of_rest(old(reader).remaining(), before);
            }
            let (packet, next) = OpusPacket::parse(reader, next_page)?;
            packets.push(packet);
            assert(OpusPackets(packets)@ =~= done.push(packet@));
            match next {
                Some(page) => {
                    proof {
                        if let Ok((more, rest)) = packets_at(page@, reader.remaining()) {
                            assert(done + (seq![packet@] + more) =~= done.push(packet@) + more);
                        }
                    }
                    next_page = page;
                },
                None => {
                    return Ok(OpusPackets(packets));
                },
            }
        }
    }
}

} // verus!

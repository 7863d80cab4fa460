//! The comment header: the vendor string and the user comments.
//!
//! Every string of the header is prefixed with its length, and no length is believed:
//! each is held against the number of bytes that the header has left before a single
//! byte of the string is asked of the source.

use crate::conversion::le_value;
use crate::error::{io, short_read, ParseError};
use crate::ogg_page::{optional_page_view, page_at, OggPage, PageRun};
use crate::read_ext::{
    is_rest_of, lemma_rest_of_rest, lemma_rest_of_skipped, ReadExt, SliceReader,
};
use vstd::prelude::*;
use vstd::std_specs::convert::FromSpecImpl;
use vstd::std_specs::iter::IteratorSpec;
use vstd::string::StringSliceAdditionalSpecFns;
use vstd::utf8::{decode_utf8, encode_utf8_decode_utf8, valid_utf8};

verus! {

/// The comment header: a vendor string and the user comments.
#[derive(Debug, Clone, PartialEq, Eq)]
pub struct CommentHeader {
    pub vendor: String,
    /// The comments as pairs of a tag and its value, in the order of the header. A
    /// tag may occur more than once: each occurrence is an entry of its own.
    pub user_comments: Vec<(String, String)>,
}

/// A comment header as a mathematical value.
pub ghost struct CommentHeaderView {
    pub vendor: Seq<char>,
    pub user_comments: Seq<(Seq<char>, Seq<char>)>,
}

/// The pairs of strings as pairs of character sequences.
pub open spec fn pairs_view(pairs: Seq<(String, String)>) -> Seq<(Seq<char>, Seq<char>)> {
    pairs.map_values(|pair: (String, String)| (pair.0@, pair.1@))
}

impl View for CommentHeader {
    type V = CommentHeaderView;

    open spec fn view(&self) -> CommentHeaderView {
        CommentHeaderView {
            vendor: self.vendor@,
            user_comments: pairs_view(self.user_comments@),
        }
    }
}

/// The signature that the comment header starts with: `OpusTags`.
pub open spec fn tags_signature() -> Seq<u8> {
    seq![0x4fu8, 0x70u8, 0x75u8, 0x73u8, 0x54u8, 0x61u8, 0x67u8, 0x73u8]
}

/// The values that a list of comments holds under one tag, in the order of the list.
pub open spec fn values_of(pairs: Seq<(Seq<char>, Seq<char>)>, key: Seq<char>) -> Seq<Seq<char>>
    decreases pairs.len(),
{
    if pairs.len() == 0 {
        Seq::empty()
    } else if pairs.last().0 == key {
        values_of(pairs.drop_last(), key).push(pairs.last().1)
    } else {
        values_of(pairs.drop_last(), key)
    }
}

/// The strings behind a list of references, as character sequences.
pub open spec fn strings_view(strings: Seq<&String>) -> Seq<Seq<char>> {
    strings.map_values(|string: &String| string@)
}

/// `position` is where the first `=` of `entry` stands.
pub open spec fn is_separator(entry: Seq<char>, position: int) -> bool {
    &&& 0 <= position < entry.len()
    &&& entry[position] == '='
    &&& forall|j: int| 0 <= j < position ==> entry[j] != '='
}

/// Where the first `=` of `entry` stands, for an entry that has one.
pub open spec fn separator_of(entry: Seq<char>) -> int {
    choose|position: int| is_separator(entry, position)
}

/// The tag of a comment entry: what stands before its first `=`.
pub open spec fn key_of(entry: Seq<char>) -> Seq<char> {
    entry.take(separator_of(entry))
}

/// The value of a comment entry: what stands after its first `=`.
pub open spec fn value_of(entry: Seq<char>) -> Seq<char> {
    entry.skip(separator_of(entry) + 1)
}

/// The comments that a list of entries gives: one pair for each entry that holds a
/// `=`, in the order of the entries. An entry without one gives nothing.
pub open spec fn pairs_of(entries: Seq<Seq<char>>) -> Seq<(Seq<char>, Seq<char>)>
    decreases entries.len(),
{
    if entries.len() == 0 {
        Seq::empty()
    } else if entries.last().contains('=') {
        pairs_of(entries.drop_last()).push((key_of(entries.last()), value_of(entries.last())))
    } else {
        pairs_of(entries.drop_last())
    }
}

/// An entry with a `=` is its tag, the `=` and its value, and the tag holds no `=`.
pub proof fn lemma_entry_is_key_and_value(entry: Seq<char>)
    requires
        entry.contains('='),
    ensures
        is_separator(entry, separator_of(entry)),
        entry == key_of(entry) + seq!['='] + value_of(entry),
        !key_of(entry).contains('='),
{
    let first = choose|i: int| 0 <= i < entry.len() && entry[i] == '=';
    lemma_first_separator_exists(entry, first);
}

/// An entry that holds a `=` at `position` holds a first one, at or before it.
proof fn lemma_first_separator_exists(entry: Seq<char>, position: int)
    requires
        0 <= position < entry.len(),
        entry[position] == '=',
    ensures
        exists|first: int| is_separator(entry, first),
    decreases position,
{
    if exists|j: int| 0 <= j < position && entry[j] == '=' {
        let earlier = choose|j: int| 0 <= j < position && entry[j] == '=';
        lemma_first_separator_exists(entry, earlier);
    } else {
        assert(is_separator(entry, position));
    }
}

/// The comments of two lists of entries, one after the other, are the comments of
/// the first list followed by those of the second.
pub proof fn lemma_pairs_of_concat(front: Seq<Seq<char>>, back: Seq<Seq<char>>)
    ensures
        pairs_of(front + back) == pairs_of(front) + pairs_of(back),
    decreases back.len(),
{
    if back.len() > 0 {
        lemma_pairs_of_concat(front, back.drop_last());
        assert((front + back).drop_last() =~= front + back.drop_last());
    }
}

/// An entry without a `=` is dropped, and the other entries of the header give the
/// comments that they give without it.
pub proof fn lemma_entry_without_separator_is_dropped(entries: Seq<Seq<char>>, position: int)
    requires
        0 <= position < entries.len(),
        !entries[position].contains('='),
    ensures
        pairs_of(entries) == pairs_of(entries.remove(position)),
{
    let front = entries.take(position);
    let back = entries.skip(position + 1);
    let dropped = seq![entries[position]];
    assert(entries =~= front + dropped + back);
    lemma_pairs_of_concat(front + dropped, back);
    lemma_pairs_of_concat(front, dropped);
    lemma_pairs_of_concat(front, back);
    assert(pairs_of(dropped) =~= Seq::empty()) by {
        reveal_with_fuel(pairs_of, 2);
    }
}

/// Every entry with a `=` has a comment of its own: it stands behind the comments of
/// the entries before it, whatever their tags are. Two entries with one tag are
/// two comments, and neither takes the place of the other.
pub proof fn lemma_entry_with_separator_is_kept(entries: Seq<Seq<char>>, position: int)
    requires
        0 <= position < entries.len(),
        entries[position].contains('='),
    ensures
        pairs_of(entries.take(position)).len() < pairs_of(entries).len(),
        pairs_of(entries)[pairs_of(entries.take(position)).len() as int] == (
            key_of(entries[position]),
            value_of(entries[position]),
        ),
        forall|earlier: int|
            0 <= earlier < position ==> pairs_of(#[trigger] entries.take(earlier)).len()
                <= pairs_of(entries.take(position)).len(),
        forall|earlier: int|
            0 <= earlier < position && entries[earlier].contains('=') ==> pairs_of(
                #[trigger] entries.take(earlier),
            ).len() < pairs_of(entries.take(position)).len(),
{
    let front = entries.take(position);
    let back = entries.skip(position + 1);
    let kept = seq![entries[position]];
    let pair = (key_of(entries[position]), value_of(entries[position]));
    assert(entries =~= front + kept + back);
    lemma_pairs_of_concat(front + kept, back);
    lemma_pairs_of_concat(front, kept);
    assert(pairs_of(kept) =~= seq![pair]) by {
        reveal_with_fuel(pairs_of, 2);
    }
    assert forall|earlier: int| 0 <= earlier < position implies pairs_of(
        #[trigger] entries.take(earlier),
    ).len() <= pairs_of(front).len() && (entries[earlier].contains('=') ==> pairs_of(
        entries.take(earlier),
    ).len() < pairs_of(front).len()) by {
        let head = entries.take(earlier);
        let one = seq![entries[earlier]];
        let middle = entries.subrange(earlier + 1, position);
        assert(front =~= head + one + middle);
        lemma_pairs_of_concat(head + one, middle);
        lemma_pairs_of_concat(head, one);
        reveal_with_fuel(pairs_of, 2);
    }
}

/// The length-prefixed field that `bytes` starts with, for a header that has `budget`
/// bytes left: four bytes of length, then that many bytes.
///
/// The length is held against the budget before the bytes are looked at, so a length
/// that the header cannot hold is `CommentTooLong` whatever the input holds.
pub open spec fn field_at(bytes: Seq<u8>, budget: nat) -> Result<Seq<u8>, ParseError> {
    let len = bytes.len();
    if len < 4 {
        Err(short_read(len, 0, 4))
    } else if budget < 4 {
        Err(ParseError::CommentTooLong)
    } else {
        let claimed = le_value(bytes.subrange(0, 4));
        if claimed > budget - 4 {
            Err(ParseError::CommentTooLong)
        } else if len < 4 + claimed {
            Err(short_read(len, 4, claimed))
        } else {
            Ok(bytes.subrange(4, 4 + claimed as int))
        }
    }
}

/// The strings of `count` length-prefixed fields that `bytes` starts with, and the
/// bytes after them, for a header that has `budget` bytes left. The first field that
/// fails decides the error.
pub open spec fn entries_at(
    bytes: Seq<u8>,
    budget: nat,
    count: nat,
) -> Result<(Seq<Seq<char>>, Seq<u8>), ParseError>
    decreases count,
{
    if count == 0 {
        Ok((Seq::empty(), bytes))
    } else {
        match field_at(bytes, budget) {
            Err(e) => Err(e),
            Ok(field) => if !valid_utf8(field) {
                Err(ParseError::Encoding)
            } else {
                match entries_at(
                    bytes.skip(4 + field.len() as int),
                    (budget - 4 - field.len()) as nat,
                    (count - 1) as nat,
                ) {
                    Err(e) => Err(e),
                    Ok((entries, rest)) => Ok((seq![decode_utf8(field)] + entries, rest)),
                }
            },
        }
    }
}

/// The comment header that `bytes` starts with, and the bytes after it, for a header
/// that is declared to be `header_len` bytes long; or the error that reading it meets.
///
/// The fields are read in order: the signature `OpusTags`, the vendor string, the
/// number of entries, the entries. The first failure decides: a field that the input
/// ends in (`Io`), a wrong signature (`InvalidOpusHeader`), a field for which the
/// declared length has no room left (`CommentTooLong`), a string that is not UTF-8
/// (`Encoding`).
pub open spec fn comment_header_at(
    bytes: Seq<u8>,
    header_len: nat,
) -> Result<(CommentHeaderView, Seq<u8>), ParseError> {
    let len = bytes.len();
    if len < 8 {
        Err(short_read(len, 0, 8))
    } else if bytes.subrange(0, 8) != tags_signature() {
        Err(ParseError::InvalidOpusHeader)
    } else if header_len < 8 {
        Err(ParseError::CommentTooLong)
    } else {
        match field_at(bytes.skip(8), (header_len - 8) as nat) {
            Err(e) => Err(e),
            Ok(vendor) => if !valid_utf8(vendor) {
                Err(ParseError::Encoding)
            } else {
                let after = bytes.skip(12 + vendor.len() as int);
                let budget = header_len - 12 - vendor.len();
                if after.len() < 4 {
                    Err(short_read(after.len(), 0, 4))
                } else if budget < 4 {
                    Err(ParseError::CommentTooLong)
                } else {
                    match entries_at(
                        after.skip(4),
                        (budget - 4) as nat,
                        le_value(after.subrange(0, 4)),
                    ) {
                        Err(e) => Err(e),
                        Ok((entries, rest)) => Ok(
                            (
                                CommentHeaderView {
                                    vendor: decode_utf8(vendor),
                                    user_comments: pairs_of(entries),
                                },
                                rest,
                            ),
                        ),
                    }
                }
            },
        }
    }
}

/// What is left of `bytes` where reading `count` entries stops at a length that the
/// budget cannot hold: the bytes behind the four of that length. No byte of the
/// field that it claims is taken.
pub open spec fn entries_rest(bytes: Seq<u8>, budget: nat, count: nat) -> Seq<u8>
    decreases count,
{
    if count == 0 {
        bytes
    } else {
        match field_at(bytes, budget) {
            Err(_) => bytes.skip(4),
            Ok(field) => entries_rest(
                bytes.skip(4 + field.len() as int),
                (budget - 4 - field.len()) as nat,
                (count - 1) as nat,
            ),
        }
    }
}

/// What is left of `bytes` where reading a comment header that is declared to be
/// `header_len` bytes long stops as `CommentTooLong`: the bytes behind the length
/// that claims too much, or behind the signature or the number of entries where the
/// declared length has no room for it.
pub open spec fn comment_header_rest(bytes: Seq<u8>, header_len: nat) -> Seq<u8> {
    if header_len < 8 {
        bytes.skip(8)
    } else {
        match field_at(bytes.skip(8), (header_len - 8) as nat) {
            Err(_) => bytes.skip(12),
            Ok(vendor) => {
                let after = bytes.skip(12 + vendor.len() as int);
                let budget = header_len - 12 - vendor.len();
                if budget < 4 {
                    after.skip(4)
                } else {
                    entries_rest(
                        after.skip(4),
                        (budget - 4) as nat,
                        le_value(after.subrange(0, 4)),
                    )
                }
            },
        }
    }
}

/// An input of eight bytes or more that differs from the signature `OpusTags` in any
/// of the first eight is rejected as `InvalidOpusHeader`, whatever else it holds and
/// whatever length is declared.
pub proof fn lemma_altered_tags_signature_is_rejected(
    bytes: Seq<u8>,
    header_len: nat,
    position: int,
)
    requires
        0 <= position < 8 <= bytes.len(),
        bytes[position] != tags_signature()[position],
    ensures
        comment_header_at(bytes, header_len) == Err::<(CommentHeaderView, Seq<u8>), ParseError>(
            ParseError::InvalidOpusHeader,
        ),
{
}

/// An entry whose length claims more bytes than the header has left is rejected as
/// `CommentTooLong`, whatever stands behind the four bytes of the length.
pub proof fn lemma_forged_entry_length_is_rejected(bytes: Seq<u8>, budget: nat, count: nat)
    requires
        bytes.len() >= 4,
        le_value(bytes.subrange(0, 4)) + 4 > budget,
        count > 0,
    ensures
        field_at(bytes, budget) == Err::<Seq<u8>, ParseError>(ParseError::CommentTooLong),
        entries_at(bytes, budget, count) == Err::<(Seq<Seq<char>>, Seq<u8>), ParseError>(
            ParseError::CommentTooLong,
        ),
{
}

/// A vendor string whose length claims more bytes than the header is declared to
/// have left is rejected as `CommentTooLong`, whatever stands behind the length.
pub proof fn lemma_forged_vendor_length_is_rejected(bytes: Seq<u8>, header_len: nat)
    requires
        bytes.len() >= 12,
        bytes.subrange(0, 8) == tags_signature(),
        le_value(bytes.subrange(8, 12)) + 12 > header_len,
    ensures
        comment_header_at(bytes, header_len) == Err::<(CommentHeaderView, Seq<u8>), ParseError>(
            ParseError::CommentTooLong,
        ),
{
    assert(bytes.skip(8).subrange(0, 4) =~= bytes.subrange(8, 12));
}

/// What follows the pages of the comment header that have been gathered so far, in an
/// input of which `bytes` are left, when the pages so far hold `gathered` bytes.
///
/// At the end of the input the header is complete and nothing follows. A page without
/// the continuation flag ends the header and begins the first audio packet. A page
/// with it belongs to the header, unless its payload takes the total over `ceiling`:
/// that is `CommentHeaderTooLarge` whatever the input holds behind that page.
pub open spec fn comment_tail_at(
    bytes: Seq<u8>,
    gathered: nat,
    ceiling: nat,
) -> Result<PageRun, ParseError>
    decreases bytes.len(),
{
    if bytes.len() == 0 {
        Ok(PageRun { data: Seq::empty(), next: None, rest: bytes })
    } else {
        match page_at(bytes) {
            Err(e) => Err(e),
            Ok(page) => {
                let after = bytes.skip(page.size() as int);
                if !page.is_continuation() {
                    Ok(PageRun { data: Seq::empty(), next: Some(page), rest: after })
                } else if gathered + page.payload.len() > ceiling {
                    Err(ParseError::CommentHeaderTooLarge)
                } else {
                    match comment_tail_at(after, gathered + page.payload.len(), ceiling) {
                        Err(e) => Err(e),
                        Ok(tail) => Ok(
                            PageRun {
                                data: page.payload + tail.data,
                                next: tail.next,
                                rest: tail.rest,
                            },
                        ),
                    }
                }
            },
        }
    }
}

/// The bytes that are left where the gathering of the comment header stops at a page,
/// in an input of which `bytes` are left when the pages so far hold `gathered` bytes:
/// those behind the first page that has no continuation flag or takes the total over
/// `ceiling`. No page behind that one is read.
pub open spec fn comment_tail_rest(bytes: Seq<u8>, gathered: nat, ceiling: nat) -> Seq<u8>
    decreases bytes.len(),
{
    if bytes.len() == 0 {
        bytes
    } else {
        match page_at(bytes) {
            Err(_) => bytes,
            Ok(page) => {
                let after = bytes.skip(page.size() as int);
                if !page.is_continuation() || gathered + page.payload.len() > ceiling {
                    after
                } else {
                    comment_tail_rest(after, gathered + page.payload.len(), ceiling)
                }
            },
        }
    }
}

/// The bytes that are left where the gathering of the comment header stops at a page:
/// those behind the first page, if it holds more than `ceiling` bytes by itself, and
/// else as `comment_tail_rest` says.
pub open spec fn comment_pages_rest(bytes: Seq<u8>, ceiling: nat) -> Seq<u8> {
    match page_at(bytes) {
        Err(_) => bytes,
        Ok(first) => {
            let after = bytes.skip(first.size() as int);
            if first.payload.len() > ceiling {
                after
            } else {
                comment_tail_rest(after, first.payload.len(), ceiling)
            }
        },
    }
}

/// The bytes of the comment header, in an input of which `bytes` are left behind the
/// page of the identification header: the payload of the next page, whatever its
/// flags, and of every page with the continuation flag that follows it directly.
///
/// An input that has no page left is `HeadersNotFound`; a page that cannot be read is
/// its own error; more than `ceiling` bytes are `CommentHeaderTooLarge`.
pub open spec fn comment_pages_at(bytes: Seq<u8>, ceiling: nat) -> Result<PageRun, ParseError> {
    if bytes.len() == 0 {
        Err(ParseError::HeadersNotFound)
    } else {
        match page_at(bytes) {
            Err(e) => Err(e),
            Ok(first) => if first.payload.len() > ceiling {
                Err(ParseError::CommentHeaderTooLarge)
            } else {
                match comment_tail_at(
                    bytes.skip(first.size() as int),
                    first.payload.len(),
                    ceiling,
                ) {
                    Err(e) => Err(e),
                    Ok(tail) => Ok(
                        PageRun {
                            data: first.payload + tail.data,
                            next: tail.next,
                            rest: tail.rest,
                        },
                    ),
                }
            },
        }
    }
}

/// The comment header that the pages behind the identification header hold: its
/// bytes are gathered as `comment_pages_at` says and decoded as `comment_header_at`
/// says, with the number of bytes gathered as the declared length.
pub open spec fn comment_at(
    bytes: Seq<u8>,
    ceiling: nat,
) -> Result<(CommentHeaderView, PageRun), ParseError> {
    match comment_pages_at(bytes, ceiling) {
        Err(e) => Err(e),
        Ok(run) => match comment_header_at(run.data, run.data.len()) {
            Err(e) => Err(e),
            Ok((header, _)) => Ok((header, run)),
        },
    }
}

/// The error of `core::str::from_utf8`. Nothing is said of what it holds.
#[verifier::external_type_specification]
#[verifier::external_body]
pub struct ExUtf8Error(core::str::Utf8Error);

/// `core::str::from_utf8` accepts exactly the byte sequences that are UTF-8, and the
/// string that it gives back is encoded by the very bytes it was given.
pub assume_specification<'a>[ core::str::from_utf8 ](
    bytes: &'a [u8],
) -> (r: Result<&'a str, core::str::Utf8Error>)
    ensures
        r is Ok <==> valid_utf8(bytes@),
        r matches Ok(text) ==> text.spec_bytes() == bytes@,
;

impl From<core::str::Utf8Error> for ParseError {
    fn from(e: core::str::Utf8Error) -> (error: ParseError) {
        ParseError::Encoding
    }
}

impl FromSpecImpl<core::str::Utf8Error> for ParseError {
    open spec fn obeys_from_spec() -> bool {
        true
    }

    open spec fn from_spec(e: core::str::Utf8Error) -> ParseError {
        ParseError::Encoding
    }
}

/// Decodes a field as UTF-8.
pub fn decode_string(field: &[u8]) -> (r: Result<String, ParseError>)
    ensures
        match r {
            Ok(text) => valid_utf8(field@) && text@ == decode_utf8(field@),
            Err(e) => !valid_utf8(field@) && e == ParseError::Encoding,
        },
{
    match core::str::from_utf8(field) {
        Ok(text) => {
            proof {
                encode_utf8_decode_utf8(text@);
            }
            Ok(text.to_owned())
        },
        Err(e) => Err(ParseError::from(e)),
    }
}

/// Splits a comment entry at its first `=` into the tag and the value. An entry
/// without a `=` has neither.
pub fn split_comment(entry: &str) -> (r: Option<(String, String)>)
    ensures
        r is Some <==> entry@.contains('='),
        r matches Some(pair) ==> pair.0@ == key_of(entry@) && pair.1@ == value_of(entry@),
{
    let length = entry.unicode_len();
    let mut chars = entry.chars();
    let mut position: usize = 0;
    loop
        invariant
            position <= length == entry@.len(),
            chars.remaining() == entry@.skip(position as int),
            chars.obeys_prophetic_iter_laws(),
            forall|j: int| 0 <= j < position ==> entry@[j] != '=',
        decreases length - position,
    {
        match chars.next() {
            Some(c) => {
                if c == '=' {
                    assert(is_separator(entry@, position as int));
                    assert(separator_of(entry@) == position);
                    let key = entry.substring_char(0, position).to_owned();
                    let value = entry.substring_char(position + 1, length).to_owned();
                    return Some((key, value));
                }
                position += 1;
            },
            None => {
                return None;
            },
        }
    }
}

/// Reads one length-prefixed field of a header that has `budget` bytes left, and
/// says how many bytes the header has left after it.
///
/// The outcome is that of `field_at` on the bytes that the source has left. The
/// length is held against the budget before the field is asked of the source: where
/// the answer is `CommentTooLong`, the four bytes of the length are all that was read.
/// After any error bytes are gone from the front of the source and nowhere else.
pub fn read_field<T: ReadExt>(
    reader: &mut T,
    budget: u32,
) -> (r: Result<(Vec<u8>, u32), ParseError>)
    ensures
        is_rest_of(final(reader).remaining(), old(reader).remaining()),
        match (r, field_at(old(reader).remaining(), budget as nat)) {
            (Ok((field, left)), Ok(expected)) => {
                &&& field@ == expected
                &&& left == budget - 4 - field@.len()
                &&& final(reader).remaining() == old(reader).remaining().skip(
                    4 + field@.len() as int,
                )
            },
            (Err(e), Err(expected)) => {
                &&& e == expected
                &&& e == ParseError::CommentTooLong ==> final(reader).remaining()
                    == old(reader).remaining().skip(4)
            },
            _ => false,
        },
{
    let ghost input = reader.remaining();
    proof {
        lemma_rest_of_skipped(input);
    }
    let claimed = io(reader.read_u32_le())?;
    if budget < 4 {
        return Err(ParseError::CommentTooLong);
    }
    let budget = budget - 4;
    if claimed > budget {
        return Err(ParseError::CommentTooLong);
    }
    let field = io(reader.read_byte_vec(claimed as usize))?;
    assert(reader.remaining() =~= input.skip(4 + claimed));
    Ok((field, budget - claimed))
}

/// Gathers the bytes of the comment header from the pages that hold them.
///
/// The outcome is that of `comment_pages_at`: the bytes, and the page that was read
/// behind them if there was one, which begins the first audio packet. The total is
/// held against `ceiling` page by page: where the answer is `CommentHeaderTooLarge`,
/// the page that took the total over the ceiling is the last that was read. Whatever
/// the outcome, bytes are gone from the front of the source and nowhere else.
pub fn gather_comment_pages<T: ReadExt>(
    reader: &mut T,
    ceiling: u32,
) -> (r: Result<(Vec<u8>, Option<OggPage>), ParseError>)
    ensures
        is_rest_of(final(reader).remaining(), old(reader).remaining()),
        match (r, comment_pages_at(old(reader).remaining(), ceiling as nat)) {
            (Ok((data, next)), Ok(expected)) => {
                &&& data@ == expected.data
                &&& data@.len() <= ceiling
                &&& optional_page_view(next) == expected.next
                &&& final(reader).remaining() == expected.rest
            },
            (Err(e), Err(expected)) => {
                &&& e == expected
                &&& e == ParseError::CommentHeaderTooLarge ==> final(reader).remaining()
                    == comment_pages_rest(old(reader).remaining(), ceiling as nat)
            },
            _ => false,
        },
{
    let first = match OggPage::parse_next(reader)? {
        Some(page) => page,
        None => {
            return Err(ParseError::HeadersNotFound);
        },
    };
    let mut data = first.payload;
    if data.len() > ceiling as usize {
        return Err(ParseError::CommentHeaderTooLarge);
    }
    loop
        invariant
            data@.len() <= ceiling,
            is_rest_of(reader.remaining(), old(reader).remaining()),
            comment_pages_rest(old(reader).remaining(), ceiling as nat) == comment_tail_rest(
                reader.remaining(),
                data@.len(),
                ceiling as nat,
            ),
            comment_pages_at(old(reader).remaining(), ceiling as nat) == match comment_tail_at(
                reader.remaining(),
                data@.len(),
                ceiling as nat,
            ) {
                Err(e) => Err(e),
                Ok(tail) => Ok(
                    PageRun { data: data@ + tail.data, next: tail.next, rest: tail.rest },
                ),
            },
        decreases reader.remaining().len(),
    {
        proof {
            lemma_rest_of_rest(old(reader).remaining(), reader.remaining());
        }
        match OggPage::parse_next(reader)? {
            None => {
                return Ok((data, None));
            },
            Some(page) => {
                if !page.is_continuation() {
                    return Ok((data, Some(page)));
                }
                if page.payload.len() > ceiling as usize - data.len() {
                    return Err(ParseError::CommentHeaderTooLarge);
                }
                let ghost so_far = data@;
                let mut payload = page.payload;
                data.append(&mut payload);
                proof {
                    if let Ok(tail) = comment_tail_at(
                        reader.remaining(),
                        data@.len(),
                        ceiling as nat,
                    ) {
                        assert(so_far + (page@.payload + tail.data) =~= data@ + tail.data);
                    }
                }
            },
        }
    }
}

impl CommentHeader {
    /// The values of every comment with the tag `key`, in the order of the header, or
    /// `None` if there is no such comment. Tags are compared letter for letter.
    pub fn get_values(&self, key: &str) -> (r: Option<Vec<&String>>)
        ensures
            match r {
                Some(values) => values@.len() > 0 && strings_view(values@) == values_of(
                    self@.user_comments,
                    key@,
                ),
                None => values_of(self@.user_comments, key@).len() == 0,
            },
    {
        let wanted = key.to_owned();
        let mut values: Vec<&String> = Vec::new();
        let mut i: usize = 0;
        while i < self.user_comments.len()
            invariant
                i <= self.user_comments@.len(),
                wanted@ == key@,
                strings_view(values@) == values_of(self@.user_comments.take(i as int), key@),
            decreases self.user_comments@.len() - i,
        {
            let pair = &self.user_comments[i];
            assert(self@.user_comments.take(i + 1).drop_last() =~= self@.user_comments.take(
                i as int,
            ));
            if pair.0 == wanted {
                values.push(&pair.1);
            }
            i += 1;
        }
        assert(self@.user_comments.take(i as int) =~= self@.user_comments);
        if values.len() == 0 {
            None
        } else {
            Some(values)
        }
    }

    /// The value of the first comment with the tag `key`, or `None` if there is no
    /// such comment.
    pub fn get_value(&self, key: &str) -> (r: Option<&String>)
        ensures
            match r {
                Some(value) => values_of(self@.user_comments, key@).len() > 0 && value@
                    == values_of(self@.user_comments, key@)[0],
                None => values_of(self@.user_comments, key@).len() == 0,
            },
    {
        match self.get_values(key) {
            Some(values) => Some(values[0]),
            None => None,
        }
    }

    /// Reads the comment header from the pages that hold it.
    ///
    /// The outcome is that of `comment_at`: the header, and the page that was read
    /// behind it if there was one, which begins the first audio packet. Whatever the
    /// outcome, bytes are gone from the front of the source and nowhere else.
    pub fn assemble<T: ReadExt>(
        reader: &mut T,
        ceiling: u32,
    ) -> (r: Result<(CommentHeader, Option<OggPage>), ParseError>)
        ensures
            is_rest_of(final(reader).remaining(), old(reader).remaining()),
            match (r, comment_at(old(reader).remaining(), ceiling as nat)) {
                (Ok((header, next)), Ok((expected, run))) => {
                    &&& header@ == expected
                    &&& optional_page_view(next) == run.next
                    &&& final(reader).remaining() == run.rest
                },
                (Err(e), Err(expected)) => e == expected,
                _ => false,
            },
    {
        let (data, next) = gather_comment_pages(reader, ceiling)?;
        let mut bytes = SliceReader::new(data.as_slice());
        let header = CommentHeader::parse(&mut bytes, data.len() as u32)?;
        Ok((header, next))
    }

    /// Reads a comment header that is declared to be `header_len` bytes long.
    ///
    /// The outcome is that of `comment_header_at` on the bytes that the source has
    /// left: the header with the bytes that follow it left in the source, or the
    /// first error. An entry without a `=` is left out and is no error. After an
    /// error bytes are gone from the front of the source and nowhere else; after a
    /// wrong signature they are its eight bytes, and after `CommentTooLong` the
    /// source stands where `comment_header_rest` says: no byte was asked of it for
    /// the field whose length was refused.
    pub fn parse<T: ReadExt>(
        reader: &mut T,
        header_len: u32,
    ) -> (r: Result<CommentHeader, ParseError>)
        ensures
            is_rest_of(final(reader).remaining(), old(reader).remaining()),
            r == Err::<CommentHeader, ParseError>(ParseError::InvalidOpusHeader)
                ==> final(reader).remaining() == old(reader).remaining().skip(8),
            r == Err::<CommentHeader, ParseError>(ParseError::CommentTooLong)
                ==> final(reader).remaining() == comment_header_rest(
                old(reader).remaining(),
                header_len as nat,
            ),
            match (r, comment_header_at(old(reader).remaining(), header_len as nat)) {
                (Ok(header), Ok((expected, rest))) => {
                    &&& header@ == expected
                    &&& final(reader).remaining() == rest
                },
                (Err(e), Err(expected)) => e == expected,
                _ => false,
            },
    {
        let ghost input = reader.remaining();
        let ghost expected = comment_header_at(input, header_len as nat);
        proof {
            lemma_rest_of_skipped(input);
        }
        let signature = io(reader.read_eight_bytes())?;
        if !(signature[0] == 0x4f && signature[1] == 0x70 && signature[2] == 0x75
            && signature[3] == 0x73 && signature[4] == 0x54 && signature[5] == 0x61
            && signature[6] == 0x67 && signature[7] == 0x73) {
            assert(signature@ != tags_signature());
            return Err(ParseError::InvalidOpusHeader);
        }
        assert(signature@ =~= tags_signature());
        if header_len < 8 {
            return Err(ParseError::CommentTooLong);
        }
        let (vendor_bytes, budget) = read_field(reader, header_len - 8)?;
        let vendor = decode_string(vendor_bytes.as_slice())?;
        assert(reader.remaining() =~= input.skip(12 + vendor_bytes@.len() as int));
        let count = io(reader.read_u32_le())?;
        assert(reader.remaining() =~= input.skip(16 + vendor_bytes@.len() as int));
        if budget < 4 {
            return Err(ParseError::CommentTooLong);
        }
        let mut budget = budget - 4;
        let mut user_comments: Vec<(String, String)> = Vec::new();
        let mut done: u32 = 0;
        let ghost mut entries: Seq<Seq<char>> = Seq::empty();
        while done < count
            invariant
                done <= count,
                is_rest_of(reader.remaining(), old(reader).remaining()),
                comment_header_rest(old(reader).remaining(), header_len as nat) == entries_rest(
                    reader.remaining(),
                    budget as nat,
                    (count - done) as nat,
                ),
                expected == comment_header_at(old(reader).remaining(), header_len as nat),
                pairs_view(user_comments@) == pairs_of(entries),
                expected == match entries_at(
                    reader.remaining(),
                    budget as nat,
                    (count - done) as nat,
                ) {
                    Err(e) => Err(e),
                    Ok((more, rest)) => Ok(
                        (
                            CommentHeaderView {
                                vendor: vendor@,
                                user_comments: pairs_of(entries + more),
                            },
                            rest,
                        ),
                    ),
                },
            decreases count - done,
        {
            proof {
                lemma_rest_of_rest(old(reader).remaining(), reader.remaining());
            }
            let (field, left) = read_field(reader, budget)?;
            let entry = decode_string(field.as_slice())?;
            proof {
                let next = entries_at(reader.remaining(), left as nat, (count - done - 1) as nat);
                if let Ok((more, rest)) = next {
                    assert(entries + (seq![entry@] + more) =~= entries.push(entry@) + more);
                }
                assert(entries.push(entry@).drop_last() =~= entries);
            }
            if let Some(pair) = split_comment(entry.as_str()) {
                user_comments.push(pair);
            }
            proof {
                entries = entries.push(entry@);
            }
            budget = left;
            done += 1;
        }
        Ok(CommentHeader { vendor, user_comments })
    }
}

} // verus!

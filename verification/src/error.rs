//! The ways in which reading a stream can fail, and what each is called in words.

use vstd::prelude::*;
use vstd::std_specs::convert::FromSpecImpl;
use vstd::string::StringExecFns;

verus! {

/// A byte source held fewer bytes than one read asked of it.
#[derive(Debug, Clone, Copy, PartialEq, Eq, Structural)]
pub struct DidNotReadEnough {
    /// The number of bytes that the read asked for.
    pub expected: usize,
    /// The number of bytes that the source still held.
    pub got: usize,
}

/// The input ended before the identification header and the comment header were both found.
#[derive(Debug, Clone, Copy, PartialEq, Eq, Structural)]
pub struct DidNotFindBothHeaders;

/// A stream parsing error. Every one is final: the parse that met it has no result.
#[derive(Debug, Clone, Copy, PartialEq, Eq, Structural)]
pub enum ParseError {
    /// The input ended in the middle of a field.
    Io(DidNotReadEnough),
    /// A string of the comment header is not UTF-8.
    Encoding,
    /// A page does not begin with the capture pattern `OggS`, or the first page of a
    /// stream is not marked as the first.
    InvalidOggPage,
    /// A header does not begin with its signature, `OpusHead` or `OpusTags`.
    InvalidOpusHeader,
    /// The pages of the comment header hold more bytes than the ceiling allows.
    CommentHeaderTooLarge,
    /// A field of the comment header claims more bytes than the header has left.
    CommentTooLong,
    /// The input ended before both headers were found.
    HeadersNotFound,
    /// The container ended in the middle of a page, as `ogg` reports it: without the
    /// numbers that `Io` carries.
    UnexpectedEndOfStream,
}

/// The error of a read of `size` bytes at `offset` in an input of `len` bytes that
/// ends before the read is served.
pub open spec fn short_read(len: nat, offset: nat, size: nat) -> ParseError {
    ParseError::Io(DidNotReadEnough { expected: size as usize, got: (len - offset) as usize })
}

/// The character that stands for a digit.
pub open spec fn digit(value: nat) -> char {
    if value == 0 {
        '0'
    } else if value == 1 {
        '1'
    } else if value == 2 {
        '2'
    } else if value == 3 {
        '3'
    } else if value == 4 {
        '4'
    } else if value == 5 {
        '5'
    } else if value == 6 {
        '6'
    } else if value == 7 {
        '7'
    } else if value == 8 {
        '8'
    } else {
        '9'
    }
}

/// A number written in decimal digits, without leading zeros.
pub open spec fn decimal(value: nat) -> Seq<char>
    decreases value,
{
    if value < 10 {
        seq![digit(value)]
    } else {
        decimal(value / 10).push(digit(value % 10))
    }
}

/// The digit of a number below ten, as a string.
fn digit_str(value: usize) -> (text: &'static str)
    requires
        value < 10,
    ensures
        text@ == seq![digit(value as nat)],
{
    proof {
        reveal_strlit("0");
        reveal_strlit("1");
        reveal_strlit("2");
        reveal_strlit("3");
        reveal_strlit("4");
        reveal_strlit("5");
        reveal_strlit("6");
        reveal_strlit("7");
        reveal_strlit("8");
        reveal_strlit("9");
    }
    if value == 0 {
        "0"
    } else if value == 1 {
        "1"
    } else if value == 2 {
        "2"
    } else if value == 3 {
        "3"
    } else if value == 4 {
        "4"
    } else if value == 5 {
        "5"
    } else if value == 6 {
        "6"
    } else if value == 7 {
        "7"
    } else if value == 8 {
        "8"
    } else {
        "9"
    }
}

/// Writes a number in decimal digits.
pub fn decimal_string(value: usize) -> (text: String)
    ensures
        text@ == decimal(value as nat),
    decreases value,
{
    if value < 10 {
        String::from_str(digit_str(value))
    } else {
        let mut text = decimal_string(value / 10);
        text.append(digit_str(value % 10));
        text
    }
}

impl DidNotReadEnough {
    /// What `message` says.
    pub open spec fn message_text(self) -> Seq<char> {
        "Only read "@ + decimal(self.got as nat) + " bytes, expected "@ + decimal(
            self.expected as nat,
        )
    }

    /// The error in words: how many bytes were read and how many were expected.
    pub fn message(&self) -> (text: String)
        ensures
            text@ == self.message_text(),
    {
        let mut text = String::from_str("Only read ");
        text.append(decimal_string(self.got).as_str());
        text.append(" bytes, expected ");
        text.append(decimal_string(self.expected).as_str());
        text
    }
}

impl DidNotFindBothHeaders {
    /// What `message` says.
    pub open spec fn message_text(self) -> Seq<char> {
        "Could not find either the identification or comment header in the given Reader"@
    }

    /// The error in words.
    pub fn message(&self) -> (text: String)
        ensures
            text@ == self.message_text(),
    {
        String::from_str(
            "Could not find either the identification or comment header in the given Reader",
        )
    }
}

impl ParseError {
    /// What `message` says.
    pub open spec fn message_text(self) -> Seq<char> {
        match self {
            ParseError::Io(e) => e.message_text(),
            ParseError::Encoding => "A string of the comment header is not valid UTF-8"@,
            ParseError::InvalidOggPage => "missing Ogg page magic"@,
            ParseError::InvalidOpusHeader => "Opus header is missing the magic signature"@,
            ParseError::CommentHeaderTooLarge => "Opus comment header is larger than 120MB"@,
            ParseError::CommentTooLong => "A comment claims to be longer than the Header itself"@,
            ParseError::HeadersNotFound => DidNotFindBothHeaders.message_text(),
            ParseError::UnexpectedEndOfStream => "The container ends in the middle of a page"@,
        }
    }

    /// The error in words.
    pub fn message(&self) -> (text: String)
        ensures
            text@ == self.message_text(),
    {
        match self {
            ParseError::Io(e) => e.message(),
            ParseError::Encoding => String::from_str(
                "A string of the comment header is not valid UTF-8",
            ),
            ParseError::InvalidOggPage => String::from_str("missing Ogg page magic"),
            ParseError::InvalidOpusHeader => String::from_str(
                "Opus header is missing the magic signature",
            ),
            ParseError::CommentHeaderTooLarge => String::from_str(
                "Opus comment header is larger than 120MB",
            ),
            ParseError::CommentTooLong => String::from_str(
                "A comment claims to be longer than the Header itself",
            ),
            ParseError::HeadersNotFound => DidNotFindBothHeaders.message(),
            ParseError::UnexpectedEndOfStream => String::from_str(
                "The container ends in the middle of a page",
            ),
        }
    }
}

impl From<DidNotReadEnough> for ParseError {
    fn from(e: DidNotReadEnough) -> (error: ParseError) {
        ParseError::Io(e)
    }
}

impl FromSpecImpl<DidNotReadEnough> for ParseError {
    open spec fn obeys_from_spec() -> bool {
        true
    }

    open spec fn from_spec(e: DidNotReadEnough) -> ParseError {
        ParseError::Io(e)
    }
}

impl From<DidNotFindBothHeaders> for ParseError {
    fn from(e: DidNotFindBothHeaders) -> (error: ParseError) {
        ParseError::HeadersNotFound
    }
}

impl FromSpecImpl<DidNotFindBothHeaders> for ParseError {
    open spec fn obeys_from_spec() -> bool {
        true
    }

    open spec fn from_spec(e: DidNotFindBothHeaders) -> ParseError {
        ParseError::HeadersNotFound
    }
}

/// Turns the error of a short read into the parse error that carries it.
pub(crate) fn io<V>(read: Result<V, DidNotReadEnough>) -> (r: Result<V, ParseError>)
    ensures
        match read {
            Ok(value) => r == Ok::<V, ParseError>(value),
            Err(e) => r == Err::<V, ParseError>(ParseError::Io(e)),
        },
{
    match read {
        Ok(value) => Ok(value),
        Err(e) => Err(ParseError::from(e)),
    }
}

} // verus!

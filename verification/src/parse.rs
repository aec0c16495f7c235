//! The arguments of a request, handed out one by one.

use crate::buffer::{bytes_as_slice, bytes_copy_from_slice, bytes_view};
use crate::decimal::{decimal_of, parse_decimal};
use crate::frame::{lemma_array_view, views_of, Frame};
use crate::text::str_from_utf8;
use crate::wire::FrameView;
use crate::Error;
use bytes::Bytes;
use vstd::prelude::*;
use vstd::utf8::{decode_utf8, encode_utf8, valid_utf8};

verus! {

/// Why an argument could not be had.
#[derive(Debug, Clone, Copy, PartialEq, Eq, Structural)]
pub enum ParseError {
    /// No argument is left.
    EndOfStream,
    /// The argument is not what was asked for.
    Other(Error),
}

impl ParseError {
    /// The error as a command reports it.
    pub open spec fn unparsed(self) -> Error {
        match self {
            ParseError::EndOfStream => Error::EndOfStream,
            ParseError::Other(e) => e,
        }
    }

    /// The error in words.
    pub fn message(&self) -> (m: &'static str)
        ensures
            m@ == self.unparsed().text(),
    {
        match self {
            ParseError::EndOfStream => Error::EndOfStream.message(),
            ParseError::Other(e) => e.message(),
        }
    }
}

impl From<Error> for ParseError {
    fn from(src: Error) -> (r: ParseError) {
        ParseError::Other(src)
    }
}

impl vstd::std_specs::convert::FromSpecImpl<Error> for ParseError {
    open spec fn obeys_from_spec() -> bool {
        true
    }

    open spec fn from_spec(src: Error) -> ParseError {
        ParseError::Other(src)
    }
}

impl From<ParseError> for Error {
    fn from(src: ParseError) -> (r: Error) {
        match src {
            ParseError::EndOfStream => Error::EndOfStream,
            ParseError::Other(e) => e,
        }
    }
}

impl vstd::std_specs::convert::FromSpecImpl<ParseError> for Error {
    open spec fn obeys_from_spec() -> bool {
        true
    }

    open spec fn from_spec(src: ParseError) -> Error {
        src.unparsed()
    }
}

/// The text that an argument stands for.
pub open spec fn string_of(f: FrameView) -> Result<Seq<char>, ParseError> {
    match f {
        FrameView::Simple(s) => Ok(s),
        FrameView::Bulk(data) => if valid_utf8(data) {
            Ok(decode_utf8(data))
        } else {
            Err(ParseError::Other(Error::InvalidString))
        },
        _ => Err(ParseError::Other(Error::ExpectedString)),
    }
}

/// The raw bytes that an argument stands for.
pub open spec fn bytes_of(f: FrameView) -> Result<Seq<u8>, ParseError> {
    match f {
        FrameView::Simple(s) => Ok(encode_utf8(s)),
        FrameView::Bulk(data) => Ok(data),
        _ => Err(ParseError::Other(Error::ExpectedBytes)),
    }
}

/// The number that an argument stands for: an integer frame, or text that
/// is a decimal number.
pub open spec fn int_of(f: FrameView) -> Result<u64, ParseError> {
    match f {
        FrameView::Integer(n) => Ok(n),
        FrameView::Simple(s) => match decimal_of(encode_utf8(s)) {
            Some(n) => Ok(n),
            None => Err(ParseError::Other(Error::InvalidNumber)),
        },
        FrameView::Bulk(data) => match decimal_of(data) {
            Some(n) => Ok(n),
            None => Err(ParseError::Other(Error::InvalidNumber)),
        },
        _ => Err(ParseError::Other(Error::ExpectedInteger)),
    }
}

/// The frames of a request that were not handed out yet. They are kept
/// last first, so that the next one is taken from the end.
#[derive(Debug)]
pub struct Parse {
    parts: Vec<Frame>,
}

impl Parse {
    /// The frames that are left, next first.
    pub closed spec fn remaining(&self) -> Seq<FrameView> {
        Seq::new(self.parts@.len(), |i: int| self.parts@[self.parts@.len() - 1 - i]@)
    }

    /// Takes a request apart. Anything but an array is refused.
    pub fn new(frame: Frame) -> (r: Result<Parse, ParseError>)
        ensures
            match frame@ {
                FrameView::Array(items) => r matches Ok(p) && p.remaining() == items,
                _ => r matches Err(ParseError::Other(Error::ExpectedArray)),
            },
    {
        let mut array = match frame {
            Frame::Array(array) => array,
            _ => {
                return Err(ParseError::Other(Error::ExpectedArray));
            },
        };
        let ghost whole = array@;
        proof {
            lemma_array_view(array);
        }
        let mut parts: Vec<Frame> = Vec::new();
        loop
            invariant
                array@ == whole.take(array@.len() as int),
                array@.len() <= whole.len(),
                parts@.len() == whole.len() - array@.len(),
                forall|j: int|
                    0 <= j < parts@.len() ==> parts@[j] == whole[whole.len() - 1 - j],
            ensures
                array@.len() == 0,
            decreases array@.len(),
        {
            match array.pop() {
                Some(item) => {
                    parts.push(item);
                },
                None => {
                    break ;
                },
            }
        }
        let p = Parse { parts };
        Ok(p)
    }

    /// Hands out the next frame.
    pub fn next(&mut self) -> (r: Result<Frame, ParseError>)
        ensures
            ({
                let before = old(self).remaining();
                let after = final(self).remaining();
                if before.len() == 0 {
                    r == Err::<Frame, ParseError>(ParseError::EndOfStream) && after == before
                } else {
                    r matches Ok(f) && f@ == before[0] && after == before.drop_first()
                }
            }),
    {
        match self.parts.pop() {
            Some(frame) => {
                Ok(frame)
            },
            None => Err(ParseError::EndOfStream),
        }
    }

    /// Hands out the next frame as text.
    pub fn next_string(&mut self) -> (r: Result<String, ParseError>)
        ensures
            ({
                let before = old(self).remaining();
                let after = final(self).remaining();
                if before.len() == 0 {
                    r == Err::<String, ParseError>(ParseError::EndOfStream) && after == before
                } else {
                    &&& after == before.drop_first()
                    &&& match string_of(before[0]) {
                        Ok(text) => r matches Ok(s) && s@ == text,
                        Err(e) => r == Err::<String, ParseError>(e),
                    }
                }
            }),
    {
        match self.next()? {
            Frame::Simple(s) => Ok(s),
            Frame::Bulk(data) => match str_from_utf8(bytes_as_slice(&data)) {
                Ok(s) => Ok(s.to_owned()),
                Err(_) => Err(ParseError::Other(Error::InvalidString)),
            },
            _ => Err(ParseError::Other(Error::ExpectedString)),
        }
    }

    /// Hands out the next frame as raw bytes.
    pub fn next_bytes(&mut self) -> (r: Result<Bytes, ParseError>)
        ensures
            ({
                let before = old(self).remaining();
                let after = final(self).remaining();
                if before.len() == 0 {
                    r == Err::<Bytes, ParseError>(ParseError::EndOfStream) && after == before
                } else {
                    &&& after == before.drop_first()
                    &&& match bytes_of(before[0]) {
                        Ok(bytes) => r matches Ok(b) && bytes_view(b) == bytes,
                        Err(e) => r == Err::<Bytes, ParseError>(e),
                    }
                }
            }),
    {
        match self.next()? {
            Frame::Simple(s) => Ok(bytes_copy_from_slice(s.as_str().as_bytes())),
            Frame::Bulk(data) => Ok(data),
            _ => Err(ParseError::Other(Error::ExpectedBytes)),
        }
    }

    /// Hands out the next frame as a number.
    pub fn next_int(&mut self) -> (r: Result<u64, ParseError>)
        ensures
            ({
                let before = old(self).remaining();
                let after = final(self).remaining();
                if before.len() == 0 {
                    r == Err::<u64, ParseError>(ParseError::EndOfStream) && after == before
                } else {
                    &&& after == before.drop_first()
                    &&& match int_of(before[0]) {
                        Ok(n) => r == Ok::<u64, ParseError>(n),
                        Err(e) => r == Err::<u64, ParseError>(e),
                    }
                }
            }),
    {
        match self.next()? {
            Frame::Integer(v) => Ok(v),
            Frame::Simple(s) => match parse_decimal(s.as_str().as_bytes()) {
                Some(v) => Ok(v),
                None => Err(ParseError::Other(Error::InvalidNumber)),
            },
            Frame::Bulk(data) => match parse_decimal(bytes_as_slice(&data)) {
                Some(v) => Ok(v),
                None => Err(ParseError::Other(Error::InvalidNumber)),
            },
            _ => Err(ParseError::Other(Error::ExpectedInteger)),
        }
    }

    /// Makes sure that no argument is left. One that is left is taken.
    pub fn finish(&mut self) -> (r: Result<(), ParseError>)
        ensures
            if old(self).remaining().len() == 0 {
                r matches Ok(_) && final(self).remaining() == old(self).remaining()
            } else {
                r matches Err(
                ParseError::Other(Error::TrailingArguments),
            ) && final(self).remaining() == old(self).remaining().drop_first()
            },
    {
        match self.next() {
            Err(_) => Ok(()),
            Ok(_) => Err(ParseError::Other(Error::TrailingArguments)),
        }
    }
}

} // verus!

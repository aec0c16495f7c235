//! Frames and the codec that reads them from a byte cursor.

use crate::buffer::{bytes_copy_from_slice, bytes_view};
use crate::cursor::Cursor;
use crate::decimal::parse_decimal;
use crate::text::str_from_utf8;
use crate::wire::{
    decimal_at, decode, decode_items, frame_end, frames_end, line_at, line_end, null_line,
    terminator_at, text_of, FrameView, ARRAY, BULK, CR, INTEGER, LF, MINUS, ONE, SIMPLE,
};
use crate::wire_laws::{lemma_decode_bounds, lemma_frame_end_bounds, lemma_line_end};
use bytes::Bytes;
use vstd::prelude::*;
use vstd::slice::slice_subrange;

verus! {

/// Why no frame came out of the bytes at hand.
#[derive(Debug, Clone, Copy, PartialEq, Eq, Structural)]
pub enum Error {
    /// The bytes stop before the frame does: more are needed.
    Incomplete,
    /// The bytes cannot be a frame.
    Other(crate::Error),
}

impl Error {
    /// The error as a connection reports it: a frame that was incomplete
    /// where a whole one was expected ended early.
    pub open spec fn unframed(self) -> crate::Error {
        match self {
            Error::Incomplete => crate::Error::Incomplete,
            Error::Other(e) => e,
        }
    }
}

impl From<Error> for crate::Error {
    fn from(e: Error) -> (r: crate::Error) {
        match e {
            Error::Incomplete => crate::Error::Incomplete,
            Error::Other(e) => e,
        }
    }
}

impl vstd::std_specs::convert::FromSpecImpl<Error> for crate::Error {
    open spec fn obeys_from_spec() -> bool {
        true
    }

    open spec fn from_spec(e: Error) -> crate::Error {
        e.unframed()
    }
}

/// One protocol value.
#[derive(Debug, PartialEq, Eq)]
pub enum Frame {
    Simple(String),
    Error(String),
    Integer(u64),
    Bulk(Bytes),
    Null,
    Array(Vec<Frame>),
}

impl Frame {
    /// What the frame stands for.
    pub open spec fn model(self) -> FrameView
        decreases self,
    {
        match self {
            Frame::Simple(s) => FrameView::Simple(s@),
            Frame::Error(s) => FrameView::Error(s@),
            Frame::Integer(n) => FrameView::Integer(n),
            Frame::Bulk(b) => FrameView::Bulk(bytes_view(b)),
            Frame::Null => FrameView::Null,
            Frame::Array(v) => FrameView::Array(
                Seq::new(
                    v@.len(),
                    |i: int|
                        if 0 <= i < v@.len() {
                            v@[i].model()
                        } else {
                            FrameView::Null
                        },
                ),
            ),
        }
    }
}

impl View for Frame {
    type V = FrameView;

    open spec fn view(&self) -> FrameView {
        self.model()
    }
}

/// The views of the frames of a sequence, in order.
pub open spec fn views_of(frames: Seq<Frame>) -> Seq<FrameView> {
    Seq::new(frames.len(), |i: int| frames[i]@)
}

/// An array is seen as the sequence of what its items are seen as.
pub proof fn lemma_array_view(items: Vec<Frame>)
    ensures
        Frame::Array(items)@ == FrameView::Array(views_of(items@)),
{
    assert(Frame::Array(items)@->Array_0 =~= views_of(items@));
}

/// Moves the cursor `n` bytes on, if that many are left.
pub fn skip(src: &mut Cursor<'_>, n: usize) -> (r: Result<(), Error>)
    ensures
        final(src).bytes() == old(src).bytes(),
        n <= old(src).left() ==> r == Ok::<(), Error>(()),
        n <= old(src).left() ==> final(src).offset() == old(src).offset() + n,
        n > old(src).left() ==> r == Err::<(), Error>(Error::Incomplete),
        n > old(src).left() ==> final(src).offset() == old(src).offset(),
{
    if src.remaining() < n {
        return Err(Error::Incomplete);
    }
    src.advance(n);
    Ok(())
}

/// The next byte, which stays unread.
pub fn peer_u8(src: &mut Cursor<'_>) -> (r: Result<u8, Error>)
    ensures
        final(src).bytes() == old(src).bytes(),
        final(src).offset() == old(src).offset(),
        old(src).left() > 0 ==> r == Ok::<u8, Error>(old(src).bytes()[old(src).offset()]),
        old(src).left() == 0 ==> r == Err::<u8, Error>(Error::Incomplete),
{
    if !src.has_remaining() {
        return Err(Error::Incomplete);
    }
    let rest = src.chunk();
    Ok(rest[0])
}

/// Reads the next byte.
pub fn get_u8(src: &mut Cursor<'_>) -> (r: Result<u8, Error>)
    ensures
        final(src).bytes() == old(src).bytes(),
        old(src).left() > 0 ==> r == Ok::<u8, Error>(old(src).bytes()[old(src).offset()])
            && final(src).offset() == old(src).offset() + 1,
        old(src).left() == 0 ==> r == Err::<u8, Error>(Error::Incomplete) && final(src).offset()
            == old(src).offset(),
{
    if !src.has_remaining() {
        return Err(Error::Incomplete);
    }
    Ok(src.get_u8())
}

/// Reads a line: the bytes up to the next CRLF, which is consumed with
/// them. Without a CRLF ahead the cursor stays and the line is incomplete.
#[verifier::loop_isolation(false)]
pub fn get_line<'a>(src: &mut Cursor<'a>) -> (r: Result<&'a [u8], Error>)
    ensures
        final(src).bytes() == old(src).bytes(),
        match line_at(old(src).bytes(), old(src).offset()) {
            Ok((line, next)) => r matches Ok(l) && l@ == line && final(src).offset() == next,
            Err(e) => r == Err::<&[u8], Error>(e) && final(src).offset() == old(src).offset(),
        },
{
    let start = src.position();
    let data = src.get_ref();
    let len = data.len();
    if len == 0 {
        return Err(Error::Incomplete);
    }
    let end = len - 1;
    let mut i = start;
    while i < end
        invariant
            start <= i,
            end == len - 1,
            len == data@.len(),
            *src == *old(src),
            line_end(data@, start as int) == line_end(data@, i as int),
        decreases end - i,
    {
        if data[i] == CR && data[i + 1] == LF {
            src.set_position(i + 2);
            return Ok(slice_subrange(data, start, i));
        }
        i += 1;
    }
    Err(Error::Incomplete)
}

/// Reads a line that holds an unsigned decimal number.
pub fn get_decimal(src: &mut Cursor<'_>) -> (r: Result<u64, Error>)
    ensures
        final(src).bytes() == old(src).bytes(),
        match decimal_at(old(src).bytes(), old(src).offset()) {
            Ok((n, next)) => r == Ok::<u64, Error>(n) && final(src).offset() == next,
            Err(e) => r == Err::<u64, Error>(e),
        },
{
    let line = get_line(src)?;
    match parse_decimal(line) {
        Some(n) => Ok(n),
        None => Err(Error::Other(crate::Error::InvalidFrameFormat)),
    }
}

/// Reads the CRLF that closes a bulk payload.
fn get_terminator(src: &mut Cursor<'_>) -> (r: Result<(), Error>)
    ensures
        final(src).bytes() == old(src).bytes(),
        match terminator_at(old(src).bytes(), old(src).offset()) {
            Ok(next) => r == Ok::<(), Error>(()) && final(src).offset() == next,
            Err(e) => r == Err::<(), Error>(e),
        },
{
    if get_u8(src)? != CR {
        return Err(Error::Other(crate::Error::InvalidFrameFormat));
    }
    if get_u8(src)? != LF {
        return Err(Error::Other(crate::Error::InvalidFrameFormat));
    }
    Ok(())
}

/// Whether a line is the `-1` of a null.
fn is_null_line(line: &[u8]) -> (r: bool)
    ensures
        r == (line@ == null_line()),
{
    let r = line.len() == 2 && line[0] == MINUS && line[1] == ONE;
    proof {
        if r {
            assert(line@ =~= null_line());
        }
    }
    r
}

/// The text of a line as an owned string.
fn get_text(line: &[u8]) -> (r: Result<String, Error>)
    ensures
        match text_of(line@) {
            Ok(text) => r matches Ok(s) && s@ == text,
            Err(e) => r == Err::<String, Error>(e),
        },
{
    match str_from_utf8(line) {
        Ok(s) => Ok(s.to_owned()),
        Err(_) => Err(Error::Other(crate::Error::InvalidText)),
    }
}

impl Frame {
    /// Finds out whether a whole frame lies ahead, without building it. On
    /// success the cursor stands behind the frame.
    #[verifier::loop_isolation(false)]
    pub fn check(src: &mut Cursor<'_>) -> (r: Result<(), Error>)
        ensures
            final(src).bytes() == old(src).bytes(),
            match frame_end(old(src).bytes(), old(src).offset()) {
                Ok(end) => r == Ok::<(), Error>(()) && final(src).offset() == end,
                Err(e) => r == Err::<(), Error>(e),
            },
        decreases old(src).left(),
    {
        let ghost b = src.bytes();
        let ghost pos = src.offset();
        let tag = get_u8(src)?;
        proof {
            lemma_line_end(b, pos + 1);
        }
        if tag == SIMPLE || tag == MINUS {
            get_line(src)?;
            Ok(())
        } else if tag == INTEGER {
            get_decimal(src)?;
            Ok(())
        } else if tag == BULK {
            if peer_u8(src)? == MINUS {
                let line = get_line(src)?;
                if !is_null_line(line) {
                    return Err(Error::Other(crate::Error::InvalidFrameFormat));
                }
                Ok(())
            } else {
                let len = get_decimal(src)?;
                if len > src.remaining() as u64 {
                    return Err(Error::Incomplete);
                }
                skip(src, len as usize)?;
                get_terminator(src)
            }
        } else if tag == ARRAY {
            let count = get_decimal(src)?;
            let ghost first = src.offset();
            let mut i: u64 = 0;
            while i < count
                invariant
                    i <= count,
                    src.bytes() == b,
                    pos < src.offset() <= b.len(),
                    src.left() < old(src).left(),
                    frames_end(b, first, count as nat) == frames_end(
                        b,
                        src.offset(),
                        (count - i) as nat,
                    ),
                decreases count - i,
            {
                proof {
                    lemma_frame_end_bounds(b, src.offset());
                }
                Frame::check(src)?;
                i += 1;
            }
            Ok(())
        } else {
            Err(Error::Other(crate::Error::InvalidFrameType(tag)))
        }
    }

    /// Reads the frame ahead. On success the cursor stands behind it.
    #[verifier::loop_isolation(false)]
    pub fn parse(src: &mut Cursor<'_>) -> (r: Result<Frame, Error>)
        ensures
            final(src).bytes() == old(src).bytes(),
            match decode(old(src).bytes(), old(src).offset()) {
                Ok((frame, end)) => r matches Ok(f) && f@ == frame && final(src).offset() == end,
                Err(e) => r == Err::<Frame, Error>(e),
            },
        decreases old(src).left(),
    {
        let ghost b = src.bytes();
        let ghost pos = src.offset();
        let tag = get_u8(src)?;
        proof {
            lemma_line_end(b, pos + 1);
        }
        if tag == SIMPLE {
            let line = get_line(src)?;
            let text = get_text(line)?;
            Ok(Frame::Simple(text))
        } else if tag == MINUS {
            let line = get_line(src)?;
            let text = get_text(line)?;
            Ok(Frame::Error(text))
        } else if tag == INTEGER {
            let n = get_decimal(src)?;
            Ok(Frame::Integer(n))
        } else if tag == BULK {
            if peer_u8(src)? == MINUS {
                let line = get_line(src)?;
                if !is_null_line(line) {
                    return Err(Error::Other(crate::Error::InvalidFrameFormat));
                }
                Ok(Frame::Null)
            } else {
                let len = get_decimal(src)?;
                if len > src.remaining() as u64 {
                    return Err(Error::Incomplete);
                }
                let rest = src.chunk();
                let data = bytes_copy_from_slice(slice_subrange(rest, 0, len as usize));
                skip(src, len as usize)?;
                get_terminator(src)?;
                proof {
                    let next = src.offset() - 2 - len;
                    assert(bytes_view(data) =~= b.subrange(next, next + len));
                }
                Ok(Frame::Bulk(data))
            }
        } else if tag == ARRAY {
            let count = get_decimal(src)?;
            let ghost first = src.offset();
            let mut out: Vec<Frame> = Vec::new();
            let mut i: u64 = 0;
            assert(views_of(out@) =~= Seq::<FrameView>::empty());
            while i < count
                invariant
                    i <= count,
                    src.bytes() == b,
                    pos < src.offset() <= b.len(),
                    src.left() < old(src).left(),
                    decode_items(b, first, count as nat, Seq::empty()) == decode_items(
                        b,
                        src.offset(),
                        (count - i) as nat,
                        views_of(out@),
                    ),
                decreases count - i,
            {
                proof {
                    lemma_decode_bounds(b, src.offset());
                }
                let ghost before = views_of(out@);
                let item = Frame::parse(src)?;
                out.push(item);
                proof {
                    assert(views_of(out@) =~= before.push(item@));
                }
                i += 1;
            }
            proof {
                lemma_array_view(out);
            }
            Ok(Frame::Array(out))
        } else {
            Err(Error::Other(crate::Error::InvalidFrameType(tag)))
        }
    }
}

} // verus!

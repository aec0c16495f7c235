//! The wire format as mathematics: what a frame is, how it is written, and
//! how a byte sequence is read back.

use vstd::prelude::*;
use vstd::utf8::*;
use crate::decimal::{decimal_digits, decimal_of};
use crate::frame::Error as FrameError;
use crate::Error;

verus! {

/// A protocol value, as the contracts see it.
pub enum FrameView {
    Simple(Seq<char>),
    Error(Seq<char>),
    Integer(u64),
    Bulk(Seq<u8>),
    Null,
    Array(Seq<FrameView>),
}

/// `+`, the marker of a simple string.
pub const SIMPLE: u8 = 43;

/// `-`, the marker of an error string, and the first byte of a null.
pub const MINUS: u8 = 45;

/// `:`, the marker of an integer.
pub const INTEGER: u8 = 58;

/// `$`, the marker of a bulk string and of the null.
pub const BULK: u8 = 36;

/// `*`, the marker of an array.
pub const ARRAY: u8 = 42;

/// Carriage return, the first byte of a line terminator.
pub const CR: u8 = 13;

/// Line feed, the second byte of a line terminator.
pub const LF: u8 = 10;

/// The digit `1`.
pub const ONE: u8 = 49;

/// The line terminator.
pub open spec fn crlf() -> Seq<u8> {
    seq![CR, LF]
}

/// The bytes that stand for `f` on the wire.
pub open spec fn encode(f: FrameView) -> Seq<u8>
    decreases f, 0nat,
{
    match f {
        FrameView::Simple(s) => seq![SIMPLE] + encode_utf8(s) + crlf(),
        FrameView::Error(s) => seq![MINUS] + encode_utf8(s) + crlf(),
        FrameView::Integer(n) => seq![INTEGER] + decimal_digits(n as nat) + crlf(),
        FrameView::Bulk(data) => seq![BULK] + decimal_digits(data.len()) + crlf() + data + crlf(),
        FrameView::Null => seq![BULK, MINUS, ONE, CR, LF],
        FrameView::Array(items) => seq![ARRAY] + decimal_digits(items.len()) + crlf()
            + encode_prefix(items, items.len()),
    }
}

/// The encodings of the first `n` frames of `items`, one after the other.
pub open spec fn encode_prefix(items: Seq<FrameView>, n: nat) -> Seq<u8>
    decreases items, n,
{
    if n == 0 || n > items.len() {
        Seq::empty()
    } else {
        encode_prefix(items, (n - 1) as nat) + encode(items[n - 1])
    }
}


/// Whether a line terminator starts at index `i` of `b`.
pub open spec fn crlf_at(b: Seq<u8>, i: int) -> bool {
    0 <= i && i + 1 < b.len() && b[i] == CR && b[i + 1] == LF
}

/// The index of the first line terminator of `b` at or after `from`.
pub open spec fn line_end(b: Seq<u8>, from: int) -> Option<int>
    decreases b.len() - from,
{
    if from < 0 || from + 1 >= b.len() {
        None
    } else if b[from] == CR && b[from + 1] == LF {
        Some(from)
    } else {
        line_end(b, from + 1)
    }
}

/// The line that starts at `pos`, without its terminator, and the index of
/// the byte after the terminator. A line that is not closed yet is
/// incomplete.
pub open spec fn line_at(b: Seq<u8>, pos: int) -> Result<(Seq<u8>, int), FrameError> {
    match line_end(b, pos) {
        Some(end) => Ok((b.subrange(pos, end), end + 2)),
        None => Err(FrameError::Incomplete),
    }
}

/// The number on the line that starts at `pos`, and the index of the byte
/// after the line.
pub open spec fn decimal_at(b: Seq<u8>, pos: int) -> Result<(u64, int), FrameError> {
    match line_at(b, pos) {
        Ok((line, next)) => match decimal_of(line) {
            Some(n) => Ok((n, next)),
            None => Err(FrameError::Other(Error::InvalidFrameFormat)),
        },
        Err(e) => Err(e),
    }
}

/// The index after the line terminator that has to stand at `pos`.
pub open spec fn terminator_at(b: Seq<u8>, pos: int) -> Result<int, FrameError> {
    if pos < 0 || pos >= b.len() {
        Err(FrameError::Incomplete)
    } else if b[pos] != CR {
        Err(FrameError::Other(Error::InvalidFrameFormat))
    } else if pos + 1 >= b.len() {
        Err(FrameError::Incomplete)
    } else if b[pos + 1] != LF {
        Err(FrameError::Other(Error::InvalidFrameFormat))
    } else {
        Ok(pos + 2)
    }
}

/// The text of a null after its `$`.
pub open spec fn null_line() -> Seq<u8> {
    seq![MINUS, ONE]
}

/// Where the frame that starts at `pos` ends, by its framing alone: the
/// index of the first byte after it. `Incomplete` says that `b` stops
/// before the frame does; any other error says that no frame can start
/// like this.
pub open spec fn frame_end(b: Seq<u8>, pos: int) -> Result<int, FrameError>
    decreases b.len() - pos, 0nat,
{
    if pos < 0 || pos >= b.len() {
        Err(FrameError::Incomplete)
    } else if b[pos] == SIMPLE || b[pos] == MINUS {
        match line_at(b, pos + 1) {
            Ok((_, next)) => Ok(next),
            Err(e) => Err(e),
        }
    } else if b[pos] == INTEGER {
        match decimal_at(b, pos + 1) {
            Ok((_, next)) => Ok(next),
            Err(e) => Err(e),
        }
    } else if b[pos] == BULK {
        if pos + 1 >= b.len() {
            Err(FrameError::Incomplete)
        } else if b[pos + 1] == MINUS {
            match line_at(b, pos + 1) {
                Ok((line, next)) => if line == null_line() {
                    Ok(next)
                } else {
                    Err(FrameError::Other(Error::InvalidFrameFormat))
                },
                Err(e) => Err(e),
            }
        } else {
            match decimal_at(b, pos + 1) {
                Ok((len, next)) => if next + len > b.len() {
                    Err(FrameError::Incomplete)
                } else {
                    terminator_at(b, next + len)
                },
                Err(e) => Err(e),
            }
        }
    } else if b[pos] == ARRAY {
        match decimal_at(b, pos + 1) {
            Ok((count, next)) => if pos < next <= b.len() {
                frames_end(b, next, count as nat)
            } else {
                Err(FrameError::Incomplete)
            },
            Err(e) => Err(e),
        }
    } else {
        Err(FrameError::Other(Error::InvalidFrameType(b[pos])))
    }
}

/// Where a run of `count` frames that starts at `pos` ends.
///
/// A frame is never empty, so the two tests on the index that the next
/// frame starts at always hold; they are there for the termination check.
pub open spec fn frames_end(b: Seq<u8>, pos: int, count: nat) -> Result<int, FrameError>
    decreases b.len() - pos, count + 1,
{
    if count == 0 {
        Ok(pos)
    } else {
        match frame_end(b, pos) {
            Ok(next) => if pos < next <= b.len() {
                frames_end(b, next, (count - 1) as nat)
            } else {
                Err(FrameError::Incomplete)
            },
            Err(e) => Err(e),
        }
    }
}

/// The text that a line holds, if it is UTF-8.
pub open spec fn text_of(line: Seq<u8>) -> Result<Seq<char>, FrameError> {
    if valid_utf8(line) {
        Ok(decode_utf8(line))
    } else {
        Err(FrameError::Other(Error::InvalidText))
    }
}

/// The frame that starts at `pos` and the index of the first byte after it.
pub open spec fn decode(b: Seq<u8>, pos: int) -> Result<(FrameView, int), FrameError>
    decreases b.len() - pos, 0nat,
{
    if pos < 0 || pos >= b.len() {
        Err(FrameError::Incomplete)
    } else if b[pos] == SIMPLE {
        match line_at(b, pos + 1) {
            Ok((line, next)) => match text_of(line) {
                Ok(text) => Ok((FrameView::Simple(text), next)),
                Err(e) => Err(e),
            },
            Err(e) => Err(e),
        }
    } else if b[pos] == MINUS {
        match line_at(b, pos + 1) {
            Ok((line, next)) => match text_of(line) {
                Ok(text) => Ok((FrameView::Error(text), next)),
                Err(e) => Err(e),
            },
            Err(e) => Err(e),
        }
    } else if b[pos] == INTEGER {
        match decimal_at(b, pos + 1) {
            Ok((n, next)) => Ok((FrameView::Integer(n), next)),
            Err(e) => Err(e),
        }
    } else if b[pos] == BULK {
        if pos + 1 >= b.len() {
            Err(FrameError::Incomplete)
        } else if b[pos + 1] == MINUS {
            match line_at(b, pos + 1) {
                Ok((line, next)) => if line == null_line() {
                    Ok((FrameView::Null, next))
                } else {
                    Err(FrameError::Other(Error::InvalidFrameFormat))
                },
                Err(e) => Err(e),
            }
        } else {
            match decimal_at(b, pos + 1) {
                Ok((len, next)) => if next + len > b.len() {
                    Err(FrameError::Incomplete)
                } else {
                    match terminator_at(b, next + len) {
                        Ok(end) => Ok((FrameView::Bulk(b.subrange(next, next + len)), end)),
                        Err(e) => Err(e),
                    }
                },
                Err(e) => Err(e),
            }
        }
    } else if b[pos] == ARRAY {
        match decimal_at(b, pos + 1) {
            Ok((count, next)) => if pos < next <= b.len() {
                match decode_items(b, next, count as nat, Seq::empty()) {
                    Ok((items, end)) => Ok((FrameView::Array(items), end)),
                    Err(e) => Err(e),
                }
            } else {
                Err(FrameError::Incomplete)
            },
            Err(e) => Err(e),
        }
    } else {
        Err(FrameError::Other(Error::InvalidFrameType(b[pos])))
    }
}

/// The `count` frames that start at `pos`, appended to `done`, and the index
/// of the first byte after them. The first frame that cannot be read
/// decides the error.
pub open spec fn decode_items(b: Seq<u8>, pos: int, count: nat, done: Seq<FrameView>) -> Result<
    (Seq<FrameView>, int),
    FrameError,
>
    decreases b.len() - pos, count + 1,
{
    if count == 0 {
        Ok((done, pos))
    } else {
        match decode(b, pos) {
            Ok((item, next)) => if pos < next <= b.len() {
                decode_items(b, next, (count - 1) as nat, done.push(item))
            } else {
                Err(FrameError::Incomplete)
            },
            Err(e) => Err(e),
        }
    }
}

/// No line terminator anywhere in `s`.
pub open spec fn no_crlf(s: Seq<u8>) -> bool {
    forall|i: int| !crlf_at(s, i)
}

/// Whether reading gives `f` back after writing it: a line must not hold a
/// line terminator, and a length has to fit in 64 bits.
pub open spec fn wire_safe(f: FrameView) -> bool
    decreases f,
{
    match f {
        FrameView::Simple(s) => no_crlf(encode_utf8(s)),
        FrameView::Error(s) => no_crlf(encode_utf8(s)),
        FrameView::Integer(_) => true,
        FrameView::Bulk(data) => data.len() <= u64::MAX,
        FrameView::Null => true,
        FrameView::Array(items) => items.len() <= u64::MAX && forall|i: int|
            0 <= i < items.len() ==> wire_safe(#[trigger] items[i]),
    }
}

/// Whether `s` stands in `b` from index `pos` on.
pub open spec fn holds_at(b: Seq<u8>, pos: int, s: Seq<u8>) -> bool {
    0 <= pos && pos + s.len() <= b.len() && b.subrange(pos, pos + s.len()) == s
}

/// What the bytes buffered for a connection hold at their start: no whole
/// frame yet, a frame and the number of bytes that it takes, or bytes that
/// no frame can be read from.
pub open spec fn next_frame(b: Seq<u8>) -> Result<Option<(FrameView, int)>, Error> {
    match frame_end(b, 0) {
        Err(FrameError::Incomplete) => Ok(None),
        Err(FrameError::Other(e)) => Err(e),
        Ok(end) => match decode(b, 0) {
            Ok((frame, _)) => Ok(Some((frame, end))),
            Err(e) => Err(e.unframed()),
        },
    }
}

} // verus!

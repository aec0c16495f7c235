//! The two buffers of a connection: bytes that arrived and are not yet read
//! as frames, and bytes that are written and not yet sent.

use crate::buffer::{
    bytes_as_slice, bytes_mut_advance, bytes_mut_as_slice, bytes_mut_extend, bytes_mut_is_empty,
    bytes_mut_view, bytes_mut_with_capacity,
};
use crate::cursor::Cursor;
use crate::decimal::{decimal_digits, write_decimal};
use crate::frame::{lemma_array_view, views_of, Frame};
use crate::wire::{
    crlf, encode, encode_prefix, next_frame, ARRAY, BULK, CR, INTEGER, LF, MINUS, ONE, SIMPLE,
};
use crate::wire_laws::lemma_frame_end_bounds;
use crate::Error;
use bytes::BytesMut;
use vstd::prelude::*;

verus! {

/// What one read from the transport led to.
#[derive(Debug, PartialEq, Eq)]
pub enum ReadOutcome {
    /// A whole frame has arrived.
    Frame(Frame),
    /// The frame under way is not whole yet: read again.
    Pending,
    /// The peer closed the stream between two frames.
    Closed,
}

/// The buffers of one connection. The transport itself stays with the
/// caller, who hands over what it read and sends what was written.
#[derive(Debug)]
pub struct Connection {
    buffer: BytesMut,
    outgoing: Vec<u8>,
}

impl Connection {
    /// The bytes that arrived and were not read as frames yet.
    pub closed spec fn pending(&self) -> Seq<u8> {
        bytes_mut_view(self.buffer)
    }

    /// The bytes that were written and not taken for sending yet.
    pub closed spec fn written(&self) -> Seq<u8> {
        self.outgoing@
    }

    /// A connection with nothing buffered either way.
    pub fn new() -> (c: Self)
        ensures
            c.pending() == Seq::<u8>::empty(),
            c.written() == Seq::<u8>::empty(),
    {
        Connection { buffer: bytes_mut_with_capacity(4096), outgoing: Vec::new() }
    }

    /// Takes in what one read from the transport gave. No bytes means that
    /// the peer closed the stream: that is a clean end between two frames
    /// and a reset inside one. Otherwise the bytes join the buffer and the
    /// next frame is read if it is whole now.
    pub fn read_frame(&mut self, received: &[u8]) -> (r: Result<ReadOutcome, Error>)
        ensures
            final(self).written() == old(self).written(),
            ({
                let before = old(self).pending();
                let after = final(self).pending();
                if received@.len() == 0 {
                    &&& after == before
                    &&& before.len() == 0 ==> r == Ok::<ReadOutcome, Error>(ReadOutcome::Closed)
                    &&& before.len() > 0 ==> r == Err::<ReadOutcome, Error>(Error::ConnectionReset)
                } else {
                    match next_frame(before + received@) {
                        Ok(None) => {
                            &&& r == Ok::<ReadOutcome, Error>(ReadOutcome::Pending)
                            &&& after == before + received@
                        },
                        Ok(Some((frame, end))) => {
                            &&& r matches Ok(ReadOutcome::Frame(f)) && f@ == frame
                            &&& after == (before + received@).skip(end)
                        },
                        Err(e) => {
                            &&& r == Err::<ReadOutcome, Error>(e)
                            &&& after == before + received@
                        },
                    }
                }
            }),
    {
        if received.len() == 0 {
            if bytes_mut_is_empty(&self.buffer) {
                return Ok(ReadOutcome::Closed);
            } else {
                return Err(Error::ConnectionReset);
            }
        }
        bytes_mut_extend(&mut self.buffer, received);
        match self.parse_frame()? {
            Some(frame) => Ok(ReadOutcome::Frame(frame)),
            None => Ok(ReadOutcome::Pending),
        }
    }

    /// Reads the next frame from the buffered bytes, if a whole one is
    /// there, and drops its bytes from the buffer.
    pub fn parse_frame(&mut self) -> (r: Result<Option<Frame>, Error>)
        ensures
            final(self).written() == old(self).written(),
            ({
                let before = old(self).pending();
                let after = final(self).pending();
                match next_frame(before) {
                    Ok(None) => r == Ok::<Option<Frame>, Error>(None) && after == before,
                    Ok(Some((frame, end))) => {
                        &&& r matches Ok(Some(f)) && f@ == frame
                        &&& after == before.skip(end)
                    },
                    Err(e) => r == Err::<Option<Frame>, Error>(e) && after == before,
                }
            }),
    {
        let mut buf = Cursor::new(bytes_mut_as_slice(&self.buffer));
        match Frame::check(&mut buf) {
            Ok(_) => {
                let len = buf.position();
                buf.set_position(0);
                let frame = match Frame::parse(&mut buf) {
                    Ok(frame) => frame,
                    Err(e) => {
                        return Err(Error::from(e));
                    },
                };
                proof {
                    lemma_frame_end_bounds(self.pending(), 0);
                }
                bytes_mut_advance(&mut self.buffer, len);
                Ok(Some(frame))
            },
            Err(crate::frame::Error::Incomplete) => Ok(None),
            Err(crate::frame::Error::Other(e)) => Err(e),
        }
    }

    /// Writes a frame: its encoding joins the bytes to send. An array is
    /// written as its header and then each of its items in turn.
    #[verifier::loop_isolation(false)]
    pub fn write_frame(&mut self, frame: &Frame)
        ensures
            final(self).pending() == old(self).pending(),
            final(self).written() == old(self).written() + encode(frame@),
        decreases frame,
    {
        match frame {
            Frame::Array(val) => {
                self.outgoing.push(ARRAY);
                self.write_decimal(val.len() as u64);
                let ghost base = self.written();
                let mut i: usize = 0;
                while i < val.len()
                    invariant
                        i <= val.len(),
                        self.pending() == old(self).pending(),
                        self.written() == base + encode_prefix(views_of(val@), i as nat),
                    decreases val.len() - i,
                {
                    proof {
                        vstd::std_specs::vec::axiom_vec_index_decreases(*val, i as int);
                    }
                    self.write_frame(&val[i]);
                    i += 1;
                }
                proof {
                    lemma_array_view(*val);
                }
            },
            _ => self.write_value(frame),
        }
    }

    /// Writes a frame that is no array.
    pub fn write_value(&mut self, frame: &Frame)
        requires
            !(frame is Array),
        ensures
            final(self).pending() == old(self).pending(),
            final(self).written() == old(self).written() + encode(frame@),
    {
        match frame {
            Frame::Simple(val) => {
                self.outgoing.push(SIMPLE);
                self.outgoing.extend_from_slice(val.as_str().as_bytes());
                self.outgoing.push(CR);
                self.outgoing.push(LF);
            },
            Frame::Error(val) => {
                self.outgoing.push(MINUS);
                self.outgoing.extend_from_slice(val.as_str().as_bytes());
                self.outgoing.push(CR);
                self.outgoing.push(LF);
            },
            Frame::Integer(val) => {
                self.outgoing.push(INTEGER);
                self.write_decimal(*val);
            },
            Frame::Null => {
                self.outgoing.push(BULK);
                self.outgoing.push(MINUS);
                self.outgoing.push(ONE);
                self.outgoing.push(CR);
                self.outgoing.push(LF);
            },
            Frame::Bulk(val) => {
                let data = bytes_as_slice(val);
                self.outgoing.push(BULK);
                self.write_decimal(data.len() as u64);
                self.outgoing.extend_from_slice(data);
                self.outgoing.push(CR);
                self.outgoing.push(LF);
            },
            Frame::Array(_) => {},
        }
    }

    /// Writes a number in decimal and the line terminator after it.
    pub fn write_decimal(&mut self, val: u64)
        ensures
            final(self).pending() == old(self).pending(),
            final(self).written() == old(self).written() + decimal_digits(val as nat) + crlf(),
    {
        write_decimal(val, &mut self.outgoing);
        self.outgoing.push(CR);
        self.outgoing.push(LF);
    }

    /// Hands out the bytes to send and leaves none behind.
    pub fn take_output(&mut self) -> (out: Vec<u8>)
        ensures
            out@ == old(self).written(),
            final(self).written() == Seq::<u8>::empty(),
            final(self).pending() == old(self).pending(),
    {
        let mut out: Vec<u8> = Vec::new();
        core::mem::swap(&mut out, &mut self.outgoing);
        out
    }
}

} // verus!

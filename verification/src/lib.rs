//! An in-memory key-value server core speaking a RESP-style wire protocol:
//! the frame codec, the per-connection buffers, command parsing, the store
//! with its expiration index, and the decisions of the listener and its
//! connection handlers.

use vstd::prelude::*;

pub mod buffer;
pub mod cmd;
pub mod connection;
pub mod cursor;
pub mod db;
pub mod db_laws;
pub mod decimal;
pub mod frame;
pub mod parse;
pub mod server;
pub mod shutdown;
pub mod text;
pub mod time;
pub mod wire;
pub mod wire_laws;

verus! {

/// The port that the server listens on where none is given.
pub const DEFAULT_PORT: &'static str = "6378";

/// Why a frame, a command or a connection was given up.
#[derive(Debug, Clone, Copy, PartialEq, Eq, Structural)]
pub enum Error {
    /// The first byte of a frame is none of `+ - : $ *`.
    InvalidFrameType(u8),
    /// A length or integer line is not a run of ASCII digits that fits in
    /// 64 bits, a null marker is not `-1`, or a bulk payload is not closed
    /// by CRLF.
    InvalidFrameFormat,
    /// A simple or error line is not UTF-8.
    InvalidText,
    /// A frame stopped before its end where a whole one was expected.
    Incomplete,
    /// The peer closed the stream in the middle of a frame.
    ConnectionReset,
    /// A request is not an array.
    ExpectedArray,
    /// An argument that has to be text is neither a simple nor a bulk frame.
    ExpectedString,
    /// A bulk argument that has to be text is not UTF-8.
    InvalidString,
    /// An argument that has to be raw bytes is neither a simple nor a bulk
    /// frame.
    ExpectedBytes,
    /// An argument that has to be a number is not an integer, nor a simple
    /// or bulk frame.
    ExpectedInteger,
    /// An argument that has to be a number is not a decimal that fits in 64
    /// bits.
    InvalidNumber,
    /// A command stops before its last required argument.
    EndOfStream,
    /// A command has arguments left after its last one.
    TrailingArguments,
    /// The option of a `SET` is neither `EX` nor `PX`.
    UnsupportedSetOption,
}

impl Error {
    /// The text that `message` gives for this error.
    pub open spec fn text(self) -> Seq<char> {
        match self {
            Error::InvalidFrameType(_) => "protocol error; invalid frame type byte"@,
            Error::InvalidFrameFormat => "protocol error; invalid frame format"@,
            Error::InvalidText => "protocol error; invalid text"@,
            Error::Incomplete => "stream ended early"@,
            Error::ConnectionReset => "connection reset by peer"@,
            Error::ExpectedArray => "protocol error; expected array"@,
            Error::ExpectedString => "protocol error; expected simple frame or bulk frame"@,
            Error::InvalidString => "protocol error; invalid string"@,
            Error::ExpectedBytes => "protocol error; expected simple frame or bulk frame"@,
            Error::ExpectedInteger => "protocol error; expected int frame"@,
            Error::InvalidNumber => "protocol error; invalid number"@,
            Error::EndOfStream => "protocol error; unexpected end of stream"@,
            Error::TrailingArguments => {
                "protocol error; expected end of frame, but there was more"@
            },
            Error::UnsupportedSetOption => "currently `SET` only supports the expiration option"@,
        }
    }

    /// The error in words, for a log or for a reply.
    pub fn message(&self) -> (m: &'static str)
        ensures
            m@ == self.text(),
    {
        match self {
            Error::InvalidFrameType(_) => "protocol error; invalid frame type byte",
            Error::InvalidFrameFormat => "protocol error; invalid frame format",
            Error::InvalidText => "protocol error; invalid text",
            Error::Incomplete => "stream ended early",
            Error::ConnectionReset => "connection reset by peer",
            Error::ExpectedArray => "protocol error; expected array",
            Error::ExpectedString => "protocol error; expected simple frame or bulk frame",
            Error::InvalidString => "protocol error; invalid string",
            Error::ExpectedBytes => "protocol error; expected simple frame or bulk frame",
            Error::ExpectedInteger => "protocol error; expected int frame",
            Error::InvalidNumber => "protocol error; invalid number",
            Error::EndOfStream => "protocol error; unexpected end of stream",
            Error::TrailingArguments => "protocol error; expected end of frame, but there was more",
            Error::UnsupportedSetOption => "currently `SET` only supports the expiration option",
        }
    }
}

} // verus!

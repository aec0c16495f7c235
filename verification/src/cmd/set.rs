//! `SET key value [EX seconds | PX milliseconds]`.

use crate::buffer::bytes_view;
use crate::connection::Connection;
use crate::db::{all_later, Db, Stored};
use crate::frame::Frame;
use crate::parse::{bytes_of, int_of, string_of, Parse, ParseError};
use crate::text::str_eq;
use crate::time::{
    deadline_of, duration_from_millis, duration_from_secs, duration_view, NANOS_PER_MILLI,
};
use crate::wire::{encode, FrameView};
use crate::Error;
use bytes::Bytes;
use std::time::Duration;
use vstd::prelude::*;

verus! {

/// Stores a value under a key, for good or for a while.
#[derive(Debug)]
pub struct SetCmd {
    key: String,
    value: Bytes,
    expire: Option<Duration>,
}

/// A `SET` as the contracts see it. The time to live is given as whole
/// seconds and the rest in nanoseconds.
pub struct SetView {
    pub key: Seq<char>,
    pub value: Seq<u8>,
    pub expire: Option<(u64, u32)>,
}

/// The time to live that the option of a `SET` and its number give: `EX`
/// counts seconds, `PX` milliseconds.
pub open spec fn time_to_live(option: Seq<char>, n: u64) -> (u64, u32) {
    if option == "EX"@ {
        (n, 0u32)
    } else {
        ((n / 1000) as u64, ((n % 1000) * NANOS_PER_MILLI) as u32)
    }
}

/// What the arguments of a `SET` stand for, and how many of them it takes:
/// the key, the value, and then nothing, or `EX` and seconds, or `PX` and
/// milliseconds. The first argument that is not what it has to be decides
/// the error.
pub open spec fn set_of(args: Seq<FrameView>) -> Result<(SetView, nat), Error> {
    if args.len() < 1 {
        Err(Error::EndOfStream)
    } else if string_of(args[0]) is Err {
        Err(string_of(args[0])->Err_0.unparsed())
    } else if args.len() < 2 {
        Err(Error::EndOfStream)
    } else if bytes_of(args[1]) is Err {
        Err(bytes_of(args[1])->Err_0.unparsed())
    } else {
        let key = string_of(args[0])->Ok_0;
        let value = bytes_of(args[1])->Ok_0;
        if args.len() < 3 {
            Ok((SetView { key, value, expire: None }, 2))
        } else if string_of(args[2]) is Err {
            Err(string_of(args[2])->Err_0.unparsed())
        } else {
            let option = string_of(args[2])->Ok_0;
            if option != "EX"@ && option != "PX"@ {
                Err(Error::UnsupportedSetOption)
            } else if args.len() < 4 {
                Err(Error::EndOfStream)
            } else {
                match int_of(args[3]) {
                    Ok(n) => Ok((SetView { key, value, expire: Some(time_to_live(option, n)) }, 4)),
                    Err(e) => Err(e.unparsed()),
                }
            }
        }
    }
}

impl View for SetCmd {
    type V = SetView;

    closed spec fn view(&self) -> SetView {
        SetView {
            key: self.key@,
            value: bytes_view(self.value),
            expire: match self.expire {
                Some(d) => Some(duration_view(d)),
                None => None,
            },
        }
    }
}

impl SetCmd {
    /// A `SET` of `value` under `key`.
    pub fn new(key: &str, value: Bytes, expire: Option<Duration>) -> (cmd: SetCmd)
        ensures
            cmd@ == (SetView {
                key: key@,
                value: bytes_view(value),
                expire: match expire {
                    Some(d) => Some(duration_view(d)),
                    None => None,
                },
            }),
    {
        SetCmd { key: key.to_owned(), value, expire }
    }

    pub fn key(&self) -> (k: &str)
        ensures
            k@ == self@.key,
    {
        self.key.as_str()
    }

    pub fn value(&self) -> (v: &Bytes)
        ensures
            bytes_view(*v) == self@.value,
    {
        &self.value
    }

    pub fn expire(&self) -> (e: Option<Duration>)
        ensures
            match e {
                Some(d) => self@.expire == Some(duration_view(d)),
                None => self@.expire is None,
            },
    {
        self.expire
    }

    /// Reads the arguments of a `SET`.
    pub fn parse_frames(parse: &mut Parse) -> (r: Result<SetCmd, Error>)
        ensures
            match set_of(old(parse).remaining()) {
                Ok((set, used)) => r matches Ok(cmd) && cmd@ == set && final(parse).remaining()
                    == old(parse).remaining().skip(used as int),
                Err(e) => r matches Err(err) && err == e,
            },
    {
        let key = match parse.next_string() {
            Ok(key) => key,
            Err(e) => {
                return Err(Error::from(e));
            },
        };
        let value = match parse.next_bytes() {
            Ok(value) => value,
            Err(e) => {
                return Err(Error::from(e));
            },
        };
        let mut expire = None;
        match parse.next_string() {
            Ok(s) => {
                if str_eq(s.as_str(), "EX") {
                    let secs = match parse.next_int() {
                        Ok(secs) => secs,
                        Err(e) => {
                            return Err(Error::from(e));
                        },
                    };
                    expire = Some(duration_from_secs(secs));
                } else if str_eq(s.as_str(), "PX") {
                    let ms = match parse.next_int() {
                        Ok(ms) => ms,
                        Err(e) => {
                            return Err(Error::from(e));
                        },
                    };
                    expire = Some(duration_from_millis(ms));
                } else {
                    return Err(Error::UnsupportedSetOption);
                }
            },
            Err(ParseError::EndOfStream) => {},
            Err(ParseError::Other(e)) => {
                return Err(e);
            },
        }
        Ok(SetCmd { key, value, expire })
    }

    /// Stores the value and writes `OK`. The result says whether the task
    /// that purges expired keys has to be woken.
    pub fn apply(self, db: &mut Db, dst: &mut Connection, now: u64) -> (wake: bool)
        requires
            old(db).wf(),
            old(db).writes() < u64::MAX,
        ensures
            final(db).wf(),
            final(db)@ == old(db)@.insert(
                self@.key,
                Stored { data: self@.value, expires_at: deadline_of(now, self@.expire) },
            ),
            final(db).stopped() == old(db).stopped(),
            final(db).writes() == old(db).writes() + 1,
            wake == (deadline_of(now, self@.expire) matches Some(when) && all_later(
                old(db)@,
                when,
            )),
            final(dst).pending() == old(dst).pending(),
            final(dst).written() == old(dst).written() + encode(FrameView::Simple("OK"@)),
    {
        let wake = db.set(self.key, self.value, self.expire, now);
        let response = Frame::Simple("OK".to_string());
        dst.write_frame(&response);
        wake
    }
}

} // verus!

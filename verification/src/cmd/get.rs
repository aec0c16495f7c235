//! `GET key`.

use crate::connection::Connection;
use crate::db::Db;
use crate::frame::Frame;
use crate::parse::{string_of, Parse};
use crate::wire::{encode, FrameView};
use crate::Error;
use vstd::prelude::*;

verus! {

/// Asks for the value of a key.
#[derive(Debug)]
pub struct Get {
    key: String,
}

/// The key that the arguments of a `GET` name.
pub open spec fn get_of(args: Seq<FrameView>) -> Result<Seq<char>, Error> {
    if args.len() == 0 {
        Err(Error::EndOfStream)
    } else {
        match string_of(args[0]) {
            Ok(key) => Ok(key),
            Err(e) => Err(e.unparsed()),
        }
    }
}

impl View for Get {
    type V = Seq<char>;

    closed spec fn view(&self) -> Seq<char> {
        self.key@
    }
}

impl Get {
    /// A `GET` of `key`.
    pub fn new(key: &str) -> (cmd: Get)
        ensures
            cmd@ == key@,
    {
        Get { key: key.to_owned() }
    }

    pub fn key(&self) -> (k: &str)
        ensures
            k@ == self@,
    {
        self.key.as_str()
    }

    /// Reads the argument of a `GET`: the key.
    pub fn parse_frames(parse: &mut Parse) -> (r: Result<Get, Error>)
        ensures
            match get_of(old(parse).remaining()) {
                Ok(key) => {
                    &&& r matches Ok(cmd) && cmd@ == key
                    &&& final(parse).remaining() == old(parse).remaining().drop_first()
                },
                Err(e) => r matches Err(err) && err == e,
            },
    {
        match parse.next_string() {
            Ok(key) => Ok(Get { key }),
            Err(e) => Err(Error::from(e)),
        }
    }

    /// Looks the key up and writes what is stored under it, or a null.
    pub fn apply(self, db: &Db, dst: &mut Connection)
        ensures
            final(dst).pending() == old(dst).pending(),
            final(dst).written() == old(dst).written() + encode(
                if db@.contains_key(self@) {
                    FrameView::Bulk(db@[self@].data)
                } else {
                    FrameView::Null
                },
            ),
    {
        let response = match db.get(self.key.as_str()) {
            Some(value) => Frame::Bulk(value),
            None => Frame::Null,
        };
        dst.write_frame(&response);
    }
}

} // verus!

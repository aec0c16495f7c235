//! The commands that a request can name.

use crate::connection::Connection;
use crate::db::{all_later, Db, Stored};
use crate::frame::Frame;
use crate::parse::{string_of, Parse};
use crate::text::{lowercase, str_eq, str_to_lowercase};
use crate::time::deadline_of;
use crate::wire::{encode, FrameView};
use crate::Error;
use vstd::prelude::*;

pub mod get;
pub mod set;
pub mod unknown;

pub use get::Get;
pub use set::SetCmd;
pub use unknown::Unknown;

verus! {

/// A request, understood.
#[derive(Debug)]
pub enum Command {
    Get(Get),
    SetCmd(SetCmd),
    Unknown(Unknown),
}

/// A command as the contracts see it.
pub enum CommandView {
    Get(Seq<char>),
    SetCmd(set::SetView),
    Unknown(Seq<char>),
}

impl View for Command {
    type V = CommandView;

    open spec fn view(&self) -> CommandView {
        match self {
            Command::Get(cmd) => CommandView::Get(cmd@),
            Command::SetCmd(cmd) => CommandView::SetCmd(cmd@),
            Command::Unknown(cmd) => CommandView::Unknown(cmd@),
        }
    }
}

/// The command that a name in lower case and the arguments behind it make.
/// A name that is not known makes a command of its own, whatever follows
/// it; a known command must use up its arguments.
pub open spec fn command_named(name: Seq<char>, args: Seq<FrameView>) -> Result<
    CommandView,
    Error,
> {
    if name == "get"@ {
        match get::get_of(args) {
            Ok(key) => if args.len() > 1 {
                Err(Error::TrailingArguments)
            } else {
                Ok(CommandView::Get(key))
            },
            Err(e) => Err(e),
        }
    } else if name == "set"@ {
        match set::set_of(args) {
            Ok((cmd, used)) => if args.len() > used {
                Err(Error::TrailingArguments)
            } else {
                Ok(CommandView::SetCmd(cmd))
            },
            Err(e) => Err(e),
        }
    } else {
        Ok(CommandView::Unknown(name))
    }
}

/// The command that a request frame makes: an array whose first item is
/// the name, in any case, and whose other items are the arguments.
pub open spec fn command_of(frame: FrameView) -> Result<CommandView, Error> {
    match frame {
        FrameView::Array(items) => if items.len() == 0 {
            Err(Error::EndOfStream)
        } else {
            match string_of(items[0]) {
                Ok(name) => command_named(lowercase(name), items.drop_first()),
                Err(e) => Err(e.unparsed()),
            }
        },
        _ => Err(Error::ExpectedArray),
    }
}

/// The frame that answers a command, given what is stored when it arrives.
pub open spec fn reply_of(cmd: CommandView, store: Map<Seq<char>, Stored>) -> Option<FrameView> {
    match cmd {
        CommandView::Get(key) => if store.contains_key(key) {
            Some(FrameView::Bulk(store[key].data))
        } else {
            Some(FrameView::Null)
        },
        CommandView::SetCmd(_) => Some(FrameView::Simple("OK"@)),
        CommandView::Unknown(_) => None,
    }
}

/// What is stored after a command that arrives at `now`.
pub open spec fn store_after(cmd: CommandView, store: Map<Seq<char>, Stored>, now: u64) -> Map<
    Seq<char>,
    Stored,
> {
    match cmd {
        CommandView::SetCmd(s) => store.insert(
            s.key,
            Stored { data: s.value, expires_at: deadline_of(now, s.expire) },
        ),
        _ => store,
    }
}

/// Whether a command that arrives at `now` sets a deadline earlier than
/// every other, so that the task that purges expired keys has to be woken.
pub open spec fn wakes(cmd: CommandView, store: Map<Seq<char>, Stored>, now: u64) -> bool {
    &&& cmd matches CommandView::SetCmd(s)
    &&& deadline_of(now, s.expire) matches Some(when)
    &&& all_later(store, when)
}

/// What a reply adds to the bytes to send.
pub open spec fn reply_bytes(reply: Option<FrameView>) -> Seq<u8> {
    match reply {
        Some(frame) => encode(frame),
        None => Seq::empty(),
    }
}

impl Command {
    /// Reads a request frame as a command.
    pub fn from_frame(frame: Frame) -> (r: Result<Command, Error>)
        ensures
            match command_of(frame@) {
                Ok(cmd) => r matches Ok(c) && c@ == cmd,
                Err(e) => r matches Err(err) && err == e,
            },
    {
        let mut parse = match Parse::new(frame) {
            Ok(parse) => parse,
            Err(e) => {
                return Err(Error::from(e));
            },
        };
        let command_name = match parse.next_string() {
            Ok(name) => str_to_lowercase(name.as_str()),
            Err(e) => {
                return Err(Error::from(e));
            },
        };
        Command::from_name(command_name, &mut parse)
    }

    /// Makes the command that `command_name`, which is in lower case
    /// already, and the arguments left in `parse` stand for.
    pub fn from_name(command_name: String, parse: &mut Parse) -> (r: Result<Command, Error>)
        ensures
            match command_named(command_name@, old(parse).remaining()) {
                Ok(cmd) => r matches Ok(c) && c@ == cmd,
                Err(e) => r matches Err(err) && err == e,
            },
    {
        let command = if str_eq(command_name.as_str(), "get") {
            Command::Get(Get::parse_frames(parse)?)
        } else if str_eq(command_name.as_str(), "set") {
            Command::SetCmd(SetCmd::parse_frames(parse)?)
        } else {
            return Ok(Command::Unknown(Unknown::new(command_name.as_str())));
        };
        match parse.finish() {
            Ok(_) => Ok(command),
            Err(e) => Err(Error::from(e)),
        }
    }

    /// Carries the command out on the store and writes its reply to `dst`.
    /// The result says whether the task that purges expired keys has to be
    /// woken.
    pub fn apply(self, db: &mut Db, dst: &mut Connection, now: u64) -> (wake: bool)
        requires
            old(db).wf(),
            self is SetCmd ==> old(db).writes() < u64::MAX,
        ensures
            final(db).wf(),
            final(db)@ == store_after(self@, old(db)@, now),
            final(db).stopped() == old(db).stopped(),
            final(db).writes() == old(db).writes() + (if self is SetCmd {
                1int
            } else {
                0int
            }),
            wake == wakes(self@, old(db)@, now),
            final(dst).pending() == old(dst).pending(),
            final(dst).written() == old(dst).written() + reply_bytes(reply_of(self@, old(db)@)),
    {
        match self {
            Command::Get(cmd) => {
                cmd.apply(db, dst);
                false
            },
            Command::SetCmd(cmd) => cmd.apply(db, dst, now),
            Command::Unknown(cmd) => {
                cmd.apply(dst);
                false
            },
        }
    }
}

} // verus!

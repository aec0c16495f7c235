//! A command that the server does not know.

use crate::connection::Connection;
use vstd::prelude::*;

verus! {

/// Holds the name of a command that is not known.
#[derive(Debug)]
pub struct Unknown {
    command_name: String,
}

impl View for Unknown {
    type V = Seq<char>;

    closed spec fn view(&self) -> Seq<char> {
        self.command_name@
    }
}

impl Unknown {
    /// An unknown command of the name `key`.
    pub fn new(key: &str) -> (cmd: Unknown)
        ensures
            cmd@ == key@,
    {
        Unknown { command_name: key.to_owned() }
    }

    pub fn get_name(&self) -> (name: &str)
        ensures
            name@ == self@,
    {
        self.command_name.as_str()
    }

    /// Does nothing: no reply is written for a command that is not known.
    pub fn apply(self, dst: &mut Connection)
        ensures
            final(dst).pending() == old(dst).pending(),
            final(dst).written() == old(dst).written(),
    {
    }
}

} // verus!

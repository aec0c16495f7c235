//! The shutdown latch of a connection handler.

use vstd::prelude::*;

verus! {

/// Remembers whether the shutdown signal has been seen. Once it has, it
/// stays so.
#[derive(Debug)]
pub struct Shutdown {
    shutdown: bool,
}

impl Shutdown {
    /// Whether the signal has been seen.
    pub closed spec fn latched(&self) -> bool {
        self.shutdown
    }

    /// A latch that has seen no signal.
    pub fn new() -> (s: Shutdown)
        ensures
            !s.latched(),
    {
        Shutdown { shutdown: false }
    }

    pub fn is_shutdown(&self) -> (r: bool)
        ensures
            r == self.latched(),
    {
        self.shutdown
    }

    /// Takes note that the signal arrived. To do so again changes nothing.
    pub fn recv(&mut self)
        ensures
            final(self).latched(),
    {
        if self.shutdown {
            return ;
        }
        self.shutdown = true;
    }
}

} // verus!

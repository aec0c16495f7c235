//! What the listener and the connection handlers decide. The sockets, the
//! waiting and the tasks stay with the caller, who tells what happened and
//! is told what to do next.

use crate::cmd::{command_of, reply_bytes, reply_of, store_after, wakes, Command};
use crate::connection::Connection;
use crate::db::Db;
use crate::frame::Frame;
use crate::shutdown::Shutdown;
use crate::Error;
use vstd::prelude::*;

verus! {

/// How many connections are served at a time.
pub const MAX_CONNECTIONS: usize = 250;

/// The longest pause, in seconds, after which a failed accept is tried
/// again.
pub const MAX_BACKOFF: u64 = 64;

/// What the listener does about a connection that wants in.
#[derive(Debug, Clone, Copy, PartialEq, Eq, Structural)]
pub enum Admission {
    /// A permit was taken: accept the connection.
    Admit,
    /// All permits are out: wait until one comes back, then ask again.
    Wait,
}

/// What the listener does after an attempt to accept.
#[derive(Debug, Clone, Copy, PartialEq, Eq, Structural)]
pub enum Accepted {
    /// The connection is there: hand it to a handler.
    Ready,
    /// The attempt failed: pause that many seconds and try again.
    Retry(u64),
    /// The attempt failed once too often: give the error up to the caller.
    Fail,
}

/// What asking for a permit leads to where `active` permits are out: the
/// answer, and how many are out after it.
pub open spec fn acquire_step(active: nat) -> (Admission, nat) {
    if active < MAX_CONNECTIONS {
        (Admission::Admit, active + 1)
    } else {
        (Admission::Wait, active)
    }
}

/// How many permits are out after one of `active` came back.
pub open spec fn release_step(active: nat) -> nat {
    if active > 0 {
        (active - 1) as nat
    } else {
        0
    }
}

/// What an attempt to accept leads to where the pause stands at `backoff`
/// seconds: the answer, and the pause after it.
pub open spec fn accept_step(backoff: nat, succeeded: bool) -> (Accepted, nat) {
    if succeeded {
        (Accepted::Ready, 1)
    } else if backoff > MAX_BACKOFF {
        (Accepted::Fail, backoff)
    } else {
        (Accepted::Retry(backoff as u64), 2 * backoff)
    }
}

/// The pause that stands after `failures` failed attempts in a row.
pub open spec fn backoff_after(failures: nat) -> nat
    decreases failures,
{
    if failures == 0 {
        1
    } else {
        accept_step(backoff_after((failures - 1) as nat), false).1
    }
}

/// With every permit out a connection is made to wait and nothing changes;
/// as soon as one permit is back, the next to ask is let in.
pub proof fn lemma_full_pool_delays(active: nat)
    requires
        active == MAX_CONNECTIONS,
    ensures
        acquire_step(active) == (Admission::Wait, active),
        acquire_step(release_step(active)).0 == Admission::Admit,
{
}

/// The permits that are out never exceed the limit, whatever is asked.
pub proof fn lemma_permits_bounded(active: nat)
    requires
        active <= MAX_CONNECTIONS,
    ensures
        acquire_step(active).1 <= MAX_CONNECTIONS,
        release_step(active) <= MAX_CONNECTIONS,
{
}

/// Failed attempts in a row are tried again after 1, 2, 4, 8, 16, 32 and
/// 64 seconds; the eighth failure, and each one after it, is final.
pub proof fn lemma_backoff(failures: nat)
    ensures
        failures == 0 ==> accept_step(backoff_after(failures), false).0 == Accepted::Retry(1),
        failures == 1 ==> accept_step(backoff_after(failures), false).0 == Accepted::Retry(2),
        failures == 2 ==> accept_step(backoff_after(failures), false).0 == Accepted::Retry(4),
        failures == 3 ==> accept_step(backoff_after(failures), false).0 == Accepted::Retry(8),
        failures == 4 ==> accept_step(backoff_after(failures), false).0 == Accepted::Retry(16),
        failures == 5 ==> accept_step(backoff_after(failures), false).0 == Accepted::Retry(32),
        failures == 6 ==> accept_step(backoff_after(failures), false).0 == Accepted::Retry(64),
        failures >= 7 ==> accept_step(backoff_after(failures), false).0 == Accepted::Fail
            && backoff_after(failures) == 128,
    decreases failures,
{
    reveal_with_fuel(backoff_after, 8);
    if failures > 7 {
        lemma_backoff((failures - 1) as nat);
    }
}

/// The permits of the listener and the pause before its next attempt to
/// accept.
#[derive(Debug)]
pub struct Listener {
    /// Connections that hold a permit.
    active: usize,
    /// Seconds to pause after the next failed accept.
    backoff: u64,
}

impl Listener {
    /// How many connections hold a permit.
    pub closed spec fn active(&self) -> nat {
        self.active as nat
    }

    /// The pause in seconds that follows the next failed accept, if it is
    /// tried again at all.
    pub closed spec fn backoff(&self) -> nat {
        self.backoff as nat
    }

    /// No more permits are out than there are, and the pause is one that
    /// doubling from one second reaches.
    pub closed spec fn wf(&self) -> bool {
        &&& self.active <= MAX_CONNECTIONS
        &&& 1 <= self.backoff <= 2 * MAX_BACKOFF
    }

    /// A listener with all its permits at hand.
    pub fn new() -> (l: Listener)
        ensures
            l.wf(),
            l.active() == 0,
            l.backoff() == 1,
    {
        Listener { active: 0, backoff: 1 }
    }

    /// Asks for a permit for the next connection. With none left the
    /// connection is not turned away: it is told to wait, and nothing
    /// changes.
    pub fn acquire(&mut self) -> (r: Admission)
        requires
            old(self).wf(),
        ensures
            final(self).wf(),
            final(self).backoff() == old(self).backoff(),
            (r, final(self).active()) == acquire_step(old(self).active()),
    {
        if self.active < MAX_CONNECTIONS {
            self.active = self.active + 1;
            Admission::Admit
        } else {
            Admission::Wait
        }
    }

    /// Takes back the permit of a connection that has ended, however it
    /// ended.
    pub fn release(&mut self)
        requires
            old(self).wf(),
        ensures
            final(self).wf(),
            final(self).backoff() == old(self).backoff(),
            final(self).active() == release_step(old(self).active()),
    {
        if self.active > 0 {
            self.active = self.active - 1;
        }
    }

    /// Takes note of how an attempt to accept ended. After a success the
    /// pause starts over at one second. A failure is tried again after the
    /// pause, which doubles each time, until the pause has passed 64
    /// seconds: then the failure is final.
    pub fn accept(&mut self, succeeded: bool) -> (r: Accepted)
        requires
            old(self).wf(),
        ensures
            final(self).wf(),
            final(self).active() == old(self).active(),
            (r, final(self).backoff()) == accept_step(old(self).backoff(), succeeded),
    {
        if succeeded {
            self.backoff = 1;
            return Accepted::Ready;
        }
        if self.backoff > MAX_BACKOFF {
            return Accepted::Fail;
        }
        let pause = self.backoff;
        self.backoff = pause * 2;
        Accepted::Retry(pause)
    }
}

/// What a handler waited for and got.
#[derive(Debug)]
pub enum Event {
    /// The shutdown signal.
    Shutdown,
    /// The outcome of reading the next frame: a frame, or none where the
    /// peer closed the stream.
    Frame(Option<Frame>),
}

/// What a handler does next.
#[derive(Debug, Clone, Copy, PartialEq, Eq, Structural)]
pub enum Flow {
    /// Send what was written, wake the task that purges expired keys if
    /// `wake` says so, and wait for the next event.
    Continue { wake: bool },
    /// End.
    Stop,
}

/// The state of the handler of one connection.
#[derive(Debug)]
pub struct Handler {
    /// The buffers of the connection.
    pub connection: Connection,
    /// Whether the shutdown signal was seen.
    pub shutdown: Shutdown,
}

impl Handler {
    /// A handler with empty buffers that has seen no signal.
    pub fn new() -> (h: Handler)
        ensures
            !h.shutdown.latched(),
            h.connection.pending() == Seq::<u8>::empty(),
            h.connection.written() == Seq::<u8>::empty(),
    {
        Handler { connection: Connection::new(), shutdown: Shutdown::new() }
    }

    /// One turn of the handler. Once the shutdown signal was seen nothing
    /// is read or applied any more. A frame is read as a command, which is
    /// carried out on the store and answered; a request that is no command
    /// ends the handler with its error and leaves the store alone.
    pub fn run(&mut self, event: Event, db: &mut Db, now: u64) -> (r: Result<Flow, Error>)
        requires
            old(db).wf(),
            old(db).writes() < u64::MAX,
        ensures
            final(db).wf(),
            final(db).stopped() == old(db).stopped(),
            final(self).connection.pending() == old(self).connection.pending(),
            old(self).shutdown.latched() ==> final(self).shutdown.latched(),
            match event_command(old(self).shutdown.latched(), event) {
                Some(Ok(cmd)) => {
                    &&& r == Ok::<Flow, Error>(Flow::Continue { wake: wakes(cmd, old(db)@, now) })
                    &&& final(db)@ == store_after(cmd, old(db)@, now)
                    &&& final(self).connection.written() == old(self).connection.written()
                        + reply_bytes(reply_of(cmd, old(db)@))
                    &&& !final(self).shutdown.latched()
                },
                Some(Err(e)) => {
                    &&& r == Err::<Flow, Error>(e)
                    &&& final(db)@ == old(db)@
                    &&& final(self).connection.written() == old(self).connection.written()
                    &&& !final(self).shutdown.latched()
                },
                None => {
                    &&& r == Ok::<Flow, Error>(Flow::Stop)
                    &&& final(db)@ == old(db)@
                    &&& final(self).connection.written() == old(self).connection.written()
                    &&& final(self).shutdown.latched() == (old(self).shutdown.latched()
                        || event is Shutdown)
                },
            },
    {
        if self.shutdown.is_shutdown() {
            return Ok(Flow::Stop);
        }
        let frame = match event {
            Event::Shutdown => {
                self.shutdown.recv();
                return Ok(Flow::Stop);
            },
            Event::Frame(None) => {
                return Ok(Flow::Stop);
            },
            Event::Frame(Some(frame)) => frame,
        };
        let cmd = Command::from_frame(frame)?;
        let wake = cmd.apply(db, &mut self.connection, now);
        Ok(Flow::Continue { wake })
    }
}

/// The command that an event asks a handler to carry out, if any: none
/// once the shutdown signal was seen, none for the signal itself, and none
/// where the peer closed the stream.
pub open spec fn event_command(latched: bool, event: Event) -> Option<
    Result<crate::cmd::CommandView, Error>,
> {
    if latched {
        None
    } else {
        match event {
            Event::Frame(Some(frame)) => Some(command_of(frame@)),
            _ => None,
        }
    }
}

/// Once the shutdown signal was seen no event makes a handler carry out a
/// command, and the signal itself never does.
pub proof fn lemma_no_command_after_shutdown(latched: bool, event: Event)
    ensures
        latched ==> event_command(latched, event) is None,
        event is Shutdown ==> event_command(latched, event) is None,
{
}

} // verus!

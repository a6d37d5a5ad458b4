//! Reading back what a shell command writes.
//!
//! Output is read while the command runs, not after it: a command that fills the
//! channel and finds nobody reading blocks until its timeout.
use vstd::prelude::*;
use crate::encoding::{lossy, utf8_lossy};

verus! {

/// How long one poll waits before the stop flag is looked at again, in
/// milliseconds.
pub const POLL_MS: i32 = 50;

/// What a command left behind.
#[derive(Debug)]
pub struct Ran {
    /// Everything it wrote, output and errors interleaved as a terminal would
    /// have shown them.
    pub output: String,
    pub exit_code: i32,
    pub timed_out: bool,
}

/// What reading the channel does next.
#[derive(Debug, PartialEq, Eq, Clone, Copy, Structural)]
pub enum DrainStep {
    /// Nothing was there; poll again.
    Poll,
    /// Something is there; read it.
    Read,
    /// The caller said to stop and nothing is left.
    Stop,
}

/// Decide what reading the channel does next. A poll that was interrupted or
/// failed counts as readable, so that the read reports the real error.
///
/// What is there is read before the stop flag is looked at: a command that ended
/// may have printed the reason just before.
pub fn drain_step(poll: i32, stopped: bool) -> (s: DrainStep)
    ensures
        s == (if poll != 0 {
            DrainStep::Read
        } else if stopped {
            DrainStep::Stop
        } else {
            DrainStep::Poll
        }),
{
    if poll != 0 {
        DrainStep::Read
    } else if stopped {
        DrainStep::Stop
    } else {
        DrainStep::Poll
    }
}

/// What was read so far.
#[derive(Debug)]
pub struct Capture {
    pub collected: Vec<u8>,
}

impl Capture {
    /// Nothing was read yet.
    pub fn open() -> (c: Capture)
        ensures
            c.collected@ == Seq::<u8>::empty(),
    {
        Capture { collected: Vec::new() }
    }

    /// Take in what a read gave: nothing is a clean end of the stream.
    pub fn take(&mut self, chunk: &[u8]) -> (more: bool)
        ensures
            final(self).collected@ == old(self).collected@ + chunk@,
            more == (chunk@.len() > 0),
    {
        let mut i: usize = 0;
        assert(chunk@.take(0) =~= seq![]);
        while i < chunk.len()
            invariant
                i <= chunk@.len(),
                self.collected@ == old(self).collected@ + chunk@.take(i as int),
            decreases chunk.len() - i,
        {
            self.collected.push(chunk[i]);
            assert(chunk@.take(i + 1) =~= chunk@.take(i as int).push(chunk@[i as int]));
            i += 1;
        }
        assert(chunk@.take(chunk@.len() as int) =~= chunk@);
        chunk.len() > 0
    }

    /// What was read, as text.
    pub fn finish(self, exit_code: i32, timed_out: bool) -> (r: Ran)
        ensures
            r.output@ == utf8_lossy(self.collected@),
            r.exit_code == exit_code,
            r.timed_out == timed_out,
    {
        Ran { output: lossy(&self.collected), exit_code, timed_out }
    }
}

} // verus!

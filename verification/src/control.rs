//! The command driver's decision logic.
//!
//! A session runs strictly sequential commands: write the command line to
//! the terminal, wait a bounded time for the completed output, and shut
//! down once with an exit directive followed by an unbounded wait for the
//! far end to close. The waiting itself happens outside the library; this
//! module decides what to write, how each wait outcome is classified, and
//! that a session which has failed or shut down refuses further commands
//! instead of blocking.

use vstd::prelude::*;

use crate::terminal::LINE_FEED;

verus! {

/// How long session startup may wait for the first prompt, in seconds.
pub const STARTUP_WAIT_SECS: u64 = 5;

/// How long one command may wait for its completed output, in seconds.
pub const COMMAND_WAIT_SECS: u64 = 100;

/// The ways a session can fail. Nothing is retried: a failed session is
/// discarded, never resynchronized.
#[derive(Clone, Copy, PartialEq, Eq, Structural, Debug)]
pub enum SessionError {
    /// The shell process could not be started at all.
    ProcessSpawnFailure,
    /// The startup prompt did not appear within the startup bound.
    InitializationTimeout,
    /// A command's output did not arrive within the command bound.
    CommandTimeout,
    /// The far end closed while a command was expected to complete, or the
    /// session is already closed.
    UnexpectedEof,
}

/// What a bounded wait on the output channel came back with.
pub enum WaitOutcome {
    /// One completed command output arrived.
    Output(Vec<u8>),
    /// The bound expired with nothing arriving.
    TimedOut,
    /// The far end closed: no output will ever arrive.
    Disconnected,
}

/// The bytes of the exit directive written at shutdown: `exit` and a line
/// feed.
pub open spec fn exit_directive() -> Seq<u8> {
    seq![101u8, 120u8, 105u8, 116u8, LINE_FEED]
}

/// The line written to the terminal to issue a command: the command bytes
/// followed by a line feed.
pub open spec fn command_line(cmd: Seq<u8>) -> Seq<u8> {
    cmd + seq![LINE_FEED]
}

/// Classify the process-spawn step of session construction: a session
/// whose shell could not be started at all fails fatally, with no
/// recovery.
pub fn check_spawn(spawn_ok: bool) -> (r: Result<(), SessionError>)
    ensures
        spawn_ok ==> r == Ok::<(), SessionError>(()),
        !spawn_ok ==> r == Err::<(), SessionError>(SessionError::ProcessSpawnFailure),
{
    if spawn_ok {
        Ok(())
    } else {
        Err(SessionError::ProcessSpawnFailure)
    }
}

/// The sequential-session controller. It owns no descriptor and performs
/// no waiting; it tracks whether the session can still accept commands and
/// fixes the bytes and error codes of the protocol.
pub struct Controller {
    open: bool,
}

impl Controller {
    /// Whether the session can still accept commands.
    pub closed spec fn is_open(&self) -> bool {
        self.open
    }

    /// Conclude session startup. Only a session whose startup prompt was
    /// observed within the startup bound opens; otherwise startup fails
    /// with an initialization timeout.
    pub fn new(startup_observed: bool) -> (r: Result<Controller, SessionError>)
        ensures
            startup_observed ==> (r matches Ok(c) && c.is_open()),
            !startup_observed ==> r == Err::<Controller, SessionError>(
                SessionError::InitializationTimeout,
            ),
    {
        if startup_observed {
            Ok(Controller { open: true })
        } else {
            Err(SessionError::InitializationTimeout)
        }
    }

    /// Issue a command: on an open session, the bytes to write to the
    /// terminal (the command followed by a line feed) come back; on a
    /// closed one, the call fails at once with an unexpected-end-of-file
    /// error rather than ever blocking.
    pub fn begin_run(&self, cmd: &[u8]) -> (r: Result<Vec<u8>, SessionError>)
        ensures
            self.is_open() ==> (r matches Ok(line) && line@ == command_line(cmd@)),
            !self.is_open() ==> r == Err::<Vec<u8>, SessionError>(SessionError::UnexpectedEof),
    {
        if !self.open {
            return Err(SessionError::UnexpectedEof);
        }
        let mut line: Vec<u8> = Vec::new();
        let mut i: usize = 0;
        while i < cmd.len()
            invariant
                i <= cmd.len(),
                line@ == cmd@.take(i as int),
            decreases cmd.len() - i,
        {
            line.push(cmd[i]);
            i += 1;
        }
        assert(cmd@.take(cmd.len() as int) =~= cmd@);
        line.push(LINE_FEED);
        assert(line@ =~= command_line(cmd@));
        Ok(line)
    }

    /// Conclude a command from what the bounded wait came back with. An
    /// arrived output succeeds and leaves the session open. A timeout or a
    /// closed far end fails the command and closes the session: its state
    /// relative to the shell is indeterminate, so no further command may
    /// be issued.
    pub fn finish_run(&mut self, w: WaitOutcome) -> (r: Result<Vec<u8>, SessionError>)
        ensures
            (w matches WaitOutcome::Output(v) ==> (r matches Ok(got) && got@ == v@
                && final(self).is_open() == old(self).is_open())),
            (w is TimedOut ==> r == Err::<Vec<u8>, SessionError>(SessionError::CommandTimeout)
                && !final(self).is_open()),
            (w is Disconnected ==> r == Err::<Vec<u8>, SessionError>(SessionError::UnexpectedEof)
                && !final(self).is_open()),
    {
        match w {
            WaitOutcome::Output(v) => Ok(v),
            WaitOutcome::TimedOut => {
                self.open = false;
                Err(SessionError::CommandTimeout)
            },
            WaitOutcome::Disconnected => {
                self.open = false;
                Err(SessionError::UnexpectedEof)
            },
        }
    }

    /// Begin shutdown: the exit directive to write comes back and the
    /// session closes for further commands. Shutdown is permitted in every
    /// state, open or failed, so a session whose command timed out can
    /// still be torn down.
    pub fn begin_shutdown(&mut self) -> (out: Vec<u8>)
        ensures
            out@ == exit_directive(),
            !final(self).is_open(),
    {
        self.open = false;
        let mut out: Vec<u8> = Vec::new();
        out.push(101u8);  // e
        out.push(120u8);  // x
        out.push(105u8);  // i
        out.push(116u8);  // t
        out.push(LINE_FEED);
        assert(out@ =~= exit_directive());
        out
    }
}

} // verus!

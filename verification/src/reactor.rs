//! What the reactor does next, from what the system calls return.
use vstd::prelude::*;

verus! {

/// What comes behind a wait for events.
#[derive(Debug, Clone, Copy, PartialEq, Eq, Structural)]
pub enum WaitStep {
    /// Handle so many events.
    Handle(usize),
    /// Wait again.
    Again,
    /// Leave the loop.
    Stop,
    /// Give up.
    Fatal,
}

/// What comes behind a wait for events that returned `ready`, where `interrupted` says whether a signal
/// interrupted it and `running` whether the daemon is to go on.
pub fn after_wait(ready: i32, interrupted: bool, running: bool) -> (step: WaitStep)
    ensures
        step == if ready >= 0 {
            WaitStep::Handle(ready as usize)
        } else if !interrupted {
            WaitStep::Fatal
        } else if running {
            WaitStep::Again
        } else {
            WaitStep::Stop
        },
{
    if ready >= 0 {
        WaitStep::Handle(ready as usize)
    } else if !interrupted {
        WaitStep::Fatal
    } else if running {
        WaitStep::Again
    } else {
        WaitStep::Stop
    }
}

/// What a read failed with.
#[derive(Debug, Clone, Copy, PartialEq, Eq, Structural)]
pub enum ReadError {
    /// There is nothing to read yet.
    WouldBlock,
    /// A signal interrupted it.
    Interrupted,
    Other,
}

/// What comes behind a read of the log stream.
#[derive(Debug, Clone, Copy, PartialEq, Eq, Structural)]
pub enum ReadStep {
    /// Take so many bytes, and read again.
    Take(usize),
    /// Read again.
    Again,
    /// Wait for events again.
    Done,
    /// The stream ended: give up.
    FatalEnd,
    /// The stream is broken: give up.
    FatalError,
}

/// What comes behind a read of the log stream that returned `n`, and failed with `error` where that is
/// negative. Without the stream the daemon is blind, so it gives up where it is to go on.
pub fn after_read(n: isize, error: ReadError, running: bool) -> (step: ReadStep)
    ensures
        step == if n > 0 {
            ReadStep::Take(n as usize)
        } else if n == 0 {
            if running {
                ReadStep::FatalEnd
            } else {
                ReadStep::Done
            }
        } else {
            match error {
                ReadError::WouldBlock => ReadStep::Done,
                ReadError::Interrupted => if running {
                    ReadStep::Again
                } else {
                    ReadStep::Done
                },
                ReadError::Other => ReadStep::FatalError,
            }
        },
{
    if n > 0 {
        ReadStep::Take(n as usize)
    } else if n == 0 {
        if running {
            ReadStep::FatalEnd
        } else {
            ReadStep::Done
        }
    } else {
        match error {
            ReadError::WouldBlock => ReadStep::Done,
            ReadError::Interrupted => if running {
                ReadStep::Again
            } else {
                ReadStep::Done
            },
            ReadError::Other => ReadStep::FatalError,
        }
    }
}

/// Whether the notifications of the configuration are to be read on, where a read returned `n` and
/// failed with `error` where that is negative. What they say does not matter: each makes the
/// configuration be read anew.
pub fn drain_again(n: isize, error: ReadError) -> (again: bool)
    ensures
        again == (n > 0 || (n < 0 && error == ReadError::Interrupted)),
{
    if n > 0 {
        true
    } else if n < 0 {
        match error {
            ReadError::Interrupted => true,
            _ => false,
        }
    } else {
        false
    }
}

/// What comes behind a look for children that ended.
#[derive(Debug, Clone, Copy, PartialEq, Eq, Structural)]
pub enum ReapStep {
    /// Look for another one.
    Again,
    /// There is none.
    Done,
    /// The process of the log stream ended: give up.
    Fatal,
}

/// What comes behind a look for children that found `reaped`, which is not positive where there is none.
pub fn after_reap(reaped: i32, logcat_pid: i32, running: bool) -> (step: ReapStep)
    ensures
        step == if reaped <= 0 {
            ReapStep::Done
        } else if reaped != logcat_pid {
            ReapStep::Again
        } else if running {
            ReapStep::Fatal
        } else {
            ReapStep::Done
        },
{
    if reaped <= 0 {
        ReapStep::Done
    } else if reaped != logcat_pid {
        ReapStep::Again
    } else if running {
        ReapStep::Fatal
    } else {
        ReapStep::Done
    }
}

/// What comes behind the news that the pipe of the log stream hung up or failed.
pub fn after_hangup(running: bool) -> (step: ReapStep)
    ensures
        step == if running {
            ReapStep::Fatal
        } else {
            ReapStep::Done
        },
{
    if running {
        ReapStep::Fatal
    } else {
        ReapStep::Done
    }
}

} // verus!

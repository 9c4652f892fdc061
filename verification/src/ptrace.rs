//! The tracer facade: what the engine remembers of its trace relationship
//! with the target, and how it reads what the kernel's calls return.
//!
//! The calls themselves are made by the program around the library. Each
//! function here takes what a call returned, with the kernel's error
//! number where it failed, and says what follows.

use vstd::prelude::*;
use crate::error::Error;

verus! {

/// The signal that stops a process.
pub const SIGSTOP: i32 = 19;

/// The signal that lets a stopped process continue.
pub const SIGCONT: i32 = 18;

/// `waitpid` option: also report a child that has stopped without being traced.
pub const WUNTRACED: i32 = 2;

/// `libc::WIFSTOPPED`: whether a wait status is that of a stopped process.
/// The low byte of such a status is `0x7f`.
pub assume_specification[ libc::WIFSTOPPED ](status: libc::c_int) -> (stopped: bool)
    ensures
        stopped == (status & 0xff == 0x7f),
;

/// Whether a wait status is that of a stopped process.
pub open spec fn is_stopped(status: i32) -> bool {
    status & 0xff == 0x7f
}

/// What a kernel call that returned `res` gave: a negative result is a
/// failure, with the kernel's error number.
pub open spec fn call_result(res: i64, errno: i32) -> Result<(), Error> {
    if res >= 0 {
        Ok(())
    } else {
        Err(Error::Os(errno))
    }
}

/// Judges what a kernel call returned.
pub fn check_call(res: i64, errno: i32) -> (r: Result<(), Error>)
    ensures
        r == call_result(res, errno),
{
    if res >= 0 {
        Ok(())
    } else {
        Err(Error::Os(errno))
    }
}

/// The tracer of one target.
#[derive(Debug, Clone, Copy, PartialEq, Eq, Structural)]
pub struct PTrace {
    /// The target's process number.
    pub pid: i32,
    /// Whether a trace relationship was set up, so that it has to be
    /// released when the tracer goes away.
    pub attached: bool,
}

impl PTrace {
    /// A tracer for the process `pid`. Nothing is done to the process.
    pub fn new(pid: i32) -> (tracer: PTrace)
        ensures
            tracer == (PTrace { pid, attached: false }),
    {
        PTrace { pid, attached: false }
    }

    /// Takes note of what the request to trace the target returned. Where
    /// it succeeded the target is traced, and will stop.
    pub fn attach(&mut self, res: i64, errno: i32) -> (r: Result<(), Error>)
        ensures
            r == call_result(res, errno),
            final(self).pid == old(self).pid,
            final(self).attached == (old(self).attached || res >= 0),
    {
        if res >= 0 {
            self.attached = true;
        }
        check_call(res, errno)
    }

    /// Takes note of what the request to release the target returned. The
    /// tracer goes on to try once more when it goes away; that this then
    /// fails is of no concern.
    pub fn detach(&mut self, res: i64, errno: i32) -> (r: Result<(), Error>)
        ensures
            r == call_result(res, errno),
            final(self).pid == old(self).pid,
            final(self).attached == (old(self).attached || res >= 0),
    {
        if res >= 0 {
            self.attached = true;
        }
        check_call(res, errno)
    }

    /// Judges what sending the target a signal returned.
    pub fn signal(&self, res: i32, errno: i32) -> (r: Result<(), Error>)
        ensures
            r == call_result(res as i64, errno),
    {
        check_call(res as i64, errno)
    }

    /// The signal that stops the target.
    pub fn stop(&self) -> (signal: i32)
        ensures
            signal == SIGSTOP,
    {
        SIGSTOP
    }

    /// The signal that lets the target continue.
    pub fn resume(&self) -> (signal: i32)
        ensures
            signal == SIGCONT,
    {
        SIGCONT
    }

    /// Judges what waiting for the target returned: the wait has to report
    /// the target itself, and then gives its status.
    pub fn wait(&self, res: i32, status: i32, errno: i32) -> (r: Result<i32, Error>)
        ensures
            r == (if res == self.pid {
                Ok::<i32, Error>(status)
            } else {
                Err(Error::Os(errno))
            }),
    {
        if res != self.pid {
            return Err(Error::Os(errno));
        }
        Ok(status)
    }

    /// Judges a wait for the traced target to stop: the wait has to report
    /// the target, and the target has to be stopped. The wait is made
    /// without options.
    pub fn wait_pause(&self, res: i32, status: i32, errno: i32) -> (r: Result<(), Error>)
        ensures
            r == (if res == self.pid && is_stopped(status) {
                Ok::<(), Error>(())
            } else {
                Err(Error::Os(errno))
            }),
    {
        self.wait_pause_inner(res, status, errno)
    }

    /// Judges a wait for the target to stop, traced or not, as
    /// `wait_pause` does. The wait is made with `WUNTRACED`.
    pub fn wait_pause_unattached(&self, res: i32, status: i32, errno: i32) -> (r: Result<(), Error>)
        ensures
            r == (if res == self.pid && is_stopped(status) {
                Ok::<(), Error>(())
            } else {
                Err(Error::Os(errno))
            }),
    {
        self.wait_pause_inner(res, status, errno)
    }

    fn wait_pause_inner(&self, res: i32, status: i32, errno: i32) -> (r: Result<(), Error>)
        ensures
            r == (if res == self.pid && is_stopped(status) {
                Ok::<(), Error>(())
            } else {
                Err(Error::Os(errno))
            }),
    {
        let status = self.wait(res, status, errno)?;
        if !libc::WIFSTOPPED(status) {
            return Err(Error::Os(errno));
        }
        Ok(())
    }

    /// Whether the tracer has to try to release the target when it goes away.
    pub fn detach_on_drop(&self) -> (due: bool)
        ensures
            due == self.attached,
    {
        self.attached
    }
}

} // verus!

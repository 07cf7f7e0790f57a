//! The lifecycle ledger of a spawned backend.  A handle exclusively
//! owns one subprocess; it must be released — the blocking wait that
//! collects the process — exactly once, after the output stream has
//! been drained or abandoned.  Releasing twice, or never, breaks the
//! invariant (the latter leaks a zombie process).
//!
//! The exit status is observed for operational visibility only: a
//! backend that wrote a fully valid header block and body and then
//! exited non-zero still yields the parsed response unchanged.  The
//! parser and the translator take no exit status at all, so nothing
//! downstream can depend on it.

use vstd::prelude::*;

verus! {

/// The release-exactly-once ledger of one spawned subprocess.  The
/// unverified edge pairs it with the real child process and calls
/// `release` at the moment of the blocking wait, on every exit path.
pub struct ProcessHandle {
    released: bool,
    exit_status: Option<i32>,
}

impl ProcessHandle {
    /// Whether the subprocess has been collected.
    pub closed spec fn released(&self) -> bool {
        self.released
    }

    /// The exit status observed at release, if released.
    pub closed spec fn exit_status(&self) -> Option<i32> {
        self.exit_status
    }

    /// A handle for a freshly spawned subprocess: not yet released, no
    /// status observed.
    pub fn new() -> (h: ProcessHandle)
        ensures
            !h.released(),
            h.exit_status() is None,
    {
        ProcessHandle { released: false, exit_status: None }
    }

    /// Release the subprocess, observing its exit status.  A handle can
    /// be released only once: the wait must not happen twice.
    pub fn release(&mut self, status: i32)
        requires
            !old(self).released(),
        ensures
            final(self).released(),
            final(self).exit_status() == Some(status),
    {
        self.released = true;
        self.exit_status = Some(status);
    }

    /// Whether the subprocess has been collected.
    pub fn is_released(&self) -> (b: bool)
        ensures
            b == self.released(),
    {
        self.released
    }

    /// The exit status observed at release, if released.
    pub fn status(&self) -> (s: Option<i32>)
        ensures
            s == self.exit_status(),
    {
        self.exit_status
    }
}

} // verus!

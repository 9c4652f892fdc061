//! The error taxonomy shared by every operation of the library.

use vstd::prelude::*;

verus! {

/// Why an operation failed.
#[derive(Debug, Clone, Copy, PartialEq, Eq, Structural)]
pub enum Error {
    /// A kernel call failed; the payload is the kernel's error number.
    Os(i32),
    /// Disk I/O or path manipulation failed.
    Io,
    /// A checkpoint on disk is corrupted: a file is missing or malformed.
    Decode,
    /// The operation was misused.
    Precondition,
    /// The assembler refused the bootstrapper's program text, or made no code of it.
    Assemble,
}

impl Error {
    /// A one-line description for the user.
    pub fn message(&self) -> (text: &'static str)
        ensures
            text@ == (match *self {
                Error::Os(_) => "kernel call failed"@,
                Error::Io => "disk I/O or path manipulation failed"@,
                Error::Decode => "corrupted checkpoint"@,
                Error::Precondition => "operation misused"@,
                Error::Assemble => "bootstrapper program could not be assembled"@,
            }),
    {
        match self {
            Error::Os(_) => "kernel call failed",
            Error::Io => "disk I/O or path manipulation failed",
            Error::Decode => "corrupted checkpoint",
            Error::Precondition => "operation misused",
            Error::Assemble => "bootstrapper program could not be assembled",
        }
    }
}

} // verus!

//! Errors of the library.

use vstd::prelude::*;

verus! {

/// What went wrong, under the names that the standard library gives to I/O errors.
#[derive(Copy, Clone, Debug, PartialEq, Eq, Structural)]
pub enum Fault {
    /// The peer does not listen on the port that was dialled.
    AddrNotAvailable,
    /// The port already has a listener.
    AddrInUse,
    /// The multiplexor went down while a connection was being set up.
    BrokenPipe,
    /// The multiplexor is down.
    ConnectionReset,
    /// A frame's bytes do not hold a frame.
    InvalidData,
    /// A frame is larger than the configuration allows.
    InvalidInput,
    /// The other end of a queue is gone.
    Other,
}

/// An error of the frame codec: what went wrong and, where the byte format is to blame, the
/// format's own account of it.
#[derive(Debug)]
pub struct CodecError {
    pub fault: Fault,
    /// The number in the place of the flag, where it stands for none and that is to blame.
    pub unknown_flag: Option<u32>,
    pub source: Option<Box<bincode::ErrorKind>>,
}

impl CodecError {
    /// The error for a frame that is larger than the configuration allows.
    pub(crate) fn too_long() -> (error: Self)
        ensures
            error.fault == Fault::InvalidInput,
            error.unknown_flag is None,
            error.source is None,
    {
        CodecError { fault: Fault::InvalidInput, unknown_flag: None, source: None }
    }
}

} // verus!

//! The failures the tunnel reports.
use vstd::prelude::*;

verus! {

/// What a socket operation reported when it failed, as far as the tunnel's
/// decisions depend on it.
#[derive(Clone, Copy, Debug, PartialEq, Eq, Structural)]
pub enum IoKind {
    ConnectionRefused,
    AddrInUse,
    WouldBlock,
    Other,
}

/// Every failure that the multiplexing core reports.
#[derive(Clone, Copy, Debug, PartialEq, Eq, Structural)]
pub enum Error {
    ReadFailure,
    Eof,
    Empty,
    NotEnoughData,
    ConnectionRefused,
    ClientNotFound,
    BufferFull,
    InvalidVersion { expected: u8, actual: u8 },
    InvalidMessageType { msg: u8 },
    HeaderTooLarge { len: u32 },
    HeaderTooSmall { len: u32 },
    PayloadTooLarge { limit: u32, len: u32 },
    UnexpectedPayload { len: u32 },
    DuplicateFlowId { addr: u64 },
    IoError,
    Io(IoKind),
}

pub type Result<T> = core::result::Result<T, Error>;

impl Error {
    /// Whether a failure of the control link ends the whole process: a listener
    /// address that is already taken will never become free by retrying.
    pub open spec fn spec_is_fatal(self) -> bool {
        self == Error::Io(IoKind::AddrInUse)
    }

    /// Whether a decode failure only means that the input holds no whole
    /// frame yet, so that the reader waits for more bytes.
    pub open spec fn spec_is_incomplete(self) -> bool {
        self == Error::Empty || self == Error::NotEnoughData
    }

    pub fn is_incomplete(&self) -> (r: bool)
        ensures
            r == self.spec_is_incomplete(),
    {
        match self {
            Error::Empty | Error::NotEnoughData => true,
            _ => false,
        }
    }

    pub fn is_fatal(&self) -> (r: bool)
        ensures
            r == self.spec_is_fatal(),
    {
        match self {
            Error::Io(IoKind::AddrInUse) => true,
            _ => false,
        }
    }
}

} // verus!

//! The failures a transfer can end in.

use vstd::prelude::*;

verus! {

/// Why a transfer, or one step of it, failed.
#[derive(Clone, Copy, Debug, PartialEq, Eq, Hash, Structural)]
pub enum TransferError {
    /// The source file is missing or cannot be read.
    FileNotFound,
    /// A file was to be put together before all of its chunks were present.
    IncompleteTransfer,
    /// The content put together from the chunks does not hash to the
    /// expected content hash.
    HashMismatch,
    /// A chunk index out of range, or a message that the session's state
    /// does not allow.
    ProtocolViolation,
    /// No progress within the time allowed.
    Timeout,
    /// The channel below failed to send or to receive.
    TransportError,
}

impl TransferError {
    /// The number that stands for this failure on the wire.
    pub open spec fn code(self) -> u8 {
        match self {
            TransferError::FileNotFound => 1,
            TransferError::IncompleteTransfer => 2,
            TransferError::HashMismatch => 3,
            TransferError::ProtocolViolation => 4,
            TransferError::Timeout => 5,
            TransferError::TransportError => 6,
        }
    }

    /// The failure that `code` stands for, if any.
    pub open spec fn of_code(code: u8) -> Option<TransferError> {
        if code == 1 {
            Some(TransferError::FileNotFound)
        } else if code == 2 {
            Some(TransferError::IncompleteTransfer)
        } else if code == 3 {
            Some(TransferError::HashMismatch)
        } else if code == 4 {
            Some(TransferError::ProtocolViolation)
        } else if code == 5 {
            Some(TransferError::Timeout)
        } else if code == 6 {
            Some(TransferError::TransportError)
        } else {
            None
        }
    }

    /// The number that stands for this failure on the wire.
    pub fn to_code(&self) -> (code: u8)
        ensures
            code == self.code(),
            TransferError::of_code(code) == Some(*self),
    {
        match self {
            TransferError::FileNotFound => 1,
            TransferError::IncompleteTransfer => 2,
            TransferError::HashMismatch => 3,
            TransferError::ProtocolViolation => 4,
            TransferError::Timeout => 5,
            TransferError::TransportError => 6,
        }
    }

    /// The failure that `code` stands for; `None` for a number that stands
    /// for none.
    pub fn from_code(code: u8) -> (kind: Option<TransferError>)
        ensures
            kind == TransferError::of_code(code),
            kind matches Some(k) ==> k.code() == code,
    {
        if code == 1 {
            Some(TransferError::FileNotFound)
        } else if code == 2 {
            Some(TransferError::IncompleteTransfer)
        } else if code == 3 {
            Some(TransferError::HashMismatch)
        } else if code == 4 {
            Some(TransferError::ProtocolViolation)
        } else if code == 5 {
            Some(TransferError::Timeout)
        } else if code == 6 {
            Some(TransferError::TransportError)
        } else {
            None
        }
    }
}

} // verus!

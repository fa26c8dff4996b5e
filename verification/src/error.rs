//! The error taxonomy shared by every operation of the core.

use vstd::prelude::*;

verus! {

/// Why an operation of the core did not complete.
#[derive(Clone, Copy, Debug, PartialEq, Eq, Structural)]
pub enum CoreError {
    /// The master key could not be unsealed: wrong password or corrupted store.
    WrongPassword,
    /// An AEAD tag or a signature did not verify.
    AuthFailure,
    /// A ratchet counter that cannot be advanced to.
    ReplayOrStale,
    /// A primitive refused its input (length, encoding).
    CryptoFailure,
    /// A referenced conversation, contact or chain is absent.
    StateMissing,
    /// The record store reported a failure.
    StorageFailure,
    /// The transport reported a failure.
    TransportFailure,
}

impl CoreError {
    /// Whether the error is recovered locally by dropping the offending message.
    pub open spec fn spec_is_recoverable(self) -> bool {
        self == CoreError::AuthFailure || self == CoreError::ReplayOrStale
    }

    /// Whether the error is recovered locally by dropping the offending
    /// message; every other error is surfaced to the caller.
    pub fn is_recoverable(&self) -> (r: bool)
        ensures
            r == self.spec_is_recoverable(),
    {
        match self {
            CoreError::AuthFailure => true,
            CoreError::ReplayOrStale => true,
            _ => false,
        }
    }
}

} // verus!

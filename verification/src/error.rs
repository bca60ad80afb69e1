//! The ways a request can be turned down.

use vstd::prelude::*;

verus! {

/// Why a request was rejected. A rejected request never changes any account.
#[derive(Clone, Copy, Debug, PartialEq, Eq, Structural)]
pub enum CounterError {
    /// The counter account already exists or already holds a record.
    AlreadyInitialized,
    /// The counter account is absent or its storage is still zeroed.
    NotInitialized,
    /// The account's bytes are neither zeroed nor a counter record.
    DeserializationError,
    /// An account reference does not carry the address its role demands.
    AddressMismatch,
    /// The count is already the largest representable value.
    Overflow,
    /// The counter account is not owned by the program.
    OwnerMismatch,
    /// An account that the operation mutates is not referenced as writable.
    NotWritable,
    /// An account that must authorise the operation has not signed.
    MissingSignature,
    /// The request names another program, an unknown operation, or the
    /// wrong number of accounts.
    InvalidInstruction,
    /// The account's storage is too short to hold a counter record.
    AccountTooSmall,
}

} // verus!

//! Error kinds of decoding a snapshot and of rebuilding a settlement transaction.
use vstd::prelude::*;

verus! {

/// Why a value could not be decoded from a byte buffer.
#[derive(Clone, Copy, Debug, PartialEq, Eq, Structural)]
pub enum DecodeError {
    /// A read would have moved the cursor past the end of the buffer.
    UnexpectedEndOfData,
    /// A length prefix announces more than the rest of the buffer holds.
    InvalidLength,
    /// A flag byte is neither 0 nor 1.
    InvalidValue,
    /// The funding transaction is not a well-formed transaction.
    InvalidTransaction,
    /// A public key is not a point of the curve.
    InvalidPublicKey,
    /// The channel type has a feature that is unknown or not enabled.
    UnsupportedChannelType,
}

impl DecodeError {
    /// The two errors by which a byte stream that stops too early shows itself.
    pub open spec fn is_truncation(self) -> bool {
        self is UnexpectedEndOfData || self is InvalidLength
    }
}

/// Why an audit run failed.
#[derive(Clone, Copy, Debug, PartialEq, Eq, Structural)]
pub enum Error {
    /// The snapshot ends inside its prologue or its channel count.
    UnexpectedEndOfData,
    /// A length prefix of the prologue cannot be satisfied.
    InvalidLength,
    /// The version bytes of the snapshot are outside the supported range.
    UnsupportedFormatVersion,
    /// The channel record with this index could not be decoded.
    MalformedChannelRecord { index: u64, cause: DecodeError },
    /// The balances of a channel do not cover its payments, its fee or its reserve.
    BalanceUnderflow,
    /// The channel record carries no funding transaction.
    NoFundingTransaction,
    /// The store that holds the snapshot could not be read or holds no snapshot.
    StorageUnavailable,
}

} // verus!

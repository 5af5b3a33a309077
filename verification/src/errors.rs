use vstd::prelude::*;

verus! {

/// Every failure surfaced by the library.
#[derive(Clone, Copy, Debug, PartialEq, Eq, Structural)]
pub enum Error {
    /// Opening an unprepared block store or UTXO store.
    StoreMissing,
    /// A block hash or transaction id that the store does not hold.
    NotFound,
    /// Spendable outputs total below the requested amount.
    InsufficientFunds,
    /// Signature verification failed, a previous transaction is missing,
    /// or a coinbase is malformed.
    InvalidTransaction,
    /// Binary decode failure on store or wire data.
    SerializationError,
    /// Filesystem, socket, or clock failure.
    IoError,
    /// The command tag of a frame matches no known message kind.
    UnknownCommand,
}

impl Error {
    /// A short human-readable name for the error.
    pub fn describe(&self) -> (r: &'static str)
        ensures
            self is NotFound ==> r@ == "not found"@,
            self is InsufficientFunds ==> r@ == "insufficient funds"@,
    {
        match self {
            Error::StoreMissing => "store missing",
            Error::NotFound => "not found",
            Error::InsufficientFunds => "insufficient funds",
            Error::InvalidTransaction => "invalid transaction",
            Error::SerializationError => "serialization error",
            Error::IoError => "io error",
            Error::UnknownCommand => "unknown command",
        }
    }
}

} // verus!

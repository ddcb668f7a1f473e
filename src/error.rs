//! The library's error kinds.
use vstd::prelude::*;

verus! {

/// What went wrong, by kind.
#[derive(Debug, Clone, Copy, PartialEq, Eq, Structural)]
pub enum Error {
    /// The block store could not be opened, read or written.
    Store,
    /// A text was not valid base58.
    Base58,
    /// A secret or public key could not be read.
    Key,
    /// A signature could not be made, read or verified.
    Signature,
    /// No block has the given hash.
    BlockNotFound,
    /// No transaction has the given id.
    TransactionNotFound,
    /// The wallet holds no key for the address.
    WalletNotFound,
    /// An input refers to an output that its transaction does not have.
    OutputNotFound,
    /// The chain to be created already exists.
    ChainExists,
    /// The chain to be continued does not exist.
    ChainMissing,
    /// The spender's unspent outputs do not cover the amount.
    InsufficientFunds,
    /// The arguments name no command, or too few follow its name.
    Usage,
    /// The amount is not an integer.
    InvalidAmount,
    /// MINE_NOW is neither `true` nor `false`.
    InvalidFlag,
    /// The address fails its checksum or is too short.
    InvalidAddress,
    /// A transaction failed verification.
    InvalidTransaction,
    /// A Merkle tree was asked of no data.
    EmptyData,
    /// A value does not fit its integer type.
    Overflow,
}

impl Error {
    /// A short message for a person.
    pub fn message(&self) -> (r: &'static str) {
        match self {
            Error::Store => "Store error",
            Error::Base58 => "Base58 error",
            Error::Key => "Key error",
            Error::Signature => "Signature error",
            Error::BlockNotFound => "Block doesn't exist",
            Error::TransactionNotFound => "Previous transaction doesn't exist",
            Error::WalletNotFound => "Address doesn't exist",
            Error::OutputNotFound => "Referenced output doesn't exist",
            Error::ChainExists => "Blockchain already exists",
            Error::ChainMissing => "Blockchain doesn't exist",
            Error::InsufficientFunds => "Not enough funds",
            Error::Usage => "Usage",
            Error::InvalidAmount => "Amount must be an integer",
            Error::InvalidFlag => "MINE_NOW must be a boolean",
            Error::InvalidAddress => "Address is invalid",
            Error::InvalidTransaction => "Invalid transaction",
            Error::EmptyData => "Data is empty",
            Error::Overflow => "Value overflow",
        }
    }
}

} // verus!

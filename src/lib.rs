//! A client library for a validator's deposit account: the account's address is
//! derived from a program identifier and the validator's identity, and funds are
//! moved into it by a single system transfer.

pub mod address;
pub mod derive;
pub mod amount;
pub mod transfer;

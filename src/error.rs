//! The one error taxonomy of the library.

use vstd::prelude::*;

verus! {

#[derive(Debug, PartialEq, Eq)]
pub enum Error {
    /// A failure of the store: connectivity, a missing row, exhausted retries.
    BigTableError(String),
    /// A local I/O failure while the connection was set up.
    IoError(String),
    /// A transaction whose wire encoding cannot be decoded.
    UnsupportedTransactionEncoding,
    /// No block is stored for the slot.
    BlockNotFound(u64),
    /// No transaction is stored under the signature.
    SignatureNotFound,
}

} // verus!

//! Ledger indexing over a sorted-key store: slot keys, stored records,
//! address-history pagination and the block upload plan.

pub mod error;
pub mod key;
pub mod history;
pub mod records;
pub mod storage;
pub mod sysvar;

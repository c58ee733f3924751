//! The public block and transaction shapes, the compact shapes kept in the
//! store, and the conversions between them.

use vstd::prelude::*;
use crate::error::Error;

verus! {

/// How a transaction is handed out to callers.
#[derive(Debug, Clone, Copy, PartialEq, Eq)]
pub enum UiTransactionEncoding {
    Binary,
    Json,
}

/// A decoded transaction: its signatures (the first one names it) and the
/// textual addresses of the accounts its message references.
#[derive(Debug, Clone, PartialEq, Eq)]
pub struct Transaction {
    pub signatures: Vec<String>,
    pub account_keys: Vec<String>,
}

/// A transaction in a wire encoding: the binary form can be decoded back, the
/// JSON form is for display only.
#[derive(Debug, Clone, PartialEq, Eq)]
pub enum EncodedTransaction {
    Binary(Transaction),
    Json(Transaction),
}

/// The full status meta of a transaction as callers see it.
#[derive(Debug, PartialEq, Eq)]
pub struct UiTransactionStatusMeta {
    pub err: Option<String>,
    pub status: Result<(), String>,
    pub fee: u64,
    pub pre_balances: Vec<u64>,
    pub post_balances: Vec<u64>,
}

#[derive(Debug, PartialEq, Eq)]
pub struct TransactionWithStatusMeta {
    pub transaction: EncodedTransaction,
    pub meta: Option<UiTransactionStatusMeta>,
}

#[derive(Debug, Clone, PartialEq, Eq)]
pub struct Reward {
    pub pubkey: String,
    pub lamports: i64,
}

/// A confirmed block as callers see it.
#[derive(Debug, PartialEq, Eq)]
pub struct ConfirmedBlock {
    pub previous_blockhash: String,
    pub blockhash: String,
    pub parent_slot: u64,
    pub transactions: Vec<TransactionWithStatusMeta>,
    pub rewards: Vec<Reward>,
    pub block_time: Option<i64>,
}

#[derive(Debug, PartialEq, Eq)]
pub struct ConfirmedTransaction {
    pub slot: u64,
    pub transaction: TransactionWithStatusMeta,
}

#[derive(Debug, PartialEq, Eq)]
pub struct TransactionStatus {
    pub slot: u64,
    pub confirmations: Option<usize>,
    pub status: Result<(), String>,
    pub err: Option<String>,
}

#[derive(Debug, Clone, PartialEq, Eq)]
pub struct ConfirmedTransactionStatusWithSignature {
    pub signature: String,
    pub slot: u64,
    pub err: Option<String>,
    pub memo: Option<String>,
}

/// The status meta as stored: only what replay needs.
#[derive(Debug, Clone, PartialEq, Eq)]
pub struct StoredConfirmedBlockTransactionStatusMeta {
    pub err: Option<String>,
    pub fee: u64,
    pub pre_balances: Vec<u64>,
    pub post_balances: Vec<u64>,
}

/// A transaction of a stored block, kept decoded.
#[derive(Debug, Clone, PartialEq, Eq)]
pub struct StoredConfirmedBlockTransaction {
    pub transaction: Transaction,
    pub meta: Option<StoredConfirmedBlockTransactionStatusMeta>,
}

/// The value of a row of the `blocks` table.
#[derive(Debug, Clone, PartialEq, Eq)]
pub struct StoredConfirmedBlock {
    pub previous_blockhash: String,
    pub blockhash: String,
    pub parent_slot: u64,
    pub transactions: Vec<StoredConfirmedBlockTransaction>,
    pub rewards: Vec<Reward>,
    pub block_time: Option<i64>,
}

/// The value of a row of the `tx` table: where a transaction sits.
#[derive(Debug, Clone, PartialEq, Eq)]
pub struct TransactionInfo {
    pub slot: u64,
    pub index: u32,
    pub err: Option<String>,
    pub memo: Option<String>,
}

/// One entry of a row of the `tx-by-addr` table.
#[derive(Debug, Clone, PartialEq, Eq)]
pub struct TransactionByAddrInfo {
    pub signature: String,
    pub err: Option<String>,
    pub index: u32,
    pub memo: Option<String>,
}

/// The outcome that a stored error stands for: no error is success.
pub open spec fn spec_status(err: Option<String>) -> Result<(), String> {
    match err {
        None => Ok(()),
        Some(e) => Err(e),
    }
}

/// The transaction that an encoded transaction carries, whatever its encoding.
pub open spec fn carried(e: EncodedTransaction) -> Transaction {
    match e {
        EncodedTransaction::Binary(t) => t,
        EncodedTransaction::Json(t) => t,
    }
}

/// Decoding succeeds for the binary encoding only.
pub open spec fn spec_decode(e: EncodedTransaction) -> Option<Transaction> {
    match e {
        EncodedTransaction::Binary(t) => Some(t),
        EncodedTransaction::Json(_) => None,
    }
}

pub open spec fn spec_encode(t: Transaction, encoding: UiTransactionEncoding) -> EncodedTransaction {
    match encoding {
        UiTransactionEncoding::Binary => EncodedTransaction::Binary(t),
        UiTransactionEncoding::Json => EncodedTransaction::Json(t),
    }
}

pub open spec fn spec_ui_meta(m: StoredConfirmedBlockTransactionStatusMeta) -> UiTransactionStatusMeta {
    UiTransactionStatusMeta {
        err: m.err,
        status: spec_status(m.err),
        fee: m.fee,
        pre_balances: m.pre_balances,
        post_balances: m.post_balances,
    }
}

pub open spec fn spec_stored_meta(m: UiTransactionStatusMeta) -> StoredConfirmedBlockTransactionStatusMeta {
    StoredConfirmedBlockTransactionStatusMeta {
        err: m.err,
        fee: m.fee,
        pre_balances: m.pre_balances,
        post_balances: m.post_balances,
    }
}

pub open spec fn spec_public_tx(
    t: StoredConfirmedBlockTransaction,
    encoding: UiTransactionEncoding,
) -> TransactionWithStatusMeta {
    TransactionWithStatusMeta {
        transaction: spec_encode(t.transaction, encoding),
        meta: match t.meta {
            None => None,
            Some(m) => Some(spec_ui_meta(m)),
        },
    }
}

/// The stored form of a transaction; meaningful where it decodes.
pub open spec fn spec_stored_tx(t: TransactionWithStatusMeta) -> StoredConfirmedBlockTransaction {
    StoredConfirmedBlockTransaction {
        transaction: carried(t.transaction),
        meta: match t.meta {
            None => None,
            Some(m) => Some(spec_stored_meta(m)),
        },
    }
}

pub open spec fn all_decode(txs: Seq<TransactionWithStatusMeta>) -> bool {
    forall|i: int| 0 <= i < txs.len() ==> (#[trigger] spec_decode(txs[i].transaction)) is Some
}

/// A copy of an optional text.
pub fn clone_text(o: &Option<String>) -> (r: Option<String>)
    ensures
        r == *o,
{
    match o {
        None => None,
        Some(s) => Some(s.clone()),
    }
}

impl EncodedTransaction {
    pub fn encode(transaction: Transaction, encoding: UiTransactionEncoding) -> (r: Self)
        ensures
            r == spec_encode(transaction, encoding),
    {
        match encoding {
            UiTransactionEncoding::Binary => EncodedTransaction::Binary(transaction),
            UiTransactionEncoding::Json => EncodedTransaction::Json(transaction),
        }
    }

    /// The decoded transaction, where the encoding can be decoded.
    pub fn decode(self) -> (r: Option<Transaction>)
        ensures
            r == spec_decode(self),
    {
        match self {
            EncodedTransaction::Binary(t) => Some(t),
            EncodedTransaction::Json(_) => None,
        }
    }
}

impl UiTransactionStatusMeta {
    /// The full meta of a stored one: the status is rebuilt from the error.
    pub fn from_stored(value: StoredConfirmedBlockTransactionStatusMeta) -> (r: Self)
        ensures
            r == spec_ui_meta(value),
    {
        let StoredConfirmedBlockTransactionStatusMeta { err, fee, pre_balances, post_balances } =
            value;
        let status = match &err {
            None => Ok(()),
            Some(e) => Err(e.clone()),
        };
        UiTransactionStatusMeta { err, status, fee, pre_balances, post_balances }
    }
}

impl StoredConfirmedBlockTransactionStatusMeta {
    /// The stored meta of a full one: the status is dropped.
    pub fn from_ui(value: UiTransactionStatusMeta) -> (r: Self)
        ensures
            r == spec_stored_meta(value),
    {
        let UiTransactionStatusMeta { err, fee, pre_balances, post_balances, .. } = value;
        StoredConfirmedBlockTransactionStatusMeta { err, fee, pre_balances, post_balances }
    }
}

impl StoredConfirmedBlockTransaction {
    pub fn into_transaction_with_status_meta(self, encoding: UiTransactionEncoding) -> (r:
        TransactionWithStatusMeta)
        ensures
            r == spec_public_tx(self, encoding),
    {
        let StoredConfirmedBlockTransaction { transaction, meta } = self;
        let meta = match meta {
            None => None,
            Some(m) => Some(UiTransactionStatusMeta::from_stored(m)),
        };
        TransactionWithStatusMeta { transaction: EncodedTransaction::encode(transaction, encoding), meta }
    }

    /// The stored form of a transaction; fails where its encoding cannot be decoded.
    pub fn try_from(value: TransactionWithStatusMeta) -> (r: Result<Self, Error>)
        ensures
            spec_decode(value.transaction) is Some ==> r == Ok::<Self, Error>(spec_stored_tx(value)),
            spec_decode(value.transaction) is None ==> r == Err::<Self, Error>(
                Error::UnsupportedTransactionEncoding,
            ),
    {
        let TransactionWithStatusMeta { transaction, meta } = value;
        let transaction = match transaction.decode() {
            None => {
                return Err(Error::UnsupportedTransactionEncoding);
            },
            Some(t) => t,
        };
        let meta = match meta {
            None => None,
            Some(m) => Some(StoredConfirmedBlockTransactionStatusMeta::from_ui(m)),
        };
        Ok(StoredConfirmedBlockTransaction { transaction, meta })
    }
}

impl StoredConfirmedBlock {
    /// The public block: every transaction encoded as asked, everything else kept.
    pub fn into_confirmed_block(self, encoding: UiTransactionEncoding) -> (r: ConfirmedBlock)
        ensures
            r.previous_blockhash == self.previous_blockhash,
            r.blockhash == self.blockhash,
            r.parent_slot == self.parent_slot,
            r.transactions@ == self.transactions@.map_values(
                |t: StoredConfirmedBlockTransaction| spec_public_tx(t, encoding),
            ),
            r.rewards == self.rewards,
            r.block_time == self.block_time,
    {
        let StoredConfirmedBlock {
            previous_blockhash,
            blockhash,
            parent_slot,
            transactions,
            rewards,
            block_time,
        } = self;
        let ghost orig = transactions@;
        let mut rest = transactions;
        let mut out: Vec<TransactionWithStatusMeta> = Vec::new();
        while rest.len() > 0
            invariant
                out@.len() + rest@.len() == orig.len(),
                rest@ == orig.skip(out@.len() as int),
                out@ == orig.take(out@.len() as int).map_values(
                    |t: StoredConfirmedBlockTransaction| spec_public_tx(t, encoding),
                ),
            decreases rest.len(),
        {
            let ghost k = out@.len() as int;
            let t = rest.remove(0);
            out.push(t.into_transaction_with_status_meta(encoding));
            assert(rest@ =~= orig.skip(k + 1));
            assert(orig.take(k + 1) =~= orig.take(k).push(orig[k]));
            assert(out@ =~= orig.take(k + 1).map_values(
                |t: StoredConfirmedBlockTransaction| spec_public_tx(t, encoding),
            ));
        }
        assert(orig.take(orig.len() as int) =~= orig);
        ConfirmedBlock {
            previous_blockhash,
            blockhash,
            parent_slot,
            transactions: out,
            rewards,
            block_time,
        }
    }

    /// The stored block; fails where any transaction cannot be decoded, so a
    /// block is never stored in part.
    pub fn try_from(value: ConfirmedBlock) -> (r: Result<Self, Error>)
        ensures
            !all_decode(value.transactions@) ==> r == Err::<Self, Error>(
                Error::UnsupportedTransactionEncoding,
            ),
            all_decode(value.transactions@) ==> (r matches Ok(b) && b.previous_blockhash
                == value.previous_blockhash && b.blockhash == value.blockhash && b.parent_slot
                == value.parent_slot && b.transactions@ == value.transactions@.map_values(
                |t: TransactionWithStatusMeta| spec_stored_tx(t),
            ) && b.rewards == value.rewards && b.block_time == value.block_time),
    {
        let ConfirmedBlock {
            previous_blockhash,
            blockhash,
            parent_slot,
            transactions,
            rewards,
            block_time,
        } = value;
        let ghost orig = transactions@;
        let mut rest = transactions;
        let mut out: Vec<StoredConfirmedBlockTransaction> = Vec::new();
        while rest.len() > 0
            invariant
                out@.len() + rest@.len() == orig.len(),
                rest@ == orig.skip(out@.len() as int),
                all_decode(orig.take(out@.len() as int)),
                orig == value.transactions@,
                out@ == orig.take(out@.len() as int).map_values(
                    |t: TransactionWithStatusMeta| spec_stored_tx(t),
                ),
            decreases rest.len(),
        {
            let ghost k = out@.len() as int;
            let t = rest.remove(0);
            assert(t == orig[k]);
            match StoredConfirmedBlockTransaction::try_from(t) {
                Err(e) => {
                    assert(!all_decode(orig)) by {
                        assert(spec_decode(orig[k].transaction) is None);
                    }
                    return Err(e);
                },
                Ok(st) => {
                    out.push(st);
                },
            }
            assert(rest@ =~= orig.skip(k + 1));
            assert(orig.take(k + 1) =~= orig.take(k).push(orig[k]));
            assert(all_decode(orig.take(k + 1))) by {
                assert forall|i: int| 0 <= i < k + 1 implies (#[trigger] spec_decode(
                    orig.take(k + 1)[i].transaction,
                )) is Some by {
                    if i < k {
                        assert(orig.take(k + 1)[i] == orig.take(k)[i]);
                    }
                }
            }
            assert(out@ =~= orig.take(k + 1).map_values(
                |t: TransactionWithStatusMeta| spec_stored_tx(t),
            ));
        }
        assert(orig.take(orig.len() as int) =~= orig);
        Ok(StoredConfirmedBlock {
            previous_blockhash,
            blockhash,
            parent_slot,
            transactions: out,
            rewards,
            block_time,
        })
    }
}

impl TransactionInfo {
    /// The status of a located transaction: failed where an error is stored,
    /// with the number of confirmations unknown.
    pub fn into_status(self) -> (r: TransactionStatus)
        ensures
            r.slot == self.slot,
            r.confirmations is None,
            r.status == spec_status(self.err),
            r.err == self.err,
    {
        let TransactionInfo { slot, err, .. } = self;
        let status = match &err {
            None => Ok(()),
            Some(e) => Err(e.clone()),
        };
        TransactionStatus { slot, confirmations: None, status, err }
    }
}

} // verus!

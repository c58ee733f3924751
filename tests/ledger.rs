use ledger_storage::error::Error;
use ledger_storage::history::HistoryQuery;
use ledger_storage::key::slot_to_key;
use ledger_storage::records::{
    ConfirmedBlock, ConfirmedTransactionStatusWithSignature, EncodedTransaction, Reward,
    StoredConfirmedBlock, Transaction, TransactionByAddrInfo, TransactionInfo,
    TransactionWithStatusMeta, UiTransactionEncoding, UiTransactionStatusMeta,
};
use ledger_storage::storage::{address_key, uploadable_block, LedgerStorage, Table};
use std::collections::BTreeMap;

#[derive(Default)]
struct MemoryStore {
    blocks: BTreeMap<String, StoredConfirmedBlock>,
    tx: BTreeMap<String, TransactionInfo>,
    tx_by_addr: BTreeMap<String, Vec<TransactionByAddrInfo>>,
    writes: Vec<Table>,
}

impl MemoryStore {
    fn upload(&mut self, storage: &LedgerStorage, slot: u64, block: ConfirmedBlock) {
        let plan = storage.upload_confirmed_block(slot, block).unwrap();
        for table in plan.write_order() {
            self.writes.push(table);
            match table {
                Table::Tx => {
                    for (k, v) in plan.tx_cells.iter() {
                        self.tx.insert(k.clone(), v.clone());
                    }
                }
                Table::TxByAddr => {
                    for (k, v) in plan.tx_by_addr_cells.iter() {
                        self.tx_by_addr.insert(k.clone(), v.clone());
                    }
                }
                Table::Blocks => {
                    self.blocks
                        .insert(plan.block_cell.0.clone(), plan.block_cell.1.clone());
                }
            }
        }
    }

    fn block_keys(&self, start: Option<u64>, limit: usize) -> Vec<String> {
        let start = start.map(slot_to_key).unwrap_or_default();
        self.blocks
            .keys()
            .filter(|k| **k >= start)
            .take(limit)
            .cloned()
            .collect()
    }

    fn history(
        &self,
        storage: &LedgerStorage,
        address: &str,
        before: Option<&str>,
        until: Option<&str>,
        limit: usize,
    ) -> Vec<ConfirmedTransactionStatusWithSignature> {
        let address = address.to_string();
        let before = before.map(|s| self.tx.get(s).unwrap().clone());
        let until = until.map(|s| self.tx.get(s).unwrap().clone());
        let query = HistoryQuery::new(before.as_ref(), until.as_ref(), limit);
        let start = query.start_key(&address);
        let end = query.end_key(&address);
        let boundary = self.tx_by_addr.get(&start).map(|v| v.len()).unwrap_or(0);
        let rows: Vec<(String, Vec<TransactionByAddrInfo>)> = self
            .tx_by_addr
            .range(start..=end)
            .take(query.row_limit(boundary) as usize)
            .map(|(k, v)| (k.clone(), v.clone()))
            .collect();
        storage.get_confirmed_signatures_for_address(&address, &query, rows)
    }
}

fn transaction(signature: &str, keys: &[&str], err: Option<&str>) -> TransactionWithStatusMeta {
    TransactionWithStatusMeta {
        transaction: EncodedTransaction::Binary(Transaction {
            signatures: vec![signature.to_string()],
            account_keys: keys.iter().map(|k| k.to_string()).collect(),
        }),
        meta: Some(UiTransactionStatusMeta {
            err: err.map(|e| e.to_string()),
            status: match err {
                None => Ok(()),
                Some(e) => Err(e.to_string()),
            },
            fee: 5000,
            pre_balances: vec![10, 20],
            post_balances: vec![9, 20],
        }),
    }
}

fn block(parent_slot: u64, transactions: Vec<TransactionWithStatusMeta>) -> ConfirmedBlock {
    ConfirmedBlock {
        previous_blockhash: "prev".to_string(),
        blockhash: "hash".to_string(),
        parent_slot,
        transactions,
        rewards: vec![Reward { pubkey: "validator".to_string(), lamports: 42 }],
        block_time: Some(1_600_000_000),
    }
}

fn first_signature(t: &TransactionWithStatusMeta) -> String {
    match &t.transaction {
        EncodedTransaction::Binary(t) => t.signatures[0].clone(),
        EncodedTransaction::Json(t) => t.signatures[0].clone(),
    }
}

fn two_slot_store(storage: &LedgerStorage) -> MemoryStore {
    let mut store = MemoryStore::default();
    store.upload(storage, 5, block(4, vec![transaction("sig5", &["X", "Y"], None)]));
    store.upload(
        storage,
        10,
        block(9, vec![transaction("sig10", &["Z", "X"], Some("InsufficientFunds"))]),
    );
    store
}

fn signatures(list: &[ConfirmedTransactionStatusWithSignature]) -> Vec<(String, u64)> {
    list.iter().map(|e| (e.signature.clone(), e.slot)).collect()
}

#[test]
fn uploaded_block_reads_back() {
    let storage = LedgerStorage::new(false);
    let mut store = MemoryStore::default();
    let txs = vec![
        transaction("a", &["X"], None),
        transaction("b", &["Y"], Some("AccountInUse")),
        transaction("c", &["X", "Y"], None),
    ];
    let expected: Vec<String> = txs.iter().map(first_signature).collect();
    store.upload(&storage, 7, block(6, txs));
    let stored = store.blocks.get(&slot_to_key(7)).cloned();
    let read = storage
        .get_confirmed_block(7, stored, UiTransactionEncoding::Binary)
        .unwrap();
    assert_eq!(read.transactions.len(), 3);
    let got: Vec<String> = read.transactions.iter().map(first_signature).collect();
    assert_eq!(got, expected);
    assert_eq!(read.parent_slot, 6);
    assert_eq!(read.block_time, Some(1_600_000_000));
    let meta = read.transactions[1].meta.as_ref().unwrap();
    assert_eq!(meta.status, Err("AccountInUse".to_string()));
    assert_eq!(meta.fee, 5000);
}

#[test]
fn json_encoding_is_handed_out_on_read() {
    let storage = LedgerStorage::new(true);
    let mut store = MemoryStore::default();
    store.upload(&storage, 3, block(2, vec![transaction("a", &["X"], None)]));
    let stored = store.blocks.get(&slot_to_key(3)).cloned();
    let read = storage
        .get_confirmed_block(3, stored, UiTransactionEncoding::Json)
        .unwrap();
    assert!(matches!(read.transactions[0].transaction, EncodedTransaction::Json(_)));
}

#[test]
fn missing_block_is_block_not_found() {
    let storage = LedgerStorage::new(true);
    let r = storage.get_confirmed_block(99, None, UiTransactionEncoding::Binary);
    assert_eq!(r, Err(Error::BlockNotFound(99)));
}

#[test]
fn history_is_newest_first() {
    let storage = LedgerStorage::new(false);
    let store = two_slot_store(&storage);
    let list = store.history(&storage, "X", None, None, 10);
    assert_eq!(
        signatures(&list),
        vec![("sig10".to_string(), 10), ("sig5".to_string(), 5)]
    );
    assert_eq!(list[0].err, Some("InsufficientFunds".to_string()));
    assert_eq!(list[1].err, None);
}

#[test]
fn history_before_excludes_the_cursor() {
    let storage = LedgerStorage::new(false);
    let store = two_slot_store(&storage);
    let list = store.history(&storage, "X", Some("sig10"), None, 10);
    assert_eq!(signatures(&list), vec![("sig5".to_string(), 5)]);
}

#[test]
fn history_until_excludes_the_cursor() {
    let storage = LedgerStorage::new(false);
    let store = two_slot_store(&storage);
    let list = store.history(&storage, "X", None, Some("sig5"), 10);
    assert_eq!(signatures(&list), vec![("sig10".to_string(), 10)]);
}

#[test]
fn history_respects_limit_and_in_block_order() {
    let storage = LedgerStorage::new(false);
    let mut store = MemoryStore::default();
    store.upload(
        &storage,
        8,
        block(
            7,
            vec![
                transaction("s0", &["X"], None),
                transaction("s1", &["Y"], None),
                transaction("s2", &["X"], None),
                transaction("s3", &["X"], None),
            ],
        ),
    );
    let all = store.history(&storage, "X", None, None, 10);
    assert_eq!(
        signatures(&all),
        vec![("s0".to_string(), 8), ("s2".to_string(), 8), ("s3".to_string(), 8)]
    );
    let two = store.history(&storage, "X", None, None, 2);
    assert_eq!(signatures(&two), vec![("s0".to_string(), 8), ("s2".to_string(), 8)]);
    let none = store.history(&storage, "X", None, None, 0);
    assert!(none.is_empty());
    let same_slot = store.history(&storage, "X", Some("s3"), Some("s0"), 10);
    assert_eq!(signatures(&same_slot), vec![("s2".to_string(), 8)]);
}

#[test]
fn history_skips_rows_with_corrupt_keys() {
    let storage = LedgerStorage::new(true);
    let address = "X".to_string();
    let query = HistoryQuery::new(None, None, 10);
    let entry = TransactionByAddrInfo {
        signature: "good".to_string(),
        err: None,
        index: 0,
        memo: None,
    };
    let rows = vec![
        ("X/zzzzzzzzzzzzzzzz".to_string(), vec![entry.clone()]),
        (address_key(&address, 3), vec![entry]),
    ];
    let list = storage.get_confirmed_signatures_for_address(&address, &query, rows);
    assert_eq!(signatures(&list), vec![("good".to_string(), 3)]);
}

#[test]
fn confirmed_blocks_and_first_available_block() {
    let storage = LedgerStorage::new(false);
    let mut store = MemoryStore::default();
    store.upload(&storage, 0x0000000000000001, block(0, vec![]));
    store.upload(&storage, 0x000000000000000a, block(1, vec![]));
    let keys = store.block_keys(Some(1), 10);
    assert_eq!(storage.get_confirmed_blocks(&keys), vec![1, 10]);
    let first = store.block_keys(None, 1);
    assert_eq!(storage.get_first_available_block(&first), Some(1));
    assert_eq!(storage.get_first_available_block(&vec![]), None);
}

#[test]
fn confirmed_blocks_drop_unparseable_keys() {
    let storage = LedgerStorage::new(true);
    let keys = vec![
        "0000000000000002".to_string(),
        "garbage".to_string(),
        "0000000000000003".to_string(),
    ];
    assert_eq!(storage.get_confirmed_blocks(&keys), vec![2, 3]);
}

#[test]
fn transaction_index_past_block_is_absent() {
    let storage = LedgerStorage::new(false);
    let mut store = MemoryStore::default();
    store.upload(&storage, 4, block(3, vec![transaction("only", &["X"], None)]));
    let stored = store.blocks.get(&slot_to_key(4)).cloned().unwrap();
    let r = storage.get_confirmed_transaction(
        &"only".to_string(),
        4,
        5,
        Some(stored.clone()),
        UiTransactionEncoding::Binary,
    );
    assert!(r.is_none());
    let mismatch = storage.get_confirmed_transaction(
        &"other".to_string(),
        4,
        0,
        Some(stored.clone()),
        UiTransactionEncoding::Binary,
    );
    assert!(mismatch.is_none());
    let torn = storage.get_confirmed_transaction(
        &"only".to_string(),
        4,
        0,
        None,
        UiTransactionEncoding::Binary,
    );
    assert!(torn.is_none());
    let info = store.tx.get("only").unwrap().clone();
    let found = storage
        .get_confirmed_transaction(
            &"only".to_string(),
            info.slot,
            info.index,
            Some(stored),
            UiTransactionEncoding::Binary,
        )
        .unwrap();
    assert_eq!(found.slot, 4);
    assert_eq!(first_signature(&found.transaction), "only");
}

#[test]
fn empty_block_writes_only_the_block_row() {
    let storage = LedgerStorage::new(false);
    let mut store = MemoryStore::default();
    store.upload(&storage, 12, block(11, vec![]));
    assert_eq!(store.writes, vec![Table::Blocks]);
    assert!(store.tx.is_empty());
    assert!(store.tx_by_addr.is_empty());
    assert!(store.blocks.contains_key("000000000000000c"));
}

#[test]
fn upload_writes_indexes_before_block() {
    let storage = LedgerStorage::new(false);
    let mut store = MemoryStore::default();
    store.upload(&storage, 5, block(4, vec![transaction("sig", &["X"], None)]));
    assert_eq!(store.writes, vec![Table::Tx, Table::TxByAddr, Table::Blocks]);
    let info = store.tx.get("sig").unwrap();
    assert_eq!((info.slot, info.index, info.memo.clone()), (5, 0, None));
    assert!(store.tx_by_addr.contains_key("X/fffffffffffffffa"));
}

const CLOCK: &str = "SysvarC1ock11111111111111111111111111111111";
const STAKE_HISTORY: &str = "SysvarStakeHistory1111111111111111111111111";

#[test]
fn sysvar_addresses_are_not_indexed() {
    let storage = LedgerStorage::new(false);
    let mut store = MemoryStore::default();
    store.upload(&storage, 6, block(5, vec![transaction("sig", &["X", CLOCK, STAKE_HISTORY], None)]));
    assert_eq!(store.tx_by_addr.len(), 1);
    assert!(store.tx_by_addr.contains_key(&address_key(&"X".to_string(), 6)));
}

#[test]
fn block_naming_only_sysvars_sends_no_address_batch() {
    let storage = LedgerStorage::new(false);
    let mut store = MemoryStore::default();
    store.upload(&storage, 6, block(5, vec![transaction("sig", &[CLOCK], None)]));
    assert_eq!(store.writes, vec![Table::Tx, Table::Blocks]);
    assert!(store.tx_by_addr.is_empty());
}

#[test]
fn plan_upload_leaves_out_the_given_addresses() {
    let storage = LedgerStorage::new(false);
    let b = block(5, vec![transaction("sig", &["X", "Y", "X"], None)]);
    let plan = storage.plan_upload(6, b, &vec!["Y".to_string()]).unwrap();
    assert_eq!(plan.tx_by_addr_cells.len(), 1);
    assert_eq!(plan.tx_by_addr_cells[0].0, "X/fffffffffffffff9");
    assert_eq!(plan.tx_by_addr_cells[0].1.len(), 2);
    assert_eq!(plan.tx_cells[0].0, "sig");
}

#[test]
fn undecodable_transaction_fails_block_conversion() {
    let b = ConfirmedBlock {
        previous_blockhash: String::new(),
        blockhash: String::new(),
        parent_slot: 0,
        transactions: vec![TransactionWithStatusMeta {
            transaction: EncodedTransaction::Json(Transaction {
                signatures: vec!["s".to_string()],
                account_keys: vec![],
            }),
            meta: None,
        }],
        rewards: vec![],
        block_time: None,
    };
    assert_eq!(
        StoredConfirmedBlock::try_from(b).err(),
        Some(Error::UnsupportedTransactionEncoding)
    );
}

#[test]
fn signature_status_of_stored_error_is_failure() {
    let storage = LedgerStorage::new(true);
    let info = TransactionInfo { slot: 9, index: 2, err: Some("BlockhashNotFound".to_string()), memo: None };
    let st = storage.get_signature_status(Some(info)).unwrap();
    assert_eq!(st.slot, 9);
    assert_eq!(st.confirmations, None);
    assert_eq!(st.status, Err("BlockhashNotFound".to_string()));
    assert_eq!(storage.get_signature_status(None), Err(Error::SignatureNotFound));
}

#[test]
fn history_row_limit_adds_boundary_entries() {
    let query = HistoryQuery::new(None, None, usize::MAX);
    assert_eq!(query.row_limit(3), usize::MAX as u128 + 3);
    let before = TransactionInfo { slot: 10, index: 4, err: None, memo: None };
    let q = HistoryQuery::new(Some(&before), None, 7);
    assert_eq!((q.first_slot, q.before_index, q.last_slot, q.has_until), (10, 4, 0, false));
    assert_eq!(q.start_key(&"A".to_string()), "A/fffffffffffffff5");
}

#[test]
fn uploadable_blocks_decode_and_are_signed() {
    assert!(uploadable_block(&block(0, vec![transaction("a", &["X"], None)])));
    assert!(uploadable_block(&block(0, vec![])));
    let unsigned = TransactionWithStatusMeta {
        transaction: EncodedTransaction::Binary(Transaction { signatures: vec![], account_keys: vec![] }),
        meta: None,
    };
    assert!(!uploadable_block(&block(0, vec![unsigned])));
    let json = TransactionWithStatusMeta {
        transaction: EncodedTransaction::Json(Transaction {
            signatures: vec!["a".to_string()],
            account_keys: vec![],
        }),
        meta: None,
    };
    assert!(!uploadable_block(&block(0, vec![json])));
}

#[test]
fn table_names_are_the_persisted_ones() {
    assert_eq!(Table::Blocks.name(), "blocks");
    assert_eq!(Table::Tx.name(), "tx");
    assert_eq!(Table::TxByAddr.name(), "tx-by-addr");
}

#[test]
fn history_without_until_keeps_slot_zero() {
    let storage = LedgerStorage::new(false);
    let mut store = MemoryStore::default();
    store.upload(&storage, 0, block(0, vec![transaction("genesis", &["X"], None)]));
    store.upload(&storage, 2, block(0, vec![transaction("later", &["X"], None)]));
    let list = store.history(&storage, "X", None, None, 10);
    assert_eq!(
        signatures(&list),
        vec![("later".to_string(), 2), ("genesis".to_string(), 0)]
    );
    let address = "X".to_string();
    let query = HistoryQuery::new(None, None, 10);
    let rows = vec![(
        address_key(&address, 0),
        vec![TransactionByAddrInfo { signature: "max".to_string(), err: None, index: u32::MAX, memo: None }],
    )];
    let list = storage.get_confirmed_signatures_for_address(&address, &query, rows);
    assert_eq!(signatures(&list), vec![("max".to_string(), 0)]);
}

//! The ledger operations over the three tables: what to read, how to turn
//! what was read into results, and what to write for a new block.

use vstd::prelude::*;
use crate::error::Error;
use crate::sysvar::{is_sysvar_address, sysvar_address};
use crate::key::{slot_to_key, key_to_slot, spec_slot_to_key, spec_key_to_slot};
use crate::records::{
    all_decode, carried, clone_text, spec_public_tx, spec_status, StoredConfirmedBlockTransaction, spec_decode, spec_stored_tx, EncodedTransaction, ConfirmedBlock, ConfirmedTransaction, ConfirmedTransactionStatusWithSignature,
    StoredConfirmedBlock, TransactionByAddrInfo, TransactionInfo, TransactionStatus,
    TransactionWithStatusMeta, UiTransactionEncoding,
};

verus! {

/// The three tables of the store.
#[derive(Debug, Clone, Copy, PartialEq, Eq)]
pub enum Table {
    /// `blocks`: slot key to stored block.
    Blocks,
    /// `tx`: signature to transaction location.
    Tx,
    /// `tx-by-addr`: address and complemented slot key to index entries.
    TxByAddr,
}

impl Table {
    pub fn name(&self) -> (r: &'static str)
        ensures
            r@ == spec_table_name(*self),
    {
        proof {
            reveal_strlit("blocks");
            reveal_strlit("tx");
            reveal_strlit("tx-by-addr");
        }
        match self {
            Table::Blocks => "blocks",
            Table::Tx => "tx",
            Table::TxByAddr => "tx-by-addr",
        }
    }
}

pub open spec fn spec_table_name(t: Table) -> Seq<char> {
    match t {
        Table::Blocks => seq!['b', 'l', 'o', 'c', 'k', 's'],
        Table::Tx => seq!['t', 'x'],
        Table::TxByAddr => seq!['t', 'x', '-', 'b', 'y', '-', 'a', 'd', 'd', 'r'],
    }
}

/// Access to the ledger tables. System-variable accounts are left out of
/// the by-address index.
pub struct LedgerStorage {
    pub read_only: bool,
}

/// Everything that uploading one block writes, table by table.
pub struct UploadPlan {
    pub tx_cells: Vec<(String, TransactionInfo)>,
    pub tx_by_addr_cells: Vec<(String, Vec<TransactionByAddrInfo>)>,
    pub block_cell: (String, StoredConfirmedBlock),
}

/// The account addresses of a block transaction.
pub open spec fn keys_of(t: TransactionWithStatusMeta) -> Seq<String> {
    carried(t.transaction).account_keys@
}

/// The first signature of a block transaction.
pub open spec fn signature_of(t: TransactionWithStatusMeta) -> String {
    carried(t.transaction).signatures@[0]
}

/// The error recorded for a block transaction; none without a meta.
pub open spec fn err_of(t: TransactionWithStatusMeta) -> Option<String> {
    match t.meta {
        None => None,
        Some(m) => m.err,
    }
}

/// The location record of the transaction at `index` of a block at `slot`.
pub open spec fn spec_tx_info(t: TransactionWithStatusMeta, slot: u64, index: int) -> TransactionInfo {
    TransactionInfo { slot, index: index as u32, err: err_of(t), memo: None }
}

/// The index entry of the transaction at `index` of a block.
pub open spec fn spec_addr_entry(t: TransactionWithStatusMeta, index: int) -> TransactionByAddrInfo {
    TransactionByAddrInfo { signature: signature_of(t), err: err_of(t), index: index as u32, memo: None }
}

/// One copy of `e` for each of `keys` that is the address `a`.
pub open spec fn key_entries(
    keys: Seq<String>,
    a: Seq<char>,
    e: TransactionByAddrInfo,
) -> Seq<TransactionByAddrInfo>
    decreases keys.len(),
{
    if keys.len() == 0 {
        Seq::empty()
    } else {
        key_entries(keys.drop_last(), a, e) + if keys.last()@ == a {
            seq![e]
        } else {
            Seq::empty()
        }
    }
}

/// The index entries of address `a` over a block's transactions, in block order.
pub open spec fn addr_entries(txs: Seq<TransactionWithStatusMeta>, a: Seq<char>) -> Seq<
    TransactionByAddrInfo,
>
    decreases txs.len(),
{
    if txs.len() == 0 {
        Seq::empty()
    } else {
        addr_entries(txs.drop_last(), a) + key_entries(
            keys_of(txs.last()),
            a,
            spec_addr_entry(txs.last(), txs.len() - 1),
        )
    }
}

/// The row key of an address in `tx-by-addr` for a slot.
pub open spec fn spec_addr_key(a: Seq<char>, slot: u64) -> Seq<char> {
    a + seq!['/'] + spec_slot_to_key(!slot)
}

/// The address part of a `tx-by-addr` row key.
pub open spec fn key_address(k: Seq<char>) -> Seq<char> {
    k.take(k.len() - 17)
}

/// The blocks a plan may be made of: every transaction decodes and is named
/// by a signature, and each in-block index fits the stored record.
pub open spec fn uploadable(block: ConfirmedBlock) -> bool {
    &&& block.transactions@.len() <= u32::MAX
    &&& all_decode(block.transactions@)
    &&& forall|i: int|
        0 <= i < block.transactions@.len() ==> carried(
            (#[trigger] block.transactions@[i]).transaction,
        ).signatures@.len() > 0
}

/// Whether a block can be uploaded: every transaction decodes and has a
/// signature, and the block is small enough to index.
pub fn uploadable_block(block: &ConfirmedBlock) -> (r: bool)
    ensures
        r == uploadable(*block),
{
    let n = block.transactions.len();
    if n > u32::MAX as usize {
        return false;
    }
    let mut i: usize = 0;
    while i < n
        invariant
            0 <= i <= n,
            n == block.transactions@.len(),
            forall|k: int|
                0 <= k < i ==> (#[trigger] spec_decode(block.transactions@[k].transaction)) is Some
                    && carried(block.transactions@[k].transaction).signatures@.len() > 0,
        decreases n - i,
    {
        match &block.transactions[i].transaction {
            EncodedTransaction::Binary(t) => {
                if t.signatures.len() == 0 {
                    return false;
                }
            },
            EncodedTransaction::Json(_) => {
                assert(spec_decode(block.transactions@[i as int].transaction) is None);
                return false;
            },
        }
        i = i + 1;
    }
    assert forall|k: int| 0 <= k < n implies carried(
        (#[trigger] block.transactions@[k]).transaction,
    ).signatures@.len() > 0 by {
        assert(spec_decode(block.transactions@[k].transaction) is Some);
    }
    true
}

/// The tables that a plan writes, in order: the indexes, each only where it
/// has rows, then the block.
pub open spec fn spec_write_order(plan: UploadPlan) -> Seq<Table> {
    (if plan.tx_cells@.len() > 0 {
        seq![Table::Tx]
    } else {
        Seq::empty()
    }) + (if plan.tx_by_addr_cells@.len() > 0 {
        seq![Table::TxByAddr]
    } else {
        Seq::empty()
    }) + seq![Table::Blocks]
}

impl UploadPlan {
    /// The tables to write, in the order that keeps a block invisible until
    /// its indexes are complete; an empty batch is not sent.
    pub fn write_order(&self) -> (r: Vec<Table>)
        ensures
            r@ == spec_write_order(*self),
    {
        let mut r: Vec<Table> = Vec::new();
        if self.tx_cells.len() > 0 {
            r.push(Table::Tx);
        }
        if self.tx_by_addr_cells.len() > 0 {
            r.push(Table::TxByAddr);
        }
        r.push(Table::Blocks);
        proof {
            assert(r@ =~= spec_write_order(*self));
        }
        r
    }
}

impl LedgerStorage {
    pub fn new(read_only: bool) -> (r: Self)
        ensures
            r.read_only == read_only,
    {
        LedgerStorage { read_only }
    }
}

/// Whether `a` is the text of one of `l`.
pub open spec fn in_list(l: Seq<String>, a: Seq<char>) -> bool {
    exists|k: int| 0 <= k < l.len() && (#[trigger] l[k])@ == a
}

/// Whether `a` is among the texts of `l`.
pub fn list_contains(l: &Vec<String>, a: &String) -> (r: bool)
    ensures
        r == in_list(l@, a@),
{
    let mut i: usize = 0;
    while i < l.len()
        invariant
            0 <= i <= l@.len(),
            forall|k: int| 0 <= k < i ==> (#[trigger] l@[k])@ != a@,
        decreases l@.len() - i,
    {
        if l[i] == *a {
            assert(l@[i as int]@ == a@);
            return true;
        }
        i = i + 1;
    }
    false
}

/// Address groups under construction: distinct, not excluded, each holding
/// exactly `f` of its address, and every address with entries has a group.
pub open spec fn groups_ok(
    excl: Seq<String>,
    addrs: Seq<String>,
    lists: Seq<Vec<TransactionByAddrInfo>>,
    f: spec_fn(Seq<char>) -> Seq<TransactionByAddrInfo>,
) -> bool {
    &&& addrs.len() == lists.len()
    &&& forall|g: int|
        0 <= g < addrs.len() ==> !in_list(excl, (#[trigger] addrs[g])@) && lists[g]@ == f(
            addrs[g]@,
        ) && f(addrs[g]@).len() > 0
    &&& forall|g1: int, g2: int|
        0 <= g1 < addrs.len() && 0 <= g2 < addrs.len() && g1 != g2 ==> (#[trigger] addrs[g1])@
            != (#[trigger] addrs[g2])@
    &&& forall|a: Seq<char>|
        !in_list(excl, a) && (#[trigger] f(a)).len() > 0 ==> exists|g: int|
            0 <= g < addrs.len() && (#[trigger] addrs[g])@ == a
}

/// Where `a` stands among `addrs`, if it does.
fn find_address(addrs: &Vec<String>, a: &String) -> (r: Option<usize>)
    ensures
        r matches Some(g) ==> g < addrs@.len() && addrs@[g as int]@ == a@,
        r is None ==> forall|g: int| 0 <= g < addrs@.len() ==> (#[trigger] addrs@[g])@ != a@,
{
    let mut g: usize = 0;
    while g < addrs.len()
        invariant
            0 <= g <= addrs@.len(),
            forall|k: int| 0 <= k < g ==> (#[trigger] addrs@[k])@ != a@,
        decreases addrs@.len() - g,
    {
        if addrs[g] == *a {
            return Some(g);
        }
        g = g + 1;
    }
    None
}

proof fn lemma_key_entries_step(keys: Seq<String>, j: int, a: Seq<char>, e: TransactionByAddrInfo)
    requires
        0 <= j < keys.len(),
    ensures
        key_entries(keys.take(j + 1), a, e) == key_entries(keys.take(j), a, e) + if keys[j]@ == a {
            seq![e]
        } else {
            Seq::empty()
        },
{
    assert(keys.take(j + 1).drop_last() =~= keys.take(j));
}

proof fn lemma_addr_entries_step(txs: Seq<TransactionWithStatusMeta>, i: int, a: Seq<char>)
    requires
        0 <= i < txs.len(),
    ensures
        addr_entries(txs.take(i + 1), a) == addr_entries(txs.take(i), a) + key_entries(
            keys_of(txs[i]),
            a,
            spec_addr_entry(txs[i], i),
        ),
{
    assert(txs.take(i + 1).drop_last() =~= txs.take(i));
}

impl LedgerStorage {
    /// Adds to the address groups one entry `e` for each key of a transaction
    /// that is not excluded.
    fn add_entries(
        &self,
        addrs: &mut Vec<String>,
        lists: &mut Vec<Vec<TransactionByAddrInfo>>,
        keys: &Vec<String>,
        excluded: &Vec<String>,
        e: &TransactionByAddrInfo,
        base: Ghost<spec_fn(Seq<char>) -> Seq<TransactionByAddrInfo>>,
        next: Ghost<spec_fn(Seq<char>) -> Seq<TransactionByAddrInfo>>,
    )
        requires
            groups_ok(excluded@, old(addrs)@, old(lists)@, base@),
            forall|a: Seq<char>| #[trigger] next@(a) == base@(a) + key_entries(keys@, a, *e),
        ensures
            groups_ok(excluded@, final(addrs)@, final(lists)@, next@),
    {
        let mut j: usize = 0;
        while j < keys.len()
            invariant
                0 <= j <= keys@.len(),
                groups_ok(excluded@, 
                    addrs@,
                    lists@,
                    |a: Seq<char>| base@(a) + key_entries(keys@.take(j as int), a, *e),
                ),
            decreases keys@.len() - j,
        {
            let ghost f = |a: Seq<char>| base@(a) + key_entries(keys@.take(j as int), a, *e);
            let ghost f2 = |a: Seq<char>| base@(a) + key_entries(keys@.take(j + 1), a, *e);
            let ghost k = keys@[j as int]@;
            proof {
                assert forall|a: Seq<char>| #[trigger] f2(a) == f(a) + if k == a {
                    seq![*e]
                } else {
                    Seq::empty()
                } by {
                    lemma_key_entries_step(keys@, j as int, a, *e);
                }
            }
            let key = &keys[j];
            if !list_contains(excluded, key) {
                let entry = TransactionByAddrInfo {
                    signature: e.signature.clone(),
                    err: clone_text(&e.err),
                    index: e.index,
                    memo: clone_text(&e.memo),
                };
                assert(entry == *e);
                match find_address(addrs, key) {
                    Some(g) => {
                        let ghost old_lists = lists@;
                        let mut l = lists.remove(g);
                        l.push(entry);
                        lists.insert(g, l);
                        proof {
                            assert(lists@ =~= old_lists.update(g as int, l));
                            assert forall|h: int| 0 <= h < addrs@.len() && h != g implies (#[trigger] addrs@[h])@ != k by {}
                            assert(f2(k) =~= f(k).push(*e));
                        }
                    },
                    None => {
                        let ghost old_addrs = addrs@;
                        let ghost old_lists = lists@;
                        proof {
                            if f(k).len() > 0 {
                                let g = choose|g: int| 0 <= g < addrs@.len() && (#[trigger] addrs@[g])@ == k;
                            }
                            assert(f2(k) =~= seq![*e]);
                        }
                        addrs.push(key.clone());
                        let mut l: Vec<TransactionByAddrInfo> = Vec::new();
                        l.push(entry);
                        lists.push(l);
                        proof {
                            assert(l@ =~= seq![*e]);
                            assert forall|a: Seq<char>|
                                !in_list(excluded@, a) && (#[trigger] f2(a)).len() > 0 implies exists|g: int|
                                0 <= g < addrs@.len() && (#[trigger] addrs@[g])@ == a by {
                                if a == k {
                                    assert(addrs@[old_addrs.len() as int]@ == a);
                                } else {
                                    assert(f2(a) == f(a));
                                    let g = choose|g: int| 0 <= g < old_addrs.len() && (#[trigger] old_addrs[g])@ == a;
                                    assert(addrs@[g] == old_addrs[g]);
                                }
                            }
                            assert forall|g: int| 0 <= g < addrs@.len() implies !in_list(excluded@, (#[trigger] addrs@[g])@) && lists@[g]@ == f2(addrs@[g]@) && f2(addrs@[g]@).len() > 0 by {
                                if g < old_addrs.len() {
                                    assert(addrs@[g] == old_addrs[g]);
                                    assert(lists@[g] == old_lists[g]);
                                }
                            }
                        }
                    },
                }
            } else {
                proof {
                    assert forall|a: Seq<char>| !in_list(excluded@, a) implies #[trigger] f2(a) == f(a) by {
                        if a == k {
                        }
                    }
                    assert forall|g: int| 0 <= g < addrs@.len() implies (#[trigger] addrs@[g])@ != k by {}
                }
            }
            j = j + 1;
        }
        proof {
            assert(keys@.take(keys@.len() as int) =~= keys@);
            lemma_groups_ok_ext(
                excluded@,
                addrs@,
                lists@,
                |a: Seq<char>| base@(a) + key_entries(keys@.take(j as int), a, *e),
                next@,
            );
        }
    }
}

proof fn lemma_groups_ok_ext(
    excl: Seq<String>,
    addrs: Seq<String>,
    lists: Seq<Vec<TransactionByAddrInfo>>,
    f1: spec_fn(Seq<char>) -> Seq<TransactionByAddrInfo>,
    f2: spec_fn(Seq<char>) -> Seq<TransactionByAddrInfo>,
)
    requires
        groups_ok(excl, addrs, lists, f1),
        forall|a: Seq<char>| #[trigger] f1(a) == f2(a),
    ensures
        groups_ok(excl, addrs, lists, f2),
{
    assert forall|a: Seq<char>|
        !in_list(excl, a) && (#[trigger] f2(a)).len() > 0 implies exists|g: int|
            0 <= g < addrs.len() && (#[trigger] addrs[g])@ == a by {
        assert(f1(a) == f2(a));
    }
}

/// A plan for a block at `slot` is what the upload writes: one `tx` row per
/// transaction, one `tx-by-addr` row per address that is not `excluded`, and
/// the `blocks` row.
pub open spec fn plan_matches(
    slot: u64,
    block: ConfirmedBlock,
    excluded: spec_fn(Seq<char>) -> bool,
    plan: UploadPlan,
) -> bool {
    let txs = block.transactions@;
    let cells = plan.tx_by_addr_cells@;
    &&& plan.tx_cells@.len() == txs.len()
    &&& forall|i: int|
        0 <= i < txs.len() ==> (#[trigger] plan.tx_cells@[i]).0@ == signature_of(txs[i])@
            && plan.tx_cells@[i].1 == spec_tx_info(txs[i], slot, i)
    &&& forall|g: int|
        0 <= g < cells.len() ==> {
            let a = key_address((#[trigger] cells[g]).0@);
            &&& cells[g].0@ == spec_addr_key(a, slot)
            &&& !excluded(a)
            &&& cells[g].1@ == addr_entries(txs, a)
            &&& cells[g].1@.len() > 0
        }
    &&& forall|g1: int, g2: int|
        0 <= g1 < cells.len() && 0 <= g2 < cells.len() && g1 != g2 ==> (#[trigger] cells[g1]).0@
            != (#[trigger] cells[g2]).0@
    &&& forall|a: Seq<char>|
        !excluded(a) && (#[trigger] addr_entries(txs, a)).len() > 0 ==> exists|g: int|
            0 <= g < cells.len() && (#[trigger] cells[g]).0@ == spec_addr_key(a, slot)
    &&& plan.block_cell.0@ == spec_slot_to_key(slot)
    &&& plan.block_cell.1.previous_blockhash == block.previous_blockhash
    &&& plan.block_cell.1.blockhash == block.blockhash
    &&& plan.block_cell.1.parent_slot == block.parent_slot
    &&& plan.block_cell.1.transactions@ == txs.map_values(
        |t: TransactionWithStatusMeta| spec_stored_tx(t),
    )
    &&& plan.block_cell.1.rewards == block.rewards
    &&& plan.block_cell.1.block_time == block.block_time
}

/// The row key of an address for a slot: the address, `/`, and the key of the
/// complemented slot.
pub fn address_key(address: &String, slot: u64) -> (r: String)
    ensures
        r@ == spec_addr_key(address@, slot),
{
    let k = slot_to_key(!slot);
    let r = address.clone().concat("/");
    proof {
        reveal_strlit("/");
    }
    let r = r.concat(k.as_str());
    proof {
        assert(r@ =~= spec_addr_key(address@, slot));
    }
    r
}

impl LedgerStorage {
    /// The rows that uploading `confirmed_block` at `slot` writes, leaving the
    /// addresses in `excluded` out of the by-address index. A block whose
    /// transactions cannot all be decoded is not uploadable: that is a broken
    /// caller, not a condition to recover from.
    pub fn plan_upload(
        &self,
        slot: u64,
        confirmed_block: ConfirmedBlock,
        excluded: &Vec<String>,
    ) -> (r: Result<UploadPlan, Error>)
        requires
            uploadable(confirmed_block),
        ensures
            r matches Ok(plan) && plan_matches(
                slot,
                confirmed_block,
                |a: Seq<char>| in_list(excluded@, a),
                plan,
            ),
    {
        let ghost txs = confirmed_block.transactions@;
        let ghost block0 = confirmed_block;
        let n = confirmed_block.transactions.len();
        let mut tx_cells: Vec<(String, TransactionInfo)> = Vec::new();
        let mut addrs: Vec<String> = Vec::new();
        let mut lists: Vec<Vec<TransactionByAddrInfo>> = Vec::new();
        let mut i: usize = 0;
        proof {
            assert forall|a: Seq<char>| #[trigger] addr_entries(txs.take(0), a) == Seq::<TransactionByAddrInfo>::empty() by {
                assert(txs.take(0).len() == 0);
            }
        }
        while i < n
            invariant
                0 <= i <= n,
                n == txs.len(),
                txs == confirmed_block.transactions@,
                uploadable(confirmed_block),
                tx_cells@.len() == i,
                forall|k: int|
                    0 <= k < i ==> (#[trigger] tx_cells@[k]).0@ == signature_of(txs[k])@
                        && tx_cells@[k].1 == spec_tx_info(txs[k], slot, k),
                groups_ok(excluded@, 
                    addrs@,
                    lists@,
                    |a: Seq<char>| addr_entries(txs.take(i as int), a),
                ),
            decreases n - i,
        {
            let t = &confirmed_block.transactions[i];
            let tx = match &t.transaction {
                EncodedTransaction::Binary(tx) => tx,
                EncodedTransaction::Json(tx) => tx,
            };
            assert(spec_decode(txs[i as int].transaction) is Some);
            assert(carried(txs[i as int].transaction).signatures@.len() > 0);
            let err = match &t.meta {
                None => None,
                Some(m) => clone_text(&m.err),
            };
            let signature = tx.signatures[0].clone();
            let index = i as u32;
            let e = TransactionByAddrInfo {
                signature: signature.clone(),
                err: clone_text(&err),
                index,
                memo: None,
            };
            assert(e == spec_addr_entry(txs[i as int], i as int));
            let ghost base = |a: Seq<char>| addr_entries(txs.take(i as int), a);
            let ghost next = |a: Seq<char>| addr_entries(txs.take(i + 1), a);
            proof {
                assert forall|a: Seq<char>| #[trigger] next(a) == base(a) + key_entries(tx.account_keys@, a, e) by {
                    lemma_addr_entries_step(txs, i as int, a);
                }
            }
            self.add_entries(
                &mut addrs,
                &mut lists,
                &tx.account_keys,
                excluded,
                &e,
                Ghost(base),
                Ghost(next),
            );
            tx_cells.push((signature, TransactionInfo { slot, index, err, memo: None }));
            i = i + 1;
            proof {
                lemma_groups_ok_ext(
                    excluded@,
                    addrs@,
                    lists@,
                    next,
                    |a: Seq<char>| addr_entries(txs.take(i as int), a),
                );
            }
        }
        proof {
            assert(txs.take(n as int) =~= txs);
            lemma_groups_ok_ext(
                    excluded@,
                addrs@,
                lists@,
                |a: Seq<char>| addr_entries(txs.take(i as int), a),
                |a: Seq<char>| addr_entries(txs, a),
            );
        }
        let mut cells: Vec<(String, Vec<TransactionByAddrInfo>)> = Vec::new();
        let ghost all_addrs = addrs@;
        let ghost all_lists = lists@;
        let mut g: usize = 0;
        while g < addrs.len()
            invariant
                0 <= g <= addrs@.len(),
                addrs@ == all_addrs,
                all_addrs.len() == all_lists.len(),
                groups_ok(excluded@, all_addrs, all_lists, |a: Seq<char>| addr_entries(txs, a)),
                txs == confirmed_block.transactions@,
                uploadable(confirmed_block),
                lists@.len() + g == all_lists.len(),
                lists@ == all_lists.skip(g as int),
                cells@.len() == g,
                forall|h: int|
                    0 <= h < g ==> (#[trigger] cells@[h]).0@ == spec_addr_key(all_addrs[h]@, slot)
                        && cells@[h].1 == all_lists[h],
            decreases addrs@.len() - g,
        {
            let l = lists.remove(0);
            cells.push((address_key(&addrs[g], slot), l));
            proof {
                assert(lists@ =~= all_lists.skip(g + 1));
            }
            g = g + 1;
        }
        proof {
            let f = |a: Seq<char>| addr_entries(txs, a);
            assert forall|g1: int, g2: int|
                0 <= g1 < cells@.len() && 0 <= g2 < cells@.len() && g1 != g2 implies (#[trigger] cells@[g1]).0@
                    != (#[trigger] cells@[g2]).0@ by {
                let a1 = all_addrs[g1]@;
                let a2 = all_addrs[g2]@;
                assert(a1 != a2);
                if cells@[g1].0@ == cells@[g2].0@ {
                    lemma_addr_key_injective(a1, a2, slot);
                }
            }
            assert forall|h: int| 0 <= h < cells@.len() implies {
                let a = key_address((#[trigger] cells@[h]).0@);
                &&& cells@[h].0@ == spec_addr_key(a, slot)
                &&& !in_list(excluded@, a)
                &&& cells@[h].1@ == addr_entries(txs, a)
                &&& cells@[h].1@.len() > 0
            } by {
                let a = all_addrs[h]@;
                crate::key::lemma_key_length(!slot);
                assert(key_address(spec_addr_key(a, slot)) =~= a);
                assert(all_addrs[h] == addrs@[h]);
                assert(all_lists[h]@ == addr_entries(txs, a));
                assert(cells@[h].1@ == addr_entries(txs, a));
                assert(!in_list(excluded@, a));
                assert(cells@[h].1@.len() > 0);
            }
            assert forall|a: Seq<char>|
                !in_list(excluded@, a) && (#[trigger] addr_entries(txs, a)).len() > 0 implies exists|h: int|
                    0 <= h < cells@.len() && (#[trigger] cells@[h]).0@ == spec_addr_key(a, slot) by {
                assert(f(a).len() > 0);
                let h = choose|h: int| 0 <= h < addrs@.len() && (#[trigger] addrs@[h])@ == a;
                assert(cells@[h].0@ == spec_addr_key(a, slot));
            }
        }
        let key = slot_to_key(slot);
        let stored = match StoredConfirmedBlock::try_from(confirmed_block) {
            Ok(b) => b,
            Err(e) => {
                return Err(e);
            },
        };
        let ghost cells_v = cells@;
        let plan = UploadPlan { tx_cells, tx_by_addr_cells: cells, block_cell: (key, stored) };
        assert forall|a: Seq<char>|
            !in_list(excluded@, a) && (#[trigger] addr_entries(txs, a)).len() > 0 implies exists|g: int|
                0 <= g < plan.tx_by_addr_cells@.len() && (#[trigger] plan.tx_by_addr_cells@[g]).0@
                    == spec_addr_key(a, slot) by {
            let h = choose|h: int| 0 <= h < cells_v.len() && (#[trigger] cells_v[h]).0@ == spec_addr_key(a, slot);
            assert(plan.tx_by_addr_cells@[h] == cells_v[h]);
        }
        assert(plan_matches(slot, block0, |a: Seq<char>| in_list(excluded@, a), plan));
        Ok(plan)
    }
}

/// Distinct addresses have distinct row keys for a slot.
proof fn lemma_addr_key_injective(a1: Seq<char>, a2: Seq<char>, slot: u64)
    requires
        spec_addr_key(a1, slot) == spec_addr_key(a2, slot),
    ensures
        a1 == a2,
{
    let k = spec_slot_to_key(!slot);
    crate::key::lemma_key_length(!slot);
    let s1 = spec_addr_key(a1, slot);
    assert(s1.len() == a1.len() + 1 + 16);
    assert(spec_addr_key(a2, slot).len() == a2.len() + 1 + 16);
    assert(a1 =~= s1.take(a1.len() as int));
    assert(a2 =~= spec_addr_key(a2, slot).take(a2.len() as int));
}

/// The slots of the keys that parse, in order; the others are dropped.
pub open spec fn parsed_slots(keys: Seq<String>) -> Seq<u64>
    decreases keys.len(),
{
    if keys.len() == 0 {
        Seq::empty()
    } else {
        parsed_slots(keys.drop_last()) + match spec_key_to_slot(keys.last()@) {
            Some(s) => seq![s],
            None => Seq::empty(),
        }
    }
}

/// A transaction of a block can be handed out for a signature only where it
/// sits at the recorded index and is named by that signature.
pub open spec fn located(block: StoredConfirmedBlock, index: u32, signature: Seq<char>) -> bool {
    &&& (index as int) < block.transactions@.len()
    &&& block.transactions@[index as int].transaction.signatures@.len() > 0
    &&& block.transactions@[index as int].transaction.signatures@[0]@ == signature
}

impl LedgerStorage {
    /// The first slot that holds a block, from the lowest key of `blocks`.
    pub fn get_first_available_block(&self, keys: &Vec<String>) -> (r: Option<u64>)
        ensures
            keys@.len() == 0 ==> r is None,
            keys@.len() > 0 ==> r == spec_key_to_slot(keys@[0]@),
    {
        if keys.len() == 0 {
            None
        } else {
            key_to_slot(keys[0].as_str())
        }
    }

    /// The slots of the listed `blocks` keys, in order; keys that do not
    /// parse are dropped rather than failing the listing.
    pub fn get_confirmed_blocks(&self, keys: &Vec<String>) -> (r: Vec<u64>)
        ensures
            r@ == parsed_slots(keys@),
    {
        let mut r: Vec<u64> = Vec::new();
        let mut i: usize = 0;
        while i < keys.len()
            invariant
                0 <= i <= keys@.len(),
                r@ == parsed_slots(keys@.take(i as int)),
            decreases keys@.len() - i,
        {
            proof {
                assert(keys@.take(i + 1).drop_last() =~= keys@.take(i as int));
            }
            match key_to_slot(keys[i].as_str()) {
                Some(s) => r.push(s),
                None => {},
            }
            proof {
                assert(r@ =~= parsed_slots(keys@.take(i + 1)));
            }
            i = i + 1;
        }
        proof {
            assert(keys@.take(keys@.len() as int) =~= keys@);
        }
        r
    }

    /// The public block of the `blocks` row for `slot`, if there is one.
    pub fn get_confirmed_block(
        &self,
        slot: u64,
        block: Option<StoredConfirmedBlock>,
        encoding: UiTransactionEncoding,
    ) -> (r: Result<ConfirmedBlock, Error>)
        ensures
            block is None ==> r == Err::<ConfirmedBlock, Error>(Error::BlockNotFound(slot)),
            block matches Some(b) ==> (r matches Ok(c) && c.previous_blockhash == b.previous_blockhash
                && c.blockhash == b.blockhash && c.parent_slot == b.parent_slot
                && c.transactions@ == b.transactions@.map_values(
                |t: StoredConfirmedBlockTransaction| spec_public_tx(t, encoding),
            ) && c.rewards == b.rewards && c.block_time == b.block_time),
    {
        match block {
            None => Err(Error::BlockNotFound(slot)),
            Some(b) => Ok(b.into_confirmed_block(encoding)),
        }
    }

    /// The status of the `tx` row of a signature, if there is one.
    pub fn get_signature_status(&self, info: Option<TransactionInfo>) -> (r: Result<
        TransactionStatus,
        Error,
    >)
        ensures
            info is None ==> r == Err::<TransactionStatus, Error>(Error::SignatureNotFound),
            info matches Some(i) ==> (r matches Ok(st) && st.slot == i.slot && st.confirmations is None
                && st.status == spec_status(i.err) && st.err == i.err),
    {
        match info {
            None => Err(Error::SignatureNotFound),
            Some(i) => Ok(i.into_status()),
        }
    }

    /// The transaction that a `tx` row at (`slot`, `index`) points at in the
    /// block of that slot. A missing block row, an index outside the block,
    /// or a transaction there with another signature means the tables
    /// disagree (an upload broken off half-way): the transaction is then
    /// absent, not an error.
    pub fn get_confirmed_transaction(
        &self,
        signature: &String,
        slot: u64,
        index: u32,
        block: Option<StoredConfirmedBlock>,
        encoding: UiTransactionEncoding,
    ) -> (r: Option<ConfirmedTransaction>)
        ensures
            r is Some <==> (block matches Some(b) && located(b, index, signature@)),
            r matches Some(ct) ==> ct.slot == slot && ct.transaction == spec_public_tx(
                block->Some_0.transactions@[index as int],
                encoding,
            ),
    {
        let block = match block {
            None => {
                return None;
            },
            Some(b) => b,
        };
        let ghost b0 = block;
        let mut txs = block.transactions;
        let i = index as usize;
        if i >= txs.len() {
            return None;
        }
        let t = txs.remove(i);
        assert(t == b0.transactions@[index as int]);
        if t.transaction.signatures.len() == 0 {
            return None;
        }
        if t.transaction.signatures[0] != *signature {
            return None;
        }
        Some(ConfirmedTransaction { slot, transaction: t.into_transaction_with_status_meta(encoding) })
    }
}

/// A block read back after its upload has as many transactions as were
/// uploaded, each named by the same first signature, whatever the encoding
/// asked for.
pub proof fn lemma_upload_read_back(
    slot: u64,
    block: ConfirmedBlock,
    excluded: spec_fn(Seq<char>) -> bool,
    plan: UploadPlan,
    encoding: UiTransactionEncoding,
)
    requires
        uploadable(block),
        plan_matches(slot, block, excluded, plan),
    ensures
        ({
            let back = plan.block_cell.1.transactions@.map_values(
                |t: StoredConfirmedBlockTransaction| spec_public_tx(t, encoding),
            );
            &&& back.len() == block.transactions@.len()
            &&& forall|i: int|
                0 <= i < back.len() ==> carried((#[trigger] back[i]).transaction).signatures@[0]
                    == signature_of(block.transactions@[i])
        }),
{
}

/// Uploading a block without transactions writes the `blocks` row alone:
/// the empty index batches are not sent.
pub proof fn lemma_empty_block_writes_block_only(
    slot: u64,
    block: ConfirmedBlock,
    excluded: spec_fn(Seq<char>) -> bool,
    plan: UploadPlan,
)
    requires
        block.transactions@.len() == 0,
        plan_matches(slot, block, excluded, plan),
    ensures
        spec_write_order(plan) == seq![Table::Blocks],
{
    if plan.tx_by_addr_cells@.len() > 0 {
        let c = plan.tx_by_addr_cells@[0];
        let a = key_address(c.0@);
        assert(addr_entries(block.transactions@, a).len() == 0);
    }
    assert(spec_write_order(plan) =~= seq![Table::Blocks]);
}

/// Whether some transaction of a block names the address `a`.
pub open spec fn appears(txs: Seq<TransactionWithStatusMeta>, a: Seq<char>) -> bool {
    exists|i: int, j: int|
        0 <= i < txs.len() && 0 <= j < keys_of(txs[i]).len() && (#[trigger] keys_of(txs[i])[j])@
            == a
}

proof fn lemma_key_entries_appear(keys: Seq<String>, a: Seq<char>, e: TransactionByAddrInfo)
    requires
        key_entries(keys, a, e).len() > 0,
    ensures
        exists|j: int| 0 <= j < keys.len() && (#[trigger] keys[j])@ == a,
    decreases keys.len(),
{
    let p = keys.drop_last();
    if key_entries(p, a, e).len() > 0 {
        lemma_key_entries_appear(p, a, e);
        let j = choose|j: int| 0 <= j < p.len() && (#[trigger] p[j])@ == a;
        assert(keys[j] == p[j]);
    } else {
        assert(keys[keys.len() - 1]@ == a);
    }
}

/// An address with index entries is named by some transaction of the block.
proof fn lemma_entries_appear(txs: Seq<TransactionWithStatusMeta>, a: Seq<char>)
    requires
        addr_entries(txs, a).len() > 0,
    ensures
        appears(txs, a),
    decreases txs.len(),
{
    let p = txs.drop_last();
    if addr_entries(p, a).len() > 0 {
        lemma_entries_appear(p, a);
        let (i, j) = choose|i: int, j: int|
            0 <= i < p.len() && 0 <= j < keys_of(p[i]).len() && (#[trigger] keys_of(p[i])[j])@ == a;
        assert(txs[i] == p[i]);
        assert(keys_of(txs[i])[j]@ == a);
    } else {
        let last = txs.len() - 1;
        lemma_key_entries_appear(keys_of(txs[last]), a, spec_addr_entry(txs[last], last));
        let j = choose|j: int| 0 <= j < keys_of(txs[last]).len() && (#[trigger] keys_of(txs[last])[j])@ == a;
        assert(keys_of(txs[last])[j]@ == a);
    }
}

/// A plan made with one exclusion is made with any other that agrees with it
/// on the addresses the block names.
proof fn lemma_plan_matches_agree(
    slot: u64,
    block: ConfirmedBlock,
    ex1: spec_fn(Seq<char>) -> bool,
    ex2: spec_fn(Seq<char>) -> bool,
    plan: UploadPlan,
)
    requires
        plan_matches(slot, block, ex1, plan),
        forall|a: Seq<char>| appears(block.transactions@, a) ==> ex1(a) == ex2(a),
    ensures
        plan_matches(slot, block, ex2, plan),
{
    let txs = block.transactions@;
    let cells = plan.tx_by_addr_cells@;
    assert forall|g: int| 0 <= g < cells.len() implies !ex2(key_address((#[trigger] cells[g]).0@)) by {
        let a = key_address(cells[g].0@);
        lemma_entries_appear(txs, a);
    }
    assert forall|a: Seq<char>|
        !ex2(a) && (#[trigger] addr_entries(txs, a)).len() > 0 implies exists|g: int|
            0 <= g < cells.len() && (#[trigger] cells[g]).0@ == spec_addr_key(a, slot) by {
        lemma_entries_appear(txs, a);
    }
}

/// The addresses named by a block that are system-variable accounts.
fn sysvar_keys(block: &ConfirmedBlock) -> (l: Vec<String>)
    ensures
        forall|a: Seq<char>|
            appears(block.transactions@, a) ==> (in_list(l@, a) == sysvar_address(a)),
{
    let ghost txs = block.transactions@;
    let mut l: Vec<String> = Vec::new();
    let mut i: usize = 0;
    while i < block.transactions.len()
        invariant
            0 <= i <= txs.len(),
            txs == block.transactions@,
            forall|m: int| 0 <= m < l@.len() ==> sysvar_address((#[trigger] l@[m])@),
            forall|i2: int, j2: int|
                0 <= i2 < i && 0 <= j2 < keys_of(txs[i2]).len() && sysvar_address(
                    (#[trigger] keys_of(txs[i2])[j2])@,
                ) ==> in_list(l@, keys_of(txs[i2])[j2]@),
        decreases txs.len() - i,
    {
        let keys = match &block.transactions[i].transaction {
            EncodedTransaction::Binary(t) => &t.account_keys,
            EncodedTransaction::Json(t) => &t.account_keys,
        };
        assert(keys@ == keys_of(txs[i as int]));
        let mut j: usize = 0;
        while j < keys.len()
            invariant
                0 <= i < txs.len(),
                0 <= j <= keys@.len(),
                keys@ == keys_of(txs[i as int]),
                forall|m: int| 0 <= m < l@.len() ==> sysvar_address((#[trigger] l@[m])@),
                forall|i2: int, j2: int|
                    0 <= i2 < i && 0 <= j2 < keys_of(txs[i2]).len() && sysvar_address(
                        (#[trigger] keys_of(txs[i2])[j2])@,
                    ) ==> in_list(l@, keys_of(txs[i2])[j2]@),
                forall|j2: int|
                    0 <= j2 < j && sysvar_address((#[trigger] keys@[j2])@) ==> in_list(
                        l@,
                        keys@[j2]@,
                    ),
            decreases keys@.len() - j,
        {
            if is_sysvar_address(&keys[j]) {
                let ghost old_l = l@;
                l.push(keys[j].clone());
                proof {
                    assert forall|b: Seq<char>| in_list(old_l, b) implies in_list(l@, b) by {
                        let k = choose|k: int| 0 <= k < old_l.len() && (#[trigger] old_l[k])@ == b;
                        assert(l@[k] == old_l[k]);
                    }
                    assert(l@[old_l.len() as int]@ == keys@[j as int]@);
                }
            }
            j = j + 1;
        }
        i = i + 1;
    }
    proof {
        assert forall|a: Seq<char>| appears(txs, a) implies (in_list(l@, a) == sysvar_address(a)) by {
            let (i2, j2) = choose|i2: int, j2: int|
                0 <= i2 < txs.len() && 0 <= j2 < keys_of(txs[i2]).len() && (#[trigger] keys_of(
                    txs[i2],
                )[j2])@ == a;
            if in_list(l@, a) {
                let m = choose|m: int| 0 <= m < l@.len() && (#[trigger] l@[m])@ == a;
            }
        }
    }
    l
}

impl LedgerStorage {
    /// The rows that uploading `confirmed_block` at `slot` writes, leaving the
    /// system-variable accounts out of the by-address index.
    pub fn upload_confirmed_block(&self, slot: u64, confirmed_block: ConfirmedBlock) -> (r: Result<
        UploadPlan,
        Error,
    >)
        requires
            uploadable(confirmed_block),
        ensures
            r matches Ok(plan) && plan_matches(
                slot,
                confirmed_block,
                |a: Seq<char>| sysvar_address(a),
                plan,
            ),
    {
        let ghost block0 = confirmed_block;
        let excluded = sysvar_keys(&confirmed_block);
        let r = self.plan_upload(slot, confirmed_block, &excluded);
        proof {
            let plan = r->Ok_0;
            lemma_plan_matches_agree(
                slot,
                block0,
                |a: Seq<char>| in_list(excluded@, a),
                |a: Seq<char>| sysvar_address(a),
                plan,
            );
        }
        r
    }
}

proof fn lemma_key_entries_nonempty(keys: Seq<String>, j: int, a: Seq<char>, e: TransactionByAddrInfo)
    requires
        0 <= j < keys.len(),
        keys[j]@ == a,
    ensures
        key_entries(keys, a, e).len() > 0,
    decreases keys.len(),
{
    if j < keys.len() - 1 {
        assert(keys.drop_last()[j] == keys[j]);
        lemma_key_entries_nonempty(keys.drop_last(), j, a, e);
    }
}

proof fn lemma_addr_entries_nonempty(txs: Seq<TransactionWithStatusMeta>, i: int, j: int, a: Seq<char>)
    requires
        0 <= i < txs.len(),
        0 <= j < keys_of(txs[i]).len(),
        keys_of(txs[i])[j]@ == a,
    ensures
        addr_entries(txs, a).len() > 0,
    decreases txs.len(),
{
    if i < txs.len() - 1 {
        assert(txs.drop_last()[i] == txs[i]);
        lemma_addr_entries_nonempty(txs.drop_last(), i, j, a);
    } else {
        lemma_key_entries_nonempty(keys_of(txs[i]), j, a, spec_addr_entry(txs[i], i));
    }
}

/// An upload sends the `tx` batch exactly when the block has transactions,
/// and the `tx-by-addr` batch exactly when some transaction names an address
/// that is not excluded; the `blocks` row always comes last.
pub proof fn lemma_index_batches_sent(
    slot: u64,
    block: ConfirmedBlock,
    excluded: spec_fn(Seq<char>) -> bool,
    plan: UploadPlan,
)
    requires
        plan_matches(slot, block, excluded, plan),
    ensures
        spec_write_order(plan).contains(Table::Tx) == (block.transactions@.len() > 0),
        spec_write_order(plan).contains(Table::TxByAddr) == (exists|a: Seq<char>|
            appears(block.transactions@, a) && !excluded(a)),
        spec_write_order(plan).last() == Table::Blocks,
{
    let txs = block.transactions@;
    let w = spec_write_order(plan);
    let cells = plan.tx_by_addr_cells@;
    if cells.len() > 0 {
        let a = key_address(cells[0].0@);
        lemma_entries_appear(txs, a);
        assert(appears(txs, a) && !excluded(a));
    }
    if exists|a: Seq<char>| appears(txs, a) && !excluded(a) {
        let a = choose|a: Seq<char>| appears(txs, a) && !excluded(a);
        let (i, j) = choose|i: int, j: int|
            0 <= i < txs.len() && 0 <= j < keys_of(txs[i]).len() && (#[trigger] keys_of(txs[i])[j])@
                == a;
        lemma_addr_entries_nonempty(txs, i, j, a);
        assert(cells.len() > 0);
    }
    if plan.tx_cells@.len() > 0 {
        assert(w[0] == Table::Tx);
    }
    if cells.len() > 0 {
        if plan.tx_cells@.len() > 0 {
            assert(w[1] == Table::TxByAddr);
        } else {
            assert(w[0] == Table::TxByAddr);
        }
    }
    assert(w.contains(Table::Tx) ==> plan.tx_cells@.len() > 0);
    assert(w.contains(Table::TxByAddr) ==> cells.len() > 0);
}

} // verus!

//! Address history: the newest-first listing of an address's transactions
//! between two signature cursors.

use vstd::prelude::*;
use crate::key::{key_to_slot, spec_key_to_slot};
use crate::records::{ConfirmedTransactionStatusWithSignature, TransactionByAddrInfo, TransactionInfo};
use crate::storage::{address_key, spec_addr_key, LedgerStorage};

verus! {

/// The bounds of a history listing, resolved from its cursors: entries
/// strictly before (`first_slot`, `before_index`) and, where there is an
/// `until` cursor, strictly after (`last_slot`, `until_index`); at most
/// `limit` of them.
pub struct HistoryQuery {
    pub first_slot: u64,
    pub before_index: u32,
    pub last_slot: u64,
    pub has_until: bool,
    pub until_index: u32,
    pub limit: usize,
}

/// Whether an entry of a row at `slot` lies strictly between the cursors.
pub open spec fn in_bounds(q: HistoryQuery, slot: u64, e: TransactionByAddrInfo) -> bool {
    &&& !(slot == q.first_slot && e.index >= q.before_index)
    &&& !(q.has_until && slot == q.last_slot && e.index <= q.until_index)
}

pub open spec fn spec_listed(slot: u64, e: TransactionByAddrInfo) -> ConfirmedTransactionStatusWithSignature {
    ConfirmedTransactionStatusWithSignature { signature: e.signature, slot, err: e.err, memo: e.memo }
}

/// The listed entries of one row, in row order.
pub open spec fn row_out(q: HistoryQuery, slot: u64, entries: Seq<TransactionByAddrInfo>) -> Seq<
    ConfirmedTransactionStatusWithSignature,
>
    decreases entries.len(),
{
    if entries.len() == 0 {
        Seq::empty()
    } else {
        row_out(q, slot, entries.drop_last()) + if in_bounds(q, slot, entries.last()) {
            seq![spec_listed(slot, entries.last())]
        } else {
            Seq::empty()
        }
    }
}

/// The slot of a `tx-by-addr` row key, for an address of `addr_len`
/// characters: the complement of what its suffix parses to.
pub open spec fn row_slot(addr_len: nat, key: Seq<char>) -> Option<u64> {
    if key.len() >= addr_len + 1 {
        match spec_key_to_slot(key.skip(addr_len + 1 as int)) {
            Some(s) => Some(!s),
            None => None,
        }
    } else {
        None
    }
}

/// The listed entries of all rows, in row order; a row whose key does not
/// parse is passed over.
pub open spec fn rows_out(
    q: HistoryQuery,
    addr_len: nat,
    rows: Seq<(String, Vec<TransactionByAddrInfo>)>,
) -> Seq<ConfirmedTransactionStatusWithSignature>
    decreases rows.len(),
{
    if rows.len() == 0 {
        Seq::empty()
    } else {
        rows_out(q, addr_len, rows.drop_last()) + match row_slot(addr_len, rows.last().0@) {
            Some(s) => row_out(q, s, rows.last().1@),
            None => Seq::empty(),
        }
    }
}

proof fn lemma_row_out_append(q: HistoryQuery, slot: u64, a: Seq<TransactionByAddrInfo>, b: Seq<TransactionByAddrInfo>)
    ensures
        row_out(q, slot, a + b) == row_out(q, slot, a) + row_out(q, slot, b),
    decreases b.len(),
{
    if b.len() == 0 {
        assert(a + b =~= a);
    } else {
        assert((a + b).drop_last() =~= a + b.drop_last());
        lemma_row_out_append(q, slot, a, b.drop_last());
    }
}

proof fn lemma_rows_out_append(
    q: HistoryQuery,
    addr_len: nat,
    a: Seq<(String, Vec<TransactionByAddrInfo>)>,
    b: Seq<(String, Vec<TransactionByAddrInfo>)>,
)
    ensures
        rows_out(q, addr_len, a + b) == rows_out(q, addr_len, a) + rows_out(q, addr_len, b),
    decreases b.len(),
{
    if b.len() == 0 {
        assert(a + b =~= a);
    } else {
        assert((a + b).drop_last() =~= a + b.drop_last());
        lemma_rows_out_append(q, addr_len, a, b.drop_last());
    }
}

impl HistoryQuery {
    /// The bounds of a listing from the `tx` rows of its cursors: without a
    /// `before` cursor it starts at the highest slot, without an `until`
    /// cursor it runs down to slot 0 and keeps every entry there.
    pub fn new(before: Option<&TransactionInfo>, until: Option<&TransactionInfo>, limit: usize) -> (r: Self)
        ensures
            r.first_slot == match before {
                None => u64::MAX,
                Some(i) => i.slot,
            },
            r.before_index == match before {
                None => 0u32,
                Some(i) => i.index,
            },
            r.last_slot == match until {
                None => 0u64,
                Some(i) => i.slot,
            },
            r.has_until == until is Some,
            r.until_index == match until {
                None => 0u32,
                Some(i) => i.index,
            },
            r.limit == limit,
    {
        let (first_slot, before_index) = match before {
            None => (u64::MAX, 0u32),
            Some(i) => (i.slot, i.index),
        };
        let (last_slot, has_until, until_index) = match until {
            None => (0u64, false, 0u32),
            Some(i) => (i.slot, true, i.index),
        };
        HistoryQuery { first_slot, before_index, last_slot, has_until, until_index, limit }
    }

    /// The first row key of the scan, which is also the row of the boundary slot.
    pub fn start_key(&self, address: &String) -> (r: String)
        ensures
            r@ == spec_addr_key(address@, self.first_slot),
    {
        address_key(address, self.first_slot)
    }

    /// The last row key of the scan.
    pub fn end_key(&self, address: &String) -> (r: String)
        ensures
            r@ == spec_addr_key(address@, self.last_slot),
    {
        address_key(address, self.last_slot)
    }

    /// How many rows to ask for: the limit, plus the entries of the boundary
    /// row, which the `before` cursor may all filter out.
    pub fn row_limit(&self, boundary_entries: usize) -> (r: u128)
        ensures
            r == self.limit + boundary_entries,
    {
        self.limit as u128 + boundary_entries as u128
    }
}

impl LedgerStorage {
    /// The history of `address` out of the `tx-by-addr` rows of the scan, in
    /// the store's ascending key order (so newest slot first): every entry
    /// between the cursors, in row order, cut off after `query.limit`. A row
    /// whose key does not parse is passed over.
    pub fn get_confirmed_signatures_for_address(
        &self,
        address: &String,
        query: &HistoryQuery,
        rows: Vec<(String, Vec<TransactionByAddrInfo>)>,
    ) -> (r: Vec<ConfirmedTransactionStatusWithSignature>)
        ensures
            ({
                let all = rows_out(*query, address@.len(), rows@);
                &&& r@.len() == if all.len() <= query.limit {
                    all.len() as int
                } else {
                    query.limit as int
                }
                &&& r@ == all.take(r@.len() as int)
            }),
    {
        let ghost q = *query;
        let ghost alen = address@.len();
        let ghost all = rows_out(q, alen, rows@);
        let alen_exec = address.unicode_len();
        let limit = query.limit;
        let mut out: Vec<ConfirmedTransactionStatusWithSignature> = Vec::new();
        let mut rest = rows;
        let ghost mut tail = all;
        proof {
            assert(out@ + tail =~= all);
        }
        while rest.len() > 0 && out.len() < limit
            invariant
                alen_exec == alen,
                limit == q.limit,
                q == *query,
                out@.len() <= limit,
                all == out@ + tail,
                out@.len() < limit ==> tail == rows_out(q, alen, rest@),
            decreases rest.len(),
        {
            let ghost rest0 = rest@;
            let (key, entries) = rest.remove(0);
            proof {
                assert(rest0 =~= seq![(key, entries)] + rest@);
                lemma_rows_out_append(q, alen, seq![(key, entries)], rest@);
                let one = seq![(key, entries)];
                assert(one.drop_last() =~= Seq::<(String, Vec<TransactionByAddrInfo>)>::empty());
                assert(one.last() == (key, entries));
                assert(rows_out(q, alen, one) == rows_out(q, alen, one.drop_last()) + match row_slot(
                    alen,
                    one.last().0@,
                ) {
                    Some(s) => row_out(q, s, one.last().1@),
                    None => Seq::empty(),
                });
                assert(tail == rows_out(q, alen, one) + rows_out(q, alen, rest@));
            }
            let klen = key.unicode_len();
            let slot_opt: Option<u64> = if klen > alen_exec {
                let suffix = key.as_str().substring_char(alen_exec + 1, klen);
                proof {
                    assert(suffix@ =~= key@.skip(alen + 1 as int));
                }
                match key_to_slot(suffix) {
                    Some(s) => Some(!s),
                    None => None,
                }
            } else {
                None
            };
            assert(slot_opt == row_slot(alen, key@));
            match slot_opt {
                None => {
                    proof {
                        tail = rows_out(q, alen, rest@);
                        assert(out@ + tail =~= all);
                    }
                },
                Some(slot) => {
                    let mut ents = entries;
                    proof {
                        tail = row_out(q, slot, ents@) + rows_out(q, alen, rest@);
                        assert(all =~= out@ + tail);
                    }
                    while ents.len() > 0 && out.len() < limit
                        invariant
                            limit == q.limit,
                            q == *query,
                            out@.len() <= limit,
                            all == out@ + tail,
                            out@.len() < limit ==> tail == row_out(q, slot, ents@) + rows_out(q, alen, rest@),
                        decreases ents.len(),
                    {
                        let ghost ents0 = ents@;
                        let e = ents.remove(0);
                        proof {
                            assert(ents0 =~= seq![e] + ents@);
                            lemma_row_out_append(q, slot, seq![e], ents@);
                            let one = seq![e];
                            assert(one.drop_last() =~= Seq::<TransactionByAddrInfo>::empty());
                            assert(one.last() == e);
                            assert(row_out(q, slot, one) == row_out(q, slot, one.drop_last()) + if in_bounds(q, slot, one.last()) {
                                seq![spec_listed(slot, one.last())]
                            } else {
                                Seq::empty()
                            });
                        }
                        let keep = !(slot == query.first_slot && e.index >= query.before_index) && !(query.has_until
                            && slot == query.last_slot && e.index <= query.until_index);
                        let ghost ge = e;
                        assert(keep == in_bounds(q, slot, ge));
                        if keep {
                            out.push(
                                ConfirmedTransactionStatusWithSignature {
                                    signature: e.signature,
                                    slot,
                                    err: e.err,
                                    memo: e.memo,
                                },
                            );
                            proof {
                                tail = row_out(q, slot, ents@) + rows_out(q, alen, rest@);
                                assert(out@.last() == spec_listed(slot, ge));
                                assert(all =~= out@ + tail);
                            }
                        } else {
                            proof {
                                tail = row_out(q, slot, ents@) + rows_out(q, alen, rest@);
                                assert(all =~= out@ + tail);
                            }
                        }
                    }
                    proof {
                        if out@.len() < limit {
                            assert(ents@.len() == 0);
                            assert(row_out(q, slot, ents@) =~= Seq::<ConfirmedTransactionStatusWithSignature>::empty());
                            assert(tail =~= rows_out(q, alen, rest@));
                        }
                    }
                },
            }
        }
        proof {
            if out@.len() < limit {
                assert(rest@.len() == 0);
                assert(tail =~= Seq::<ConfirmedTransactionStatusWithSignature>::empty());
                assert(all =~= out@);
            }
            assert(all.take(out@.len() as int) =~= out@);
        }
        out
    }
}

} // verus!

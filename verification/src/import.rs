//! Support for imported bank statements: the indexing pass that lets an
//! import recognize transactions it has already stored, keyed by the bank's
//! own transaction id per account, and the pending-transaction value that
//! file adapters hand the core.

use vstd::prelude::*;
use crate::storage::{
    Storage, Data, lines_of, index_of, wf_store, has_section, section_pos, spec_index_set,
    index_lookup, skey_of,
};
use crate::lines::LineV;
use crate::model::{row_decode, row_run, decode_run};
use crate::dates::Date;
use crate::numtext::MAX_CENTS;
use crate::accounts::{Account, AccountV};
use crate::transactions::{Transaction, TransactionV, tx_wf, filter_account, tx_in_account};
use crate::text::{to_chars, from_chars, push_all};

verus! {

/// The index key prefix for a bank transaction id: `fitid_` and the
/// account's identifier.
pub open spec fn fitid_key(acc: Seq<char>) -> Seq<char> {
    seq!['f', 'i', 't', 'i', 'd', '_'] + acc
}

/// What indexing one account's transactions leaves in the index: each
/// transaction with a bank id, oldest last, overwrites earlier entries for
/// the same id.
pub open spec fn fitid_fold(
    ix: Seq<(Seq<char>, Seq<char>, Seq<char>)>,
    ts: Seq<TransactionV>,
    acc: Seq<char>,
) -> Seq<(Seq<char>, Seq<char>, Seq<char>)>
    decreases ts.len(),
{
    if ts.len() == 0 {
        ix
    } else {
        let pre = fitid_fold(ix, ts.drop_last(), acc);
        let t = ts.last();
        if t.ofx_fitid.len() > 0 {
            spec_index_set(pre, skey_of("transactions"@, fitid_key(acc)), t.ofx_fitid, t.uuid)
        } else {
            pre
        }
    }
}

/// All transactions the store decodes, in reading order.
pub open spec fn all_txs(store: Storage) -> Seq<TransactionV> {
    decode_run(
        row_run(lines_of(store), section_pos(lines_of(store), "transactions"@) + 1),
        |u: Seq<char>, p: Seq<char>| row_decode::<Transaction>(u, p, store, true),
    )
}

/// Indexing every account in turn, first account first.
pub open spec fn import_fold(
    ix: Seq<(Seq<char>, Seq<char>, Seq<char>)>,
    accs: Seq<AccountV>,
    store: Storage,
) -> Seq<(Seq<char>, Seq<char>, Seq<char>)>
    decreases accs.len(),
{
    if accs.len() == 0 {
        ix
    } else {
        fitid_fold(
            import_fold(ix, accs.drop_last(), store),
            filter_account(all_txs(store), accs.last().uuid),
            accs.last().uuid,
        )
    }
}

/// The indexing pass over imported transactions.
pub struct Import {}

impl Import {
    /// Rebuilds the in-memory secondary index for imports: for every
    /// account, every stored transaction carrying a bank id is indexed
    /// under `fitid_` and the account, so that a later import of the same
    /// statement finds it.
    pub fn index(storage: &mut Storage)
        requires
            wf_store(*old(storage)),
        ensures
            ({
                let mid = Storage {
                    lines: final(storage).lines,
                    index: old(storage).index,
                };
                let accs = decode_run(
                    row_run(lines_of(mid), section_pos(lines_of(mid), "accounts"@) + 1),
                    |u: Seq<char>, p: Seq<char>| row_decode::<Account>(u, p, mid, true),
                );
                &&& wf_store(*final(storage))
                &&& has_section(lines_of(*final(storage)), "accounts"@)
                &&& has_section(lines_of(*final(storage)), "transactions"@)
                &&& ({
                    let lv0 = lines_of(*old(storage));
                    let lva = if has_section(lv0, "accounts"@) {
                        lv0
                    } else {
                        lv0 + seq![
                            LineV::Blank(Seq::<char>::empty()),
                            LineV::Marker("accounts"@),
                        ]
                    };
                    let lvb = if has_section(lva, "transactions"@) {
                        lva
                    } else {
                        lva + seq![
                            LineV::Blank(Seq::<char>::empty()),
                            LineV::Marker("transactions"@),
                        ]
                    };
                    lines_of(*final(storage)) == lvb
                })
                &&& index_of(*final(storage)) == import_fold(index_of(*old(storage)), accs, mid)
            }),
    {
        proof {
            reveal_strlit("transactions");
            reveal_strlit("accounts");
        }
        // the reading pass: sections first, then every account's rows
        storage.start_section("accounts".to_owned());
        let ghost lv1 = lines_of(*storage);
        storage.start_section("transactions".to_owned());
        proof {
            if !has_section(lv1, "transactions"@) {
                crate::storage::lemma_append_keeps_section(
                    lv1,
                    seq![LineV::Blank(Seq::<char>::empty()), LineV::Marker("transactions"@)],
                    "accounts"@,
                );
            }
        }
        let ghost pre_read = *storage;
        let accounts = Account::get_accounts(storage);
        proof {
            assert(has_section(lines_of(pre_read), "accounts"@));
            assert(*storage == pre_read);
            assert(has_section(lines_of(*storage), "transactions"@));
            crate::storage::lemma_first_marker(lines_of(*storage), "accounts"@, 0);
            crate::storage::lemma_first_marker(lines_of(*storage), "transactions"@, 0);
        }
        let ghost store0 = *storage;
        let ghost accs = accounts@.map_values(|a: Account| a@);
        let ghost ix0 = index_of(*storage);
        let n = accounts.len();
        let mut txss: Vec<Vec<Transaction>> = Vec::new();
        let mut k: usize = 0;
        while k < n
            invariant
                k <= n,
                n == accs.len(),
                accounts@.len() == n,
                wf_store(*storage),
                *storage == store0,
                has_section(lines_of(store0), "accounts"@),
                has_section(lines_of(store0), "transactions"@),
                forall|q: int| 0 <= q < n ==> (#[trigger] accounts@[q])@ == accs[q],
                txss@.len() == k,
                forall|q: int|
                    0 <= q < k ==> (#[trigger] txss@[q])@.map_values(|m: Transaction| m@)
                        == filter_account(all_txs(store0), accs[q].uuid),
            decreases n - k,
        {
            let txs = Transaction::get_transactions_simple(storage, accounts[k].duplicate());
            txss.push(txs);
            k += 1;
        }
        // the writing pass: one index entry per remembered bank id
        let ghost mid = store0;
        let mut k: usize = 0;
        while k < n
            invariant
                k <= n,
                n == accs.len(),
                accounts@.len() == n,
                txss@.len() == n,
                wf_store(*storage),
                storage.lines == store0.lines,
                lines_of(*storage) == lines_of(store0),
                mid == store0,
                has_section(lines_of(*storage), "accounts"@),
                has_section(lines_of(*storage), "transactions"@),
                forall|q: int| 0 <= q < n ==> (#[trigger] accounts@[q])@ == accs[q],
                forall|q: int|
                    0 <= q < n ==> (#[trigger] txss@[q])@.map_values(|m: Transaction| m@)
                        == filter_account(all_txs(store0), accs[q].uuid),
                index_of(*storage) == import_fold(ix0, accs.subrange(0, k as int), store0),
            decreases n - k,
        {
            let ghost av = accs[k as int];
            let ghost tss = filter_account(all_txs(store0), av.uuid);
            let skeysrc = build_fitid_key(accounts[k].uuid.as_str());
            let ghost ixpre = index_of(*storage);
            let m = txss[k].len();
            proof {
                assert(txss@[k as int]@.map_values(|t: Transaction| t@) == tss);
                assert(tss.len() == m);
            }
            let mut j: usize = 0;
            while j < m
                invariant
                    j <= m,
                    k < n,
                    txss@.len() == n,
                    txss@[k as int]@.len() == m,
                    tss.len() == m,
                    tss == filter_account(all_txs(store0), av.uuid),
                    skeysrc@ == fitid_key(av.uuid),
                    storage.lines == store0.lines,
                    lines_of(*storage) == lines_of(store0),
                    wf_store(*storage),
                    has_section(lines_of(*storage), "accounts"@),
                    has_section(lines_of(*storage), "transactions"@),
                    forall|q: int|
                        0 <= q < m ==> (#[trigger] txss@[k as int]@[q])@ == tss[q],
                    index_of(*storage) == fitid_fold(ixpre, tss.subrange(0, j as int), av.uuid),
                decreases m - j,
            {
                proof {
                    assert(tss.subrange(0, j as int + 1).drop_last() =~= tss.subrange(
                        0,
                        j as int,
                    ));
                    assert(tss.subrange(0, j as int + 1).last() == tss[j as int]);
                }
                let entry_fitid = txss[k][j].ofx_fitid.clone();
                let entry_uuid = txss[k][j].uuid.clone();
                if !entry_fitid.as_str().is_empty() {
                    storage.set_index(
                        "transactions".to_owned(),
                        skeysrc.clone(),
                        entry_fitid,
                        entry_uuid,
                    );
                    proof {
                        assert(skey_of("transactions"@, skeysrc@) == skey_of(
                            "transactions"@,
                            fitid_key(av.uuid),
                        ));
                    }
                }
                j += 1;
            }
            proof {
                assert(tss.subrange(0, m as int) =~= tss);
                assert(accs.subrange(0, k as int + 1).drop_last() =~= accs.subrange(0, k as int));
                assert(accs.subrange(0, k as int + 1).last() == accs[k as int]);
            }
            k += 1;
        }
        proof {
            assert(accs.subrange(0, n as int) =~= accs);
            let midv = Storage { lines: storage.lines, index: old(storage).index };
            assert(midv.lines == store0.lines && midv.index == store0.index);
            assert(midv == store0);
        }
    }
}

/// The index key text for an account's bank-id lookups.
fn build_fitid_key(acc: &str) -> (r: String)
    ensures
        r@ == fitid_key(acc@),
{
    let mut v: Vec<char> = vec!['f', 'i', 't', 'i', 'd', '_'];
    let ac = to_chars(acc);
    push_all(&mut v, ac.as_slice());
    proof {
        assert(v@ =~= fitid_key(acc@));
    }
    from_chars(&v)
}

/// A pending transaction handed in by a statement adapter: plain values
/// only, with the bank's own id for de-duplication.
pub struct PendingEntry {
    pub posted_at: Option<Date>,
    /// The amount in cents.
    pub amount: i64,
    /// The bank's transaction id.
    pub fitid: String,
    pub memo: String,
}

impl PendingEntry {
    /// The stored transaction this entry already has, found through the
    /// import index, if any.
    pub fn find_transaction_by_fitid(&self, storage: &Storage, account: &Account) -> (r: Option<
        Transaction,
    >)
        requires
            has_section(lines_of(*storage), "transactions"@),
        ensures
            ({
                let lv = lines_of(*storage);
                let hit = index_lookup(
                    index_of(*storage),
                    skey_of("transactions"@, fitid_key(account@.uuid)),
                    self.fitid@,
                );
                match hit {
                    None => r is None,
                    Some(u) => {
                        let pos = crate::storage::find_pos(lv, "transactions"@, u) + 1;
                        if pos < lv.len() {
                            match lv[pos] {
                                LineV::Row(u2, p2) => match row_decode::<Transaction>(
                                    u2,
                                    p2,
                                    *storage,
                                    true,
                                ) {
                                    Some(v) => r matches Some(t) && t@ == v && tx_wf(v),
                                    None => r is None,
                                },
                                _ => r is None,
                            }
                        } else {
                            r is None
                        }
                    },
                }
            }),
    {
        let mut data = storage.get_section_data("transactions".to_owned());
        let key = build_fitid_key(account.uuid.as_str());
        if data.find_by_index(storage, key, self.fitid.clone()) {
            match data.next::<Transaction>(storage) {
                Ok(t) => Some(t),
                Err(_) => None,
            }
        } else {
            None
        }
    }

    /// A transaction ready to store for this entry, or the one already
    /// stored under the same bank id for the account.
    pub fn build_transaction(&self, storage: &Storage, account: &Account) -> (r: Transaction)
        requires
            has_section(lines_of(*storage), "transactions"@),
        ensures
            ({
                let lv = lines_of(*storage);
                let hit = index_lookup(
                    index_of(*storage),
                    skey_of("transactions"@, fitid_key(account@.uuid)),
                    self.fitid@,
                );
                let fresh = {
                    &&& r@.uuid.len() == 0
                    &&& r@.account is None
                    &&& r@.contact is None
                    &&& r@.description == self.memo@
                    &&& r@.value == self.amount as int
                    &&& r@.deadline == self.posted_at
                    &&& r@.paid_in == self.posted_at
                    &&& r@.created_at.len() > 0
                    &&& r@.updated_at.len() == 0
                    &&& r@.transfer is None
                    &&& r@.tags.len() == 0
                    &&& r@.ofx_memo == self.memo@
                    &&& r@.ofx_fitid == self.fitid@
                    &&& r@.merged_in.len() == 0
                };
                match hit {
                    None => fresh,
                    Some(u) => {
                        let pos = crate::storage::find_pos(lv, "transactions"@, u) + 1;
                        if pos < lv.len() {
                            match lv[pos] {
                                LineV::Row(u2, p2) => match row_decode::<Transaction>(
                                    u2,
                                    p2,
                                    *storage,
                                    true,
                                ) {
                                    Some(v) => r@ == v && tx_wf(v),
                                    None => fresh,
                                },
                                _ => fresh,
                            }
                        } else {
                            fresh
                        }
                    },
                }
            }),
    {
        match self.find_transaction_by_fitid(storage, account) {
            Some(t) => t,
            None => Transaction {
                uuid: String::new(),
                account: None,
                contact: None,
                description: self.memo.clone(),
                value: self.amount,
                deadline: self.posted_at,
                paid_in: self.posted_at,
                created_at: crate::transactions::now_stamp(),
                updated_at: String::new(),
                transfer: None,
                tags: Vec::new(),
                observations: String::new(),
                ofx_memo: self.memo.clone(),
                ofx_fitid: self.fitid.clone(),
                merged_in: String::new(),
                previous_repetition: String::new(),
            },
        }
    }
}

} // verus!

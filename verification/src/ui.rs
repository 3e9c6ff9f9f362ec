//! Listing rows for display: each entity's records rendered as rows of
//! plain text cells. Printing them — as a table or as comma-separated
//! values — is the caller's business.

use vstd::prelude::*;
use crate::storage::{Storage, lines_of, index_of, wf_store, has_section, section_pos,
    short_id_of};
use crate::lines::LineV;
use crate::model::{row_decode, row_run, decode_run};
use crate::numtext::{MAX_CENTS, enc_money};
use crate::dates::enc_date;
use crate::text::{to_chars, from_chars};
use crate::accounts::{Account, AccountV, account_wf};
use crate::contacts::{Contact, ContactV, contact_wf};
use crate::tags::{Tag, TagV, tag_wf};
use crate::transactions::{Transaction, TransactionV, tx_wf};

verus! {

/// The display form of an identifier: its short projection when it is a
/// full identifier, the text itself otherwise.
pub open spec fn display_id(u: Seq<char>) -> Seq<char> {
    if u.len() == 36 {
        short_id_of(u)
    } else {
        u
    }
}

/// The display form of an identifier.
fn display_id_exec(u: &str) -> (r: String)
    ensures
        r@ == display_id(u@),
{
    let cs = to_chars(u);
    if cs.len() == 36 {
        let mut v: Vec<char> = Vec::new();
        v.push(cs.as_slice()[0]);
        v.push(cs.as_slice()[10]);
        v.push(cs.as_slice()[15]);
        v.push('-');
        v.push(cs.as_slice()[20]);
        v.push(cs.as_slice()[25]);
        v.push(cs.as_slice()[35]);
        proof {
            assert(v@ =~= short_id_of(u@));
        }
        from_chars(&v)
    } else {
        u.to_owned()
    }
}

/// An account's listing row: name, bank, opening balance with currency,
/// its date, and the short identifier.
pub open spec fn account_row(a: AccountV) -> Seq<Seq<char>> {
    seq![
        a.name,
        a.bank,
        a.currency + seq![' '] + enc_money(a.open_balance),
        enc_date(a.open_balance_date->Some_0),
        display_id(a.uuid),
    ]
}

/// A contact's listing row: name, city, short identifier.
pub open spec fn contact_row(c: ContactV) -> Seq<Seq<char>> {
    seq![c.name, c.city_location, display_id(c.uuid)]
}

/// A tag's listing row: name and short identifier.
pub open spec fn tag_row(t: TagV) -> Seq<Seq<char>> {
    seq![t.name, display_id(t.uuid)]
}

/// A transaction's listing row: description, value with currency, deadline,
/// payment state, and the short identifier.
pub open spec fn transaction_row(t: TransactionV) -> Seq<Seq<char>> {
    seq![
        t.description,
        t.account->Some_0.currency + seq![' '] + enc_money(t.value),
        enc_date(t.deadline->Some_0),
        match t.paid_in {
            None => "(payable)"@,
            Some(d) => enc_date(d),
        },
        display_id(t.uuid),
    ]
}

/// The account listing.
pub struct Accounts {}

impl Accounts {
    /// One text row per account, newest first.
    pub fn list(storage: &mut Storage) -> (r: Vec<Vec<String>>)
        requires
            wf_store(*old(storage)),
        ensures
            ({
                let lv = lines_of(*final(storage));
                let accs = decode_run(
                    row_run(lv, section_pos(lv, "accounts"@) + 1),
                    |u: Seq<char>, p: Seq<char>| row_decode::<Account>(
                        u,
                        p,
                        *final(storage),
                        true,
                    ),
                );
                &&& wf_store(*final(storage))
                &&& index_of(*final(storage)) == index_of(*old(storage))
                &&& final(storage).index == old(storage).index
                &&& has_section(lv, "accounts"@)
                &&& (has_section(lines_of(*old(storage)), "accounts"@) ==> *final(storage) == *old(
                    storage,
                ))
                &&& lv == (if has_section(lines_of(*old(storage)), "accounts"@) {
                    lines_of(*old(storage))
                } else {
                    lines_of(*old(storage)) + seq![
                        LineV::Blank(Seq::<char>::empty()),
                        LineV::Marker("accounts"@),
                    ]
                })
                &&& r@.len() == accs.len()
                &&& forall|i: int|
                    0 <= i < r@.len() ==> (#[trigger] r@[i])@.map_values(|x: String| x@)
                        == account_row(accs[i])
            }),
    {
        let accounts = Account::get_accounts(storage);
        let ghost accs = accounts@.map_values(|a: Account| a@);
        let mut rows: Vec<Vec<String>> = Vec::new();
        let n = accounts.len();
        let mut i: usize = 0;
        while i < n
            invariant
                i <= n,
                n == accounts@.len(),
                accs.len() == n,
                forall|q: int| 0 <= q < n ==> (#[trigger] accounts@[q])@ == accs[q],
                forall|q: int| 0 <= q < n ==> account_wf(#[trigger] accs[q]),
                rows@.len() == i,
                forall|q: int|
                    0 <= q < i ==> (#[trigger] rows@[q])@.map_values(|x: String| x@)
                        == account_row(accs[q]),
            decreases n - i,
        {
            let a = &accounts[i];
            let mut row: Vec<String> = Vec::new();
            row.push(a.name.clone());
            row.push(a.bank.clone());
            row.push(a.open_balance_formmated());
            let d = match a.open_balance_date {
                Some(d) => d,
                None => {
                    proof {
                        assert(false);
                    }
                    crate::dates::Date { year: 0, month: 1, day: 1 }
                },
            };
            row.push(from_chars(&crate::dates::date_to_chars(&d)));
            row.push(display_id_exec(a.uuid.as_str()));
            proof {
                assert(row@.map_values(|x: String| x@) =~= account_row(accs[i as int]));
            }
            rows.push(row);
            i += 1;
        }
        rows
    }
}

/// The contact listing.
pub struct Contacts {}

impl Contacts {
    /// One text row per contact, newest first.
    pub fn list(storage: &mut Storage) -> (r: Vec<Vec<String>>)
        requires
            wf_store(*old(storage)),
        ensures
            ({
                let lv = lines_of(*final(storage));
                let cs = decode_run(
                    row_run(lv, section_pos(lv, "contacts"@) + 1),
                    |u: Seq<char>, p: Seq<char>| row_decode::<Contact>(
                        u,
                        p,
                        *final(storage),
                        true,
                    ),
                );
                &&& wf_store(*final(storage))
                &&& index_of(*final(storage)) == index_of(*old(storage))
                &&& final(storage).index == old(storage).index
                &&& has_section(lv, "contacts"@)
                &&& (has_section(lines_of(*old(storage)), "contacts"@) ==> *final(storage) == *old(
                    storage,
                ))
                &&& lv == (if has_section(lines_of(*old(storage)), "contacts"@) {
                    lines_of(*old(storage))
                } else {
                    lines_of(*old(storage)) + seq![
                        LineV::Blank(Seq::<char>::empty()),
                        LineV::Marker("contacts"@),
                    ]
                })
                &&& r@.len() == cs.len()
                &&& forall|i: int|
                    0 <= i < r@.len() ==> (#[trigger] r@[i])@.map_values(|x: String| x@)
                        == contact_row(cs[i])
            }),
    {
        let contacts = Contact::get_contacts(storage);
        let ghost cs = contacts@.map_values(|c: Contact| c@);
        let mut rows: Vec<Vec<String>> = Vec::new();
        let n = contacts.len();
        let mut i: usize = 0;
        while i < n
            invariant
                i <= n,
                n == contacts@.len(),
                cs.len() == n,
                forall|q: int| 0 <= q < n ==> (#[trigger] contacts@[q])@ == cs[q],
                rows@.len() == i,
                forall|q: int|
                    0 <= q < i ==> (#[trigger] rows@[q])@.map_values(|x: String| x@)
                        == contact_row(cs[q]),
            decreases n - i,
        {
            let c = &contacts[i];
            let mut row: Vec<String> = Vec::new();
            row.push(c.name.clone());
            row.push(c.city_location.clone());
            row.push(display_id_exec(c.uuid.as_str()));
            proof {
                assert(row@.map_values(|x: String| x@) =~= contact_row(cs[i as int]));
            }
            rows.push(row);
            i += 1;
        }
        rows
    }
}

/// The tag listing.
pub struct Tags {}

impl Tags {
    /// One text row per tag, newest first.
    pub fn list(storage: &mut Storage) -> (r: Vec<Vec<String>>)
        requires
            wf_store(*old(storage)),
        ensures
            ({
                let lv = lines_of(*final(storage));
                let ts = decode_run(
                    row_run(lv, section_pos(lv, "tags"@) + 1),
                    |u: Seq<char>, p: Seq<char>| row_decode::<Tag>(u, p, *final(storage), true),
                );
                &&& wf_store(*final(storage))
                &&& index_of(*final(storage)) == index_of(*old(storage))
                &&& final(storage).index == old(storage).index
                &&& has_section(lv, "tags"@)
                &&& (has_section(lines_of(*old(storage)), "tags"@) ==> *final(storage) == *old(
                    storage,
                ))
                &&& lv == (if has_section(lines_of(*old(storage)), "tags"@) {
                    lines_of(*old(storage))
                } else {
                    lines_of(*old(storage)) + seq![
                        LineV::Blank(Seq::<char>::empty()),
                        LineV::Marker("tags"@),
                    ]
                })
                &&& r@.len() == ts.len()
                &&& forall|i: int|
                    0 <= i < r@.len() ==> (#[trigger] r@[i])@.map_values(|x: String| x@)
                        == tag_row(ts[i])
            }),
    {
        let tags = Tag::get_tags(storage);
        let ghost ts = tags@.map_values(|t: Tag| t@);
        let mut rows: Vec<Vec<String>> = Vec::new();
        let n = tags.len();
        let mut i: usize = 0;
        while i < n
            invariant
                i <= n,
                n == tags@.len(),
                ts.len() == n,
                forall|q: int| 0 <= q < n ==> (#[trigger] tags@[q])@ == ts[q],
                rows@.len() == i,
                forall|q: int|
                    0 <= q < i ==> (#[trigger] rows@[q])@.map_values(|x: String| x@)
                        == tag_row(ts[q]),
            decreases n - i,
        {
            let t = &tags[i];
            let mut row: Vec<String> = Vec::new();
            row.push(t.name.clone());
            row.push(display_id_exec(t.uuid.as_str()));
            proof {
                assert(row@.map_values(|x: String| x@) =~= tag_row(ts[i as int]));
            }
            rows.push(row);
            i += 1;
        }
        rows
    }
}

/// The transaction listing.
pub struct Transactions {}

impl Transactions {
    /// One text row per transaction of the listing, in the listing's order.
    pub fn list(list: &Vec<Transaction>) -> (r: Vec<Vec<String>>)
        requires
            forall|k: int| 0 <= k < list@.len() ==> tx_wf((#[trigger] list@[k])@),
        ensures
            r@.len() == list@.len(),
            forall|i: int|
                0 <= i < r@.len() ==> (#[trigger] r@[i])@.map_values(|x: String| x@)
                    == transaction_row(list@[i]@),
    {
        let mut rows: Vec<Vec<String>> = Vec::new();
        let n = list.len();
        let mut i: usize = 0;
        while i < n
            invariant
                i <= n,
                n == list@.len(),
                forall|k: int| 0 <= k < n ==> tx_wf((#[trigger] list@[k])@),
                rows@.len() == i,
                forall|q: int|
                    0 <= q < i ==> (#[trigger] rows@[q])@.map_values(|x: String| x@)
                        == transaction_row(list@[q]@),
            decreases n - i,
        {
            let t = &list[i];
            let mut row: Vec<String> = Vec::new();
            row.push(t.description.clone());
            row.push(t.value_formmated());
            let d = match t.deadline {
                Some(d) => d,
                None => {
                    proof {
                        assert(false);
                    }
                    crate::dates::Date { year: 0, month: 1, day: 1 }
                },
            };
            row.push(from_chars(&crate::dates::date_to_chars(&d)));
            row.push(t.paid_in_formmated());
            row.push(display_id_exec(t.uuid.as_str()));
            proof {
                assert(row@.map_values(|x: String| x@) =~= transaction_row(list@[i as int]@));
            }
            rows.push(row);
            i += 1;
        }
        rows
    }
}

} // verus!

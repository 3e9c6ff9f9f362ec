//! Bank accounts: name, bank, opening balance and currency.

use vstd::prelude::*;
use crate::model::{Model, row_decode, row_run, decode_run};
use crate::payload::{Payload, PayloadV, PValue, ValV, spec_get, wf_payload, enc_payload};
use crate::storage::{
    Storage, Data, StoreError, lines_of, index_of, wf_store, has_section, section_pos, find_found,
    find_pos, scan_all, short_id_of,
};
use crate::lines::{LineV, wf_uuid, uuid_ok};
use crate::dates::{Date, wf_date, enc_date, spec_parse_date, parse_date, date_to_chars};
use crate::numtext::{MAX_CENTS, enc_money, money_to_chars};
use crate::text::{to_chars, from_chars};

verus! {

/// A bank account. The opening balance is a count of cents.
#[derive(Clone, Debug)]
pub struct Account {
    pub uuid: String,
    pub bank: String,
    pub name: String,
    pub open_balance: i64,
    pub open_balance_date: Option<Date>,
    pub currency: String,
}

/// The mathematical shape of an account.
pub struct AccountV {
    pub uuid: Seq<char>,
    pub bank: Seq<char>,
    pub name: Seq<char>,
    pub open_balance: int,
    pub open_balance_date: Option<Date>,
    pub currency: Seq<char>,
}

impl View for Account {
    type V = AccountV;

    open spec fn view(&self) -> AccountV {
        AccountV {
            uuid: self.uuid@,
            bank: self.bank@,
            name: self.name@,
            open_balance: self.open_balance as int,
            open_balance_date: self.open_balance_date,
            currency: self.currency@,
        }
    }
}

/// An account the store accepts: a dated opening balance within range,
/// under an empty or well-formed identifier.
pub open spec fn account_wf(v: AccountV) -> bool {
    &&& v.uuid.len() == 0 || wf_uuid(v.uuid)
    &&& -MAX_CENTS <= v.open_balance <= MAX_CENTS
    &&& v.open_balance_date matches Some(d) && wf_date(d)
}

/// Decoding an account row: all five fields are required, and the date
/// must exist in the calendar.
pub open spec fn account_decode(row: PayloadV, uuid: Seq<char>) -> Option<AccountV> {
    if uuid.len() == 0 || wf_uuid(uuid) {
        match (
            spec_get(row, "bank"@),
            spec_get(row, "name"@),
            spec_get(row, "open_balance"@),
            spec_get(row, "open_balance_date"@),
            spec_get(row, "currency"@),
        ) {
            (
                Some(ValV::Text(b)),
                Some(ValV::Text(n)),
                Some(ValV::Amount(ob)),
                Some(ValV::Text(dt)),
                Some(ValV::Text(c)),
            ) => {
                if -MAX_CENTS <= ob <= MAX_CENTS {
                    match spec_parse_date(dt) {
                        Some(d) => Some(
                            AccountV {
                                uuid: uuid,
                                bank: b,
                                name: n,
                                open_balance: ob,
                                open_balance_date: Some(d),
                                currency: c,
                            },
                        ),
                        None => None,
                    }
                } else {
                    None
                }
            },
            _ => None,
        }
    } else {
        None
    }
}

/// Encoding an account.
pub open spec fn account_enc(v: AccountV) -> (Seq<char>, bool, PayloadV) {
    (
        v.uuid,
        v.uuid.len() == 0,
        seq![
            ("bank"@, ValV::Text(v.bank)),
            ("name"@, ValV::Text(v.name)),
            ("open_balance"@, ValV::Amount(v.open_balance)),
            ("open_balance_date"@, ValV::Text(enc_date(v.open_balance_date->Some_0))),
            ("currency"@, ValV::Text(v.currency)),
        ],
    )
}

impl Model for Account {
    open spec fn wf(self) -> bool {
        account_wf(self@)
    }

    open spec fn decode_spec(row: PayloadV, uuid: Seq<char>, store: Storage, can_recursive: bool) -> Option<AccountV> {
        account_decode(row, uuid)
    }

    open spec fn enc_spec(v: AccountV) -> (Seq<char>, bool, PayloadV) {
        account_enc(v)
    }

    fn new(row: Payload, uuid: String, _storage: &Storage, _can_recursive: bool) -> (r: Result<
        Account,
        StoreError,
    >) {
        if !uuid_ok(uuid.as_str()) {
            return Err(StoreError::Malformed);
        }
        let bank = match row.get("bank") {
            Some(PValue::Text(b)) => b.clone(),
            Some(_) => {
                return Err(StoreError::Malformed);
            },
            None => {
                return Err(StoreError::MissingField);
            },
        };
        let name = match row.get("name") {
            Some(PValue::Text(n)) => n.clone(),
            Some(_) => {
                return Err(StoreError::Malformed);
            },
            None => {
                return Err(StoreError::MissingField);
            },
        };
        let open_balance = match row.get("open_balance") {
            Some(PValue::Amount(m)) => *m,
            Some(_) => {
                return Err(StoreError::Malformed);
            },
            None => {
                return Err(StoreError::MissingField);
            },
        };
        if open_balance < -MAX_CENTS || open_balance > MAX_CENTS {
            return Err(StoreError::Malformed);
        }
        let date_text = match row.get("open_balance_date") {
            Some(PValue::Text(d)) => d.clone(),
            Some(_) => {
                return Err(StoreError::Malformed);
            },
            None => {
                return Err(StoreError::MissingField);
            },
        };
        let dc = to_chars(date_text.as_str());
        let date = match parse_date(dc.as_slice()) {
            Some(d) => d,
            None => {
                return Err(StoreError::Malformed);
            },
        };
        match row.get("currency") {
            Some(PValue::Text(c)) => Ok(
                Account {
                    uuid,
                    bank,
                    name,
                    open_balance,
                    open_balance_date: Some(date),
                    currency: c.clone(),
                },
            ),
            Some(_) => Err(StoreError::Malformed),
            None => Err(StoreError::MissingField),
        }
    }

    fn to_save(self) -> (r: (String, bool, Payload)) {
        let is_new = self.uuid.as_str().is_empty();
        let d = match self.open_balance_date {
            Some(d) => d,
            None => {
                proof {
                    assert(false);
                }
                Date { year: 0, month: 1, day: 1 }
            },
        };
        let mut p = Payload::new();
        let ghost bv = self.bank@;
        let ghost nv = self.name@;
        let ghost cv = self.currency@;
        p.add_text("bank", self.bank);
        p.add_text("name", self.name);
        p.add_amount("open_balance", self.open_balance);
        let dt = from_chars(&date_to_chars(&d));
        p.add_text("open_balance_date", dt);
        p.add_text("currency", self.currency);
        proof {
            assert(p@ =~= account_enc(self@).2);
            assert forall|i: int| 0 <= i < p@.len() implies crate::payload::wf_val(
                #[trigger] p@[i].1,
            ) by {
                if i == 2 {
                    assert(p@[i].1 == ValV::Amount(self.open_balance as int));
                } else if i == 0 {
                    assert(p@[i].1 == ValV::Text(bv));
                } else if i == 1 {
                    assert(p@[i].1 == ValV::Text(nv));
                } else if i == 3 {
                    assert(p@[i].1 == ValV::Text(enc_date(d)));
                } else {
                    assert(p@[i].1 == ValV::Text(cv));
                }
            }
        }
        (self.uuid, is_new, p)
    }
}

/// Writing an account out and reading it back yields the account, under
/// whatever identifier the store assigned.
pub proof fn lemma_account_round_trip(v: AccountV, assigned: Seq<char>)
    requires
        account_wf(v),
        assigned.len() == 0 || wf_uuid(assigned),
    ensures
        ({
            let e = account_enc(v);
            &&& crate::payload::spec_parse_payload(enc_payload(e.2)) == Some(e.2)
            &&& account_decode(e.2, assigned) == Some(AccountV { uuid: assigned, ..v })
        }),
{
    let e = account_enc(v);
    let p = e.2;
    let d = v.open_balance_date->Some_0;
    assert(wf_payload(p)) by {
        assert forall|i: int| 0 <= i < p.len() implies crate::payload::wf_val(
            #[trigger] p[i].1,
        ) by {
            if i == 2 {
                assert(p[i].1 == ValV::Amount(v.open_balance));
            } else if i == 0 {
                assert(p[i].1 == ValV::Text(v.bank));
            } else if i == 1 {
                assert(p[i].1 == ValV::Text(v.name));
            } else if i == 3 {
                assert(p[i].1 == ValV::Text(enc_date(d)));
            } else {
                assert(p[i].1 == ValV::Text(v.currency));
            }
        }
    }
    crate::payload::lemma_parse_payload_enc(p);
    reveal_strlit("bank");
    reveal_strlit("name");
    reveal_strlit("open_balance");
    reveal_strlit("open_balance_date");
    reveal_strlit("currency");
    assert("bank"@.len() == 4 && "name"@.len() == 4 && "open_balance"@.len() == 12
        && "open_balance_date"@.len() == 17 && "currency"@.len() == 8);
    assert("bank"@[0] == 'b' && "name"@[0] == 'n');
    assert("bank"@ != "name"@);
    let p1 = p.drop_first();
    let p2 = p1.drop_first();
    let p3 = p2.drop_first();
    let p4 = p3.drop_first();
    assert(p1 =~= seq![
        ("name"@, ValV::Text(v.name)),
        ("open_balance"@, ValV::Amount(v.open_balance)),
        ("open_balance_date"@, ValV::Text(enc_date(d))),
        ("currency"@, ValV::Text(v.currency)),
    ]);
    assert(p2 =~= seq![
        ("open_balance"@, ValV::Amount(v.open_balance)),
        ("open_balance_date"@, ValV::Text(enc_date(d))),
        ("currency"@, ValV::Text(v.currency)),
    ]);
    assert(p3 =~= seq![
        ("open_balance_date"@, ValV::Text(enc_date(d))),
        ("currency"@, ValV::Text(v.currency)),
    ]);
    assert(p4 =~= seq![("currency"@, ValV::Text(v.currency))]);
    assert(spec_get(p, "bank"@) == Some(ValV::Text(v.bank)));
    assert(spec_get(p1, "name"@) == Some(ValV::Text(v.name)));
    assert(spec_get(p, "name"@) == Some(ValV::Text(v.name)));
    assert(spec_get(p2, "open_balance"@) == Some(ValV::Amount(v.open_balance)));
    assert(spec_get(p1, "open_balance"@) == Some(ValV::Amount(v.open_balance)));
    assert(spec_get(p, "open_balance"@) == Some(ValV::Amount(v.open_balance)));
    assert(spec_get(p3, "open_balance_date"@) == Some(ValV::Text(enc_date(d))));
    assert(spec_get(p2, "open_balance_date"@) == Some(ValV::Text(enc_date(d))));
    assert(spec_get(p1, "open_balance_date"@) == Some(ValV::Text(enc_date(d))));
    assert(spec_get(p, "open_balance_date"@) == Some(ValV::Text(enc_date(d))));
    assert(spec_get(p4, "currency"@) == Some(ValV::Text(v.currency)));
    assert(spec_get(p3, "currency"@) == Some(ValV::Text(v.currency)));
    assert(spec_get(p2, "currency"@) == Some(ValV::Text(v.currency)));
    assert(spec_get(p1, "currency"@) == Some(ValV::Text(v.currency)));
    assert(spec_get(p, "currency"@) == Some(ValV::Text(v.currency)));
    crate::dates::lemma_parse_date_enc(d);
    assert(account_decode(p, assigned) == Some(AccountV { uuid: assigned, ..v }));
}

impl Account {
    /// The opening balance with the account's currency in front.
    pub fn open_balance_formmated(&self) -> (r: String)
        requires
            -MAX_CENTS <= self.open_balance <= MAX_CENTS,
        ensures
            r@ == self.currency@ + seq![' '] + enc_money(self.open_balance as int),
    {
        self.format_value(self.open_balance)
    }

    /// A money amount with the account's currency in front.
    pub fn format_value(&self, value: i64) -> (r: String)
        requires
            -MAX_CENTS <= value <= MAX_CENTS,
        ensures
            r@ == self.currency@ + seq![' '] + enc_money(value as int),
    {
        let mut v = to_chars(self.currency.as_str());
        v.push(' ');
        let m = money_to_chars(value);
        crate::text::push_all(&mut v, m.as_slice());
        proof {
            assert(v@ =~= self.currency@ + seq![' '] + enc_money(value as int));
        }
        from_chars(&v)
    }

    /// The short display form of this account's identifier.
    pub fn id(self) -> (r: String)
        requires
            self.uuid@.len() >= 36,
        ensures
            r@ == short_id_of(self.uuid@),
    {
        Data::uuid_to_id(self.uuid)
    }

    /// All accounts, newest first.
    pub fn get_accounts(storage: &mut Storage) -> (r: Vec<Account>)
        requires
            wf_store(*old(storage)),
        ensures
            ({
                let lv = lines_of(*final(storage));
                &&& wf_store(*final(storage))
                &&& index_of(*final(storage)) == index_of(*old(storage))
                &&& final(storage).index == old(storage).index
                &&& has_section(lv, "accounts"@)
                &&& (has_section(lines_of(*old(storage)), "accounts"@) ==> *final(storage)
                    == *old(storage))
                &&& if has_section(lines_of(*old(storage)), "accounts"@) {
                    lv == lines_of(*old(storage))
                } else {
                    lv == lines_of(*old(storage)) + seq![
                        LineV::Blank(Seq::<char>::empty()),
                        LineV::Marker("accounts"@),
                    ]
                }
                &&& r@.map_values(|m: Account| m@) == decode_run(
                    row_run(lv, section_pos(lv, "accounts"@) + 1),
                    |u: Seq<char>, p: Seq<char>| row_decode::<Account>(
                        u,
                        p,
                        *final(storage),
                        true,
                    ),
                )
                &&& forall|i: int| 0 <= i < r@.len() ==> account_wf((#[trigger] r@[i])@)
            }),
    {
        proof {
            reveal_strlit("accounts");
        }
        storage.start_section("accounts".to_owned());
        let mut data = storage.get_section_data("accounts".to_owned());
        proof {
            crate::storage::lemma_first_marker(lines_of(*storage), "accounts"@, 0);
        }
        data.read_all::<Account>(storage)
    }

    /// The account of an identifier (full or short form), if it exists.
    pub fn get_account(storage: &mut Storage, uuid: String) -> (r: Result<Account, StoreError>)
        requires
            wf_store(*old(storage)),
        ensures
            wf_store(*final(storage)),
            index_of(*final(storage)) == index_of(*old(storage)),
            final(storage).index == old(storage).index,
            has_section(lines_of(*final(storage)), "accounts"@),
            has_section(lines_of(*old(storage)), "accounts"@) ==> *final(storage) == *old(
                storage,
            ),
            ({
                let lv = lines_of(*final(storage));
                &&& if has_section(lines_of(*old(storage)), "accounts"@) {
                    lv == lines_of(*old(storage))
                } else {
                    lv == lines_of(*old(storage)) + seq![
                        LineV::Blank(Seq::<char>::empty()),
                        LineV::Marker("accounts"@),
                    ]
                }
                &&& if find_found(lv, "accounts"@, uuid@) {
                    match lv[find_pos(lv, "accounts"@, uuid@) + 1] {
                        LineV::Row(u, p) => match row_decode::<Account>(
                            u,
                            p,
                            *final(storage),
                            true,
                        ) {
                            Some(v) => r matches Ok(m) && m@ == v && account_wf(m@),
                            None => r matches Err(_),
                        },
                        _ => r matches Err(_),
                    }
                } else {
                    r matches Err(e) && e == StoreError::NotFound
                }
            }),
    {
        proof {
            reveal_strlit("accounts");
        }
        storage.start_section("accounts".to_owned());
        let mut data = storage.get_section_data("accounts".to_owned());
        data.find_one::<Account>(storage, uuid.as_str())
    }

    /// Saves an account.
    pub fn store_account(storage: &mut Storage, account: Account)
        requires
            wf_store(*old(storage)),
            account_wf(account@),
        ensures
            ({
                let lv0 = lines_of(*old(storage));
                let lv = if has_section(lv0, "accounts"@) {
                    lv0
                } else {
                    lv0 + seq![LineV::Blank(Seq::<char>::empty()), LineV::Marker("accounts"@)]
                };
                let e = account_enc(account@);
                let text = enc_payload(e.2);
                &&& wf_store(*final(storage))
                &&& index_of(*final(storage)) == index_of(*old(storage))
                &&& if e.1 {
                    exists|u: Seq<char>|
                        wf_uuid(u) && lines_of(*final(storage)) == lv.insert(
                            section_pos(lv, "accounts"@) + 1,
                            LineV::Row(u, text),
                        )
                } else {
                    match scan_all(lv, 0, e.0) {
                        Some(j) => lines_of(*final(storage)) == lv.update(
                            j,
                            LineV::Row(e.0, text),
                        ),
                        None => lines_of(*final(storage)) == lv,
                    }
                }
            }),
    {
        proof {
            reveal_strlit("accounts");
        }
        storage.start_section("accounts".to_owned());
        let mut data = storage.get_section_data("accounts".to_owned());
        let u = data.save::<Account>(storage, account);
        proof {
            if account_enc(account@).1 {
                assert(wf_uuid(u@));
            }
        }
    }

    /// Removes the row of an identifier, anywhere in the file.
    pub fn remove_account(storage: &mut Storage, uuid: String)
        requires
            wf_store(*old(storage)),
        ensures
            ({
                let lv0 = lines_of(*old(storage));
                let lv = if has_section(lv0, "accounts"@) {
                    lv0
                } else {
                    lv0 + seq![LineV::Blank(Seq::<char>::empty()), LineV::Marker("accounts"@)]
                };
                &&& wf_store(*final(storage))
                &&& index_of(*final(storage)) == index_of(*old(storage))
                &&& match scan_all(lv, 0, uuid@) {
                    Some(j) => lines_of(*final(storage)) == lv.remove(j),
                    None => lines_of(*final(storage)) == lv,
                }
            }),
    {
        proof {
            reveal_strlit("accounts");
        }
        storage.start_section("accounts".to_owned());
        let data = storage.get_section_data("accounts".to_owned());
        data.remove_by_id(storage, uuid.as_str());
    }
}

impl Account {
    /// A field-by-field copy with the same mathematical value.
    pub fn duplicate(&self) -> (r: Account)
        ensures
            r@ == self@,
    {
        Account {
            uuid: self.uuid.clone(),
            bank: self.bank.clone(),
            name: self.name.clone(),
            open_balance: self.open_balance,
            open_balance_date: self.open_balance_date,
            currency: self.currency.clone(),
        }
    }
}

} // verus!

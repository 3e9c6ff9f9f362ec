//! Monthly forecast budgets: a target amount per tag and account, and the
//! placeholder rows that show how much of each target remains.

use vstd::prelude::*;
use crate::model::{Model, row_decode, row_run, decode_run};
use crate::payload::{Payload, PayloadV, PValue, ValV, spec_get, wf_payload, enc_payload};
use crate::storage::{
    Storage, Data, StoreError, lines_of, index_of, wf_store, has_section, section_pos, find_found,
    find_pos, scan_all, short_id_of,
};
use crate::lines::{LineV, wf_uuid, uuid_ok};
use crate::dates::Date;
use crate::numtext::{MAX_CENTS, enc_money, money_to_chars, digits_of, u64_digits};
use crate::text::{to_chars, from_chars, push_all};
use crate::accounts::{Account, AccountV};
use crate::tags::{Tag, TagV};
use crate::transactions::{Transaction, TransactionV, tx_view, text_field, spec_lookup_account,
    spec_lookup_tag, now_stamp};

verus! {

/// A forecast: a target amount for one tag on one account.
#[derive(Debug)]
pub struct Forecast {
    pub uuid: String,
    pub account: Option<Account>,
    pub tag: Option<Tag>,
    /// The target amount in cents.
    pub value: i64,
}

/// The mathematical shape of a forecast.
pub struct ForecastV {
    pub uuid: Seq<char>,
    pub account: Option<AccountV>,
    pub tag: Option<TagV>,
    pub value: int,
}

impl View for Forecast {
    type V = ForecastV;

    open spec fn view(&self) -> ForecastV {
        ForecastV {
            uuid: self.uuid@,
            account: match self.account {
                Some(a) => Some(a@),
                None => None,
            },
            tag: match self.tag {
                Some(t) => Some(t@),
                None => None,
            },
            value: self.value as int,
        }
    }
}

/// A forecast the store accepts: a tag and an account present, the target
/// in range.
pub open spec fn forecast_wf(v: ForecastV) -> bool {
    &&& v.uuid.len() == 0 || wf_uuid(v.uuid)
    &&& -MAX_CENTS <= v.value <= MAX_CENTS
    &&& v.tag is Some
    &&& v.account is Some
}

/// Decoding a forecast row: `tag`, `account` and `value` are required, and
/// both references must resolve.
pub open spec fn forecast_decode(row: PayloadV, uuid: Seq<char>, lv: Seq<LineV>) -> Option<
    ForecastV,
> {
    if uuid.len() == 0 || wf_uuid(uuid) {
        match (spec_get(row, "tag"@), spec_get(row, "account"@), spec_get(row, "value"@)) {
            (Some(ValV::Text(tid)), Some(ValV::Text(aid)), Some(ValV::Amount(value))) => {
                if -MAX_CENTS <= value <= MAX_CENTS {
                    match (spec_lookup_tag(lv, tid), spec_lookup_account(lv, aid)) {
                        (Some(tag), Some(acc)) => Some(
                            ForecastV {
                                uuid: uuid,
                                account: Some(acc),
                                tag: Some(tag),
                                value: value,
                            },
                        ),
                        _ => None,
                    }
                } else {
                    None
                }
            },
            _ => None,
        }
    } else {
        None
    }
}

/// Encoding a forecast.
pub open spec fn forecast_enc(v: ForecastV) -> (Seq<char>, bool, PayloadV) {
    (
        v.uuid,
        v.uuid.len() == 0,
        seq![
            ("tag"@, ValV::Text(v.tag->Some_0.uuid)),
            ("account"@, ValV::Text(v.account->Some_0.uuid)),
            ("value"@, ValV::Amount(v.value)),
        ],
    )
}

impl Model for Forecast {
    open spec fn wf(self) -> bool {
        forecast_wf(self@)
    }

    open spec fn decode_spec(row: PayloadV, uuid: Seq<char>, store: Storage, can_recursive: bool) -> Option<ForecastV> {
        forecast_decode(row, uuid, lines_of(store))
    }

    open spec fn enc_spec(v: ForecastV) -> (Seq<char>, bool, PayloadV) {
        forecast_enc(v)
    }

    fn new(row: Payload, uuid: String, storage: &Storage, _can_recursive: bool) -> (r: Result<
        Forecast,
        StoreError,
    >) {
        if !uuid_ok(uuid.as_str()) {
            return Err(StoreError::Malformed);
        }
        let tid = match row.get("tag") {
            Some(PValue::Text(t)) => t.clone(),
            Some(_) => {
                return Err(StoreError::Malformed);
            },
            None => {
                return Err(StoreError::MissingField);
            },
        };
        let aid = match row.get("account") {
            Some(PValue::Text(a)) => a.clone(),
            Some(_) => {
                return Err(StoreError::Malformed);
            },
            None => {
                return Err(StoreError::MissingField);
            },
        };
        let value = match row.get("value") {
            Some(PValue::Amount(m)) => *m,
            Some(_) => {
                return Err(StoreError::Malformed);
            },
            None => {
                return Err(StoreError::MissingField);
            },
        };
        if value < -MAX_CENTS || value > MAX_CENTS {
            return Err(StoreError::Malformed);
        }
        let tag = match crate::transactions::lookup_tag(storage, tid.as_str()) {
            Some(t) => t,
            None => {
                return Err(StoreError::NotFound);
            },
        };
        let account = match crate::transactions::lookup_account(storage, aid.as_str()) {
            Some(a) => a,
            None => {
                return Err(StoreError::NotFound);
            },
        };
        Ok(Forecast { uuid, account: Some(account), tag: Some(tag), value })
    }

    fn to_save(self) -> (r: (String, bool, Payload)) {
        let ghost vv = self@;
        let is_new = self.uuid.as_str().is_empty();
        let tag = match self.tag {
            Some(t) => t,
            None => {
                proof {
                    assert(false);
                }
                Tag { uuid: String::new(), name: String::new() }
            },
        };
        let account = match self.account {
            Some(a) => a,
            None => {
                proof {
                    assert(false);
                }
                Account {
                    uuid: String::new(),
                    bank: String::new(),
                    name: String::new(),
                    open_balance: 0,
                    open_balance_date: None,
                    currency: String::new(),
                }
            },
        };
        let mut p = Payload::new();
        p.add_text("tag", tag.uuid);
        p.add_text("account", account.uuid);
        p.add_amount("value", self.value);
        proof {
            assert(p@ =~= forecast_enc(vv).2);
            assert forall|i: int| 0 <= i < p@.len() implies crate::payload::wf_val(
                #[trigger] p@[i].1,
            ) by {
                let q = forecast_enc(vv).2;
                match q[i].1 {
                    ValV::Amount(m) => {
                        assert(m == vv.value);
                    },
                    _ => {},
                }
            }
        }
        (self.uuid, is_new, p)
    }
}

/// The transaction carries the tag with this identifier.
pub open spec fn tag_in(t: TransactionV, tag: Seq<char>) -> bool {
    exists|i: int| 0 <= i < t.tags.len() && (#[trigger] t.tags[i]).uuid == tag
}

/// The sum, in cents, of the transactions carrying the tag.
pub open spec fn tag_sum(ts: Seq<TransactionV>, tag: Seq<char>) -> int
    decreases ts.len(),
{
    if ts.len() == 0 {
        0
    } else {
        tag_sum(ts.drop_last(), tag) + if tag_in(ts.last(), tag) {
            ts.last().value
        } else {
            0
        }
    }
}

/// A sum brought back into the money range, for display.
pub open spec fn sat_cents(a: int) -> int {
    if a > MAX_CENTS {
        MAX_CENTS as int
    } else if a < -MAX_CENTS {
        -MAX_CENTS as int
    } else {
        a
    }
}

/// The attained percentage, truncated toward zero; zero when the target
/// is zero.
pub open spec fn pct_of(a: int, v: int) -> int {
    if v == 0 {
        0
    } else {
        let am = if a < 0 {
            -a
        } else {
            a
        };
        let vm = if v < 0 {
            -v
        } else {
            v
        };
        let m = (am * 100) / vm;
        if a != 0 && ((a < 0) != (v < 0)) {
            -m
        } else {
            m
        }
    }
}

/// A whole number written in decimal, with its sign.
pub open spec fn enc_int(p: int) -> Seq<char> {
    if p < 0 {
        seq!['-'] + digits_of((-p) as nat)
    } else {
        digits_of(p as nat)
    }
}

/// The placeholder row's text: tag, attained of target, and the
/// percentage.
pub open spec fn remaining_desc(f: ForecastV, sat: int) -> Seq<char> {
    let cur = f.account->Some_0.currency;
    f.tag->Some_0.name + seq![':', ' '] + cur + seq![' '] + enc_money(sat) + seq![
        ' ',
        'o',
        'f',
        ' ',
    ] + cur + seq![' '] + enc_money(f.value) + seq![' ', '('] + enc_int(pct_of(sat, f.value))
        + seq!['%', ')']
}

/// What remains of the target once the attained sum is taken off; zero
/// once the target is crossed.
pub open spec fn remaining_value(f: ForecastV, sat: int) -> int {
    let rem = f.value - sat;
    if (f.value < 0 && rem > 0) || (f.value >= 0 && rem < 0) {
        0
    } else {
        rem
    }
}

/// The placeholder transaction a forecast yields: never persisted (its
/// identifier is the zero identifier), carrying the remaining amount and
/// the display text, due at the period's end.
pub open spec fn remaining_matches(t: TransactionV, f: ForecastV, sat: int, end: Date) -> bool {
    &&& t.uuid == "00000000-0000-0000-0000-000000000000"@
    &&& t.description == remaining_desc(f, sat)
    &&& t.value == remaining_value(f, sat)
    &&& t.account == Some(f.account->Some_0)
    &&& (t.contact matches Some(c) && c.uuid.len() == 0 && c.name == "Remaining"@
        && c.city_location == "Remaining"@)
    &&& t.deadline == Some(end)
    &&& t.paid_in is None
    &&& t.transfer is None
    &&& t.tags.len() == 0
    &&& t.created_at.len() > 0
    &&& t.updated_at.len() == 0
    &&& t.observations.len() == 0
    &&& t.ofx_memo.len() == 0
    &&& t.ofx_fitid.len() == 0
    &&& t.merged_in.len() == 0
    &&& t.previous_repetition.len() == 0
}

impl Forecast {
    /// The short display form of this forecast's identifier.
    pub fn id(self) -> (r: String)
        requires
            self.uuid@.len() >= 36,
        ensures
            r@ == short_id_of(self.uuid@),
    {
        Data::uuid_to_id(self.uuid)
    }

    /// All forecasts, newest first.
    pub fn get_forecasts(storage: &mut Storage) -> (r: Vec<Forecast>)
        requires
            wf_store(*old(storage)),
        ensures
            ({
                let lv = lines_of(*final(storage));
                &&& wf_store(*final(storage))
                &&& index_of(*final(storage)) == index_of(*old(storage))
                &&& final(storage).index == old(storage).index
                &&& has_section(lv, "forecasts"@)
                &&& (has_section(lines_of(*old(storage)), "forecasts"@) ==> *final(storage)
                    == *old(storage))
                &&& if has_section(lines_of(*old(storage)), "forecasts"@) {
                    lv == lines_of(*old(storage))
                } else {
                    lv == lines_of(*old(storage)) + seq![
                        LineV::Blank(Seq::<char>::empty()),
                        LineV::Marker("forecasts"@),
                    ]
                }
                &&& r@.map_values(|m: Forecast| m@) == decode_run(
                    row_run(lv, section_pos(lv, "forecasts"@) + 1),
                    |u: Seq<char>, p: Seq<char>| row_decode::<Forecast>(
                        u,
                        p,
                        *final(storage),
                        true,
                    ),
                )
                &&& forall|i: int| 0 <= i < r@.len() ==> forecast_wf((#[trigger] r@[i])@)
            }),
    {
        proof {
            reveal_strlit("forecasts");
        }
        storage.start_section("forecasts".to_owned());
        let mut data = storage.get_section_data("forecasts".to_owned());
        proof {
            crate::storage::lemma_first_marker(lines_of(*storage), "forecasts"@, 0);
        }
        data.read_all::<Forecast>(storage)
    }

    /// The forecast of an identifier (full or short form), if it exists.
    pub fn get_forecast(storage: &mut Storage, uuid: String) -> (r: Result<Forecast, StoreError>)
        requires
            wf_store(*old(storage)),
        ensures
            wf_store(*final(storage)),
            index_of(*final(storage)) == index_of(*old(storage)),
            has_section(lines_of(*final(storage)), "forecasts"@),
            has_section(lines_of(*old(storage)), "forecasts"@) ==> *final(storage) == *old(
                storage,
            ),
            ({
                let lv = lines_of(*final(storage));
                &&& if find_found(lv, "forecasts"@, uuid@) {
                    match lv[find_pos(lv, "forecasts"@, uuid@) + 1] {
                        LineV::Row(u, p) => match row_decode::<Forecast>(
                            u,
                            p,
                            *final(storage),
                            true,
                        ) {
                            Some(v) => r matches Ok(m) && m@ == v && forecast_wf(m@),
                            None => r matches Err(_),
                        },
                        _ => r matches Err(_),
                    }
                } else {
                    r matches Err(e) && e == StoreError::NotFound
                }
            }),
    {
        proof {
            reveal_strlit("forecasts");
        }
        storage.start_section("forecasts".to_owned());
        let mut data = storage.get_section_data("forecasts".to_owned());
        data.find_one::<Forecast>(storage, uuid.as_str())
    }

    /// Saves a forecast.
    pub fn store_forecast(storage: &mut Storage, forecast: Forecast)
        requires
            wf_store(*old(storage)),
            forecast_wf(forecast@),
        ensures
            ({
                let lv0 = lines_of(*old(storage));
                let lv = if has_section(lv0, "forecasts"@) {
                    lv0
                } else {
                    lv0 + seq![LineV::Blank(Seq::<char>::empty()), LineV::Marker("forecasts"@)]
                };
                let e = forecast_enc(forecast@);
                let text = enc_payload(e.2);
                &&& wf_store(*final(storage))
                &&& index_of(*final(storage)) == index_of(*old(storage))
                &&& if e.1 {
                    exists|u: Seq<char>|
                        wf_uuid(u) && lines_of(*final(storage)) == lv.insert(
                            section_pos(lv, "forecasts"@) + 1,
                            LineV::Row(u, text),
                        )
                } else {
                    match scan_all(lv, 0, e.0) {
                        Some(j) => lines_of(*final(storage)) == lv.update(
                            j,
                            LineV::Row(e.0, text),
                        ),
                        None => lines_of(*final(storage)) == lv,
                    }
                }
            }),
    {
        proof {
            reveal_strlit("forecasts");
        }
        storage.start_section("forecasts".to_owned());
        let mut data = storage.get_section_data("forecasts".to_owned());
        let u = data.save::<Forecast>(storage, forecast);
        proof {
            if forecast_enc(forecast@).1 {
                assert(wf_uuid(u@));
            }
        }
    }

    /// Removes the row of an identifier, anywhere in the file.
    pub fn remove_forecast(storage: &mut Storage, uuid: String)
        requires
            wf_store(*old(storage)),
        ensures
            ({
                let lv0 = lines_of(*old(storage));
                let lv = if has_section(lv0, "forecasts"@) {
                    lv0
                } else {
                    lv0 + seq![LineV::Blank(Seq::<char>::empty()), LineV::Marker("forecasts"@)]
                };
                &&& wf_store(*final(storage))
                &&& index_of(*final(storage)) == index_of(*old(storage))
                &&& match scan_all(lv, 0, uuid@) {
                    Some(j) => lines_of(*final(storage)) == lv.remove(j),
                    None => lines_of(*final(storage)) == lv,
                }
            }),
    {
        proof {
            reveal_strlit("forecasts");
        }
        storage.start_section("forecasts".to_owned());
        let data = storage.get_section_data("forecasts".to_owned());
        data.remove_by_id(storage, uuid.as_str());
    }

    /// One placeholder transaction per forecast, showing what remains of
    /// its target over the given transactions, due at `end_date`. Sums are
    /// brought back into the money range for display.
    pub fn remaining_transactions(
        storage: &mut Storage,
        transactions: &Vec<Transaction>,
        end_date: Date,
    ) -> (r: Vec<Transaction>)
        requires
            wf_store(*old(storage)),
            forall|k: int|
                0 <= k < transactions@.len() ==> -MAX_CENTS <= (#[trigger] transactions@[k])@.value
                    <= MAX_CENTS,
        ensures
            ({
                let lv = lines_of(*final(storage));
                let fs = decode_run(
                    row_run(lv, section_pos(lv, "forecasts"@) + 1),
                    |u: Seq<char>, p: Seq<char>| row_decode::<Forecast>(
                        u,
                        p,
                        *final(storage),
                        true,
                    ),
                );
                let ts = transactions@.map_values(|m: Transaction| m@);
                &&& wf_store(*final(storage))
                &&& index_of(*final(storage)) == index_of(*old(storage))
                &&& has_section(lv, "forecasts"@)
                &&& r@.len() == fs.len()
                &&& forall|i: int|
                    0 <= i < fs.len() ==> remaining_matches(
                        (#[trigger] r@[i])@,
                        fs[i],
                        sat_cents(tag_sum(ts, fs[i].tag->Some_0.uuid)),
                        end_date,
                    )
            }),
    {
        let forecasts = Forecast::get_forecasts(storage);
        let ghost st1 = *storage;
        let ghost fs = forecasts@.map_values(|m: Forecast| m@);
        let ghost ts = transactions@.map_values(|m: Transaction| m@);
        let mut out: Vec<Transaction> = Vec::new();
        let n = forecasts.len();
        let tn = transactions.len();
        let mut i: usize = 0;
        while i < n
            invariant
                i <= n,
                n == forecasts@.len(),
                fs.len() == n,
                tn == transactions@.len(),
                ts.len() == tn,
                tn <= 18446744073709551615,
                *storage == st1,
                wf_store(st1),
                forall|q: int| 0 <= q < n ==> (#[trigger] forecasts@[q])@ == fs[q],
                forall|q: int| 0 <= q < n ==> forecast_wf(#[trigger] fs[q]),
                forall|q: int| 0 <= q < tn ==> (#[trigger] transactions@[q])@ == ts[q],
                forall|q: int|
                    0 <= q < tn ==> -MAX_CENTS <= (#[trigger] ts[q]).value <= MAX_CENTS,
                out@.len() == i,
                forall|q: int|
                    0 <= q < i ==> remaining_matches(
                        (#[trigger] out@[q])@,
                        fs[q],
                        sat_cents(tag_sum(ts, fs[q].tag->Some_0.uuid)),
                        end_date,
                    ),
            decreases n - i,
        {
            let fore = &forecasts[i];
            let tag = match &fore.tag {
                Some(t) => t,
                None => {
                    proof {
                        assert(false);
                    }
                    &forecasts[i].tag.as_ref().unwrap()
                },
            };
            let ghost tagu = fs[i as int].tag->Some_0.uuid;
            // the attained sum for this forecast's tag
            let mut acc: i128 = 0;
            let mut k: usize = 0;
            while k < tn
                invariant
                    k <= tn,
                    tn == transactions@.len(),
                    ts.len() == tn,
                    tn <= 18446744073709551615,
                    tagu == tag@.uuid,
                    tag@ == fs[i as int].tag->Some_0,
                    i < n,
                    fs.len() == n,
                    forall|q: int| 0 <= q < tn ==> (#[trigger] transactions@[q])@ == ts[q],
                    forall|q: int|
                        0 <= q < tn ==> -MAX_CENTS <= (#[trigger] ts[q]).value <= MAX_CENTS,
                    acc as int == tag_sum(ts.subrange(0, k as int), tagu),
                    -999_999_999_999_999 * (k + 1) <= acc as int <= 999_999_999_999_999 * (k + 1),
                decreases tn - k,
            {
                proof {
                    assert(ts.subrange(0, k as int + 1).drop_last() =~= ts.subrange(0, k as int));
                    assert(ts.subrange(0, k as int + 1).last() == ts[k as int]);
                    assert(999_999_999_999_999 * (k + 2)
                        < 170141183460469231731687303715884105727int && 999_999_999_999_999 * (k
                        + 1) + 999_999_999_999_999 == 999_999_999_999_999 * (k + 2))
                        by (nonlinear_arith)
                        requires
                            0 <= k,
                            k < tn,
                            tn <= 18446744073709551615,
                    ;
                }
                if crate::transactions::has_tag(&transactions[k], tag) {
                    acc = acc + transactions[k].value as i128;
                }
                k += 1;
            }
            proof {
                assert(ts.subrange(0, tn as int) =~= ts);
            }
            let sat: i64 = if acc > MAX_CENTS as i128 {
                MAX_CENTS
            } else if acc < -MAX_CENTS as i128 {
                -MAX_CENTS
            } else {
                acc as i64
            };
            let account = match &fore.account {
                Some(a) => a.duplicate(),
                None => {
                    proof {
                        assert(false);
                    }
                    Account {
                        uuid: String::new(),
                        bank: String::new(),
                        name: String::new(),
                        open_balance: 0,
                        open_balance_date: None,
                        currency: String::new(),
                    }
                },
            };
            // the remaining amount, zero once the target is crossed
            let rem0: i64 = fore.value - sat;
            let rem: i64 = if (fore.value < 0 && rem0 > 0) || (fore.value >= 0 && rem0 < 0) {
                0
            } else {
                rem0
            };
            let t = Transaction {
                uuid: "00000000-0000-0000-0000-000000000000".to_string(),
                account: Some(account),
                contact: Some(
                    crate::contacts::Contact {
                        uuid: String::new(),
                        name: "Remaining".to_string(),
                        city_location: "Remaining".to_string(),
                    },
                ),
                description: build_remaining_desc(fore, sat),
                value: rem,
                deadline: Some(end_date),
                paid_in: None,
                created_at: now_stamp(),
                updated_at: String::new(),
                transfer: None,
                tags: Vec::new(),
                observations: String::new(),
                ofx_memo: String::new(),
                ofx_fitid: String::new(),
                merged_in: String::new(),
                previous_repetition: String::new(),
            };
            proof {
                assert(t@.tags =~= Seq::<TagV>::empty());
                assert(sat as int == sat_cents(tag_sum(ts, tagu)));
                assert(remaining_matches(t@, fs[i as int], sat as int, end_date));
            }
            out.push(t);
            i += 1;
        }
        out
    }
}

/// The attained percentage, truncated toward zero.
fn pct_exec(a: i64, v: i64) -> (r: i64)
    requires
        -MAX_CENTS <= a <= MAX_CENTS,
        -MAX_CENTS <= v <= MAX_CENTS,
    ensures
        r as int == pct_of(a as int, v as int),
        -100_000_000_000_000_000 <= r <= 100_000_000_000_000_000,
{
    if v == 0 {
        0
    } else {
        let am: i64 = if a < 0 {
            -a
        } else {
            a
        };
        let vm: i64 = if v < 0 {
            -v
        } else {
            v
        };
        let m = (am * 100) / vm;
        proof {
            assert(m as int <= am as int * 100) by (nonlinear_arith)
                requires
                    vm as int >= 1,
                    am as int >= 0,
                    m as int == (am as int * 100) / (vm as int),
            ;
        }
        if a != 0 && ((a < 0) != (v < 0)) {
            -m
        } else {
            m
        }
    }
}

/// The placeholder row's text for one forecast.
fn build_remaining_desc(fore: &Forecast, sat: i64) -> (r: String)
    requires
        fore.tag is Some,
        fore.account is Some,
        -MAX_CENTS <= sat <= MAX_CENTS,
        -MAX_CENTS <= fore.value <= MAX_CENTS,
    ensures
        r@ == remaining_desc(fore@, sat as int),
{
    let tag_name = match &fore.tag {
        Some(t) => t.name.clone(),
        None => {
            proof {
                assert(false);
            }
            String::new()
        },
    };
    let currency = match &fore.account {
        Some(a) => a.currency.clone(),
        None => {
            proof {
                assert(false);
            }
            String::new()
        },
    };
    let mut v: Vec<char> = to_chars(tag_name.as_str());
    v.push(':');
    v.push(' ');
    let cur = to_chars(currency.as_str());
    push_all(&mut v, cur.as_slice());
    v.push(' ');
    push_all(&mut v, money_to_chars(sat).as_slice());
    v.push(' ');
    v.push('o');
    v.push('f');
    v.push(' ');
    push_all(&mut v, cur.as_slice());
    v.push(' ');
    push_all(&mut v, money_to_chars(fore.value).as_slice());
    v.push(' ');
    v.push('(');
    let pct = pct_exec(sat, fore.value);
    if pct < 0 {
        v.push('-');
        push_all(&mut v, u64_digits((-pct) as u64).as_slice());
    } else {
        push_all(&mut v, u64_digits(pct as u64).as_slice());
    }
    v.push('%');
    v.push(')');
    proof {
        assert(v@ =~= remaining_desc(fore@, sat as int));
    }
    from_chars(&v)
}

} // verus!

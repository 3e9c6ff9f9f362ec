//! Dated money transactions, including account-to-account transfers: the
//! linked-record resolution that loads a transfer's twin row, and the
//! paired-write protocol that keeps the two rows consistent.

use vstd::prelude::*;
use crate::model::{Model, row_decode, row_run, decode_run};
use crate::payload::{Payload, PayloadV, PValue, ValV, spec_get, wf_payload, enc_payload,
    spec_parse_payload, parse_payload};
use crate::storage::{
    Storage, Data, StoreError, lines_of, index_of, wf_store, has_section, section_pos, find_found,
    find_pos, scan_section, scan_all, short_id_of,
};
use crate::lines::{LineV, wf_uuid, uuid_ok};
use crate::dates::{Date, wf_date, enc_date, spec_parse_date, parse_date, date_to_chars};
use crate::numtext::{MAX_CENTS, enc_money};
use crate::text::{to_chars, from_chars};
use crate::accounts::{Account, AccountV, account_decode, account_wf};
use crate::contacts::{Contact, ContactV, contact_decode};
use crate::tags::{Tag, TagV, tag_decode};

verus! {

/// Relies on chrono's `Local::now` and `DateTime::to_rfc3339`: the current
/// local time as an RFC 3339 text. The result depends on the clock, so
/// nothing is claimed of it beyond being nonempty.
#[verifier::external_body]
pub fn now_stamp() -> (r: String)
    ensures
        r@.len() > 0,
{
    chrono::Local::now().to_rfc3339()
}

/// A money transaction. Amounts are counts of cents; a negative value is
/// an expense. A transfer carries a one-level-deep copy of its twin.
#[derive(Debug)]
pub struct Transaction {
    pub uuid: String,
    pub account: Option<Account>,
    pub contact: Option<Contact>,
    pub description: String,
    pub value: i64,
    /// When this transaction is to be paid.
    pub deadline: Option<Date>,
    pub paid_in: Option<Date>,
    /// An opaque clock stamp, set when the record is first built.
    pub created_at: String,
    /// An opaque clock stamp of the last update; empty when never updated.
    pub updated_at: String,
    /// The twin row of a transfer; `contact` may then be absent.
    pub transfer: Option<Box<Transaction>>,
    pub tags: Vec<Tag>,
    pub observations: String,
    /// Bank-statement references; a memo is kept only beside its id.
    pub ofx_memo: String,
    pub ofx_fitid: String,
    /// The principal transaction this one was merged into, if any.
    pub merged_in: String,
    /// The previous transaction of a repetition chain, if any.
    pub previous_repetition: String,
}

/// The mathematical shape of a transaction.
pub struct TransactionV {
    pub uuid: Seq<char>,
    pub account: Option<AccountV>,
    pub contact: Option<ContactV>,
    pub description: Seq<char>,
    pub value: int,
    pub deadline: Option<Date>,
    pub paid_in: Option<Date>,
    pub created_at: Seq<char>,
    pub updated_at: Seq<char>,
    pub transfer: Option<Box<TransactionV>>,
    pub tags: Seq<TagV>,
    pub observations: Seq<char>,
    pub ofx_memo: Seq<char>,
    pub ofx_fitid: Seq<char>,
    pub merged_in: Seq<char>,
    pub previous_repetition: Seq<char>,
}

/// The mathematical value of a transaction, one transfer level at a time.
pub open spec fn tx_view(tr: Transaction) -> TransactionV
    decreases tr,
{
    TransactionV {
        uuid: tr.uuid@,
        account: match tr.account {
            Some(a) => Some(a@),
            None => None,
        },
        contact: match tr.contact {
            Some(c) => Some(c@),
            None => None,
        },
        description: tr.description@,
        value: tr.value as int,
        deadline: tr.deadline,
        paid_in: tr.paid_in,
        created_at: tr.created_at@,
        updated_at: tr.updated_at@,
        transfer: match tr.transfer {
            Some(tw) => Some(Box::new(tx_view(*tw))),
            None => None,
        },
        tags: tr.tags@.map_values(|t: Tag| t@),
        observations: tr.observations@,
        ofx_memo: tr.ofx_memo@,
        ofx_fitid: tr.ofx_fitid@,
        merged_in: tr.merged_in@,
        previous_repetition: tr.previous_repetition@,
    }
}

impl View for Transaction {
    type V = TransactionV;

    open spec fn view(&self) -> TransactionV {
        tx_view(*self)
    }
}

impl Default for Transaction {
    /// An empty, unpersisted transaction, stamped with the current time.
    fn default() -> (r: Transaction)
        ensures
            r@.uuid.len() == 0,
            r@.account is None,
            r@.contact is None,
            r@.description.len() == 0,
            r@.value == 0,
            r@.deadline is None,
            r@.paid_in is None,
            r@.created_at.len() > 0,
            r@.updated_at.len() == 0,
            r@.transfer is None,
            r@.tags.len() == 0,
            r@.observations.len() == 0,
            r@.ofx_memo.len() == 0,
            r@.ofx_fitid.len() == 0,
            r@.merged_in.len() == 0,
            r@.previous_repetition.len() == 0,
    {
        let r = Transaction {
            uuid: String::new(),
            account: None,
            contact: None,
            description: String::new(),
            value: 0,
            deadline: None,
            paid_in: None,
            created_at: now_stamp(),
            updated_at: String::new(),
            transfer: None,
            tags: Vec::new(),
            observations: String::new(),
            ofx_memo: String::new(),
            ofx_fitid: String::new(),
            merged_in: String::new(),
            previous_repetition: String::new(),
        };
        proof {
            assert(r@.tags =~= Seq::<TagV>::empty());
        }
        r
    }
}

/// The shared well-formedness of a transaction's own fields.
pub open spec fn tx_core_wf(v: TransactionV) -> bool {
    &&& v.uuid.len() == 0 || wf_uuid(v.uuid)
    &&& -MAX_CENTS <= v.value <= MAX_CENTS
    &&& v.deadline matches Some(d) && wf_date(d)
    &&& match v.paid_in {
        Some(d) => wf_date(d),
        None => true,
    }
    &&& v.account is Some
}

/// A transaction the store accepts: core fields well-formed, and either a
/// contact or a transfer link present.
pub open spec fn tx_wf(v: TransactionV) -> bool {
    &&& tx_core_wf(v)
    &&& v.contact is Some || v.transfer is Some
}

/// A row of `section` under `id` in the store, if one stands there.
pub open spec fn spec_find_row(lv: Seq<LineV>, section: Seq<char>, id: Seq<char>) -> Option<
    (Seq<char>, Seq<char>),
> {
    if has_section(lv, section) {
        match scan_section(lv, section_pos(lv, section) + 1, id) {
            Some(j) => match lv[j] {
                LineV::Row(u, p) => Some((u, p)),
                _ => None,
            },
            None => None,
        }
    } else {
        None
    }
}

/// The account stored under `id`, decoded.
pub open spec fn spec_lookup_account(lv: Seq<LineV>, id: Seq<char>) -> Option<AccountV> {
    match spec_find_row(lv, "accounts"@, id) {
        Some((u, p)) => match spec_parse_payload(p) {
            Some(fs) => account_decode(fs, u),
            None => None,
        },
        None => None,
    }
}

/// The contact stored under `id`, decoded.
pub open spec fn spec_lookup_contact(lv: Seq<LineV>, id: Seq<char>) -> Option<ContactV> {
    match spec_find_row(lv, "contacts"@, id) {
        Some((u, p)) => match spec_parse_payload(p) {
            Some(fs) => contact_decode(fs, u),
            None => None,
        },
        None => None,
    }
}

/// The tag stored under `id`, decoded.
pub open spec fn spec_lookup_tag(lv: Seq<LineV>, id: Seq<char>) -> Option<TagV> {
    match spec_find_row(lv, "tags"@, id) {
        Some((u, p)) => match spec_parse_payload(p) {
            Some(fs) => tag_decode(fs, u),
            None => None,
        },
        None => None,
    }
}

/// The tags of a reference list that exist in the store, in order;
/// references to missing tags are skipped.
pub open spec fn spec_lookup_tags(lv: Seq<LineV>, ids: Seq<Seq<char>>) -> Seq<TagV>
    decreases ids.len(),
{
    if ids.len() == 0 {
        Seq::empty()
    } else {
        match spec_lookup_tag(lv, ids[0]) {
            Some(t) => seq![t] + spec_lookup_tags(lv, ids.drop_first()),
            None => spec_lookup_tags(lv, ids.drop_first()),
        }
    }
}

/// A present, nonempty text field.
pub open spec fn text_field(row: PayloadV, key: Seq<char>) -> Option<Seq<char>> {
    match spec_get(row, key) {
        Some(ValV::Text(t)) => if t.len() > 0 {
            Some(t)
        } else {
            None
        },
        _ => None,
    }
}

/// Decoding a transaction row without resolving its transfer link.
pub open spec fn tx_decode_base(row: PayloadV, uuid: Seq<char>, lv: Seq<LineV>) -> Option<
    TransactionV,
> {
    if uuid.len() == 0 || wf_uuid(uuid) {
        match (
            spec_get(row, "description"@),
            spec_get(row, "value"@),
            spec_get(row, "deadline"@),
            spec_get(row, "account"@),
            spec_get(row, "created_at"@),
        ) {
            (
                Some(ValV::Text(desc)),
                Some(ValV::Amount(value)),
                Some(ValV::Text(dl)),
                Some(ValV::Text(accid)),
                Some(ValV::Text(created)),
            ) => {
                if -MAX_CENTS <= value <= MAX_CENTS && (text_field(row, "contact"@) is Some
                    || text_field(row, "transfer"@) is Some) {
                    match (spec_parse_date(dl), spec_lookup_account(lv, accid)) {
                        (Some(deadline), Some(acc)) => {
                            let contact = match text_field(row, "contact"@) {
                                Some(cid) => spec_lookup_contact(lv, cid),
                                None => None,
                            };
                            if (text_field(row, "contact"@) is Some && contact is None) {
                                None
                            } else {
                                let paid_in = match text_field(row, "paid_in"@) {
                                    Some(pd) => spec_parse_date(pd),
                                    None => None,
                                };
                                if (text_field(row, "paid_in"@) is Some && paid_in is None) {
                                    None
                                } else {
                                    Some(
                                        TransactionV {
                                            uuid: uuid,
                                            account: Some(acc),
                                            contact: contact,
                                            description: desc,
                                            value: value,
                                            deadline: Some(deadline),
                                            paid_in: paid_in,
                                            created_at: created,
                                            updated_at: match text_field(row, "updated_at"@) {
                                                Some(u) => u,
                                                None => Seq::empty(),
                                            },
                                            transfer: None,
                                            tags: match spec_get(row, "tags"@) {
                                                Some(ValV::List(ids)) => spec_lookup_tags(
                                                    lv,
                                                    ids,
                                                ),
                                                _ => Seq::empty(),
                                            },
                                            observations: match text_field(
                                                row,
                                                "observations"@,
                                            ) {
                                                Some(o) => o,
                                                None => Seq::empty(),
                                            },
                                            ofx_memo: if text_field(row, "ofx_memo"@) is Some
                                                && text_field(row, "ofx_fitid"@) is Some {
                                                text_field(row, "ofx_memo"@)->Some_0
                                            } else {
                                                Seq::empty()
                                            },
                                            ofx_fitid: if text_field(row, "ofx_memo"@) is Some
                                                && text_field(row, "ofx_fitid"@) is Some {
                                                text_field(row, "ofx_fitid"@)->Some_0
                                            } else {
                                                Seq::empty()
                                            },
                                            merged_in: match text_field(row, "merged_in"@) {
                                                Some(m) => m,
                                                None => Seq::empty(),
                                            },
                                            previous_repetition: match text_field(
                                                row,
                                                "previous_repetition"@,
                                            ) {
                                                Some(m) => m,
                                                None => Seq::empty(),
                                            },
                                        },
                                    )
                                }
                            }
                        },
                        _ => None,
                    }
                } else {
                    None
                }
            },
            _ => None,
        }
    } else {
        None
    }
}

/// Decoding a transaction row: when allowed and a transfer link is
/// present, the twin row is loaded from the same section and the two
/// values are wired to carry one-level-deep copies of each other. A
/// transfer whose twin cannot be loaded is refused.
pub open spec fn tx_decode(
    row: PayloadV,
    uuid: Seq<char>,
    lv: Seq<LineV>,
    can_recursive: bool,
) -> Option<TransactionV> {
    match tx_decode_base(row, uuid, lv) {
        None => None,
        Some(base) => {
            match text_field(row, "transfer"@) {
                Some(tid) => {
                    if can_recursive {
                        match spec_find_row(lv, "transactions"@, tid) {
                            Some((u2, p2)) => match spec_parse_payload(p2) {
                                Some(fs2) => match tx_decode_base(fs2, u2, lv) {
                                    Some(twin) => Some(
                                        TransactionV {
                                            transfer: Some(
                                                Box::new(
                                                    TransactionV {
                                                        transfer: Some(Box::new(base)),
                                                        ..twin
                                                    },
                                                ),
                                            ),
                                            ..base
                                        },
                                    ),
                                    None => None,
                                },
                                None => None,
                            },
                            None => None,
                        }
                    } else {
                        Some(base)
                    }
                },
                None => Some(base),
            }
        },
    }
}

/// The payload a transaction writes: required fields first, optional
/// fields after, in a fixed order.
pub open spec fn tx_payload(v: TransactionV) -> PayloadV {
    let p = seq![
        ("account"@, ValV::Text(v.account->Some_0.uuid)),
        ("description"@, ValV::Text(v.description)),
        ("value"@, ValV::Amount(v.value)),
        ("deadline"@, ValV::Text(enc_date(v.deadline->Some_0))),
        ("created_at"@, ValV::Text(v.created_at)),
    ];
    let p = if v.paid_in is Some {
        p.push(("paid_in"@, ValV::Text(enc_date(v.paid_in->Some_0))))
    } else {
        p
    };
    let p = if v.updated_at.len() > 0 {
        p.push(("updated_at"@, ValV::Text(v.updated_at)))
    } else {
        p
    };
    let p = if v.contact is Some {
        p.push(("contact"@, ValV::Text(v.contact->Some_0.uuid)))
    } else {
        p
    };
    let p = if v.transfer is Some {
        p.push(("transfer"@, ValV::Text(v.transfer->Some_0.uuid)))
    } else {
        p
    };
    let p = if v.tags.len() > 0 {
        p.push(("tags"@, ValV::List(v.tags.map_values(|t: TagV| t.uuid))))
    } else {
        p
    };
    let p = if v.observations.len() > 0 {
        p.push(("observations"@, ValV::Text(v.observations)))
    } else {
        p
    };
    let p = if v.ofx_memo.len() > 0 && v.ofx_fitid.len() > 0 {
        p.push(("ofx_memo"@, ValV::Text(v.ofx_memo))).push(
            ("ofx_fitid"@, ValV::Text(v.ofx_fitid)),
        )
    } else {
        p
    };
    let p = if v.merged_in.len() > 0 {
        p.push(("merged_in"@, ValV::Text(v.merged_in)))
    } else {
        p
    };
    if v.previous_repetition.len() > 0 {
        p.push(("previous_repetition"@, ValV::Text(v.previous_repetition)))
    } else {
        p
    }
}

/// Encoding a transaction.
pub open spec fn tx_enc(v: TransactionV) -> (Seq<char>, bool, PayloadV) {
    (v.uuid, v.uuid.len() == 0, tx_payload(v))
}

/// The line buffer once the transactions section exists.
pub open spec fn with_tx_section(lv0: Seq<LineV>) -> Seq<LineV> {
    if has_section(lv0, "transactions"@) {
        lv0
    } else {
        lv0 + seq![LineV::Blank(Seq::<char>::empty()), LineV::Marker("transactions"@)]
    }
}

/// What saving the record `v` leaves in the buffer: a fresh row (under the
/// `assigned` identifier) right after the section marker when `v` is new,
/// or the first line matching `v`'s identifier rewritten in place.
pub open spec fn save_effect(lv: Seq<LineV>, assigned: Seq<char>, v: TransactionV) -> Seq<
    LineV,
> {
    if v.uuid.len() == 0 {
        lv.insert(
            section_pos(lv, "transactions"@) + 1,
            LineV::Row(assigned, enc_payload(tx_payload(v))),
        )
    } else {
        match scan_all(lv, 0, v.uuid) {
            Some(j) => lv.update(j, LineV::Row(v.uuid, enc_payload(tx_payload(v)))),
            None => lv,
        }
    }
}

/// What removing an identifier leaves: the first matching line gone.
pub open spec fn remove_effect(lv: Seq<LineV>, id: Seq<char>) -> Seq<LineV> {
    match scan_all(lv, 0, id) {
        Some(j) => lv.remove(j),
        None => lv,
    }
}

/// What storing one plain transaction writes: its row, inserted new under
/// the `assigned` identifier, or rewritten in place with a fresh update
/// stamp.
pub open spec fn single_saved(
    lv0: Seq<LineV>,
    v: TransactionV,
    assigned: Seq<char>,
    lines2: Seq<LineV>,
) -> bool {
    let lv = with_tx_section(lv0);
    if v.uuid.len() == 0 {
        &&& wf_uuid(assigned)
        &&& lines2 == save_effect(lv, assigned, v)
    } else {
        &&& assigned == v.uuid
        &&& exists|st: Seq<char>|
            st.len() > 0 && lines2 == save_effect(lv, v.uuid, TransactionV { updated_at: st, ..v })
    }
}

/// The paired-write protocol's whole effect, from the old pair `ot`, `oo`
/// to the reconciled pair `ft`, `fo` and the written lines `lines2`. The
/// stamp `st1` is what this side's first write carried; new rows are
/// written three times because each identifier exists only after its
/// row's first save.
pub open spec fn transfer_saved(
    lv0: Seq<LineV>,
    ot: TransactionV,
    oo: TransactionV,
    ft: TransactionV,
    fo: TransactionV,
    st1: Seq<char>,
    lines2: Seq<LineV>,
) -> bool {
    let lv = with_tx_section(lv0);
    let is_insert = ot.uuid.len() == 0 || oo.uuid.len() == 0;
    // the reconciled pair: mirrored value, shared dates, this side kept
    &&& fo.value == -ft.value
    &&& ft.value == ot.value
    &&& fo.deadline == ft.deadline
    &&& ft.deadline == ot.deadline
    &&& fo.paid_in == ft.paid_in
    &&& ft.paid_in == ot.paid_in
    &&& ft == TransactionV {
        uuid: ft.uuid,
        updated_at: ft.updated_at,
        transfer: ft.transfer,
        ..ot
    }
    &&& fo == TransactionV {
        uuid: fo.uuid,
        updated_at: fo.updated_at,
        transfer: fo.transfer,
        value: fo.value,
        deadline: fo.deadline,
        paid_in: fo.paid_in,
        ..oo
    }
    // each side carries a copy of the other
    &&& wf_uuid(ft.uuid)
    &&& wf_uuid(fo.uuid)
    &&& ft.transfer == Some(Box::new(fo))
    &&& fo.transfer == Some(
        Box::new(TransactionV { updated_at: st1, transfer: ot.transfer, ..ft }),
    )
    &&& ft.updated_at.len() > 0
    &&& if is_insert {
        &&& (ot.uuid.len() == 0 ==> st1 == ot.updated_at)
        &&& (ot.uuid.len() != 0 ==> st1.len() > 0 && ft.uuid == ot.uuid)
        &&& (oo.uuid.len() == 0 ==> fo.updated_at == oo.updated_at)
        &&& (oo.uuid.len() != 0 ==> fo.updated_at.len() > 0 && fo.uuid == oo.uuid)
        &&& ({
            let a1 = TransactionV { uuid: ot.uuid, updated_at: st1, transfer: ot.transfer, ..ft };
            let b1 = TransactionV { uuid: oo.uuid, ..fo };
            let lv1 = save_effect(lv, ft.uuid, a1);
            let lv2 = save_effect(lv1, fo.uuid, b1);
            lines2 == save_effect(lv2, ft.uuid, ft)
        })
    } else {
        &&& st1 == ft.updated_at
        &&& fo.updated_at.len() > 0
        &&& ft.uuid == ot.uuid
        &&& fo.uuid == oo.uuid
        &&& lines2 == save_effect(save_effect(lv, ft.uuid, ft), fo.uuid, fo)
    }
}

/// Refreshes the update stamp of a record that already has an identifier,
/// as every rewrite of a stored row does; a new record is left untouched.
fn stamp_if_update(t: &mut Transaction)
    ensures
        ((*final(t))@ == TransactionV { updated_at: (*final(t))@.updated_at, ..(*old(t))@ }),
        old(t).uuid@.len() == 0 ==> ((*final(t))@.updated_at == (*old(t))@.updated_at),
        old(t).uuid@.len() != 0 ==> (*final(t))@.updated_at.len() > 0,
{
    if !t.uuid.as_str().is_empty() {
        t.updated_at = now_stamp();
    }
}

impl Model for Transaction {
    open spec fn wf(self) -> bool {
        tx_wf(self@)
    }

    open spec fn decode_spec(row: PayloadV, uuid: Seq<char>, store: Storage, can_recursive: bool) -> Option<TransactionV> {
        tx_decode(row, uuid, lines_of(store), can_recursive)
    }

    open spec fn enc_spec(v: TransactionV) -> (Seq<char>, bool, PayloadV) {
        tx_enc(v)
    }

    fn new(row: Payload, uuid: String, storage: &Storage, can_recursive: bool) -> (r: Result<
        Transaction,
        StoreError,
    >) {
        let ghost uv = uuid@;
        let base = match Transaction::decode_base(&row, uuid, storage) {
            Ok(b) => b,
            Err(e) => {
                return Err(e);
            },
        };
        proof {
            lemma_tx_decode_base_wf(row@, uv, lines_of(*storage));
        }
        let tid = match row.get("transfer") {
            Some(PValue::Text(t)) => {
                if t.as_str().is_empty() {
                    None
                } else {
                    Some(t.clone())
                }
            },
            _ => None,
        };
        match tid {
            Some(t) => {
                proof {
                    assert(text_field(row@, "transfer"@) == Some(t@));
                }
                if can_recursive {
                    match Transaction::lookup_twin(storage, t.as_str()) {
                        Some(twin) => {
                            let ghost basev = base@;
                            let ghost twinv0 = twin@;
                            let mut base = base;
                            let shallow = base.duplicate();
                            let mut twin = twin;
                            twin.transfer = Some(Box::new(shallow));
                            proof {
                                assert(twin@ == TransactionV {
                                    transfer: Some(Box::new(basev)),
                                    ..twinv0
                                });
                            }
                            let ghost twinv = twin@;
                            base.transfer = Some(Box::new(twin));
                            proof {
                                assert(base@ == TransactionV {
                                    transfer: Some(Box::new(twinv)),
                                    ..basev
                                });
                                assert(tx_decode(row@, uv, lines_of(*storage), can_recursive) == Some(
                                    base@,
                                ));
                                assert(tx_wf(base@));
                            }
                            Ok(base)
                        },
                        None => {
                            proof {
                                assert(tx_decode(row@, uv, lines_of(*storage), can_recursive).is_none());
                            }
                            Err(StoreError::BrokenTransferLink)
                        },
                    }
                } else {
                    proof {
                        assert(tx_decode(row@, uv, lines_of(*storage), can_recursive) == Some(base@));
                    }
                    Ok(base)
                }
            },
            None => {
                proof {
                    assert(text_field(row@, "transfer"@).is_none());
                    assert(tx_decode(row@, uv, lines_of(*storage), can_recursive) == Some(base@));
                    assert(text_field(row@, "contact"@) is Some);
                    assert(base@.contact is Some);
                    assert(tx_wf(base@));
                }
                Ok(base)
            },
        }
    }

    fn to_save(self) -> (r: (String, bool, Payload)) {
        let ghost vv = self@;
        let is_new = self.uuid.as_str().is_empty();
        let account = match self.account {
            Some(a) => a,
            None => {
                proof {
                    assert(false);
                }
                Account {
                    uuid: String::new(),
                    bank: String::new(),
                    name: String::new(),
                    open_balance: 0,
                    open_balance_date: None,
                    currency: String::new(),
                }
            },
        };
        let deadline = match self.deadline {
            Some(d) => d,
            None => {
                proof {
                    assert(false);
                }
                Date { year: 0, month: 1, day: 1 }
            },
        };
        let mut p = Payload::new();
        p.add_text("account", account.uuid);
        p.add_text("description", self.description);
        p.add_amount("value", self.value);
        p.add_text("deadline", from_chars(&date_to_chars(&deadline)));
        p.add_text("created_at", self.created_at);
        proof {
            assert(p@ =~= seq![
                ("account"@, ValV::Text(vv.account->Some_0.uuid)),
                ("description"@, ValV::Text(vv.description)),
                ("value"@, ValV::Amount(vv.value)),
                ("deadline"@, ValV::Text(enc_date(vv.deadline->Some_0))),
                ("created_at"@, ValV::Text(vv.created_at)),
            ]);
        }
        if let Some(pd) = self.paid_in {
            p.add_text("paid_in", from_chars(&date_to_chars(&pd)));
            proof {
                assert(p@.last() == ("paid_in"@, ValV::Text(enc_date(vv.paid_in->Some_0))));
            }
        }
        if !self.updated_at.as_str().is_empty() {
            p.add_text("updated_at", self.updated_at);
            proof {
                assert(p@.last() == ("updated_at"@, ValV::Text(vv.updated_at)));
            }
        }
        if let Some(c) = self.contact {
            p.add_text("contact", c.uuid);
            proof {
                assert(p@.last() == ("contact"@, ValV::Text(vv.contact->Some_0.uuid)));
            }
        }
        if let Some(t) = self.transfer {
            proof {
                assert(vv.transfer == Some(Box::new(tx_view(*t))));
                assert(tx_view(*t).uuid == t.uuid@);
            }
            p.add_text("transfer", t.uuid);
            proof {
                assert(p@.last() == ("transfer"@, ValV::Text(vv.transfer->Some_0.uuid)));
            }
        }
        if self.tags.len() > 0 {
            let mut ids: Vec<String> = Vec::new();
            let n = self.tags.len();
            let ghost tagsv = self.tags@.map_values(|t: Tag| t@);
            let mut i: usize = 0;
            while i < n
                invariant
                    i <= n,
                    n == self.tags@.len(),
                    tagsv == self.tags@.map_values(|t: Tag| t@),
                    tagsv.len() == n,
                    ids@.len() == i,
                    forall|k: int| 0 <= k < i ==> (#[trigger] ids@[k])@ == tagsv[k].uuid,
                decreases n - i,
            {
                ids.push(self.tags[i].uuid.clone());
                proof {
                    assert(self.tags@.map_values(|t: Tag| t@)[i as int] == self.tags@[i as int]@);
                    assert(ids@[i as int]@ == tagsv[i as int].uuid);
                }
                i += 1;
            }
            proof {
                let lhs = ids@.map_values(|x: String| x@);
                let rhs = vv.tags.map_values(|t: TagV| t.uuid);
                assert(vv.tags.len() == n);
                assert forall|k: int| 0 <= k < n implies lhs[k] == rhs[k] by {
                    assert(lhs[k] == ids@[k]@);
                    assert(rhs[k] == vv.tags[k].uuid);
                    assert(vv.tags[k] == self.tags@[k]@);
                    assert(tagsv[k] == self.tags@[k]@);
                }
                assert(lhs =~= rhs);
                assert(lhs == rhs);
            }
            p.add_list("tags", ids);
        }
        if !self.observations.as_str().is_empty() {
            p.add_text("observations", self.observations);
        }
        if !self.ofx_memo.as_str().is_empty() && !self.ofx_fitid.as_str().is_empty() {
            p.add_text("ofx_memo", self.ofx_memo);
            p.add_text("ofx_fitid", self.ofx_fitid);
        }
        if !self.merged_in.as_str().is_empty() {
            p.add_text("merged_in", self.merged_in);
        }
        if !self.previous_repetition.as_str().is_empty() {
            p.add_text("previous_repetition", self.previous_repetition);
        }
        proof {
            let q0 = seq![
                ("account"@, ValV::Text(vv.account->Some_0.uuid)),
                ("description"@, ValV::Text(vv.description)),
                ("value"@, ValV::Amount(vv.value)),
                ("deadline"@, ValV::Text(enc_date(vv.deadline->Some_0))),
                ("created_at"@, ValV::Text(vv.created_at)),
            ];
            let q1 = if vv.paid_in is Some {
                q0.push(("paid_in"@, ValV::Text(enc_date(vv.paid_in->Some_0))))
            } else {
                q0
            };
            let q2 = if vv.updated_at.len() > 0 {
                q1.push(("updated_at"@, ValV::Text(vv.updated_at)))
            } else {
                q1
            };
            let q3 = if vv.contact is Some {
                q2.push(("contact"@, ValV::Text(vv.contact->Some_0.uuid)))
            } else {
                q2
            };
            let q4 = if vv.transfer is Some {
                q3.push(("transfer"@, ValV::Text(vv.transfer->Some_0.uuid)))
            } else {
                q3
            };
            let q5 = if vv.tags.len() > 0 {
                q4.push(("tags"@, ValV::List(vv.tags.map_values(|t: TagV| t.uuid))))
            } else {
                q4
            };
            let q6 = if vv.observations.len() > 0 {
                q5.push(("observations"@, ValV::Text(vv.observations)))
            } else {
                q5
            };
            let q7 = if vv.ofx_memo.len() > 0 && vv.ofx_fitid.len() > 0 {
                q6.push(("ofx_memo"@, ValV::Text(vv.ofx_memo))).push(
                    ("ofx_fitid"@, ValV::Text(vv.ofx_fitid)),
                )
            } else {
                q6
            };
            let q8 = if vv.merged_in.len() > 0 {
                q7.push(("merged_in"@, ValV::Text(vv.merged_in)))
            } else {
                q7
            };
            let q9 = if vv.previous_repetition.len() > 0 {
                q8.push(("previous_repetition"@, ValV::Text(vv.previous_repetition)))
            } else {
                q8
            };
            assert(tx_payload(vv) == q9);
            assert(p@ =~= q9);
            lemma_tx_payload_wf_all(vv);
        }
        (self.uuid, is_new, p)
    }
}

impl Transaction {
    /// A field-by-field copy with the same mathematical value.
    pub fn duplicate(&self) -> (r: Transaction)
        ensures
            r@ == self@,
        decreases *self,
    {
        let r = Transaction {
            uuid: self.uuid.clone(),
            account: match &self.account {
                Some(a) => Some(a.duplicate()),
                None => None,
            },
            contact: match &self.contact {
                Some(c) => Some(c.duplicate()),
                None => None,
            },
            description: self.description.clone(),
            value: self.value,
            deadline: self.deadline,
            paid_in: self.paid_in,
            created_at: self.created_at.clone(),
            updated_at: self.updated_at.clone(),
            transfer: match &self.transfer {
                Some(t) => Some(Box::new(t.duplicate())),
                None => None,
            },
            tags: dup_tags(&self.tags),
            observations: self.observations.clone(),
            ofx_memo: self.ofx_memo.clone(),
            ofx_fitid: self.ofx_fitid.clone(),
            merged_in: self.merged_in.clone(),
            previous_repetition: self.previous_repetition.clone(),
        };
        proof {
            assert(r@.tags =~= self@.tags);
            assert(r@ == self@);
        }
        r
    }

    /// Decodes a transaction row without resolving its transfer link.
    fn decode_base(row: &Payload, uuid: String, storage: &Storage) -> (r: Result<
        Transaction,
        StoreError,
    >)
        ensures
            match r {
                Ok(t) => tx_decode_base(row@, uuid@, lines_of(*storage)) == Some(t@),
                Err(e) => tx_decode_base(row@, uuid@, lines_of(*storage)).is_none() && e
                    != StoreError::NoMoreRows,
            },
    {
        if !uuid_ok(uuid.as_str()) {
            return Err(StoreError::Malformed);
        }
        let description = match row.get("description") {
            Some(PValue::Text(t)) => t.clone(),
            Some(_) => {
                return Err(StoreError::Malformed);
            },
            None => {
                return Err(StoreError::MissingField);
            },
        };
        let value = match row.get("value") {
            Some(PValue::Amount(m)) => *m,
            Some(_) => {
                return Err(StoreError::Malformed);
            },
            None => {
                return Err(StoreError::MissingField);
            },
        };
        if value < -MAX_CENTS || value > MAX_CENTS {
            return Err(StoreError::Malformed);
        }
        let deadline_text = match row.get("deadline") {
            Some(PValue::Text(t)) => t.clone(),
            Some(_) => {
                return Err(StoreError::Malformed);
            },
            None => {
                return Err(StoreError::MissingField);
            },
        };
        let account_id = match row.get("account") {
            Some(PValue::Text(t)) => t.clone(),
            Some(_) => {
                return Err(StoreError::Malformed);
            },
            None => {
                return Err(StoreError::MissingField);
            },
        };
        let created_at = match row.get("created_at") {
            Some(PValue::Text(t)) => t.clone(),
            Some(_) => {
                return Err(StoreError::Malformed);
            },
            None => {
                return Err(StoreError::MissingField);
            },
        };
        let contact_id = get_text_field(row, "contact");
        let transfer_id = get_text_field(row, "transfer");
        if contact_id.is_none() && transfer_id.is_none() {
            // a transaction needs a counterparty: a contact or a twin row
            return Err(StoreError::MissingField);
        }
        let dc = to_chars(deadline_text.as_str());
        let deadline = match parse_date(dc.as_slice()) {
            Some(d) => d,
            None => {
                return Err(StoreError::Malformed);
            },
        };
        let account = match lookup_account(storage, account_id.as_str()) {
            Some(a) => a,
            None => {
                return Err(StoreError::NotFound);
            },
        };
        let contact = match contact_id {
            Some(cid) => {
                match lookup_contact(storage, cid.as_str()) {
                    Some(c) => Some(c),
                    None => {
                        return Err(StoreError::NotFound);
                    },
                }
            },
            None => None,
        };
        let paid_in = match get_text_field(row, "paid_in") {
            Some(pd) => {
                let pc = to_chars(pd.as_str());
                match parse_date(pc.as_slice()) {
                    Some(d) => Some(d),
                    None => {
                        return Err(StoreError::Malformed);
                    },
                }
            },
            None => None,
        };
        let updated_at = match get_text_field(row, "updated_at") {
            Some(u) => u,
            None => String::new(),
        };
        let tags = match row.get("tags") {
            Some(PValue::List(ids)) => lookup_tags(storage, ids),
            _ => Vec::new(),
        };
        let observations = match get_text_field(row, "observations") {
            Some(o) => o,
            None => String::new(),
        };
        let memo = get_text_field(row, "ofx_memo");
        let fitid = get_text_field(row, "ofx_fitid");
        let (ofx_memo, ofx_fitid) = match (memo, fitid) {
            (Some(m), Some(f)) => (m, f),
            _ => (String::new(), String::new()),
        };
        let merged_in = match get_text_field(row, "merged_in") {
            Some(m) => m,
            None => String::new(),
        };
        let previous_repetition = match get_text_field(row, "previous_repetition") {
            Some(m) => m,
            None => String::new(),
        };
        let t = Transaction {
            uuid,
            account: Some(account),
            contact,
            description,
            value,
            deadline: Some(deadline),
            paid_in,
            created_at,
            updated_at,
            transfer: None,
            tags,
            observations,
            ofx_memo,
            ofx_fitid,
            merged_in,
            previous_repetition,
        };
        proof {
            let s = tx_decode_base(row@, uuid@, lines_of(*storage));
            assert(s is Some);
            let sv = s->Some_0;
            assert(sv.uuid == t@.uuid);
            assert(sv.account == t@.account);
            assert(sv.contact == t@.contact);
            assert(sv.description == t@.description);
            assert(sv.value == t@.value);
            assert(sv.deadline == t@.deadline);
            assert(sv.paid_in == t@.paid_in);
            assert(sv.created_at == t@.created_at);
            assert(sv.updated_at == t@.updated_at);
            assert(sv.transfer == t@.transfer);
            assert(sv.tags == t@.tags);
            assert(sv.observations == t@.observations);
            assert(sv.ofx_memo == t@.ofx_memo);
            assert(sv.ofx_fitid == t@.ofx_fitid);
            assert(sv.merged_in == t@.merged_in);
            assert(sv.previous_repetition == t@.previous_repetition);
            assert(tx_decode_base(row@, uuid@, lines_of(*storage)) == Some(t@));
        }
        Ok(t)
    }

    /// Loads a transfer's twin row from the transactions section, without
    /// resolving further links.
    fn lookup_twin(storage: &Storage, id: &str) -> (r: Option<Transaction>)
        ensures
            ({
                let spec_r = match spec_find_row(lines_of(*storage), "transactions"@, id@) {
                    Some((u2, p2)) => match spec_parse_payload(p2) {
                        Some(fs2) => tx_decode_base(fs2, u2, lines_of(*storage)),
                        None => None,
                    },
                    None => None,
                };
                match r {
                    Some(t) => spec_r == Some(t@),
                    None => spec_r.is_none(),
                }
            }),
    {
        if !storage.check_section("transactions") {
            return None;
        }
        let mut data = storage.get_section_data("transactions".to_owned());
        proof {
            crate::storage::lemma_first_marker(lines_of(*storage), "transactions"@, 0);
            let lv = lines_of(*storage);
            crate::model::lemma_scan_section_row(lv, section_pos(lv, "transactions"@) + 1, id@);
        }
        if !data.find_by_id(storage, id) {
            return None;
        }
        match data.next_row(storage) {
            Ok((u2, p2)) => {
                let tc = to_chars(p2.as_str());
                match parse_payload(tc.as_slice()) {
                    Some(fs) => match Transaction::decode_base(&fs, u2, storage) {
                        Ok(t) => Some(t),
                        Err(_) => None,
                    },
                    None => None,
                }
            },
            Err(_) => None,
        }
    }
}

impl Transaction {
    /// The value with the account's currency in front.
    pub fn value_formmated(&self) -> (r: String)
        requires
            self.account is Some,
            -MAX_CENTS <= self.value <= MAX_CENTS,
        ensures
            r@ == self@.account->Some_0.currency + seq![' '] + enc_money(self.value as int),
    {
        match &self.account {
            Some(a) => a.format_value(self.value),
            None => {
                proof {
                    assert(false);
                }
                String::new()
            },
        }
    }

    /// The payment date, or the payable mark when still unpaid.
    pub fn paid_in_formmated(&self) -> (r: String)
        requires
            match self.paid_in {
                Some(d) => wf_date(d),
                None => true,
            },
        ensures
            match self.paid_in {
                None => r@ == "(payable)"@,
                Some(d) => r@ == enc_date(d),
            },
    {
        match self.paid_in {
            None => "(payable)".to_owned(),
            Some(d) => from_chars(&date_to_chars(&d)),
        }
    }

    /// The short display form of this transaction's identifier.
    pub fn id(self) -> (r: String)
        requires
            self.uuid@.len() >= 36,
        ensures
            r@ == short_id_of(self.uuid@),
    {
        Data::uuid_to_id(self.uuid)
    }

    /// The transaction of an identifier (full or short form), if it
    /// exists; its transfer twin, if any, comes resolved.
    #[verifier::rlimit(100)]
    pub fn get_transaction(storage: &mut Storage, uuid: String) -> (r: Result<
        Transaction,
        StoreError,
    >)
        requires
            wf_store(*old(storage)),
        ensures
            wf_store(*final(storage)),
            index_of(*final(storage)) == index_of(*old(storage)),
            final(storage).index == old(storage).index,
            has_section(lines_of(*final(storage)), "transactions"@),
            has_section(lines_of(*old(storage)), "transactions"@) ==> *final(storage) == *old(
                storage,
            ),
            ({
                let lv = lines_of(*final(storage));
                &&& if has_section(lines_of(*old(storage)), "transactions"@) {
                    lv == lines_of(*old(storage))
                } else {
                    lv == lines_of(*old(storage)) + seq![
                        LineV::Blank(Seq::<char>::empty()),
                        LineV::Marker("transactions"@),
                    ]
                }
                &&& if find_found(lv, "transactions"@, uuid@) {
                    match lv[find_pos(lv, "transactions"@, uuid@) + 1] {
                        LineV::Row(u, p) => match row_decode::<Transaction>(
                            u,
                            p,
                            *final(storage),
                            true,
                        ) {
                            Some(v) => r matches Ok(m) && m@ == v && tx_wf(m@),
                            None => r matches Err(_),
                        },
                        _ => r matches Err(_),
                    }
                } else {
                    r matches Err(e) && e == StoreError::NotFound
                }
            }),
    {
        proof {
            reveal_strlit("transactions");
        }
        storage.start_section("transactions".to_owned());
        let mut data = storage.get_section_data("transactions".to_owned());
        data.find_one::<Transaction>(storage, uuid.as_str())
    }

    /// Saves an ordinary (non-transfer) transaction, stamping the update
    /// time on rewrites. Returns the row's identifier.
    #[verifier::rlimit(100)]
    pub fn store_transaction(storage: &mut Storage, transaction: Transaction) -> (r: String)
        requires
            wf_store(*old(storage)),
            tx_wf(transaction@),
            transaction@.transfer is None,
        ensures
            wf_store(*final(storage)),
            index_of(*final(storage)) == index_of(*old(storage)),
            single_saved(
                lines_of(*old(storage)),
                transaction@,
                r@,
                lines_of(*final(storage)),
            ),
    {
        proof {
            reveal_strlit("transactions");
        }
        storage.start_section("transactions".to_owned());
        let mut data = storage.get_section_data("transactions".to_owned());
        let ghost orig = transaction@;
        let mut transaction = transaction;
        stamp_if_update(&mut transaction);
        let ghost stamped = transaction@;
        proof {
            if orig.uuid.len() != 0 {
                assert(stamped.updated_at.len() > 0);
                assert(stamped == TransactionV { updated_at: stamped.updated_at, ..orig });
            } else {
                assert(stamped == orig);
            }
            assert(tx_wf(stamped));
        }
        let u = data.save::<Transaction>(storage, transaction);
        proof {
            let lv = with_tx_section(lines_of(*old(storage)));
            if orig.uuid.len() == 0 {
                assert(lines_of(*storage) == save_effect(lv, u@, stamped));
            } else {
                assert(lines_of(*storage) == save_effect(lv, orig.uuid, stamped));
            }
        }
        u
    }

    /// Saves the two rows of a transfer, reconciling them first: the twin
    /// takes the negated value and the same deadline and payment date, and
    /// each row ends carrying the other's identifier. `transfer_saved`
    /// states the written rows exactly, for both the insert and the
    /// update path.
    #[verifier::rlimit(100)]
    pub fn store_transfer(
        storage: &mut Storage,
        transaction: &mut Transaction,
        other: &mut Transaction,
    ) -> (r: String)
        requires
            wf_store(*old(storage)),
            tx_wf((*old(transaction))@),
            tx_core_wf((*old(other))@),
            old(other).contact is Some || old(other).transfer is Some
                || old(transaction).uuid@.len() == 0 || old(other).uuid@.len() == 0,
        ensures
            wf_store(*final(storage)),
            index_of(*final(storage)) == index_of(*old(storage)),
            r@ == (*final(transaction))@.uuid,
            exists|st1: Seq<char>|
                transfer_saved(
                    lines_of(*old(storage)),
                    (*old(transaction))@,
                    (*old(other))@,
                    (*final(transaction))@,
                    (*final(other))@,
                    st1,
                    lines_of(*final(storage)),
                ),
    {
        proof {
            reveal_strlit("transactions");
        }
        storage.start_section("transactions".to_owned());
        let ghost lv = lines_of(*storage);
        let mut data = storage.get_section_data("transactions".to_owned());
        // reconcile: the twin mirrors the value and shares the dates
        let abs_a = if transaction.value < 0 {
            -transaction.value
        } else {
            transaction.value
        };
        let abs_b = if other.value < 0 {
            -other.value
        } else {
            other.value
        };
        if abs_a != abs_b {
            other.value = transaction.value;
        }
        if !same_date_opt(&transaction.deadline, &other.deadline) {
            other.deadline = transaction.deadline;
        }
        if !same_date_opt(&transaction.paid_in, &other.paid_in) {
            other.paid_in = transaction.paid_in;
        }
        if transaction.value == other.value {
            other.value = -transaction.value;
        }
        proof {
            assert(other.value as int == -(transaction.value as int));
        }
        if transaction.uuid.as_str().is_empty() || other.uuid.as_str().is_empty() {
            // first save assigns this side's identifier
            stamp_if_update(transaction);
            let ghost a1 = transaction@;
            let ua = data.save::<Transaction>(storage, transaction.duplicate());
            let ghost lv1 = lines_of(*storage);
            proof {
                lemma_section_after_save(lv, lv1, tx_enc(a1), ua@);
            }
            transaction.uuid = ua;
            other.transfer = Some(Box::new(transaction.duplicate()));
            // the twin is saved knowing it, and gets its own
            stamp_if_update(other);
            let ghost b1 = other@;
            let ub = data.save::<Transaction>(storage, other.duplicate());
            let ghost lv2 = lines_of(*storage);
            proof {
                lemma_section_after_save(lv1, lv2, tx_enc(b1), ub@);
            }
            other.uuid = ub;
            transaction.transfer = Some(Box::new(other.duplicate()));
            // this side is saved once more, now carrying the twin's
            let stamp = now_stamp();
            transaction.updated_at = stamp;
            data.save::<Transaction>(storage, transaction.duplicate());
            proof {
                let ft = transaction@;
                let fo = other@;
                let ot = (*old(transaction))@;
                let oo = (*old(other))@;
                assert(a1 == TransactionV {
                    uuid: ot.uuid,
                    updated_at: a1.updated_at,
                    transfer: ot.transfer,
                    ..ft
                });
                assert(b1 == TransactionV { uuid: oo.uuid, ..fo });
                assert(lv1 == save_effect(lv, ft.uuid, a1));
                assert(lv2 == save_effect(lv1, fo.uuid, b1));
                assert(lines_of(*storage) == save_effect(lv2, ft.uuid, ft));
                assert(fo.transfer == Some(
                    Box::new(
                        TransactionV {
                            updated_at: a1.updated_at,
                            transfer: ot.transfer,
                            ..ft
                        },
                    ),
                ));
                assert(transfer_saved(
                    lines_of(*old(storage)),
                    ot,
                    oo,
                    ft,
                    fo,
                    a1.updated_at,
                    lines_of(*storage),
                ));
            }
            transaction.uuid.clone()
        } else {
            // update path: stamp both rewrites, cross-link, save each once
            let stamp_a = now_stamp();
            transaction.updated_at = stamp_a;
            let stamp_b = now_stamp();
            other.updated_at = stamp_b;
            other.transfer = Some(Box::new(transaction.duplicate()));
            transaction.transfer = Some(Box::new(other.duplicate()));
            let ghost av = transaction@;
            data.save::<Transaction>(storage, transaction.duplicate());
            let ghost lv1 = lines_of(*storage);
            proof {
                lemma_section_after_save(lv, lv1, tx_enc(av), av.uuid);
            }
            data.save::<Transaction>(storage, other.duplicate());
            proof {
                let ft = transaction@;
                let fo = other@;
                let ot = (*old(transaction))@;
                let oo = (*old(other))@;
                assert(lv1 == save_effect(lv, ft.uuid, ft));
                assert(lines_of(*storage) == save_effect(lv1, fo.uuid, fo));
                assert(fo.transfer == Some(
                    Box::new(
                        TransactionV {
                            updated_at: ft.updated_at,
                            transfer: ot.transfer,
                            ..ft
                        },
                    ),
                ));
                assert(transfer_saved(
                    lines_of(*old(storage)),
                    ot,
                    oo,
                    ft,
                    fo,
                    ft.updated_at,
                    lines_of(*storage),
                ));
            }
            transaction.uuid.clone()
        }
    }

    /// Removes a transaction, and, when the row it names decodes to a
    /// transfer, its twin's row first; a row that does not decode has no
    /// twin to chase and is removed alone.
    #[verifier::rlimit(100)]
    pub fn remove_transaction(storage: &mut Storage, uuid: String)
        requires
            wf_store(*old(storage)),
        ensures
            wf_store(*final(storage)),
            index_of(*final(storage)) == index_of(*old(storage)),
            ({
                let lv = with_tx_section(lines_of(*old(storage)));
                let sec = "transactions"@;
                let lv1 = if find_found(lv, sec, uuid@) {
                    match lv[find_pos(lv, sec, uuid@) + 1] {
                        LineV::Row(u, p) => match spec_parse_payload(p) {
                            Some(fs) => match tx_decode(fs, u, lv, true) {
                                Some(v) => match v.transfer {
                                    Some(tw) => remove_effect(lv, tw.uuid),
                                    None => lv,
                                },
                                None => lv,
                            },
                            None => lv,
                        },
                        _ => lv,
                    }
                } else {
                    lv
                };
                lines_of(*final(storage)) == remove_effect(lv1, uuid@)
            }),
    {
        proof {
            reveal_strlit("transactions");
        }
        storage.start_section("transactions".to_owned());
        let ghost lv = lines_of(*storage);
        let ghost sec = "transactions"@;
        let mut data = storage.get_section_data("transactions".to_owned());
        if data.find_by_id(storage, uuid.as_str()) {
            proof {
                crate::storage::lemma_first_marker(lv, sec, 0);
                crate::model::lemma_scan_section_row(lv, section_pos(lv, sec) + 1, uuid@);
                assert(lv[find_pos(lv, sec, uuid@) + 1] matches LineV::Row(_, _));
            }
            match data.next::<Transaction>(storage) {
                Ok(mov) => {
                    let ghost mv = mov@;
                    proof {
                        let pos = find_pos(lv, sec, uuid@) + 1;
                        let u = lv[pos]->Row_0;
                        let p = lv[pos]->Row_1;
                        assert(spec_parse_payload(p) matches Some(fs) && tx_decode(fs, u, lv, true)
                            == Some(mv));
                    }
                    match mov.transfer {
                        Some(t) => {
                            proof {
                                assert(mv.transfer == Some(Box::new(tx_view(*t))));
                                assert(tx_view(*t).uuid == t.uuid@);
                                assert(mv.transfer matches Some(tw) && tw.uuid == t.uuid@);
                            }
                            data.remove_by_id(storage, t.uuid.as_str());
                            proof {
                                assert(lines_of(*storage) == remove_effect(lv, t.uuid@));
                            }
                        },
                        None => {},
                    }
                },
                Err(_) => {
                    // a row that does not decode has no twin to chase
                    proof {
                        let pos = find_pos(lv, sec, uuid@) + 1;
                        let u = lv[pos]->Row_0;
                        let p = lv[pos]->Row_1;
                        match spec_parse_payload(p) {
                            Some(fs) => {
                                assert(tx_decode(fs, u, lv, true) is None);
                            },
                            None => {},
                        }
                    }
                },
            }
        }
        let ghost lvmid = lines_of(*storage);
        data.remove_by_id(storage, uuid.as_str());
        proof {
            assert(lines_of(*storage) == remove_effect(lvmid, uuid@));
        }
    }
}

/// A save never removes the transactions section: it inserts a row right
/// after its marker, or rewrites a row line in place.
proof fn lemma_section_after_save(
    lv: Seq<LineV>,
    lv2: Seq<LineV>,
    e: (Seq<char>, bool, PayloadV),
    assigned: Seq<char>,
)
    requires
        has_section(lv, "transactions"@),
        if e.1 {
            lv2 == lv.insert(
                section_pos(lv, "transactions"@) + 1,
                LineV::Row(assigned, enc_payload(e.2)),
            )
        } else {
            match scan_all(lv, 0, e.0) {
                Some(j) => lv2 == lv.update(j, LineV::Row(e.0, enc_payload(e.2))),
                None => lv2 == lv,
            }
        },
    ensures
        has_section(lv2, "transactions"@),
{
    if e.1 {
        crate::storage::lemma_first_marker(lv, "transactions"@, 0);
        crate::storage::lemma_insert_keeps_section(
            lv,
            "transactions"@,
            section_pos(lv, "transactions"@) + 1,
            LineV::Row(assigned, enc_payload(e.2)),
        );
    } else {
        match scan_all(lv, 0, e.0) {
            Some(j) => {
                crate::storage::lemma_scan_all_row(lv, 0, e.0);
                assert(!crate::storage::marker_named(lv[j], "transactions"@));
                crate::storage::lemma_update_keeps_section(
                    lv,
                    "transactions"@,
                    j,
                    LineV::Row(e.0, enc_payload(e.2)),
                );
            },
            None => {},
        }
    }
}

impl Transaction {
    /// All transactions of an account, newest first, unsorted and
    /// unfiltered otherwise.
    #[verifier::rlimit(100)]
    pub fn get_transactions_simple(storage: &mut Storage, account: Account) -> (r: Vec<
        Transaction,
    >)
        requires
            wf_store(*old(storage)),
        ensures
            ({
                let lv = lines_of(*final(storage));
                let ts = decode_run(
                    row_run(lv, section_pos(lv, "transactions"@) + 1),
                    |u: Seq<char>, p: Seq<char>| row_decode::<Transaction>(
                        u,
                        p,
                        *final(storage),
                        true,
                    ),
                );
                &&& wf_store(*final(storage))
                &&& index_of(*final(storage)) == index_of(*old(storage))
                &&& final(storage).index == old(storage).index
                &&& has_section(lv, "transactions"@)
                &&& lv == with_tx_section(lines_of(*old(storage)))
                &&& (has_section(lines_of(*old(storage)), "transactions"@) ==> *final(storage)
                    == *old(storage))
                &&& r@.map_values(|m: Transaction| m@) == filter_account(ts, account@.uuid)
                &&& forall|i: int| 0 <= i < r@.len() ==> tx_wf((#[trigger] r@[i])@)
            }),
    {
        proof {
            reveal_strlit("transactions");
        }
        storage.start_section("transactions".to_owned());
        let mut data = storage.get_section_data("transactions".to_owned());
        proof {
            crate::storage::lemma_first_marker(lines_of(*storage), "transactions"@, 0);
        }
        let all: Vec<Transaction> = data.read_all(storage);
        let total_rows = all.len();
        let ghost ts = all@.map_values(|m: Transaction| m@);
        proof {
            assert(ts.len() == total_rows);
        }
        let acc_chars = to_chars(account.uuid.as_str());
        let mut out: Vec<Transaction> = Vec::new();
        let mut rest = all;
        let ghost n = ts.len();
        let ghost mut i: int = 0;
        while rest.len() > 0
            invariant
                0 <= i <= n,
                n == ts.len(),
                n <= 18446744073709551615,
                rest@.map_values(|m: Transaction| m@) =~= ts.subrange(i, n as int),
                rest@.len() == n - i,
                acc_chars@ == account@.uuid,
                forall|k: int| 0 <= k < rest@.len() ==> tx_wf((#[trigger] rest@[k])@),
                forall|k: int| 0 <= k < out@.len() ==> tx_wf((#[trigger] out@[k])@),
                out@.map_values(|m: Transaction| m@) =~= filter_account(
                    ts.subrange(0, i),
                    account@.uuid,
                ),
            decreases rest@.len(),
        {
            let ghost prev = rest@;
            let t = rest.remove(0);
            let ghost tv = t@;
            proof {
                assert(prev.map_values(|m: Transaction| m@)[0] == tv);
                assert(ts.subrange(i, n as int)[0] == ts[i]);
                assert(ts[i] == tv);
                assert(rest@ =~= prev.remove(0));
                assert forall|k: int|
                    0 <= k < rest@.len() implies #[trigger] rest@[k]@ == ts.subrange(
                    i + 1,
                    n as int,
                )[k] by {
                    assert(rest@[k] == prev[k + 1]);
                    assert(prev.map_values(|m: Transaction| m@)[k + 1] == ts.subrange(
                        i,
                        n as int,
                    )[k + 1]);
                }
                assert forall|k: int|
                    0 <= k < rest@.len() implies rest@.map_values(|m: Transaction| m@)[k]
                    == #[trigger] ts.subrange(i + 1, n as int)[k] by {
                    assert(rest@[k]@ == ts.subrange(i + 1, n as int)[k]);
                }
                assert(rest@.map_values(|m: Transaction| m@) =~= ts.subrange(i + 1, n as int));
                assert(ts.subrange(0, i + 1) =~= ts.subrange(0, i).push(ts[i]));
                assert(ts.subrange(0, i + 1).drop_last() =~= ts.subrange(0, i));
            }
            let keep = match &t.account {
                Some(a) => {
                    let ac = to_chars(a.uuid.as_str());
                    crate::text::chars_eq(ac.as_slice(), acc_chars.as_slice())
                },
                None => false,
            };
            proof {
                assert(keep == tx_in_account(tv, account@.uuid));
            }
            if keep {
                out.push(t);
            }
            proof {
                i = i + 1;
                assert(out@.map_values(|m: Transaction| m@) =~= filter_account(
                    ts.subrange(0, i),
                    account@.uuid,
                ));
            }
        }
        proof {
            assert(ts.subrange(0, n as int) =~= ts);
        }
        out
    }
}

impl Transaction {
    /// All unmerged transactions of an account inside a period, filtered
    /// by payment status and tag, sorted by deadline (rows of one day in
    /// reading order), together with the nine running totals. Merged rows
    /// are appended to the listing when asked for, but never counted.
    #[verifier::rlimit(100)]
    pub fn get_transactions(
        storage: &mut Storage,
        account: Account,
        from: Date,
        to: Date,
        filter_status: StatusFilter,
        filter_tag: Option<Tag>,
        show_mergeds: bool,
    ) -> (r: (Vec<Transaction>, Vec<Total>))
        requires
            wf_store(*old(storage)),
            -MAX_CENTS <= account.open_balance <= MAX_CENTS,
        ensures
            ({
                let lv = lines_of(*final(storage));
                let ts = decode_run(
                    row_run(lv, section_pos(lv, "transactions"@) + 1),
                    |u: Seq<char>, p: Seq<char>| row_decode::<Transaction>(
                        u,
                        p,
                        *final(storage),
                        true,
                    ),
                );
                let ftv = match filter_tag {
                    Some(g) => Some(g@),
                    None => None,
                };
                let tot = totals_spec(
                    ts,
                    account@.uuid,
                    from,
                    to,
                    filter_status,
                    ftv,
                    account.open_balance as int,
                );
                &&& wf_store(*final(storage))
                &&& index_of(*final(storage)) == index_of(*old(storage))
                &&& final(storage).index == old(storage).index
                &&& has_section(lv, "transactions"@)
                &&& lv == with_tx_section(lines_of(*old(storage)))
                &&& (has_section(lines_of(*old(storage)), "transactions"@) ==> *final(storage)
                    == *old(storage))
                &&& r.1@.len() == 9
                &&& forall|k: int| 0 <= k < 9 ==> (#[trigger] r.1@[k]).value as int == tot[k]
                &&& r.0@.map_values(|m: Transaction| m@) == sort_txs(
                    filter_listed(
                        ts,
                        account@.uuid,
                        from,
                        to,
                        filter_status,
                        ftv,
                        show_mergeds,
                    ),
                )
                &&& forall|i: int| 0 <= i < r.0@.len() ==> tx_wf((#[trigger] r.0@[i])@)
            }),
    {
        proof {
            reveal_strlit("transactions");
        }
        storage.start_section("transactions".to_owned());
        let mut data = storage.get_section_data("transactions".to_owned());
        proof {
            crate::storage::lemma_first_marker(lines_of(*storage), "transactions"@, 0);
        }
        let all: Vec<Transaction> = data.read_all(storage);
        let total_rows = all.len();
        let ghost ts = all@.map_values(|m: Transaction| m@);
        proof {
            assert(ts.len() == total_rows);
        }
        let ghost ftv = match &filter_tag {
            Some(g) => Some(g@),
            None => None,
        };
        let acc_chars = to_chars(account.uuid.as_str());
        let open_cents: i128 = account.open_balance as i128;
        let mut t0: i128 = 0;
        let mut t1: i128 = 0;
        let mut t2: i128 = 0;
        let mut t3: i128 = 0;
        let mut t4: i128 = 0;
        let mut t5: i128 = 0;
        let mut t6: i128 = open_cents;
        let mut t7: i128 = open_cents;
        let mut t8: i128 = open_cents;
        let mut picked: Vec<Transaction> = Vec::new();
        let mut rest = all;
        let ghost n = ts.len();
        let ghost mut i: int = 0;
        while rest.len() > 0
            invariant
                0 <= i <= n,
                n == ts.len(),
                n <= 18446744073709551615,
                rest@.map_values(|m: Transaction| m@) =~= ts.subrange(i, n as int),
                rest@.len() == n - i,
                acc_chars@ == account@.uuid,
                -MAX_CENTS <= account.open_balance <= MAX_CENTS,
                open_cents == account.open_balance as i128,
                ftv == (match &filter_tag {
                    Some(g) => Some(g@),
                    None => None,
                }),
                forall|k: int| 0 <= k < rest@.len() ==> tx_wf((#[trigger] rest@[k])@),
                forall|k: int| 0 <= k < picked@.len() ==> tx_wf((#[trigger] picked@[k])@),
                picked@.map_values(|m: Transaction| m@) =~= filter_listed(
                    ts.subrange(0, i),
                    account@.uuid,
                    from,
                    to,
                    filter_status,
                    ftv,
                    show_mergeds,
                ),
                seq![
                    t0 as int,
                    t1 as int,
                    t2 as int,
                    t3 as int,
                    t4 as int,
                    t5 as int,
                    t6 as int,
                    t7 as int,
                    t8 as int,
                ] =~= totals_spec(
                    ts.subrange(0, i),
                    account@.uuid,
                    from,
                    to,
                    filter_status,
                    ftv,
                    account.open_balance as int,
                ),
                -999_999_999_999_999 * (i + 1) <= t0 as int <= 999_999_999_999_999 * (i + 1),
                -999_999_999_999_999 * (i + 1) <= t1 as int <= 999_999_999_999_999 * (i + 1),
                -999_999_999_999_999 * (i + 1) <= t2 as int <= 999_999_999_999_999 * (i + 1),
                -999_999_999_999_999 * (i + 1) <= t3 as int <= 999_999_999_999_999 * (i + 1),
                -999_999_999_999_999 * (i + 1) <= t4 as int <= 999_999_999_999_999 * (i + 1),
                -999_999_999_999_999 * (i + 1) <= t5 as int <= 999_999_999_999_999 * (i + 1),
                -999_999_999_999_999 * (i + 1) <= t6 as int <= 999_999_999_999_999 * (i + 1),
                -999_999_999_999_999 * (i + 1) <= t7 as int <= 999_999_999_999_999 * (i + 1),
                -999_999_999_999_999 * (i + 1) <= t8 as int <= 999_999_999_999_999 * (i + 1),
            decreases rest@.len(),
        {
            let ghost prev = rest@;
            let t = rest.remove(0);
            let ghost tv = t@;
            proof {
                assert(prev.map_values(|m: Transaction| m@)[0] == tv);
                assert(ts.subrange(i, n as int)[0] == ts[i]);
                assert(ts[i] == tv);
                assert(rest@ =~= prev.remove(0));
                assert forall|k: int|
                    0 <= k < rest@.len() implies #[trigger] rest@[k]@ == ts.subrange(
                    i + 1,
                    n as int,
                )[k] by {
                    assert(rest@[k] == prev[k + 1]);
                    assert(prev.map_values(|m: Transaction| m@)[k + 1] == ts.subrange(
                        i,
                        n as int,
                    )[k + 1]);
                }
                assert forall|k: int|
                    0 <= k < rest@.len() implies rest@.map_values(|m: Transaction| m@)[k]
                    == #[trigger] ts.subrange(i + 1, n as int)[k] by {
                    assert(rest@[k]@ == ts.subrange(i + 1, n as int)[k]);
                }
                assert(rest@.map_values(|m: Transaction| m@) =~= ts.subrange(i + 1, n as int));
                assert(ts.subrange(0, i + 1) =~= ts.subrange(0, i).push(ts[i]));
                assert(ts.subrange(0, i + 1).drop_last() =~= ts.subrange(0, i));
                assert(tx_wf(tv));
                assert(999_999_999_999_999 * (i + 2) < 170141183460469231731687303715884105727int
                    && 999_999_999_999_999 * (i + 1) + 999_999_999_999_999
                    == 999_999_999_999_999 * (i + 2)) by (nonlinear_arith)
                    requires
                        0 <= i,
                        i < n,
                        n <= 18446744073709551615,
                ;
            }
            let in_acc = match &t.account {
                Some(a) => {
                    let ac = to_chars(a.uuid.as_str());
                    crate::text::chars_eq(ac.as_slice(), acc_chars.as_slice())
                },
                None => false,
            };
            let merged_empty = t.merged_in.as_str().is_empty();
            let status_ok = match (filter_status, &t.paid_in) {
                (StatusFilter::FORPAY, Some(_)) => false,
                (StatusFilter::PAID, None) => false,
                _ => true,
            };
            let tag_ok = match &filter_tag {
                Some(g) => has_tag(&t, g),
                None => true,
            };
            let eligible = in_acc && merged_empty && status_ok && tag_ok;
            proof {
                assert(eligible == tx_eligible(tv, account@.uuid, filter_status, ftv));
            }
            let deadline = match t.deadline {
                Some(d) => d,
                None => {
                    proof {
                        assert(false);
                    }
                    Date { year: 0, month: 1, day: 1 }
                },
            };
            let in_period = crate::dates::date_le(&from, &deadline) && crate::dates::date_le(
                &deadline,
                &to,
            );
            if eligible {
                let paid = t.paid_in.is_some();
                if paid && crate::dates::date_le(&deadline, &to) {
                    t8 = t8 + t.value as i128;
                }
                if paid && crate::dates::date_lt(&deadline, &from) {
                    t6 = t6 + t.value as i128;
                }
                if crate::dates::date_le(&deadline, &to) {
                    t7 = t7 + t.value as i128;
                }
                if in_period {
                    if paid {
                        if t.transfer.is_some() {
                            if t.value >= 0 {
                                t5 = t5 + t.value as i128;
                            } else {
                                t2 = t2 + t.value as i128;
                            }
                        } else {
                            if t.value >= 0 {
                                t4 = t4 + t.value as i128;
                            } else {
                                t1 = t1 + t.value as i128;
                            }
                        }
                    } else {
                        if t.value >= 0 {
                            t3 = t3 + t.value as i128;
                        } else {
                            t0 = t0 + t.value as i128;
                        }
                    }
                }
                proof {
                    assert(seq![
                        t0 as int,
                        t1 as int,
                        t2 as int,
                        t3 as int,
                        t4 as int,
                        t5 as int,
                        t6 as int,
                        t7 as int,
                        t8 as int,
                    ] =~= totals_spec(
                        ts.subrange(0, i + 1),
                        account@.uuid,
                        from,
                        to,
                        filter_status,
                        ftv,
                        account.open_balance as int,
                    ));
                }
            }
            let listed_now = (eligible && in_period) || (in_acc && !merged_empty && show_mergeds
                && in_period);
            proof {
                assert(listed_now == tx_listed(
                    tv,
                    account@.uuid,
                    from,
                    to,
                    filter_status,
                    ftv,
                    show_mergeds,
                ));
            }
            if listed_now {
                picked.push(t);
            }
            proof {
                i = i + 1;
                assert(picked@.map_values(|m: Transaction| m@) =~= filter_listed(
                    ts.subrange(0, i),
                    account@.uuid,
                    from,
                    to,
                    filter_status,
                    ftv,
                    show_mergeds,
                ));
            }
        }
        proof {
            assert(ts.subrange(0, n as int) =~= ts);
        }
        let sorted = sort_by_deadline(picked);
        let mut totals: Vec<Total> = Vec::new();
        totals.push(Total { label: "Expenses(payable)".to_owned(), value: t0 });
        totals.push(Total { label: "Expenses".to_owned(), value: t1 });
        totals.push(Total { label: "Transfers out".to_owned(), value: t2 });
        totals.push(Total { label: "Incomes(to receive)".to_owned(), value: t3 });
        totals.push(Total { label: "Incomes".to_owned(), value: t4 });
        totals.push(Total { label: "Transfers in".to_owned(), value: t5 });
        totals.push(Total { label: "Previous balance".to_owned(), value: t6 });
        totals.push(Total { label: "Expected balance".to_owned(), value: t7 });
        totals.push(Total { label: "Total balance".to_owned(), value: t8 });
        (sorted, totals)
    }
}

impl Transaction {
    /// Stores a plain transaction, or, when no contact is set, builds the
    /// twin on the account `contact_uuid` names and stores the pair.
    pub fn make_transaction_or_transfer(
        storage: &mut Storage,
        transaction: &mut Transaction,
        contact_uuid: String,
    ) -> (r: String)
        requires
            wf_store(*old(storage)),
            tx_core_wf((*old(transaction))@),
            (*old(transaction))@.transfer is None,
            old(transaction).contact is None ==> spec_lookup_account(
                lines_of(*old(storage)),
                contact_uuid@,
            ) is Some,
        ensures
            wf_store(*final(storage)),
            index_of(*final(storage)) == index_of(*old(storage)),
            ({
                let ot = (*old(transaction))@;
                if ot.contact is Some {
                    &&& *final(transaction) == *old(transaction)
                    &&& single_saved(
                        lines_of(*old(storage)),
                        ot,
                        r@,
                        lines_of(*final(storage)),
                    )
                } else {
                    let dest = spec_lookup_account(
                        lines_of(*old(storage)),
                        contact_uuid@,
                    )->Some_0;
                    let pre = TransactionV { account: Some(dest), ..ot };
                    let linked = TransactionV { transfer: Some(Box::new(pre)), ..ot };
                    let twin = TransactionV {
                        account: Some(dest),
                        transfer: Some(Box::new(linked)),
                        ..ot
                    };
                    &&& r@ == (*final(transaction))@.uuid
                    &&& exists|fo: TransactionV, st1: Seq<char>|
                        transfer_saved(
                            lines_of(*old(storage)),
                            linked,
                            twin,
                            (*final(transaction))@,
                            fo,
                            st1,
                            lines_of(*final(storage)),
                        )
                }
            }),
    {
        if transaction.contact.is_none() {
            let mut transfer = transaction.duplicate();
            let dest = match lookup_account(storage, contact_uuid.as_str()) {
                Some(a) => a,
                None => {
                    proof {
                        assert(false);
                    }
                    return String::new();
                },
            };
            transfer.account = Some(dest);
            transaction.transfer = Some(Box::new(transfer.duplicate()));
            transfer.transfer = Some(Box::new(transaction.duplicate()));
            Transaction::store_transfer(storage, transaction, &mut transfer)
        } else {
            Transaction::store_transaction(storage, transaction.duplicate())
        }
    }
}

/// The transaction carries the tag.
pub(crate) fn has_tag(t: &Transaction, g: &Tag) -> (r: bool)
    ensures
        r == exists|i: int|
            0 <= i < t@.tags.len() && (#[trigger] t@.tags[i]).uuid == g@.uuid,
{
    let gc = to_chars(g.uuid.as_str());
    let n = t.tags.len();
    let mut i: usize = 0;
    while i < n
        invariant
            i <= n,
            n == t.tags@.len(),
            t@.tags.len() == n,
            gc@ == g@.uuid,
            forall|k: int| 0 <= k < i ==> (#[trigger] t@.tags[k]).uuid != g@.uuid,
        decreases n - i,
    {
        let tc = to_chars(t.tags[i].uuid.as_str());
        if crate::text::chars_eq(tc.as_slice(), gc.as_slice()) {
            proof {
                assert(t@.tags[i as int] == t.tags@[i as int]@);
                assert(t@.tags[i as int].uuid == g@.uuid);
            }
            return true;
        }
        proof {
            assert(t@.tags[i as int] == t.tags@[i as int]@);
        }
        i += 1;
    }
    false
}

/// The new element does not come strictly before the one at `j`.
fn not_before(out: &Vec<Transaction>, j: usize, xd: &Date) -> (r: bool)
    requires
        j < out@.len(),
        tx_wf(out@[j as int]@),
    ensures
        r == !(crate::dates::date_key(*xd) < crate::dates::date_key(
            out@[j as int]@.deadline->Some_0,
        )),
{
    let od = match &out[j].deadline {
        Some(d) => *d,
        None => {
            proof {
                assert(false);
            }
            Date { year: 0, month: 1, day: 1 }
        },
    };
    !crate::dates::date_lt(xd, &od)
}

/// Where an element lands in a deadline-sorted run: before the first
/// strictly later element.
proof fn lemma_insert_sorted_at(x: TransactionV, s: Seq<TransactionV>, j: int)
    requires
        0 <= j <= s.len(),
        forall|k: int|
            0 <= k < j ==> !(crate::dates::date_key(x.deadline->Some_0) < crate::dates::date_key(
                (#[trigger] s[k]).deadline->Some_0,
            )),
        j < s.len() ==> crate::dates::date_key(x.deadline->Some_0) < crate::dates::date_key(
            s[j].deadline->Some_0,
        ),
    ensures
        insert_sorted(x, s) == s.subrange(0, j) + seq![x] + s.subrange(j, s.len() as int),
    decreases j,
{
    if s.len() == 0 {
        assert(s.subrange(0, 0) =~= Seq::<TransactionV>::empty());
        assert(insert_sorted(x, s) =~= s.subrange(0, 0) + seq![x] + s.subrange(0, 0));
    } else if j == 0 {
        assert(s.subrange(0, 0) =~= Seq::<TransactionV>::empty());
        assert(insert_sorted(x, s) =~= s.subrange(0, 0) + seq![x] + s.subrange(
            0,
            s.len() as int,
        ));
    } else {
        assert(s[0] == s.subrange(0, j)[0]);
        lemma_insert_sorted_at(x, s.drop_first(), j - 1);
        assert(s.drop_first().subrange(0, j - 1) =~= s.subrange(1, j));
        assert(s.drop_first().subrange(j - 1, s.drop_first().len() as int) =~= s.subrange(
            j,
            s.len() as int,
        ));
        assert(insert_sorted(x, s) =~= s.subrange(0, j) + seq![x] + s.subrange(
            j,
            s.len() as int,
        ));
    }
}

/// Sorts a listing by deadline, stably: rows of one day keep their order.
fn sort_by_deadline(list: Vec<Transaction>) -> (r: Vec<Transaction>)
    requires
        forall|k: int| 0 <= k < list@.len() ==> tx_wf((#[trigger] list@[k])@),
    ensures
        r@.map_values(|m: Transaction| m@) == sort_txs(list@.map_values(|m: Transaction| m@)),
        forall|k: int| 0 <= k < r@.len() ==> tx_wf((#[trigger] r@[k])@),
{
    let ghost ls = list@.map_values(|m: Transaction| m@);
    let mut out: Vec<Transaction> = Vec::new();
    let n = list.len();
    let mut rest = list;
    let ghost mut i: int = 0;
    while rest.len() > 0
        invariant
            0 <= i <= ls.len(),
            ls.len() == n,
            rest@.map_values(|m: Transaction| m@) =~= ls.subrange(i, n as int),
            rest@.len() == n - i,
            forall|k: int| 0 <= k < rest@.len() ==> tx_wf((#[trigger] rest@[k])@),
            forall|k: int| 0 <= k < out@.len() ==> tx_wf((#[trigger] out@[k])@),
            out@.map_values(|m: Transaction| m@) =~= sort_txs(ls.subrange(0, i)),
        decreases rest@.len(),
    {
        let ghost prev = rest@;
        let x = rest.remove(0);
        let ghost xv = x@;
        proof {
            assert(prev.map_values(|m: Transaction| m@)[0] == xv);
            assert(ls.subrange(i, n as int)[0] == ls[i]);
            assert(ls[i] == xv);
            assert(rest@ =~= prev.remove(0));
            assert forall|k: int|
                0 <= k < rest@.len() implies #[trigger] rest@[k]@ == ls.subrange(
                i + 1,
                n as int,
            )[k] by {
                assert(rest@[k] == prev[k + 1]);
                assert(prev.map_values(|m: Transaction| m@)[k + 1] == ls.subrange(
                    i,
                    n as int,
                )[k + 1]);
            }
            assert forall|k: int|
                0 <= k < rest@.len() implies rest@.map_values(|m: Transaction| m@)[k]
                == #[trigger] ls.subrange(i + 1, n as int)[k] by {
                assert(rest@[k]@ == ls.subrange(i + 1, n as int)[k]);
            }
            assert(rest@.map_values(|m: Transaction| m@) =~= ls.subrange(i + 1, n as int));
            assert(ls.subrange(0, i + 1) =~= ls.subrange(0, i).push(ls[i]));
            assert(ls.subrange(0, i + 1).drop_last() =~= ls.subrange(0, i));
        }
        let xd = match x.deadline {
            Some(d) => d,
            None => {
                proof {
                    assert(false);
                }
                Date { year: 0, month: 1, day: 1 }
            },
        };
        let m = out.len();
        let mut j: usize = 0;
        while j < m && not_before(&out, j, &xd)
            invariant
                j <= m,
                m == out@.len(),
                xd == xv.deadline->Some_0,
                forall|k: int| 0 <= k < out@.len() ==> tx_wf((#[trigger] out@[k])@),
                forall|k: int|
                    0 <= k < j ==> !(crate::dates::date_key(xv.deadline->Some_0)
                        < crate::dates::date_key(
                        ((#[trigger] out@[k])@).deadline->Some_0,
                    )),
            decreases m - j,
        {
            j += 1;
        }
        proof {
            let sv = out@.map_values(|m2: Transaction| m2@);
            assert forall|k: int|
                0 <= k < j ==> !(crate::dates::date_key(xv.deadline->Some_0)
                    < crate::dates::date_key((#[trigger] sv[k]).deadline->Some_0)) by {
                if 0 <= k < j {
                    assert(sv[k] == out@[k]@);
                }
            }
            if (j as int) < sv.len() {
                assert(sv[j as int] == out@[j as int]@);
            }
            lemma_insert_sorted_at(xv, sv, j as int);
        }
        let ghost before = out@;
        out.insert(j, x);
        proof {
            let sv = before.map_values(|m2: Transaction| m2@);
            assert forall|k: int|
                0 <= k < out@.len() implies #[trigger] out@[k]@ == (sv.subrange(0, j as int)
                + seq![xv] + sv.subrange(j as int, sv.len() as int))[k] by {
                if k < j {
                    assert(out@[k] == before[k]);
                    assert(sv.subrange(0, j as int)[k] == sv[k]);
                } else if k == j {
                } else {
                    assert(out@[k] == before[k - 1]);
                }
            }
            assert forall|k: int|
                0 <= k < out@.len() implies out@.map_values(|m2: Transaction| m2@)[k]
                == #[trigger] insert_sorted(xv, sv)[k] by {
                assert(out@[k]@ == (sv.subrange(0, j as int) + seq![xv] + sv.subrange(
                    j as int,
                    sv.len() as int,
                ))[k]);
            }
            assert(out@.map_values(|m2: Transaction| m2@) =~= insert_sorted(xv, sv));
            i = i + 1;
            assert(out@.map_values(|m2: Transaction| m2@) =~= sort_txs(ls.subrange(0, i)));
        }
    }
    proof {
        assert(ls.subrange(0, n as int) =~= ls);
    }
    out
}

/// The transaction belongs to the account.
pub open spec fn tx_in_account(t: TransactionV, acc: Seq<char>) -> bool {
    t.account matches Some(a) && a.uuid == acc
}

/// The transactions of one account, in reading order.
pub open spec fn filter_account(ts: Seq<TransactionV>, acc: Seq<char>) -> Seq<TransactionV>
    decreases ts.len(),
{
    if ts.len() == 0 {
        Seq::empty()
    } else {
        let pre = filter_account(ts.drop_last(), acc);
        if tx_in_account(ts.last(), acc) {
            pre.push(ts.last())
        } else {
            pre
        }
    }
}

/// Whether two optional dates are the same.
fn same_date_opt(a: &Option<Date>, b: &Option<Date>) -> (r: bool)
    ensures
        r == (a == b),
{
    match (a, b) {
        (None, None) => true,
        (Some(x), Some(y)) => {
            let e = x.year == y.year && x.month == y.month && x.day == y.day;
            proof {
                if e {
                    assert(*x == *y);
                }
            }
            e
        },
        _ => false,
    }
}

/// A field-by-field copy of each tag.
pub(crate) fn dup_tags(tags: &Vec<Tag>) -> (r: Vec<Tag>)
    ensures
        r@.map_values(|t: Tag| t@) == tags@.map_values(|t: Tag| t@),
{
    let mut out: Vec<Tag> = Vec::new();
    let n = tags.len();
    let mut i: usize = 0;
    while i < n
        invariant
            i <= n,
            n == tags@.len(),
            out@.len() == i,
            out@.map_values(|t: Tag| t@) =~= tags@.map_values(|t: Tag| t@).subrange(0, i as int),
        decreases n - i,
    {
        out.push(tags[i].duplicate());
        proof {
            assert(out@.map_values(|t: Tag| t@) =~= tags@.map_values(|t: Tag| t@).subrange(
                0,
                i as int + 1,
            ));
        }
        i += 1;
    }
    proof {
        assert(tags@.map_values(|t: Tag| t@).subrange(0, n as int) =~= tags@.map_values(
            |t: Tag| t@,
        ));
    }
    out
}

/// Reads a present, nonempty text field.
pub(crate) fn get_text_field(row: &Payload, key: &str) -> (r: Option<String>)
    ensures
        match r {
            Some(s) => text_field(row@, key@) == Some(s@) && s@.len() > 0,
            None => text_field(row@, key@).is_none(),
        },
{
    match row.get(key) {
        Some(PValue::Text(t)) => {
            if t.as_str().is_empty() {
                None
            } else {
                Some(t.clone())
            }
        },
        _ => None,
    }
}

/// Looks an account up by identifier, read-only.
pub(crate) fn lookup_account(storage: &Storage, id: &str) -> (r: Option<Account>)
    ensures
        match r {
            Some(a) => spec_lookup_account(lines_of(*storage), id@) == Some(a@),
            None => spec_lookup_account(lines_of(*storage), id@).is_none(),
        },
{
    if !storage.check_section("accounts") {
        return None;
    }
    let mut data = storage.get_section_data("accounts".to_owned());
    proof {
        crate::storage::lemma_first_marker(lines_of(*storage), "accounts"@, 0);
        let lv = lines_of(*storage);
        crate::model::lemma_scan_section_row(lv, section_pos(lv, "accounts"@) + 1, id@);
    }
    match data.find_one::<Account>(storage, id) {
        Ok(a) => Some(a),
        Err(_) => None,
    }
}

/// Looks a contact up by identifier, read-only.
pub(crate) fn lookup_contact(storage: &Storage, id: &str) -> (r: Option<Contact>)
    ensures
        match r {
            Some(c) => spec_lookup_contact(lines_of(*storage), id@) == Some(c@),
            None => spec_lookup_contact(lines_of(*storage), id@).is_none(),
        },
{
    if !storage.check_section("contacts") {
        return None;
    }
    let mut data = storage.get_section_data("contacts".to_owned());
    proof {
        crate::storage::lemma_first_marker(lines_of(*storage), "contacts"@, 0);
        let lv = lines_of(*storage);
        crate::model::lemma_scan_section_row(lv, section_pos(lv, "contacts"@) + 1, id@);
    }
    match data.find_one::<Contact>(storage, id) {
        Ok(c) => Some(c),
        Err(_) => None,
    }
}

/// Looks a tag up by identifier, read-only.
pub(crate) fn lookup_tag(storage: &Storage, id: &str) -> (r: Option<Tag>)
    ensures
        match r {
            Some(t) => spec_lookup_tag(lines_of(*storage), id@) == Some(t@),
            None => spec_lookup_tag(lines_of(*storage), id@).is_none(),
        },
{
    if !storage.check_section("tags") {
        return None;
    }
    let mut data = storage.get_section_data("tags".to_owned());
    proof {
        crate::storage::lemma_first_marker(lines_of(*storage), "tags"@, 0);
        let lv = lines_of(*storage);
        crate::model::lemma_scan_section_row(lv, section_pos(lv, "tags"@) + 1, id@);
    }
    match data.find_one::<Tag>(storage, id) {
        Ok(t) => Some(t),
        Err(_) => None,
    }
}

/// Splitting a reference list splits its resolved tags.
proof fn lemma_lookup_tags_concat(lv: Seq<LineV>, a: Seq<Seq<char>>, b: Seq<Seq<char>>)
    ensures
        spec_lookup_tags(lv, a + b) == spec_lookup_tags(lv, a) + spec_lookup_tags(lv, b),
    decreases a.len(),
{
    if a.len() == 0 {
        assert(a + b =~= b);
        assert(spec_lookup_tags(lv, a) + spec_lookup_tags(lv, b) =~= spec_lookup_tags(lv, b));
    } else {
        assert((a + b).drop_first() =~= a.drop_first() + b);
        lemma_lookup_tags_concat(lv, a.drop_first(), b);
        match spec_lookup_tag(lv, a[0]) {
            Some(t) => {
                assert(spec_lookup_tags(lv, a + b) =~= spec_lookup_tags(lv, a)
                    + spec_lookup_tags(lv, b));
            },
            None => {
                assert(spec_lookup_tags(lv, a + b) =~= spec_lookup_tags(lv, a)
                    + spec_lookup_tags(lv, b));
            },
        }
    }
}

/// Resolves a list of tag references, skipping the missing ones.
pub(crate) fn lookup_tags(storage: &Storage, ids: &Vec<String>) -> (r: Vec<Tag>)
    ensures
        r@.map_values(|t: Tag| t@) == spec_lookup_tags(
            lines_of(*storage),
            ids@.map_values(|x: String| x@),
        ),
{
    let ghost idsv = ids@.map_values(|x: String| x@);
    let mut out: Vec<Tag> = Vec::new();
    let n = ids.len();
    let mut i: usize = 0;
    while i < n
        invariant
            i <= n,
            n == ids@.len(),
            idsv == ids@.map_values(|x: String| x@),
            idsv.len() == n,
            out@.map_values(|t: Tag| t@) =~= spec_lookup_tags(
                lines_of(*storage),
                idsv.subrange(0, i as int),
            ),
        decreases n - i,
    {
        let ghost pre = idsv.subrange(0, i as int);
        let ghost one = seq![idsv[i as int]];
        proof {
            assert(idsv.subrange(0, i as int + 1) =~= pre + one);
            lemma_lookup_tags_concat(lines_of(*storage), pre, one);
            assert(one.drop_first() =~= Seq::<Seq<char>>::empty());
        }
        proof {
            assert(one[0] == idsv[i as int]);
            assert(idsv[i as int] == ids@[i as int]@);

        }
        match lookup_tag(storage, ids[i].as_str()) {
            Some(t) => {
                let ghost tv = t@;
                out.push(t);
                proof {
                    assert(spec_lookup_tag(lines_of(*storage), one[0]) == Some(tv));
                    assert(spec_lookup_tags(lines_of(*storage), one.drop_first()) =~= Seq::<TagV>::empty());
                    assert(spec_lookup_tags(lines_of(*storage), one) =~= seq![tv]);
                    assert(out@.map_values(|t2: Tag| t2@) =~= spec_lookup_tags(
                        lines_of(*storage),
                        idsv.subrange(0, i as int + 1),
                    ));
                }
            },
            None => {
                proof {
                    assert(spec_lookup_tag(lines_of(*storage), one[0]).is_none());
                    assert(spec_lookup_tags(lines_of(*storage), one.drop_first()) =~= Seq::<TagV>::empty());
                    assert(spec_lookup_tags(lines_of(*storage), one) =~= Seq::<TagV>::empty());
                    assert(out@.map_values(|t2: Tag| t2@) =~= spec_lookup_tags(
                        lines_of(*storage),
                        idsv.subrange(0, i as int + 1),
                    ));
                }
            },
        }
        i += 1;
    }
    proof {
        assert(idsv.subrange(0, n as int) =~= idsv);
    }
    out
}

/// A labelled running total of a transaction listing.
#[derive(Clone, Debug)]
pub struct Total {
    pub label: String,
    /// A sum of cents; wide enough that no listing can overflow it.
    pub value: i128,
}

/// Which transactions a listing keeps, by payment status.
#[derive(Clone, Copy, Debug, PartialEq, Eq, Structural)]
pub enum StatusFilter {
    FORPAY,
    PAID,
    ALL,
}

/// A transaction that a listing counts: it belongs to the account, was
/// not merged away, and passes the status and tag filters.
pub open spec fn tx_eligible(
    t: TransactionV,
    acc: Seq<char>,
    fs: StatusFilter,
    ftag: Option<TagV>,
) -> bool {
    &&& t.account matches Some(a) && a.uuid == acc
    &&& t.merged_in.len() == 0
    &&& !(t.paid_in is Some && fs == StatusFilter::FORPAY)
    &&& !(t.paid_in is None && fs == StatusFilter::PAID)
    &&& match ftag {
        Some(g) => exists|i: int| 0 <= i < t.tags.len() && (#[trigger] t.tags[i]).uuid == g.uuid,
        None => true,
    }
}

/// The deadline falls inside the listing period.
pub open spec fn tx_in_period(t: TransactionV, from: Date, to: Date) -> bool {
    crate::dates::date_key(from) <= crate::dates::date_key(t.deadline->Some_0)
        <= crate::dates::date_key(to)
}

/// A row the listing shows: an eligible one inside the period, or a
/// merged one inside the period when merged rows are asked for.
pub open spec fn tx_listed(
    t: TransactionV,
    acc: Seq<char>,
    from: Date,
    to: Date,
    fs: StatusFilter,
    ftag: Option<TagV>,
    show_mergeds: bool,
) -> bool {
    (tx_eligible(t, acc, fs, ftag) && tx_in_period(t, from, to)) || ((t.account matches Some(a)
        && a.uuid == acc) && t.merged_in.len() > 0 && show_mergeds && tx_in_period(t, from, to))
}

/// The listing's rows, in reading order, before sorting.
pub open spec fn filter_listed(
    ts: Seq<TransactionV>,
    acc: Seq<char>,
    from: Date,
    to: Date,
    fs: StatusFilter,
    ftag: Option<TagV>,
    show_mergeds: bool,
) -> Seq<TransactionV>
    decreases ts.len(),
{
    if ts.len() == 0 {
        Seq::empty()
    } else {
        let pre = filter_listed(ts.drop_last(), acc, from, to, fs, ftag, show_mergeds);
        if tx_listed(ts.last(), acc, from, to, fs, ftag, show_mergeds) {
            pre.push(ts.last())
        } else {
            pre
        }
    }
}

/// What one eligible transaction adds to the nine totals:
/// 0 expenses payable, 1 expenses, 2 transfers out, 3 incomes to receive,
/// 4 incomes, 5 transfers in, 6 previous balance, 7 expected balance,
/// 8 total balance.
pub open spec fn tot_add(a: Seq<int>, t: TransactionV, from: Date, to: Date) -> Seq<int> {
    let d = crate::dates::date_key(t.deadline->Some_0);
    let kf = crate::dates::date_key(from);
    let kt = crate::dates::date_key(to);
    let a = if t.paid_in is Some && d <= kt {
        a.update(8, a[8] + t.value)
    } else {
        a
    };
    let a = if t.paid_in is Some && d < kf {
        a.update(6, a[6] + t.value)
    } else {
        a
    };
    let a = if d <= kt {
        a.update(7, a[7] + t.value)
    } else {
        a
    };
    if kf <= d && d <= kt {
        if t.paid_in is Some {
            if t.transfer is Some {
                if t.value >= 0 {
                    a.update(5, a[5] + t.value)
                } else {
                    a.update(2, a[2] + t.value)
                }
            } else {
                if t.value >= 0 {
                    a.update(4, a[4] + t.value)
                } else {
                    a.update(1, a[1] + t.value)
                }
            }
        } else {
            if t.value >= 0 {
                a.update(3, a[3] + t.value)
            } else {
                a.update(0, a[0] + t.value)
            }
        }
    } else {
        a
    }
}

/// The nine totals of a listing over the rows read so far.
pub open spec fn totals_spec(
    ts: Seq<TransactionV>,
    acc: Seq<char>,
    from: Date,
    to: Date,
    fs: StatusFilter,
    ftag: Option<TagV>,
    open_balance: int,
) -> Seq<int>
    decreases ts.len(),
{
    if ts.len() == 0 {
        seq![0, 0, 0, 0, 0, 0, open_balance, open_balance, open_balance]
    } else {
        let pre = totals_spec(ts.drop_last(), acc, from, to, fs, ftag, open_balance);
        if tx_eligible(ts.last(), acc, fs, ftag) {
            tot_add(pre, ts.last(), from, to)
        } else {
            pre
        }
    }
}

/// Inserting into a deadline-sorted run: strictly-later rows move right,
/// so rows of one day keep their reading order.
pub open spec fn insert_sorted(x: TransactionV, s: Seq<TransactionV>) -> Seq<TransactionV>
    decreases s.len(),
{
    if s.len() == 0 {
        seq![x]
    } else if crate::dates::date_key(x.deadline->Some_0) < crate::dates::date_key(
        s[0].deadline->Some_0,
    ) {
        seq![x] + s
    } else {
        seq![s[0]] + insert_sorted(x, s.drop_first())
    }
}

/// The listing's rows sorted by deadline, stably.
pub open spec fn sort_txs(s: Seq<TransactionV>) -> Seq<TransactionV>
    decreases s.len(),
{
    if s.len() == 0 {
        Seq::empty()
    } else {
        insert_sorted(s.last(), sort_txs(s.drop_last()))
    }
}

/// What a successfully decoded row guarantees: core fields well-formed,
/// no transfer link resolved yet, and a counterparty reference present.
proof fn lemma_tx_decode_base_wf(row: PayloadV, uuid: Seq<char>, lv: Seq<LineV>)
    ensures
        match tx_decode_base(row, uuid, lv) {
            Some(v) => {
                &&& tx_core_wf(v)
                &&& v.transfer is None
                &&& text_field(row, "contact"@) is Some ==> v.contact is Some
                &&& text_field(row, "contact"@) is None ==> text_field(row, "transfer"@) is Some
                &&& text_field(row, "contact"@) is None ==> v.contact is None
            },
            None => true,
        },
{
}

/// ROUND TRIP for a plain transaction: a record with a contact, no
/// transfer link and no optional fields, written out and read back under
/// the store's assigned identifier, is the record again — provided the
/// referenced account and contact still resolve to the carried copies.
/// A record whose bank-statement memo comes without its id, or a pure
/// transfer, falls outside this statement.
#[verifier::rlimit(100)]
pub proof fn lemma_transaction_round_trip(lv: Seq<LineV>, v: TransactionV, assigned: Seq<char>)
    requires
        tx_wf(v),
        v.transfer is None,
        v.contact is Some,
        v.contact->Some_0.uuid.len() > 0,
        v.paid_in is None,
        v.updated_at.len() == 0,
        v.tags.len() == 0,
        v.observations.len() == 0,
        v.ofx_memo.len() == 0,
        v.ofx_fitid.len() == 0,
        v.merged_in.len() == 0,
        v.previous_repetition.len() == 0,
        assigned.len() == 0 || wf_uuid(assigned),
        spec_lookup_account(lv, v.account->Some_0.uuid) == Some(v.account->Some_0),
        spec_lookup_contact(lv, v.contact->Some_0.uuid) == Some(v.contact->Some_0),
    ensures
        spec_parse_payload(enc_payload(tx_payload(v))) == Some(tx_payload(v)),
        tx_decode(tx_payload(v), assigned, lv, true) == Some(TransactionV { uuid: assigned, ..v }),
{
    reveal_strlit("account");
    reveal_strlit("description");
    reveal_strlit("value");
    reveal_strlit("deadline");
    reveal_strlit("created_at");
    reveal_strlit("contact");
    reveal_strlit("transfer");
    reveal_strlit("paid_in");
    reveal_strlit("updated_at");
    reveal_strlit("tags");
    reveal_strlit("observations");
    reveal_strlit("ofx_memo");
    reveal_strlit("ofx_fitid");
    reveal_strlit("merged_in");
    reveal_strlit("previous_repetition");
    let p = tx_payload(v);
    let q0 = seq![
        ("account"@, ValV::Text(v.account->Some_0.uuid)),
        ("description"@, ValV::Text(v.description)),
        ("value"@, ValV::Amount(v.value)),
        ("deadline"@, ValV::Text(enc_date(v.deadline->Some_0))),
        ("created_at"@, ValV::Text(v.created_at)),
    ];
    let cp = ("contact"@, ValV::Text(v.contact->Some_0.uuid));
    assert(p == q0.push(cp));
    assert(p.len() == 6);
    assert(p[0].0 == "account"@);
    assert(p[1].0 == "description"@);
    assert(p[2].0 == "value"@);
    assert(p[3].0 == "deadline"@);
    assert(p[4].0 == "created_at"@);
    assert(p[5].0 == "contact"@);
    crate::payload::lemma_spec_get_at(p, "account"@, 0);
    assert(p[0].0 != "description"@);
    crate::payload::lemma_spec_get_at(p, "description"@, 1);
    assert(p[0].0 != "value"@);
    assert(p[1].0 != "value"@);
    crate::payload::lemma_spec_get_at(p, "value"@, 2);
    assert(p[0].0 != "deadline"@);
    assert(p[1].0 != "deadline"@);
    assert(p[2].0 != "deadline"@);
    crate::payload::lemma_spec_get_at(p, "deadline"@, 3);
    assert(p[0].0 != "created_at"@);
    assert(p[1].0 != "created_at"@);
    assert(p[2].0 != "created_at"@);
    assert(p[3].0 != "created_at"@);
    crate::payload::lemma_spec_get_at(p, "created_at"@, 4);
    assert(p[0].0 != "contact"@);
    assert(p[1].0 != "contact"@);
    assert(p[2].0 != "contact"@);
    assert(p[3].0 != "contact"@);
    assert(p[4].0 != "contact"@);
    crate::payload::lemma_spec_get_at(p, "contact"@, 5);
    assert(p[0].0 != "transfer"@);
    assert(p[1].0 != "transfer"@);
    assert(p[2].0 != "transfer"@);
    assert(p[3].0 != "transfer"@) by {
        assert("deadline"@[0] == 'd' && "transfer"@[0] == 't');
    }
    assert(p[4].0 != "transfer"@);
    assert(p[5].0 != "transfer"@);
    assert(forall|j: int| 0 <= j < p.len() ==> (#[trigger] p[j]).0 != "transfer"@);
    crate::payload::lemma_spec_get_none(p, "transfer"@);
    assert(p[0].0 != "paid_in"@);
    assert(p[1].0 != "paid_in"@);
    assert(p[2].0 != "paid_in"@);
    assert(p[3].0 != "paid_in"@);
    assert(p[4].0 != "paid_in"@);
    assert(p[5].0 != "paid_in"@) by {
        assert("contact"@[0] == 'c' && "paid_in"@[0] == 'p');
    }
    assert(forall|j: int| 0 <= j < p.len() ==> (#[trigger] p[j]).0 != "paid_in"@);
    crate::payload::lemma_spec_get_none(p, "paid_in"@);
    assert(p[0].0 != "updated_at"@);
    assert(p[1].0 != "updated_at"@);
    assert(p[2].0 != "updated_at"@);
    assert(p[3].0 != "updated_at"@);
    assert(p[4].0 != "updated_at"@) by {
        assert("created_at"@[0] == 'c' && "updated_at"@[0] == 'u');
    }
    assert(p[5].0 != "updated_at"@);
    assert(forall|j: int| 0 <= j < p.len() ==> (#[trigger] p[j]).0 != "updated_at"@);
    crate::payload::lemma_spec_get_none(p, "updated_at"@);
    assert(p[0].0 != "tags"@);
    assert(p[1].0 != "tags"@);
    assert(p[2].0 != "tags"@);
    assert(p[3].0 != "tags"@);
    assert(p[4].0 != "tags"@);
    assert(p[5].0 != "tags"@);
    assert(forall|j: int| 0 <= j < p.len() ==> (#[trigger] p[j]).0 != "tags"@);
    crate::payload::lemma_spec_get_none(p, "tags"@);
    assert(p[0].0 != "observations"@);
    assert(p[1].0 != "observations"@);
    assert(p[2].0 != "observations"@);
    assert(p[3].0 != "observations"@);
    assert(p[4].0 != "observations"@);
    assert(p[5].0 != "observations"@);
    assert(forall|j: int| 0 <= j < p.len() ==> (#[trigger] p[j]).0 != "observations"@);
    crate::payload::lemma_spec_get_none(p, "observations"@);
    assert(p[0].0 != "ofx_memo"@);
    assert(p[1].0 != "ofx_memo"@);
    assert(p[2].0 != "ofx_memo"@);
    assert(p[3].0 != "ofx_memo"@) by {
        assert("deadline"@[0] == 'd' && "ofx_memo"@[0] == 'o');
    }
    assert(p[4].0 != "ofx_memo"@);
    assert(p[5].0 != "ofx_memo"@);
    assert(forall|j: int| 0 <= j < p.len() ==> (#[trigger] p[j]).0 != "ofx_memo"@);
    crate::payload::lemma_spec_get_none(p, "ofx_memo"@);
    assert(p[0].0 != "ofx_fitid"@);
    assert(p[1].0 != "ofx_fitid"@);
    assert(p[2].0 != "ofx_fitid"@);
    assert(p[3].0 != "ofx_fitid"@);
    assert(p[4].0 != "ofx_fitid"@);
    assert(p[5].0 != "ofx_fitid"@);
    assert(forall|j: int| 0 <= j < p.len() ==> (#[trigger] p[j]).0 != "ofx_fitid"@);
    crate::payload::lemma_spec_get_none(p, "ofx_fitid"@);
    assert(p[0].0 != "merged_in"@);
    assert(p[1].0 != "merged_in"@);
    assert(p[2].0 != "merged_in"@);
    assert(p[3].0 != "merged_in"@);
    assert(p[4].0 != "merged_in"@);
    assert(p[5].0 != "merged_in"@);
    assert(forall|j: int| 0 <= j < p.len() ==> (#[trigger] p[j]).0 != "merged_in"@);
    crate::payload::lemma_spec_get_none(p, "merged_in"@);
    assert(p[0].0 != "previous_repetition"@);
    assert(p[1].0 != "previous_repetition"@);
    assert(p[2].0 != "previous_repetition"@);
    assert(p[3].0 != "previous_repetition"@);
    assert(p[4].0 != "previous_repetition"@);
    assert(p[5].0 != "previous_repetition"@);
    assert(forall|j: int| 0 <= j < p.len() ==> (#[trigger] p[j]).0 != "previous_repetition"@);
    crate::payload::lemma_spec_get_none(p, "previous_repetition"@);
    assert(crate::payload::wf_payload(p)) by {
        assert forall|i: int| 0 <= i < p.len() implies crate::payload::wf_val(
            #[trigger] p[i].1,
        ) by {
            if i == 2 {
                assert(p[i].1 == ValV::Amount(v.value));
            } else if i == 0 {
                assert(p[i].1 == ValV::Text(v.account->Some_0.uuid));
            } else if i == 1 {
                assert(p[i].1 == ValV::Text(v.description));
            } else if i == 3 {
                assert(p[i].1 == ValV::Text(enc_date(v.deadline->Some_0)));
            } else if i == 4 {
                assert(p[i].1 == ValV::Text(v.created_at));
            } else {
                assert(p[i].1 == ValV::Text(v.contact->Some_0.uuid));
            }
        }
    }
    crate::payload::lemma_parse_payload_enc(p);
    crate::dates::lemma_parse_date_enc(v.deadline->Some_0);
    let base = tx_decode_base(p, assigned, lv);
    assert(base is Some);
    let bv = base->Some_0;
    let w = TransactionV { uuid: assigned, ..v };
    assert(bv.uuid == w.uuid);
    assert(bv.account == w.account);
    assert(bv.contact == w.contact);
    assert(bv.description == w.description);
    assert(bv.value == w.value);
    assert(bv.deadline == w.deadline);
    assert(bv.paid_in == w.paid_in);
    assert(bv.created_at == w.created_at);
    assert(bv.updated_at =~= w.updated_at);
    assert(bv.transfer == w.transfer);
    assert(bv.tags =~= w.tags);
    assert(bv.observations =~= w.observations);
    assert(bv.ofx_memo =~= w.ofx_memo);
    assert(bv.ofx_fitid =~= w.ofx_fitid);
    assert(bv.merged_in =~= w.merged_in);
    assert(bv.previous_repetition =~= w.previous_repetition);
    assert(bv == w);
    assert(text_field(p, "transfer"@) is None);
    assert(tx_decode(p, assigned, lv, true) == Some(w));
}

/// Every value of a transaction payload is admissible; amounts stay in
/// range.
proof fn lemma_tx_payload_wf_all(v: TransactionV)
    requires
        -MAX_CENTS <= v.value <= MAX_CENTS,
    ensures
        wf_payload(tx_payload(v)),
{
    let q0 = seq![
        ("account"@, ValV::Text(v.account->Some_0.uuid)),
        ("description"@, ValV::Text(v.description)),
        ("value"@, ValV::Amount(v.value)),
        ("deadline"@, ValV::Text(enc_date(v.deadline->Some_0))),
        ("created_at"@, ValV::Text(v.created_at)),
    ];
    assert(wf_payload(q0)) by {
        assert forall|i: int| 0 <= i < q0.len() implies crate::payload::wf_val(
            #[trigger] q0[i].1,
        ) by {
            if i == 2 {
                assert(q0[i].1 == ValV::Amount(v.value));
            } else if i == 0 {
                assert(q0[i].1 == ValV::Text(v.account->Some_0.uuid));
            } else if i == 1 {
                assert(q0[i].1 == ValV::Text(v.description));
            } else if i == 3 {
                assert(q0[i].1 == ValV::Text(enc_date(v.deadline->Some_0)));
            } else {
                assert(q0[i].1 == ValV::Text(v.created_at));
            }
        }
    }
    let q1 = if v.paid_in is Some {
        crate::payload::lemma_wf_payload_push(
            q0,
            ("paid_in"@, ValV::Text(enc_date(v.paid_in->Some_0))),
        );
        q0.push(("paid_in"@, ValV::Text(enc_date(v.paid_in->Some_0))))
    } else {
        q0
    };
    let q2 = if v.updated_at.len() > 0 {
        crate::payload::lemma_wf_payload_push(q1, ("updated_at"@, ValV::Text(v.updated_at)));
        q1.push(("updated_at"@, ValV::Text(v.updated_at)))
    } else {
        q1
    };
    let q3 = if v.contact is Some {
        crate::payload::lemma_wf_payload_push(
            q2,
            ("contact"@, ValV::Text(v.contact->Some_0.uuid)),
        );
        q2.push(("contact"@, ValV::Text(v.contact->Some_0.uuid)))
    } else {
        q2
    };
    let q4 = if v.transfer is Some {
        crate::payload::lemma_wf_payload_push(
            q3,
            ("transfer"@, ValV::Text(v.transfer->Some_0.uuid)),
        );
        q3.push(("transfer"@, ValV::Text(v.transfer->Some_0.uuid)))
    } else {
        q3
    };
    let q5 = if v.tags.len() > 0 {
        crate::payload::lemma_wf_payload_push(
            q4,
            ("tags"@, ValV::List(v.tags.map_values(|t: TagV| t.uuid))),
        );
        q4.push(("tags"@, ValV::List(v.tags.map_values(|t: TagV| t.uuid))))
    } else {
        q4
    };
    let q6 = if v.observations.len() > 0 {
        crate::payload::lemma_wf_payload_push(q5, ("observations"@, ValV::Text(v.observations)));
        q5.push(("observations"@, ValV::Text(v.observations)))
    } else {
        q5
    };
    let q7 = if v.ofx_memo.len() > 0 && v.ofx_fitid.len() > 0 {
        crate::payload::lemma_wf_payload_push(q6, ("ofx_memo"@, ValV::Text(v.ofx_memo)));
        crate::payload::lemma_wf_payload_push(
            q6.push(("ofx_memo"@, ValV::Text(v.ofx_memo))),
            ("ofx_fitid"@, ValV::Text(v.ofx_fitid)),
        );
        q6.push(("ofx_memo"@, ValV::Text(v.ofx_memo))).push(
            ("ofx_fitid"@, ValV::Text(v.ofx_fitid)),
        )
    } else {
        q6
    };
    let q8 = if v.merged_in.len() > 0 {
        crate::payload::lemma_wf_payload_push(q7, ("merged_in"@, ValV::Text(v.merged_in)));
        q7.push(("merged_in"@, ValV::Text(v.merged_in)))
    } else {
        q7
    };
    let q9 = if v.previous_repetition.len() > 0 {
        crate::payload::lemma_wf_payload_push(
            q8,
            ("previous_repetition"@, ValV::Text(v.previous_repetition)),
        );
        q8.push(("previous_repetition"@, ValV::Text(v.previous_repetition)))
    } else {
        q8
    };
    assert(tx_payload(v) == q9);
}

} // verus!

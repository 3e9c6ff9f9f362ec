//! Categorization rules for imported rows: when a stored term occurs in a
//! transaction's description (case-insensitively), the rule's description,
//! contact and tags replace the transaction's own.

use vstd::prelude::*;
use crate::model::{Model, row_decode, row_run, decode_run};
use crate::payload::{Payload, PayloadV, PValue, ValV, spec_get, wf_payload, enc_payload};
use crate::storage::{
    Storage, Data, StoreError, lines_of, index_of, wf_store, has_section, section_pos, find_found,
    find_pos, scan_all, short_id_of,
};
use crate::lines::{LineV, wf_uuid, uuid_ok};
use crate::numtext::MAX_CENTS;
use crate::text::{to_chars, from_chars};
use crate::contacts::{Contact, ContactV};
use crate::tags::{Tag, TagV};
use crate::transactions::{Transaction, TransactionV, tx_view, text_field, spec_lookup_contact,
    spec_lookup_tags};

verus! {

/// A categorization rule.
#[derive(Debug)]
pub struct Rule {
    pub uuid: String,
    pub term: String,
    /// When set, the rule fires only on this exact amount, in cents.
    pub expected_value: Option<i64>,
    pub description: String,
    pub contact: Option<Contact>,
    pub tags: Vec<Tag>,
}

/// The mathematical shape of a rule.
pub struct RuleV {
    pub uuid: Seq<char>,
    pub term: Seq<char>,
    pub expected_value: Option<int>,
    pub description: Seq<char>,
    pub contact: Option<ContactV>,
    pub tags: Seq<TagV>,
}

impl View for Rule {
    type V = RuleV;

    open spec fn view(&self) -> RuleV {
        RuleV {
            uuid: self.uuid@,
            term: self.term@,
            expected_value: match self.expected_value {
                Some(v) => Some(v as int),
                None => None,
            },
            description: self.description@,
            contact: match self.contact {
                Some(c) => Some(c@),
                None => None,
            },
            tags: self.tags@.map_values(|t: Tag| t@),
        }
    }
}

/// A rule the store accepts.
pub open spec fn rule_wf(v: RuleV) -> bool {
    &&& v.uuid.len() == 0 || wf_uuid(v.uuid)
    &&& match v.expected_value {
        Some(ev) => -MAX_CENTS <= ev <= MAX_CENTS,
        None => true,
    }
}

/// Decoding a rule row: `term` and `description` are required; the
/// expected value, the contact reference and the tag references are
/// optional, and a named contact must exist.
pub open spec fn rule_decode(row: PayloadV, uuid: Seq<char>, lv: Seq<LineV>) -> Option<RuleV> {
    if uuid.len() == 0 || wf_uuid(uuid) {
        match (spec_get(row, "term"@), spec_get(row, "description"@)) {
            (Some(ValV::Text(term)), Some(ValV::Text(desc))) => {
                let ev = match spec_get(row, "expected_value"@) {
                    Some(ValV::Amount(m)) => Some(m),
                    _ => None,
                };
                if (spec_get(row, "expected_value"@) matches Some(v) && !(v matches
                ValV::Amount(_))) {
                    None
                } else if (ev matches Some(m) && !(-MAX_CENTS <= m <= MAX_CENTS)) {
                    None
                } else {
                    let contact = match text_field(row, "contact"@) {
                        Some(cid) => spec_lookup_contact(lv, cid),
                        None => None,
                    };
                    if (text_field(row, "contact"@) is Some && contact is None) {
                        None
                    } else {
                        Some(
                            RuleV {
                                uuid: uuid,
                                term: term,
                                expected_value: ev,
                                description: desc,
                                contact: contact,
                                tags: match spec_get(row, "tags"@) {
                                    Some(ValV::List(ids)) => spec_lookup_tags(lv, ids),
                                    _ => Seq::empty(),
                                },
                            },
                        )
                    }
                }
            },
            _ => None,
        }
    } else {
        None
    }
}

/// Encoding a rule.
pub open spec fn rule_enc(v: RuleV) -> (Seq<char>, bool, PayloadV) {
    (v.uuid, v.uuid.len() == 0, rule_payload(v))
}

/// The payload a rule writes: term and description, then the optional
/// contact, expected value and tags.
pub open spec fn rule_payload(v: RuleV) -> PayloadV {
    let p = seq![("term"@, ValV::Text(v.term)), ("description"@, ValV::Text(v.description))];
    let p = if v.contact is Some {
        p.push(("contact"@, ValV::Text(v.contact->Some_0.uuid)))
    } else {
        p
    };
    let p = if v.expected_value is Some {
        p.push(("expected_value"@, ValV::Amount(v.expected_value->Some_0)))
    } else {
        p
    };
    if v.tags.len() > 0 {
        p.push(("tags"@, ValV::List(v.tags.map_values(|t: TagV| t.uuid))))
    } else {
        p
    }
}

impl Model for Rule {
    open spec fn wf(self) -> bool {
        rule_wf(self@)
    }

    open spec fn decode_spec(row: PayloadV, uuid: Seq<char>, store: Storage, can_recursive: bool) -> Option<RuleV> {
        rule_decode(row, uuid, lines_of(store))
    }

    open spec fn enc_spec(v: RuleV) -> (Seq<char>, bool, PayloadV) {
        rule_enc(v)
    }

    fn new(row: Payload, uuid: String, storage: &Storage, _can_recursive: bool) -> (r: Result<
        Rule,
        StoreError,
    >) {
        if !uuid_ok(uuid.as_str()) {
            return Err(StoreError::Malformed);
        }
        let term = match row.get("term") {
            Some(PValue::Text(t)) => t.clone(),
            Some(_) => {
                return Err(StoreError::Malformed);
            },
            None => {
                return Err(StoreError::MissingField);
            },
        };
        let description = match row.get("description") {
            Some(PValue::Text(d)) => d.clone(),
            Some(_) => {
                return Err(StoreError::Malformed);
            },
            None => {
                return Err(StoreError::MissingField);
            },
        };
        let expected_value = match row.get("expected_value") {
            Some(PValue::Amount(m)) => {
                if *m < -MAX_CENTS || *m > MAX_CENTS {
                    return Err(StoreError::Malformed);
                }
                Some(*m)
            },
            Some(_) => {
                return Err(StoreError::Malformed);
            },
            None => None,
        };
        let contact = match crate::transactions::get_text_field(&row, "contact") {
            Some(cid) => {
                match crate::transactions::lookup_contact(storage, cid.as_str()) {
                    Some(c) => Some(c),
                    None => {
                        return Err(StoreError::NotFound);
                    },
                }
            },
            None => None,
        };
        let tags = match row.get("tags") {
            Some(PValue::List(ids)) => crate::transactions::lookup_tags(storage, ids),
            _ => Vec::new(),
        };
        let r = Rule { uuid, term, expected_value, description, contact, tags };
        proof {
            let s = rule_decode(row@, r@.uuid, lines_of(*storage));
            assert(s is Some);
            let sv = s->Some_0;
            assert(sv.uuid == r@.uuid);
            assert(sv.term == r@.term);
            assert(sv.expected_value == r@.expected_value);
            assert(sv.description == r@.description);
            assert(sv.contact == r@.contact);
            assert(sv.tags == r@.tags);
            assert(rule_decode(row@, r@.uuid, lines_of(*storage)) == Some(r@));
        }
        Ok(r)
    }

    fn to_save(self) -> (r: (String, bool, Payload)) {
        let ghost vv = self@;
        let is_new = self.uuid.as_str().is_empty();
        let mut p = Payload::new();
        p.add_text("term", self.term);
        p.add_text("description", self.description);
        if let Some(c) = self.contact {
            p.add_text("contact", c.uuid);
        }
        if let Some(ev) = self.expected_value {
            p.add_amount("expected_value", ev);
        }
        if self.tags.len() > 0 {
            let mut ids: Vec<String> = Vec::new();
            let n = self.tags.len();
            let mut i: usize = 0;
            while i < n
                invariant
                    i <= n,
                    n == self.tags@.len(),
                    ids@.len() == i,
                    forall|k: int| 0 <= k < i ==> (#[trigger] ids@[k])@ == self.tags@[k]@.uuid,
                decreases n - i,
            {
                ids.push(self.tags[i].uuid.clone());
                i += 1;
            }
            proof {
                let lhs = ids@.map_values(|x: String| x@);
                let rhs = vv.tags.map_values(|t: TagV| t.uuid);
                assert(vv.tags.len() == n);
                assert forall|k: int| 0 <= k < n implies lhs[k] == rhs[k] by {
                    assert(lhs[k] == ids@[k]@);
                    assert(rhs[k] == vv.tags[k].uuid);
                    assert(vv.tags[k] == self.tags@[k]@);
                }
                assert(lhs =~= rhs);
                assert(lhs == rhs);
            }
            p.add_list("tags", ids);
        }
        proof {
            assert(p@ =~= rule_payload(vv));
            assert forall|i: int| 0 <= i < p@.len() implies crate::payload::wf_val(
                #[trigger] p@[i].1,
            ) by {
                let q = rule_payload(vv);
                match q[i].1 {
                    ValV::Amount(m) => {
                        assert(m == vv.expected_value->Some_0);
                    },
                    _ => {},
                }
            }
        }
        (self.uuid, is_new, p)
    }
}

/// The haystack holds the needle somewhere.
pub open spec fn contains_sub(h: Seq<char>, n: Seq<char>) -> bool {
    exists|i: int|
        0 <= i && i + n.len() <= h.len() && #[trigger] h.subrange(i, i + n.len() as int) == n
}

/// Substring search over characters.
fn contains_chars(h: &[char], n: &[char]) -> (r: bool)
    ensures
        r == contains_sub(h@, n@),
{
    let hn = h.len();
    let nn = n.len();
    if nn > hn {
        return false;
    }
    let mut i: usize = 0;
    while i <= hn - nn
        invariant
            nn <= hn,
            hn == h@.len(),
            nn == n@.len(),
            i <= hn - nn + 1,
            forall|k: int| 0 <= k < i ==> #[trigger] h@.subrange(k, k + n@.len() as int) != n@,
        decreases hn - nn + 1 - i,
    {
        let mut j: usize = 0;
        let mut all = true;
        while j < nn
            invariant
                j <= nn,
                i + nn <= hn,
                hn == h@.len(),
                nn == n@.len(),
                all == (forall|k: int| 0 <= k < j ==> h@[i + k] == n@[k]),
            decreases nn - j,
        {
            if h[i + j] != n[j] {
                proof {
                    assert(h@[i + j as int] != n@[j as int]);
                }
                all = false;
                j = nn;
            } else {
                proof {
                    assert(h@[i + j as int] == n@[j as int]);
                }
                j += 1;
            }
        }
        if all {
            proof {
                assert(h@.subrange(i as int, i + n@.len() as int) =~= n@);
            }
            return true;
        }
        proof {
            if h@.subrange(i as int, i + n@.len() as int) == n@ {
                assert(forall|k: int|
                    0 <= k < n@.len() ==> h@.subrange(i as int, i + n@.len() as int)[k] == n@[k]);
                assert(forall|k: int| 0 <= k < n@.len() ==> h@[i + k] == n@[k]);
                assert(false);
            }
        }
        i += 1;
    }
    false
}

/// The lower-case form of a text, named: it depends on the characters
/// alone.
pub uninterp spec fn lower_of(s: Seq<char>) -> Seq<char>;

/// Relies on str::to_lowercase: the Unicode lower-case mapping of the
/// characters, a function of the text alone.
#[verifier::external_body]
fn lowercase(s: &str) -> (r: String)
    ensures
        r@ == lower_of(s@),
{
    s.to_lowercase()
}

/// Whether a rule fires on a transaction: its term occurs in the
/// description, case-insensitively, and the expected amount, when set,
/// matches exactly.
pub open spec fn rule_applies(rl: RuleV, t: TransactionV) -> bool {
    &&& contains_sub(lower_of(t.description), lower_of(rl.term))
    &&& match rl.expected_value {
        Some(ev) => ev == t.value,
        None => true,
    }
}

/// The first rule of the list that fires, or the list's length.
pub open spec fn first_applying(rs: Seq<RuleV>, t: TransactionV, i: int) -> int
    decreases rs.len() - i when 0 <= i <= rs.len()
{
    if i >= rs.len() {
        rs.len() as int
    } else if rule_applies(rs[i], t) {
        i
    } else {
        first_applying(rs, t, i + 1)
    }
}

impl Rule {
    /// The short display form of this rule's identifier.
    pub fn id(self) -> (r: String)
        requires
            self.uuid@.len() >= 36,
        ensures
            r@ == short_id_of(self.uuid@),
    {
        Data::uuid_to_id(self.uuid)
    }

    /// All rules, newest first.
    pub fn get_rules(storage: &mut Storage) -> (r: Vec<Rule>)
        requires
            wf_store(*old(storage)),
        ensures
            ({
                let lv = lines_of(*final(storage));
                &&& wf_store(*final(storage))
                &&& index_of(*final(storage)) == index_of(*old(storage))
                &&& final(storage).index == old(storage).index
                &&& has_section(lv, "rules"@)
                &&& (has_section(lines_of(*old(storage)), "rules"@) ==> *final(storage) == *old(
                    storage,
                ))
                &&& if has_section(lines_of(*old(storage)), "rules"@) {
                    lv == lines_of(*old(storage))
                } else {
                    lv == lines_of(*old(storage)) + seq![
                        LineV::Blank(Seq::<char>::empty()),
                        LineV::Marker("rules"@),
                    ]
                }
                &&& r@.map_values(|m: Rule| m@) == decode_run(
                    row_run(lv, section_pos(lv, "rules"@) + 1),
                    |u: Seq<char>, p: Seq<char>| row_decode::<Rule>(u, p, *final(storage), true),
                )
                &&& forall|i: int| 0 <= i < r@.len() ==> rule_wf((#[trigger] r@[i])@)
            }),
    {
        proof {
            reveal_strlit("rules");
        }
        storage.start_section("rules".to_owned());
        let mut data = storage.get_section_data("rules".to_owned());
        proof {
            crate::storage::lemma_first_marker(lines_of(*storage), "rules"@, 0);
        }
        data.read_all::<Rule>(storage)
    }

    /// The rule of an identifier (full or short form), if it exists.
    pub fn get_rule(storage: &mut Storage, uuid: String) -> (r: Result<Rule, StoreError>)
        requires
            wf_store(*old(storage)),
        ensures
            wf_store(*final(storage)),
            index_of(*final(storage)) == index_of(*old(storage)),
            has_section(lines_of(*final(storage)), "rules"@),
            has_section(lines_of(*old(storage)), "rules"@) ==> *final(storage) == *old(storage),
            ({
                let lv = lines_of(*final(storage));
                &&& if has_section(lines_of(*old(storage)), "rules"@) {
                    lv == lines_of(*old(storage))
                } else {
                    lv == lines_of(*old(storage)) + seq![
                        LineV::Blank(Seq::<char>::empty()),
                        LineV::Marker("rules"@),
                    ]
                }
                &&& if find_found(lv, "rules"@, uuid@) {
                    match lv[find_pos(lv, "rules"@, uuid@) + 1] {
                        LineV::Row(u, p) => match row_decode::<Rule>(u, p, *final(storage), true) {
                            Some(v) => r matches Ok(m) && m@ == v && rule_wf(m@),
                            None => r matches Err(_),
                        },
                        _ => r matches Err(_),
                    }
                } else {
                    r matches Err(e) && e == StoreError::NotFound
                }
            }),
    {
        proof {
            reveal_strlit("rules");
        }
        storage.start_section("rules".to_owned());
        let mut data = storage.get_section_data("rules".to_owned());
        data.find_one::<Rule>(storage, uuid.as_str())
    }

    /// Saves a rule.
    pub fn store_rule(storage: &mut Storage, rule: Rule)
        requires
            wf_store(*old(storage)),
            rule_wf(rule@),
        ensures
            ({
                let lv0 = lines_of(*old(storage));
                let lv = if has_section(lv0, "rules"@) {
                    lv0
                } else {
                    lv0 + seq![LineV::Blank(Seq::<char>::empty()), LineV::Marker("rules"@)]
                };
                let e = rule_enc(rule@);
                let text = enc_payload(e.2);
                &&& wf_store(*final(storage))
                &&& index_of(*final(storage)) == index_of(*old(storage))
                &&& if e.1 {
                    exists|u: Seq<char>|
                        wf_uuid(u) && lines_of(*final(storage)) == lv.insert(
                            section_pos(lv, "rules"@) + 1,
                            LineV::Row(u, text),
                        )
                } else {
                    match scan_all(lv, 0, e.0) {
                        Some(j) => lines_of(*final(storage)) == lv.update(
                            j,
                            LineV::Row(e.0, text),
                        ),
                        None => lines_of(*final(storage)) == lv,
                    }
                }
            }),
    {
        proof {
            reveal_strlit("rules");
        }
        storage.start_section("rules".to_owned());
        let mut data = storage.get_section_data("rules".to_owned());
        let u = data.save::<Rule>(storage, rule);
        proof {
            if rule_enc(rule@).1 {
                assert(wf_uuid(u@));
            }
        }
    }

    /// Removes the row of an identifier, anywhere in the file.
    pub fn remove_rule(storage: &mut Storage, uuid: String)
        requires
            wf_store(*old(storage)),
        ensures
            ({
                let lv0 = lines_of(*old(storage));
                let lv = if has_section(lv0, "rules"@) {
                    lv0
                } else {
                    lv0 + seq![LineV::Blank(Seq::<char>::empty()), LineV::Marker("rules"@)]
                };
                &&& wf_store(*final(storage))
                &&& index_of(*final(storage)) == index_of(*old(storage))
                &&& match scan_all(lv, 0, uuid@) {
                    Some(j) => lines_of(*final(storage)) == lv.remove(j),
                    None => lines_of(*final(storage)) == lv,
                }
            }),
    {
        proof {
            reveal_strlit("rules");
        }
        storage.start_section("rules".to_owned());
        let data = storage.get_section_data("rules".to_owned());
        data.remove_by_id(storage, uuid.as_str());
    }

    /// Applies the first matching rule to the transaction: its description,
    /// contact and tags replace the transaction's own. Reports whether any
    /// rule fired.
    pub fn apply_rules(storage: &mut Storage, transaction: &mut Transaction) -> (r: bool)
        requires
            wf_store(*old(storage)),
        ensures
            wf_store(*final(storage)),
            index_of(*final(storage)) == index_of(*old(storage)),
            ({
                let lv = lines_of(*final(storage));
                let rs = decode_run(
                    row_run(lv, section_pos(lv, "rules"@) + 1),
                    |u: Seq<char>, p: Seq<char>| row_decode::<Rule>(u, p, *final(storage), true),
                );
                let k = first_applying(rs, (*old(transaction))@, 0);
                &&& r == (k < rs.len())
                &&& if k < rs.len() {
                    (*final(transaction))@ == TransactionV {
                        description: rs[k].description,
                        contact: rs[k].contact,
                        tags: rs[k].tags,
                        ..(*old(transaction))@
                    }
                } else {
                    *final(transaction) == *old(transaction)
                }
            }),
    {
        let rules = Rule::get_rules(storage);
        let ghost st1 = *storage;
        let ghost rs = rules@.map_values(|m: Rule| m@);
        let ghost ot = (*old(transaction))@;
        let desc_lower = lowercase(transaction.description.as_str());
        let dl = to_chars(desc_lower.as_str());
        let n = rules.len();
        let mut i: usize = 0;
        proof {
            assert(dl@ == lower_of(ot.description));
        }
        while i < n
            invariant
                i <= n,
                n == rules@.len(),
                rs.len() == n,
                *storage == st1,
                wf_store(st1),
                index_of(st1) == index_of(*old(storage)),
                rs == decode_run(
                    row_run(lines_of(st1), section_pos(lines_of(st1), "rules"@) + 1),
                    |u: Seq<char>, p: Seq<char>| row_decode::<Rule>(u, p, st1, true),
                ),
                forall|q: int| 0 <= q < n ==> (#[trigger] rules@[q])@ == rs[q],
                *transaction == *old(transaction),
                dl@ == lower_of(ot.description),
                ot == (*old(transaction))@,
                forall|q: int| 0 <= q < i ==> !rule_applies(#[trigger] rs[q], ot),
                first_applying(rs, ot, 0) == first_applying(rs, ot, i as int),
            decreases n - i,
        {
            let term_lower = lowercase(rules[i].term.as_str());
            let tl = to_chars(term_lower.as_str());
            let hit = contains_chars(dl.as_slice(), tl.as_slice());
            let value_ok = match rules[i].expected_value {
                Some(ev) => ev == transaction.value,
                None => true,
            };
            proof {
                assert(tl@ == lower_of(rs[i as int].term));
                assert((hit && value_ok) == rule_applies(rs[i as int], ot));
            }
            if hit && value_ok {
                let rule = &rules[i];
                transaction.description = rule.description.clone();
                transaction.contact = match &rule.contact {
                    Some(c) => Some(c.duplicate()),
                    None => None,
                };
                transaction.tags = crate::transactions::dup_tags(&rule.tags);
                proof {
                    assert(first_applying(rs, ot, i as int) == i as int);
                    assert(transaction@.tags =~= rs[i as int].tags);
                    assert(transaction@ == TransactionV {
                        description: rs[i as int].description,
                        contact: rs[i as int].contact,
                        tags: rs[i as int].tags,
                        ..ot
                    });
                }
                return true;
            }
            i += 1;
        }
        false
    }
}

} // verus!

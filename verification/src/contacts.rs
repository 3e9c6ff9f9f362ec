//! Contacts: the people and places money moves to and from.

use vstd::prelude::*;
use crate::model::{Model, row_decode, row_run, decode_run};
use crate::payload::{Payload, PayloadV, PValue, ValV, spec_get, wf_payload, enc_payload};
use crate::storage::{
    Storage, Data, StoreError, lines_of, index_of, wf_store, has_section, section_pos, find_found,
    find_pos, scan_all,
};
use crate::lines::{LineV, wf_uuid, uuid_ok};

verus! {

/// A contact.
#[derive(Clone, Debug)]
pub struct Contact {
    pub uuid: String,
    pub name: String,
    pub city_location: String,
}

/// The mathematical shape of a contact.
pub struct ContactV {
    pub uuid: Seq<char>,
    pub name: Seq<char>,
    pub city_location: Seq<char>,
}

impl View for Contact {
    type V = ContactV;

    open spec fn view(&self) -> ContactV {
        ContactV { uuid: self.uuid@, name: self.name@, city_location: self.city_location@ }
    }
}

/// A contact the store accepts.
pub open spec fn contact_wf(v: ContactV) -> bool {
    v.uuid.len() == 0 || wf_uuid(v.uuid)
}

/// Decoding a contact row: `name` and `city_location` are required.
pub open spec fn contact_decode(row: PayloadV, uuid: Seq<char>) -> Option<ContactV> {
    if uuid.len() == 0 || wf_uuid(uuid) {
        match (spec_get(row, "name"@), spec_get(row, "city_location"@)) {
            (Some(ValV::Text(n)), Some(ValV::Text(c))) => Some(
                ContactV { uuid: uuid, name: n, city_location: c },
            ),
            _ => None,
        }
    } else {
        None
    }
}

/// Encoding a contact.
pub open spec fn contact_enc(v: ContactV) -> (Seq<char>, bool, PayloadV) {
    (
        v.uuid,
        v.uuid.len() == 0,
        seq![("name"@, ValV::Text(v.name)), ("city_location"@, ValV::Text(v.city_location))],
    )
}

impl Model for Contact {
    open spec fn wf(self) -> bool {
        contact_wf(self@)
    }

    open spec fn decode_spec(row: PayloadV, uuid: Seq<char>, store: Storage, can_recursive: bool) -> Option<ContactV> {
        contact_decode(row, uuid)
    }

    open spec fn enc_spec(v: ContactV) -> (Seq<char>, bool, PayloadV) {
        contact_enc(v)
    }

    fn new(row: Payload, uuid: String, _storage: &Storage, _can_recursive: bool) -> (r: Result<
        Contact,
        StoreError,
    >) {
        if !uuid_ok(uuid.as_str()) {
            return Err(StoreError::Malformed);
        }
        let name = match row.get("name") {
            Some(PValue::Text(n)) => n.clone(),
            Some(_) => {
                return Err(StoreError::Malformed);
            },
            None => {
                return Err(StoreError::MissingField);
            },
        };
        match row.get("city_location") {
            Some(PValue::Text(c)) => Ok(Contact { uuid, name, city_location: c.clone() }),
            Some(_) => Err(StoreError::Malformed),
            None => Err(StoreError::MissingField),
        }
    }

    fn to_save(self) -> (r: (String, bool, Payload)) {
        let is_new = self.uuid.as_str().is_empty();
        let mut p = Payload::new();
        let ghost nv = self.name@;
        let ghost cv = self.city_location@;
        p.add_text("name", self.name);
        p.add_text("city_location", self.city_location);
        proof {
            assert(p@ =~= seq![("name"@, ValV::Text(nv)), ("city_location"@, ValV::Text(cv))]);
            assert forall|i: int| 0 <= i < p@.len() implies crate::payload::wf_val(
                #[trigger] p@[i].1,
            ) by {
                if i == 0 {
                    assert(p@[i].1 == ValV::Text(nv));
                } else {
                    assert(p@[i].1 == ValV::Text(cv));
                }
            }
        }
        (self.uuid, is_new, p)
    }
}

/// Writing a contact out and reading it back yields the contact, under
/// whatever identifier the store assigned.
pub proof fn lemma_contact_round_trip(v: ContactV, assigned: Seq<char>)
    requires
        contact_wf(v),
        assigned.len() == 0 || wf_uuid(assigned),
    ensures
        ({
            let e = contact_enc(v);
            &&& crate::payload::spec_parse_payload(enc_payload(e.2)) == Some(e.2)
            &&& contact_decode(e.2, assigned) == Some(
                ContactV { uuid: assigned, name: v.name, city_location: v.city_location },
            )
        }),
{
    let e = contact_enc(v);
    assert(wf_payload(e.2)) by {
        assert forall|i: int| 0 <= i < e.2.len() implies crate::payload::wf_val(
            #[trigger] e.2[i].1,
        ) by {
            if i == 0 {
                assert(e.2[i].1 == ValV::Text(v.name));
            } else {
                assert(e.2[i].1 == ValV::Text(v.city_location));
            }
        }
    }
    crate::payload::lemma_parse_payload_enc(e.2);
    reveal_strlit("name");
    reveal_strlit("city_location");
    assert("name"@.len() == 4);
    assert("city_location"@.len() == 13);
    assert("name"@ != "city_location"@);
    assert(spec_get(e.2, "name"@) == Some(ValV::Text(v.name)));
    assert(e.2.drop_first() =~= seq![("city_location"@, ValV::Text(v.city_location))]);
    assert(spec_get(e.2.drop_first(), "city_location"@) == Some(ValV::Text(v.city_location)));
    assert(spec_get(e.2, "city_location"@) == Some(ValV::Text(v.city_location)));
}

impl Contact {
    /// All contacts, newest first.
    pub fn get_contacts(storage: &mut Storage) -> (r: Vec<Contact>)
        requires
            wf_store(*old(storage)),
        ensures
            ({
                let lv = lines_of(*final(storage));
                &&& wf_store(*final(storage))
                &&& index_of(*final(storage)) == index_of(*old(storage))
                &&& final(storage).index == old(storage).index
                &&& has_section(lv, "contacts"@)
                &&& (has_section(lines_of(*old(storage)), "contacts"@) ==> *final(storage)
                    == *old(storage))
                &&& if has_section(lines_of(*old(storage)), "contacts"@) {
                    lv == lines_of(*old(storage))
                } else {
                    lv == lines_of(*old(storage)) + seq![
                        LineV::Blank(Seq::<char>::empty()),
                        LineV::Marker("contacts"@),
                    ]
                }
                &&& r@.map_values(|m: Contact| m@) == decode_run(
                    row_run(lv, section_pos(lv, "contacts"@) + 1),
                    |u: Seq<char>, p: Seq<char>| row_decode::<Contact>(
                        u,
                        p,
                        *final(storage),
                        true,
                    ),
                )
                &&& forall|i: int| 0 <= i < r@.len() ==> contact_wf((#[trigger] r@[i])@)
            }),
    {
        proof {
            reveal_strlit("contacts");
        }
        storage.start_section("contacts".to_owned());
        let mut data = storage.get_section_data("contacts".to_owned());
        proof {
            crate::storage::lemma_first_marker(lines_of(*storage), "contacts"@, 0);
        }
        data.read_all::<Contact>(storage)
    }

    /// The contact of an identifier (full or short form), if it exists.
    pub fn get_contact(storage: &mut Storage, uuid: String) -> (r: Result<Contact, StoreError>)
        requires
            wf_store(*old(storage)),
        ensures
            wf_store(*final(storage)),
            index_of(*final(storage)) == index_of(*old(storage)),
            final(storage).index == old(storage).index,
            has_section(lines_of(*final(storage)), "contacts"@),
            has_section(lines_of(*old(storage)), "contacts"@) ==> *final(storage) == *old(
                storage,
            ),
            ({
                let lv = lines_of(*final(storage));
                &&& if has_section(lines_of(*old(storage)), "contacts"@) {
                    lv == lines_of(*old(storage))
                } else {
                    lv == lines_of(*old(storage)) + seq![
                        LineV::Blank(Seq::<char>::empty()),
                        LineV::Marker("contacts"@),
                    ]
                }
                &&& if find_found(lv, "contacts"@, uuid@) {
                    match lv[find_pos(lv, "contacts"@, uuid@) + 1] {
                        LineV::Row(u, p) => match row_decode::<Contact>(
                            u,
                            p,
                            *final(storage),
                            true,
                        ) {
                            Some(v) => r matches Ok(m) && m@ == v && contact_wf(m@),
                            None => r matches Err(_),
                        },
                        _ => r matches Err(_),
                    }
                } else {
                    r matches Err(e) && e == StoreError::NotFound
                }
            }),
    {
        proof {
            reveal_strlit("contacts");
        }
        storage.start_section("contacts".to_owned());
        let mut data = storage.get_section_data("contacts".to_owned());
        data.find_one::<Contact>(storage, uuid.as_str())
    }

    /// Saves a contact.
    pub fn store_contact(storage: &mut Storage, contact: Contact)
        requires
            wf_store(*old(storage)),
            contact_wf(contact@),
        ensures
            ({
                let lv0 = lines_of(*old(storage));
                let lv = if has_section(lv0, "contacts"@) {
                    lv0
                } else {
                    lv0 + seq![LineV::Blank(Seq::<char>::empty()), LineV::Marker("contacts"@)]
                };
                let e = contact_enc(contact@);
                let text = enc_payload(e.2);
                &&& wf_store(*final(storage))
                &&& index_of(*final(storage)) == index_of(*old(storage))
                &&& if e.1 {
                    exists|u: Seq<char>|
                        wf_uuid(u) && lines_of(*final(storage)) == lv.insert(
                            section_pos(lv, "contacts"@) + 1,
                            LineV::Row(u, text),
                        )
                } else {
                    match scan_all(lv, 0, e.0) {
                        Some(j) => lines_of(*final(storage)) == lv.update(
                            j,
                            LineV::Row(e.0, text),
                        ),
                        None => lines_of(*final(storage)) == lv,
                    }
                }
            }),
    {
        proof {
            reveal_strlit("contacts");
        }
        storage.start_section("contacts".to_owned());
        let mut data = storage.get_section_data("contacts".to_owned());
        let u = data.save::<Contact>(storage, contact);
        proof {
            if contact_enc(contact@).1 {
                assert(wf_uuid(u@));
            }
        }
    }

    /// Removes the row of an identifier, anywhere in the file.
    pub fn remove_contact(storage: &mut Storage, uuid: String)
        requires
            wf_store(*old(storage)),
        ensures
            ({
                let lv0 = lines_of(*old(storage));
                let lv = if has_section(lv0, "contacts"@) {
                    lv0
                } else {
                    lv0 + seq![LineV::Blank(Seq::<char>::empty()), LineV::Marker("contacts"@)]
                };
                &&& wf_store(*final(storage))
                &&& index_of(*final(storage)) == index_of(*old(storage))
                &&& match scan_all(lv, 0, uuid@) {
                    Some(j) => lines_of(*final(storage)) == lv.remove(j),
                    None => lines_of(*final(storage)) == lv,
                }
            }),
    {
        proof {
            reveal_strlit("contacts");
        }
        storage.start_section("contacts".to_owned());
        let data = storage.get_section_data("contacts".to_owned());
        data.remove_by_id(storage, uuid.as_str());
    }
}

impl Contact {
    /// A field-by-field copy with the same mathematical value.
    pub fn duplicate(&self) -> (r: Contact)
        ensures
            r@ == self@,
    {
        Contact {
            uuid: self.uuid.clone(),
            name: self.name.clone(),
            city_location: self.city_location.clone(),
        }
    }
}

} // verus!

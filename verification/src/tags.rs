//! Categorization tags: the simplest stored entity, a name under an
//! identifier.

use vstd::prelude::*;
use crate::model::{Model, row_decode, row_run, decode_run};
use crate::payload::{Payload, PayloadV, PValue, ValV, spec_get, wf_payload, enc_payload};
use crate::storage::{
    Storage, Data, StoreError, lines_of, index_of, wf_store, has_section, section_pos, find_found,
    find_pos, scan_all, short_id_of,
};
use crate::lines::{LineV, wf_uuid, uuid_ok};

verus! {

/// A categorization tag.
#[derive(Clone, Debug)]
pub struct Tag {
    pub uuid: String,
    pub name: String,
}

/// The mathematical shape of a tag.
pub struct TagV {
    pub uuid: Seq<char>,
    pub name: Seq<char>,
}

impl View for Tag {
    type V = TagV;

    open spec fn view(&self) -> TagV {
        TagV { uuid: self.uuid@, name: self.name@ }
    }
}

/// A tag the store accepts: not yet persisted, or under a well-formed
/// identifier.
pub open spec fn tag_wf(v: TagV) -> bool {
    v.uuid.len() == 0 || wf_uuid(v.uuid)
}

/// Decoding a tag row: the `name` field is required.
pub open spec fn tag_decode(row: PayloadV, uuid: Seq<char>) -> Option<TagV> {
    if uuid.len() == 0 || wf_uuid(uuid) {
        match spec_get(row, "name"@) {
            Some(ValV::Text(n)) => Some(TagV { uuid: uuid, name: n }),
            _ => None,
        }
    } else {
        None
    }
}

/// Encoding a tag: its identifier, whether it is new, and its payload.
pub open spec fn tag_enc(v: TagV) -> (Seq<char>, bool, PayloadV) {
    (v.uuid, v.uuid.len() == 0, seq![("name"@, ValV::Text(v.name))])
}

impl Model for Tag {
    open spec fn wf(self) -> bool {
        tag_wf(self@)
    }

    open spec fn decode_spec(row: PayloadV, uuid: Seq<char>, store: Storage, can_recursive: bool) -> Option<TagV> {
        tag_decode(row, uuid)
    }

    open spec fn enc_spec(v: TagV) -> (Seq<char>, bool, PayloadV) {
        tag_enc(v)
    }

    fn new(row: Payload, uuid: String, _storage: &Storage, _can_recursive: bool) -> (r: Result<
        Tag,
        StoreError,
    >) {
        if !uuid_ok(uuid.as_str()) {
            return Err(StoreError::Malformed);
        }
        match row.get("name") {
            Some(PValue::Text(n)) => Ok(Tag { uuid, name: n.clone() }),
            Some(_) => Err(StoreError::Malformed),
            None => Err(StoreError::MissingField),
        }
    }

    fn to_save(self) -> (r: (String, bool, Payload)) {
        let is_new = self.uuid.as_str().is_empty();
        let mut p = Payload::new();
        let ghost nv = self.name@;
        p.add_text("name", self.name);
        proof {
            assert(p@ =~= seq![("name"@, ValV::Text(nv))]);
            assert forall|i: int| 0 <= i < p@.len() implies crate::payload::wf_val(
                #[trigger] p@[i].1,
            ) by {
                assert(p@[i].1 == ValV::Text(nv));
            }
        }
        (self.uuid, is_new, p)
    }
}

/// Writing a tag out and reading it back yields the tag, under whatever
/// identifier the store assigned.
pub proof fn lemma_tag_round_trip(v: TagV, assigned: Seq<char>)
    requires
        tag_wf(v),
        assigned.len() == 0 || wf_uuid(assigned),
    ensures
        ({
            let e = tag_enc(v);
            &&& crate::payload::spec_parse_payload(enc_payload(e.2)) == Some(e.2)
            &&& tag_decode(e.2, assigned) == Some(TagV { uuid: assigned, name: v.name })
        }),
{
    let e = tag_enc(v);
    assert(wf_payload(e.2)) by {
        assert forall|i: int| 0 <= i < e.2.len() implies crate::payload::wf_val(
            #[trigger] e.2[i].1,
        ) by {
            assert(e.2[i].1 == ValV::Text(v.name));
        }
    }
    crate::payload::lemma_parse_payload_enc(e.2);
    assert(spec_get(e.2, "name"@) == Some(ValV::Text(v.name)));
}

impl Tag {
    /// The short display form of this tag's identifier.
    pub fn id(self) -> (r: String)
        requires
            self.uuid@.len() >= 36,
        ensures
            r@ == short_id_of(self.uuid@),
    {
        Data::uuid_to_id(self.uuid)
    }

    /// All tags, newest first.
    pub fn get_tags(storage: &mut Storage) -> (r: Vec<Tag>)
        requires
            wf_store(*old(storage)),
        ensures
            ({
                let lv = lines_of(*final(storage));
                &&& wf_store(*final(storage))
                &&& index_of(*final(storage)) == index_of(*old(storage))
                &&& final(storage).index == old(storage).index
                &&& has_section(lv, "tags"@)
                &&& (has_section(lines_of(*old(storage)), "tags"@) ==> *final(storage) == *old(
                    storage,
                ))
                &&& if has_section(lines_of(*old(storage)), "tags"@) {
                    lv == lines_of(*old(storage))
                } else {
                    lv == lines_of(*old(storage)) + seq![
                        LineV::Blank(Seq::<char>::empty()),
                        LineV::Marker("tags"@),
                    ]
                }
                &&& r@.map_values(|m: Tag| m@) == decode_run(
                    row_run(lv, section_pos(lv, "tags"@) + 1),
                    |u: Seq<char>, p: Seq<char>| row_decode::<Tag>(u, p, *final(storage), true),
                )
                &&& forall|i: int| 0 <= i < r@.len() ==> tag_wf((#[trigger] r@[i])@)
            }),
    {
        proof {
            reveal_strlit("tags");
        }
        storage.start_section("tags".to_owned());
        let mut data = storage.get_section_data("tags".to_owned());
        proof {
            crate::storage::lemma_first_marker(lines_of(*storage), "tags"@, 0);
        }
        data.read_all::<Tag>(storage)
    }

    /// The tag of an identifier (full or short form), if it exists.
    pub fn get_tag(storage: &mut Storage, uuid: String) -> (r: Result<Tag, StoreError>)
        requires
            wf_store(*old(storage)),
        ensures
            wf_store(*final(storage)),
            index_of(*final(storage)) == index_of(*old(storage)),
            final(storage).index == old(storage).index,
            has_section(lines_of(*final(storage)), "tags"@),
            has_section(lines_of(*old(storage)), "tags"@) ==> *final(storage) == *old(storage),
            ({
                let lv = lines_of(*final(storage));
                &&& if has_section(lines_of(*old(storage)), "tags"@) {
                    lv == lines_of(*old(storage))
                } else {
                    lv == lines_of(*old(storage)) + seq![
                        LineV::Blank(Seq::<char>::empty()),
                        LineV::Marker("tags"@),
                    ]
                }
                &&& if find_found(lv, "tags"@, uuid@) {
                    match lv[find_pos(lv, "tags"@, uuid@) + 1] {
                        LineV::Row(u, p) => match row_decode::<Tag>(u, p, *final(storage), true) {
                            Some(v) => r matches Ok(m) && m@ == v && tag_wf(m@),
                            None => r matches Err(_),
                        },
                        _ => r matches Err(_),
                    }
                } else {
                    r matches Err(e) && e == StoreError::NotFound
                }
            }),
    {
        proof {
            reveal_strlit("tags");
        }
        storage.start_section("tags".to_owned());
        let mut data = storage.get_section_data("tags".to_owned());
        data.find_one::<Tag>(storage, uuid.as_str())
    }

    /// Saves a tag: inserts it at the top of its section when new, or
    /// rewrites its row in place. Returns the tag's identifier.
    pub fn store_tag(storage: &mut Storage, tag: Tag) -> (r: String)
        requires
            wf_store(*old(storage)),
            tag_wf(tag@),
        ensures
            ({
                let lv0 = lines_of(*old(storage));
                let lv = if has_section(lv0, "tags"@) {
                    lv0
                } else {
                    lv0 + seq![LineV::Blank(Seq::<char>::empty()), LineV::Marker("tags"@)]
                };
                let e = tag_enc(tag@);
                let text = enc_payload(e.2);
                &&& wf_store(*final(storage))
                &&& index_of(*final(storage)) == index_of(*old(storage))
                &&& if e.1 {
                    &&& wf_uuid(r@)
                    &&& lines_of(*final(storage)) == lv.insert(
                        section_pos(lv, "tags"@) + 1,
                        LineV::Row(r@, text),
                    )
                } else {
                    &&& r@ == e.0
                    &&& match scan_all(lv, 0, e.0) {
                        Some(j) => lines_of(*final(storage)) == lv.update(
                            j,
                            LineV::Row(e.0, text),
                        ),
                        None => lines_of(*final(storage)) == lv,
                    }
                }
            }),
    {
        proof {
            reveal_strlit("tags");
        }
        storage.start_section("tags".to_owned());
        let mut data = storage.get_section_data("tags".to_owned());
        data.save::<Tag>(storage, tag)
    }

    /// Removes the row of an identifier, anywhere in the file; removes
    /// nothing when no row matches.
    pub fn remove_tag(storage: &mut Storage, uuid: String)
        requires
            wf_store(*old(storage)),
        ensures
            ({
                let lv0 = lines_of(*old(storage));
                let lv = if has_section(lv0, "tags"@) {
                    lv0
                } else {
                    lv0 + seq![LineV::Blank(Seq::<char>::empty()), LineV::Marker("tags"@)]
                };
                &&& wf_store(*final(storage))
                &&& index_of(*final(storage)) == index_of(*old(storage))
                &&& match scan_all(lv, 0, uuid@) {
                    Some(j) => lines_of(*final(storage)) == lv.remove(j),
                    None => lines_of(*final(storage)) == lv,
                }
            }),
    {
        proof {
            reveal_strlit("tags");
        }
        storage.start_section("tags".to_owned());
        let data = storage.get_section_data("tags".to_owned());
        data.remove_by_id(storage, uuid.as_str());
    }
}

impl Tag {
    /// A field-by-field copy with the same mathematical value.
    pub fn duplicate(&self) -> (r: Tag)
        ensures
            r@ == self@,
    {
        Tag {
            uuid: self.uuid.clone(),
            name: self.name.clone(),
        }
    }
}

} // verus!

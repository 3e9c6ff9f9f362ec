//! The record codec contract: every domain entity decodes from a row's
//! payload and identifier, and encodes itself back. The store's generic
//! operations are built on it here.

use vstd::prelude::*;
use crate::payload::{Payload, PayloadV, wf_payload, spec_parse_payload, parse_payload};
use crate::storage::{
    Storage, Data, StoreError, lines_of, index_of, wf_store, has_section, section_pos, find_found,
    find_pos, scan_section, scan_all,
};
use crate::lines::{LineV, wf_uuid};
use crate::text::to_chars;

verus! {

/// The codec every stored entity implements: decode a payload and an
/// identifier into a value (resolving linked records through the store
/// when allowed), and encode a value back into an identifier, a newness
/// flag and a payload.
pub trait Model: View + Sized {
    /// Values that may be written to the store.
    spec fn wf(self) -> bool;

    /// What decoding a row yields, over mathematical views; `None` where
    /// the original design aborts on a malformed or incomplete row.
    spec fn decode_spec(row: PayloadV, uuid: Seq<char>, store: Storage, can_recursive: bool) -> Option<Self::V>;

    /// The identifier, newness flag and payload a value writes.
    spec fn enc_spec(v: Self::V) -> (Seq<char>, bool, PayloadV);

    /// Decodes a row.
    fn new(row: Payload, uuid: String, storage: &Storage, can_recursive: bool) -> (r: Result<
        Self,
        StoreError,
    >)
        ensures
            match r {
                Ok(v) => Self::decode_spec(row@, uuid@, *storage, can_recursive) == Some(v@) && (
                can_recursive ==> v.wf()),
                Err(e) => Self::decode_spec(row@, uuid@, *storage, can_recursive).is_none() && e
                    != StoreError::NoMoreRows,
            },
    ;

    /// Encodes a value for storage.
    fn to_save(self) -> (r: (String, bool, Payload))
        requires
            self.wf(),
        ensures
            ({
                let e = Self::enc_spec(self@);
                &&& r.0@ == e.0
                &&& r.1 == e.1
                &&& r.2@ == e.2
                &&& wf_payload(r.2@)
                &&& r.1 == (r.0@.len() == 0)
                &&& !r.1 ==> wf_uuid(r.0@)
            }),
    ;
}

/// Reading one row through a codec: parse the payload text, then decode.
pub open spec fn row_decode<M: Model>(
    u: Seq<char>,
    p: Seq<char>,
    store: Storage,
    can_recursive: bool,
) -> Option<M::V> {
    match spec_parse_payload(p) {
        Some(fs) => M::decode_spec(fs, u, store, can_recursive),
        None => None,
    }
}

/// The unbroken run of data rows that starts at line `i`.
pub open spec fn row_run(lv: Seq<LineV>, i: int) -> Seq<(Seq<char>, Seq<char>)>
    decreases lv.len() - i when 0 <= i <= lv.len()
{
    if i < lv.len() {
        match lv[i] {
            LineV::Row(u, p) => seq![(u, p)] + row_run(lv, i + 1),
            _ => Seq::empty(),
        }
    } else {
        Seq::empty()
    }
}

/// Decoding a run of rows, stopping at the first row the codec refuses.
pub open spec fn decode_run<T>(
    rows: Seq<(Seq<char>, Seq<char>)>,
    f: spec_fn(Seq<char>, Seq<char>) -> Option<T>,
) -> Seq<T>
    decreases rows.len(),
{
    if rows.len() == 0 {
        Seq::empty()
    } else {
        match f(rows[0].0, rows[0].1) {
            Some(t) => seq![t] + decode_run(rows.drop_first(), f),
            None => Seq::empty(),
        }
    }
}

impl Data {
    /// Returns the next row of the section, decoded.
    pub fn next<M: Model>(&mut self, storage: &Storage) -> (r: Result<M, StoreError>)
        ensures
            ({
                let lv = lines_of(*storage);
                let sp = if old(self).need_find_section && has_section(lv, old(self).section@) {
                    section_pos(lv, old(self).section@)
                } else {
                    old(self).last_position as int
                };
                let pos = sp + 1;
                &&& final(self).section == old(self).section
                &&& final(self).can_recursive == old(self).can_recursive
                &&& final(self).need_find_section == false
                &&& if pos < lv.len() {
                    final(self).last_position as int == pos && (match lv[pos] {
                        LineV::Row(u, p) => match row_decode::<M>(
                            u,
                            p,
                            *storage,
                            old(self).can_recursive,
                        ) {
                            Some(v) => r matches Ok(m) && m@ == v && (old(self).can_recursive
                                ==> m.wf()),
                            None => r matches Err(e) && e != StoreError::NoMoreRows,
                        },
                        LineV::Blank(_) => r matches Err(e) && e == StoreError::NoMoreRows,
                        _ => r matches Err(e) && e == StoreError::Malformed,
                    })
                } else {
                    final(self).last_position as int == lv.len() && (r matches Err(e) && e
                        == StoreError::NoMoreRows)
                }
            }),
    {
        let can_rec = self.can_recursive;
        match self.next_row(storage) {
            Err(e) => Err(e),
            Ok((uuid, text)) => {
                let tc = to_chars(text.as_str());
                match parse_payload(tc.as_slice()) {
                    None => Err(StoreError::Malformed),
                    Some(p) => M::new(p, uuid, storage, can_rec),
                }
            },
        }
    }

    /// Decodes the row `uuid` names, scanning this section only; `NotFound`
    /// when no row matches.
    pub fn find_one<M: Model>(&mut self, storage: &Storage, uuid: &str) -> (r: Result<
        M,
        StoreError,
    >)
        requires
            has_section(lines_of(*storage), old(self).section@),
        ensures
            ({
                let lv = lines_of(*storage);
                let sec = old(self).section@;
                &&& final(self).section == old(self).section
                &&& final(self).can_recursive == old(self).can_recursive
                &&& if find_found(lv, sec, uuid@) {
                    match lv[find_pos(lv, sec, uuid@) + 1] {
                        LineV::Row(u, p) => match row_decode::<M>(
                            u,
                            p,
                            *storage,
                            old(self).can_recursive,
                        ) {
                            Some(v) => r matches Ok(m) && m@ == v && (old(self).can_recursive
                                ==> m.wf()),
                            None => r matches Err(_),
                        },
                        _ => r matches Err(_),
                    }
                } else {
                    r matches Err(e) && e == StoreError::NotFound
                }
            }),
    {
        if self.find_by_id(storage, uuid) {
            proof {
                let lv = lines_of(*storage);
                let sec = old(self).section@;
                crate::storage::lemma_first_marker(lv, sec, 0);
                let j = scan_section(lv, section_pos(lv, sec) + 1, uuid@)->Some_0;
                lemma_scan_section_row(lv, section_pos(lv, sec) + 1, uuid@);
                assert(find_pos(lv, sec, uuid@) + 1 == j);
            }
            self.next::<M>(storage)
        } else {
            Err(StoreError::NotFound)
        }
    }

    /// Saves a record: inserts it at the top of the section when its
    /// identifier is empty (assigning a fresh one, which is returned), or
    /// replaces its row in place.
    pub fn save<M: Model>(&mut self, storage: &mut Storage, row: M) -> (r: String)
        requires
            row.wf(),
            wf_store(*old(storage)),
            has_section(lines_of(*old(storage)), old(self).section@),
        ensures
            ({
                let lv = lines_of(*old(storage));
                let e = M::enc_spec(row@);
                let text = crate::payload::enc_payload(e.2);
                &&& wf_store(*final(storage))
                &&& index_of(*final(storage)) == index_of(*old(storage))
                &&& final(self).section == old(self).section
                &&& final(self).can_recursive == old(self).can_recursive
                &&& if e.1 {
                    let sp = section_pos(lv, old(self).section@);
                    &&& wf_uuid(r@)
                    &&& lines_of(*final(storage)) == lv.insert(sp + 1, LineV::Row(r@, text))
                } else {
                    &&& r@ == e.0
                    &&& match scan_all(lv, 0, e.0) {
                        Some(j) => lines_of(*final(storage)) == lv.update(
                            j,
                            LineV::Row(e.0, text),
                        ),
                        None => lines_of(*final(storage)) == lv,
                    }
                }
            }),
    {
        let (uuid, is_new, payload) = row.to_save();
        self.save_row(storage, uuid, is_new, &payload)
    }
}

impl Data {
    /// Reads the section's rows in order, from the top, decoding each;
    /// stops at the first line that is not a decodable row (the blank
    /// separator or the end of the buffer in a well-formed store).
    pub fn read_all<M: Model>(&mut self, storage: &Storage) -> (r: Vec<M>)
        ensures
            ({
                let lv = lines_of(*storage);
                let sp = if old(self).need_find_section && has_section(lv, old(self).section@) {
                    section_pos(lv, old(self).section@)
                } else {
                    old(self).last_position as int
                };
                let f = |u: Seq<char>, p: Seq<char>| row_decode::<M>(
                    u,
                    p,
                    *storage,
                    old(self).can_recursive,
                );
                &&& r@.map_values(|m: M| m@) == if sp + 1 <= lv.len() {
                    decode_run(row_run(lv, sp + 1), f)
                } else {
                    Seq::<M::V>::empty()
                }
                &&& old(self).can_recursive ==> forall|i: int|
                    0 <= i < r@.len() ==> (#[trigger] r@[i]).wf()
                &&& final(self).section == old(self).section
                &&& final(self).can_recursive == old(self).can_recursive
            }),
        decreases (if old(self).need_find_section {
            1int
        } else {
            0int
        }), (if old(self).last_position <= lines_of(*storage).len() {
            lines_of(*storage).len() + 1 - old(self).last_position
        } else {
            0int
        }),
    {
        let ghost lv = lines_of(*storage);
        let ghost f = |u: Seq<char>, p: Seq<char>| row_decode::<M>(
            u,
            p,
            *storage,
            old(self).can_recursive,
        );
        let ghost sp = if old(self).need_find_section && has_section(lv, old(self).section@) {
            section_pos(lv, old(self).section@)
        } else {
            old(self).last_position as int
        };
        match self.next::<M>(storage) {
            Err(_) => {
                let r: Vec<M> = Vec::new();
                proof {
                    if sp + 1 <= lv.len() {
                        if sp + 1 < lv.len() {
                            assert(!(lv[sp + 1] matches LineV::Row(_, _)) || (match lv[sp + 1] {
                                LineV::Row(u, p) => f(u, p).is_none(),
                                _ => true,
                            }));
                        }
                        assert(decode_run(row_run(lv, sp + 1), f) =~= Seq::<M::V>::empty());
                    }
                    assert(r@.map_values(|m: M| m@) =~= Seq::<M::V>::empty());
                }
                r
            },
            Ok(m) => {
                let ghost v = m@;
                let ghost pos = sp + 1;
                proof {
                    assert(pos < lv.len());
                    assert(self.last_position as int == pos);
                    assert(lv[pos] matches LineV::Row(_, _));
                }
                let rest = self.read_all::<M>(storage);
                let ghost restv = rest@.map_values(|m2: M| m2@);
                let mut out = rest;
                out.insert(0, m);
                proof {
                    assert(out@.drop_first() =~= out@.remove(0));
                    assert(out@.map_values(|m2: M| m2@) =~= seq![v] + restv);
                    let u0 = lv[pos]->Row_0;
                    let p0 = lv[pos]->Row_1;
                    assert(row_run(lv, pos) == seq![(u0, p0)] + row_run(lv, pos + 1));
                    assert(row_run(lv, pos).drop_first() =~= row_run(lv, pos + 1));
                    assert(f(u0, p0) == Some(v));
                    assert(decode_run(row_run(lv, pos), f) == seq![v] + decode_run(
                        row_run(lv, pos + 1),
                        f,
                    ));
                    assert(out@.map_values(|m2: M| m2@) =~= decode_run(row_run(lv, pos), f));
                    if old(self).can_recursive {
                        assert forall|q: int| 0 <= q < out@.len() implies (
                        #[trigger] out@[q]).wf() by {
                            if q == 0 {
                                assert(out@[q] == m);
                            } else {
                                assert(out@[q] == rest@[q - 1]);
                            }
                        }
                    }
                }
                out
            },
        }
    }
}

/// A successful section scan lands on the first matching row before the
/// next marker; a failed one leaves no match before the next marker.
pub proof fn lemma_scan_section_row(lv: Seq<LineV>, i: int, id: Seq<char>)
    requires
        0 <= i <= lv.len(),
    ensures
        match scan_section(lv, i, id) {
            Some(j) => {
                &&& i <= j < lv.len()
                &&& crate::storage::row_matches(lv[j], id)
                &&& lv[j] matches LineV::Row(_, _)
                &&& forall|k: int|
                    i <= k < j ==> !crate::storage::row_matches(#[trigger] lv[k], id)
            },
            None => forall|k: int|
                i <= k < lv.len() && (forall|m: int|
                    i <= m <= k ==> !crate::storage::is_marker(#[trigger] lv[m]))
                    ==> !crate::storage::row_matches(#[trigger] lv[k], id),
        },
    decreases lv.len() - i,
{
    if i < lv.len() && !crate::storage::is_marker(lv[i]) && !crate::storage::row_matches(
        lv[i],
        id,
    ) {
        lemma_scan_section_row(lv, i + 1, id);
    }
}

} // verus!

//! The record store: an ordered buffer of classified lines, a named-section
//! layout over it, an in-memory secondary index, and the section cursor
//! that scans, saves and removes rows.
//!
//! The store itself never touches a file: callers hand it the file's lines
//! and write back what `dump` returns, so every mutation here is the pure
//! "rewrite the whole buffer" step of the original design.

use vstd::prelude::*;
use crate::lines::{Line, LineV, wf_line, wf_uuid, spec_parse_line, render_line, parse_line,
    render_line_exec};
use crate::text::{to_chars, from_chars, chars_eq};

verus! {

/// How a store operation fails. Row decoding failures are fatal in the
/// original design; here they surface as `Malformed` and callers abort.
#[derive(Clone, Copy, Debug, PartialEq, Eq, Structural)]
pub enum StoreError {
    /// Iteration ran past the section's rows.
    NoMoreRows,
    /// No row with the given identifier.
    NotFound,
    /// A line or a payload that the grammar refuses.
    Malformed,
    /// A required field is absent from a row.
    MissingField,
    /// A transfer row whose twin cannot be loaded.
    BrokenTransferLink,
}

/// Relies on uuid's `Uuid::new_v4` and its `Display` form: a fresh random
/// identifier written as 36 lowercase hexadecimal digits and hyphens, the
/// hyphens at positions 8, 13, 18 and 23.
#[verifier::external_body]
pub(crate) fn fresh_uuid() -> (r: String)
    ensures
        r@.len() == 36,
        forall|i: int|
            0 <= i < 36 ==> (#[trigger] r@[i] == '-' || r@[i] == '0' || r@[i] == '1' || r@[i]
                == '2' || r@[i] == '3' || r@[i] == '4' || r@[i] == '5' || r@[i] == '6' || r@[i]
                == '7' || r@[i] == '8' || r@[i] == '9' || r@[i] == 'a' || r@[i] == 'b' || r@[i]
                == 'c' || r@[i] == 'd' || r@[i] == 'e' || r@[i] == 'f'),
        r@[0] != '-',
{
    uuid::Uuid::new_v4().to_string()
}

/// A fresh identifier is a well-formed row identifier.
pub proof fn lemma_fresh_uuid_wf(u: Seq<char>)
    requires
        u.len() == 36,
        forall|i: int|
            0 <= i < 36 ==> (#[trigger] u[i] == '-' || u[i] == '0' || u[i] == '1' || u[i] == '2'
                || u[i] == '3' || u[i] == '4' || u[i] == '5' || u[i] == '6' || u[i] == '7' || u[i]
                == '8' || u[i] == '9' || u[i] == 'a' || u[i] == 'b' || u[i] == 'c' || u[i] == 'd'
                || u[i] == 'e' || u[i] == 'f'),
    ensures
        wf_uuid(u),
{
    assert forall|i: int| 0 <= i < 36 implies u[i] != ' ' && u[i] != '\t' && u[i] != '\n' by {
        assert(u[i] == '-' || u[i] == '0' || u[i] == '1' || u[i] == '2' || u[i] == '3' || u[i]
            == '4' || u[i] == '5' || u[i] == '6' || u[i] == '7' || u[i] == '8' || u[i] == '9'
            || u[i] == 'a' || u[i] == 'b' || u[i] == 'c' || u[i] == 'd' || u[i] == 'e' || u[i]
            == 'f');
    }
    assert(u[0] != ':');
}

/// One secondary-index entry: a section-and-field key, a field value, and
/// the row identifier it points at.
#[derive(Clone, Debug)]
pub struct IndexEntry {
    pub skey: String,
    pub value: String,
    pub uuid: String,
}

/// The record store.
#[derive(Clone, Debug)]
pub struct Storage {
    /// The file's lines, classified.
    pub lines: Vec<Line>,
    /// The in-memory secondary index; never persisted.
    pub index: Vec<IndexEntry>,
}

/// The store's line buffer, mathematically.
pub open spec fn lines_of(st: Storage) -> Seq<LineV> {
    st.lines@.map_values(|l: Line| l@)
}

/// The store's index, mathematically.
pub open spec fn index_of(st: Storage) -> Seq<(Seq<char>, Seq<char>, Seq<char>)> {
    st.index@.map_values(|e: IndexEntry| (e.skey@, e.value@, e.uuid@))
}

/// Every line is one the grammar writes back unchanged.
pub open spec fn wf_store(st: Storage) -> bool {
    forall|i: int| 0 <= i < lines_of(st).len() ==> wf_line(#[trigger] lines_of(st)[i])
}

/// The line is the marker of the section `name`.
pub open spec fn marker_named(l: LineV, name: Seq<char>) -> bool {
    match l {
        LineV::Marker(n) => n == name,
        _ => false,
    }
}

/// The line is a section marker, of any name.
pub open spec fn is_marker(l: LineV) -> bool {
    match l {
        LineV::Marker(_) => true,
        _ => false,
    }
}

/// A marker of the section `name` stands somewhere in the buffer.
pub open spec fn has_section(lv: Seq<LineV>, name: Seq<char>) -> bool {
    exists|i: int| 0 <= i < lv.len() && marker_named(#[trigger] lv[i], name)
}

/// The first marker of the section `name` at or after `i`; the buffer's
/// length when there is none.
pub open spec fn first_marker(lv: Seq<LineV>, name: Seq<char>, i: int) -> int
    decreases lv.len() - i when 0 <= i <= lv.len()
{
    if i >= lv.len() {
        lv.len() as int
    } else if marker_named(lv[i], name) {
        i
    } else {
        first_marker(lv, name, i + 1)
    }
}

/// What `first_marker` finds.
pub proof fn lemma_first_marker(lv: Seq<LineV>, name: Seq<char>, i: int)
    requires
        0 <= i <= lv.len(),
    ensures
        i <= first_marker(lv, name, i) <= lv.len(),
        forall|j: int| i <= j < first_marker(lv, name, i) ==> !marker_named(#[trigger] lv[j], name),
        first_marker(lv, name, i) < lv.len() ==> marker_named(lv[first_marker(lv, name, i)], name),
        (exists|j: int| i <= j < lv.len() && marker_named(#[trigger] lv[j], name)) <==> first_marker(
            lv,
            name,
            i,
        ) < lv.len(),
    decreases lv.len() - i,
{
    if i < lv.len() && !marker_named(lv[i], name) {
        lemma_first_marker(lv, name, i + 1);
    }
}

/// A first marker is characterized by what stands before it.
pub proof fn lemma_first_marker_of(lv: Seq<LineV>, name: Seq<char>, e: int)
    requires
        0 <= e <= lv.len(),
        forall|j: int| 0 <= j < e ==> !marker_named(#[trigger] lv[j], name),
        e == lv.len() || marker_named(lv[e], name),
    ensures
        first_marker(lv, name, 0) == e,
{
    lemma_first_marker_of_from(lv, name, 0, e);
}

proof fn lemma_first_marker_of_from(lv: Seq<LineV>, name: Seq<char>, i: int, e: int)
    requires
        0 <= i <= e <= lv.len(),
        forall|j: int| i <= j < e ==> !marker_named(#[trigger] lv[j], name),
        e == lv.len() || marker_named(lv[e], name),
    ensures
        first_marker(lv, name, i) == e,
    decreases e - i,
{
    if i < e {
        lemma_first_marker_of_from(lv, name, i + 1, e);
    }
}

/// Where the cursor's section begins: the index of its marker line.
pub open spec fn section_pos(lv: Seq<LineV>, name: Seq<char>) -> int {
    first_marker(lv, name, 0)
}

impl Storage {
    /// An empty store: no lines, no index.
    pub fn new() -> (r: Storage)
        ensures
            lines_of(r) == Seq::<LineV>::empty(),
            index_of(r) == Seq::<(Seq<char>, Seq<char>, Seq<char>)>::empty(),
            wf_store(r),
    {
        let r = Storage { lines: Vec::new(), index: Vec::new() };
        proof {
            assert(lines_of(r) =~= Seq::<LineV>::empty());
            assert(index_of(r) =~= Seq::<(Seq<char>, Seq<char>, Seq<char>)>::empty());
        }
        r
    }

    /// Builds a store from a file's lines, classifying each.
    pub fn load(texts: &Vec<String>) -> (r: Storage)
        ensures
            lines_of(r).len() == texts@.len(),
            forall|i: int|
                0 <= i < texts@.len() ==> lines_of(r)[i] == spec_parse_line(#[trigger] texts@[i]@),
            index_of(r) == Seq::<(Seq<char>, Seq<char>, Seq<char>)>::empty(),
    {
        let mut lines: Vec<Line> = Vec::new();
        let n = texts.len();
        let mut i: usize = 0;
        while i < n
            invariant
                i <= n,
                n == texts@.len(),
                lines@.len() == i,
                forall|j: int|
                    0 <= j < i ==> lines@[j]@ == spec_parse_line(#[trigger] texts@[j]@),
            decreases n - i,
        {
            lines.push(parse_line(texts[i].as_str()));
            i += 1;
        }
        let r = Storage { lines, index: Vec::new() };
        proof {
            assert(index_of(r) =~= Seq::<(Seq<char>, Seq<char>, Seq<char>)>::empty());
            assert(forall|j: int|
                0 <= j < n ==> lines_of(r)[j] == spec_parse_line(#[trigger] texts@[j]@));
        }
        r
    }

    /// Writes the store's lines back out as texts.
    pub fn dump(&self) -> (r: Vec<String>)
        ensures
            r@.len() == lines_of(*self).len(),
            forall|i: int|
                0 <= i < r@.len() ==> #[trigger] r@[i]@ == render_line(lines_of(*self)[i]),
    {
        let mut out: Vec<String> = Vec::new();
        let n = self.lines.len();
        let mut i: usize = 0;
        while i < n
            invariant
                i <= n,
                n == self.lines@.len(),
                out@.len() == i,
                forall|j: int|
                    0 <= j < i ==> #[trigger] out@[j]@ == render_line(lines_of(*self)[j]),
            decreases n - i,
        {
            out.push(render_line_exec(&self.lines[i]));
            i += 1;
        }
        out
    }

    /// True when the section already exists.
    pub fn check_section(&self, name: &str) -> (r: bool)
        ensures
            r == has_section(lines_of(*self), name@),
    {
        let nc = to_chars(name);
        let n = self.lines.len();
        let mut i: usize = 0;
        while i < n
            invariant
                i <= n,
                n == self.lines@.len(),
                nc@ == name@,
                forall|j: int| 0 <= j < i ==> !marker_named(#[trigger] lines_of(*self)[j], name@),
            decreases n - i,
        {
            match &self.lines[i] {
                Line::Marker(m) => {
                    let mc = to_chars(m.as_str());
                    if chars_eq(mc.as_slice(), nc.as_slice()) {
                        proof {
                            assert(marker_named(lines_of(*self)[i as int], name@));
                        }
                        return true;
                    }
                    proof {
                        assert(!marker_named(lines_of(*self)[i as int], name@));
                    }
                },
                _ => {
                    proof {
                        assert(!marker_named(lines_of(*self)[i as int], name@));
                    }
                },
            }
            i += 1;
        }
        false
    }

    /// Creates the section if it does not exist yet: appends a blank
    /// separator and the marker line. Creating an existing section changes
    /// nothing. Always reports success.
    pub fn start_section(&mut self, name: String) -> (r: bool)
        requires
            forall|i: int| 0 <= i < name@.len() ==> name@[i] != '\n',
        ensures
            r == true,
            index_of(*final(self)) == index_of(*old(self)),
            final(self).index == old(self).index,
            has_section(lines_of(*final(self)), name@),
            wf_store(*old(self)) ==> wf_store(*final(self)),
            has_section(lines_of(*old(self)), name@) ==> *final(self) == *old(self),
            if has_section(lines_of(*old(self)), name@) {
                lines_of(*final(self)) == lines_of(*old(self))
            } else {
                lines_of(*final(self)) == lines_of(*old(self)) + seq![
                    LineV::Blank(Seq::<char>::empty()),
                    LineV::Marker(name@),
                ]
            },
    {
        if !self.check_section(name.as_str()) {
            let ghost before = lines_of(*self);
            let ghost nv = name@;
            self.lines.push(Line::Blank(String::new()));
            self.lines.push(Line::Marker(name));
            proof {
                assert(lines_of(*self) =~= before + seq![
                    LineV::Blank(Seq::<char>::empty()),
                    LineV::Marker(nv),
                ]);
                let lv = lines_of(*self);
                assert(marker_named(lv[lv.len() - 1], nv));
                assert(index_of(*self) =~= index_of(*old(self)));
                if wf_store(*old(self)) {
                    assert forall|i: int| 0 <= i < lv.len() implies wf_line(#[trigger] lv[i]) by {
                        if i < before.len() {
                            assert(lv[i] == before[i]);
                        } else if i == before.len() {
                            assert(lv[i] == LineV::Blank(Seq::<char>::empty()));
                        } else {
                            assert(lv[i] == LineV::Marker(nv));
                        }
                    }
                }
            }
        }
        true
    }

    /// The index key of a section and a field name.
    pub fn build_skey(section: &str, key: &str) -> (r: String)
        ensures
            r@ == skey_of(section@, key@),
    {
        let mut v = to_chars(section);
        v.push('_');
        let kc = to_chars(key);
        crate::text::push_all(&mut v, kc.as_slice());
        proof {
            assert(v@ =~= skey_of(section@, key@));
        }
        from_chars(&v)
    }

    /// Remembers, in memory only, which row holds `value` for the field
    /// `key` of `section`. A later entry for the same key and value
    /// replaces the earlier one.
    pub fn set_index(&mut self, section: String, key: String, value: String, uuid: String)
        ensures
            lines_of(*final(self)) == lines_of(*old(self)),
            final(self).lines == old(self).lines,
            index_of(*final(self)) == spec_index_set(
                index_of(*old(self)),
                skey_of(section@, key@),
                value@,
                uuid@,
            ),
    {
        let skey = Storage::build_skey(section.as_str(), key.as_str());
        let skc = to_chars(skey.as_str());
        let vc = to_chars(value.as_str());
        let n = self.index.len();
        let ghost ix = index_of(*self);
        let ghost lv0 = lines_of(*self);
        let mut i: usize = 0;
        while i < n
            invariant
                i <= n,
                n == self.index@.len(),
                ix == index_of(*self),
                lv0 == lines_of(*self),
                lv0 == lines_of(*old(self)),
                self.lines == old(self).lines,
                ix == index_of(*old(self)),
                skc@ == skey_of(section@, key@),
                vc@ == value@,
                skey@ == skey_of(section@, key@),
                forall|j: int| 0 <= j < i ==> !(index_of(*self)[j].0 == skey@ && #[trigger] index_of(
                    *self,
                )[j].1 == value@),
            decreases n - i,
        {
            let ec = to_chars(self.index[i].skey.as_str());
            let evc = to_chars(self.index[i].value.as_str());
            if chars_eq(ec.as_slice(), skc.as_slice()) && chars_eq(evc.as_slice(), vc.as_slice()) {
                let ghost old_ix = index_of(*self);
                self.index.remove(i);
                self.index.insert(i, IndexEntry { skey, value, uuid });
                proof {
                    assert(index_of(*self) =~= old_ix.update(
                        i as int,
                        (skey_of(section@, key@), value@, uuid@),
                    ));
                    lemma_index_set_at(old_ix, skey_of(section@, key@), value@, uuid@, i as int);
                    assert(lines_of(*self) =~= lines_of(*old(self)));
                }
                return ;
            }
            proof {
                assert(!(index_of(*self)[i as int].0 == skey@ && index_of(*self)[i as int].1
                    == value@));
            }
            i += 1;
        }
        let ghost old_ix = index_of(*self);
        self.index.push(IndexEntry { skey, value, uuid });
        proof {
            assert(index_of(*self) =~= old_ix.push((skey_of(section@, key@), value@, uuid@)));
            lemma_index_set_none(old_ix, skey_of(section@, key@), value@, uuid@);
            assert(lines_of(*self) =~= lines_of(*old(self)));
        }
    }

    /// A read handle over the metadata entries.
    pub fn get_metadata<'a>(&'a self) -> (r: Metadata<'a>)
        ensures
            r.storage == self,
    {
        Metadata { storage: self }
    }

    /// A cursor over the section `name`, at the top, with linked-record
    /// resolution allowed.
    pub fn get_section_data(&self, name: String) -> (r: Data)
        ensures
            r.section@ == name@,
            r.last_position == 0,
            r.need_find_section == true,
            r.can_recursive == true,
    {
        Data { section: name, last_position: 0, need_find_section: true, can_recursive: true }
    }
}

/// The key under which a section's field is indexed.
pub open spec fn skey_of(section: Seq<char>, key: Seq<char>) -> Seq<char> {
    section + seq!['_'] + key
}

/// The first index entry for the key and value, if any.
pub open spec fn index_lookup(
    ix: Seq<(Seq<char>, Seq<char>, Seq<char>)>,
    skey: Seq<char>,
    value: Seq<char>,
) -> Option<Seq<char>>
    decreases ix.len(),
{
    if ix.len() == 0 {
        None
    } else if ix[0].0 == skey && ix[0].1 == value {
        Some(ix[0].2)
    } else {
        index_lookup(ix.drop_first(), skey, value)
    }
}

/// What `set_index` leaves: the first entry for the key and value
/// replaced, or a new entry appended.
pub open spec fn spec_index_set(
    ix: Seq<(Seq<char>, Seq<char>, Seq<char>)>,
    skey: Seq<char>,
    value: Seq<char>,
    uuid: Seq<char>,
) -> Seq<(Seq<char>, Seq<char>, Seq<char>)>
    decreases ix.len(),
{
    if ix.len() == 0 {
        seq![(skey, value, uuid)]
    } else if ix[0].0 == skey && ix[0].1 == value {
        ix.update(0, (skey, value, uuid))
    } else {
        seq![ix[0]] + spec_index_set(ix.drop_first(), skey, value, uuid)
    }
}

proof fn lemma_index_set_at(
    ix: Seq<(Seq<char>, Seq<char>, Seq<char>)>,
    skey: Seq<char>,
    value: Seq<char>,
    uuid: Seq<char>,
    i: int,
)
    requires
        0 <= i < ix.len(),
        ix[i].0 == skey && ix[i].1 == value,
        forall|j: int| 0 <= j < i ==> !(ix[j].0 == skey && #[trigger] ix[j].1 == value),
    ensures
        spec_index_set(ix, skey, value, uuid) == ix.update(i, (skey, value, uuid)),
    decreases i,
{
    if i == 0 {
    } else {
        lemma_index_set_at(ix.drop_first(), skey, value, uuid, i - 1);
        assert(ix.drop_first().update(i - 1, (skey, value, uuid)) =~= ix.update(
            i,
            (skey, value, uuid),
        ).drop_first());
        assert(spec_index_set(ix, skey, value, uuid) =~= ix.update(i, (skey, value, uuid)));
    }
}

proof fn lemma_index_set_none(
    ix: Seq<(Seq<char>, Seq<char>, Seq<char>)>,
    skey: Seq<char>,
    value: Seq<char>,
    uuid: Seq<char>,
)
    requires
        forall|j: int| 0 <= j < ix.len() ==> !(ix[j].0 == skey && #[trigger] ix[j].1 == value),
    ensures
        spec_index_set(ix, skey, value, uuid) == ix.push((skey, value, uuid)),
    decreases ix.len(),
{
    if ix.len() > 0 {
        lemma_index_set_none(ix.drop_first(), skey, value, uuid);
        assert(spec_index_set(ix, skey, value, uuid) =~= ix.push((skey, value, uuid)));
    }
}

/// A stateful scanner bound to one section of the store.
///
/// Unlike the original design, the cursor does not borrow the store: each
/// operation takes the store alongside, so the borrow is explicit.
#[derive(Clone, Debug)]
pub struct Data {
    /// The section this cursor scans.
    pub section: String,
    /// The line index the last operation stopped at.
    pub last_position: usize,
    /// Whether the next operation must locate the section marker afresh.
    pub need_find_section: bool,
    /// Whether decoding may resolve linked records one level deep.
    pub can_recursive: bool,
}

/// The 7-character display projection of a row identifier: characters
/// 0, 10 and 15, a hyphen, then characters 20, 25 and 35. It is not
/// guaranteed unique: two identifiers can share all six sampled
/// characters, and lookups by short id return the first such row.
pub open spec fn short_id_of(u: Seq<char>) -> Seq<char> {
    seq![u[0], u[10], u[15], '-', u[20], u[25], u[35]]
}

/// Whether a line is the row that `id` names: by the full 36-character
/// identifier, or, for a 7-character `id`, by the short projection.
/// Matching is decided on the classified row: a line with blanks before
/// its identifier is not a row of the grammar and never matches, a
/// deliberate tightening over matching on trimmed raw text.
pub open spec fn row_matches(l: LineV, id: Seq<char>) -> bool {
    match l {
        LineV::Row(u, p) => {
            if id.len() == 7 {
                u.len() == 36 && short_id_of(u) == id
            } else {
                u == id
            }
        },
        _ => false,
    }
}

/// The first row matching `id` at or after `i`, stopping at the next
/// section marker.
pub open spec fn scan_section(lv: Seq<LineV>, i: int, id: Seq<char>) -> Option<int>
    decreases lv.len() - i when 0 <= i <= lv.len()
{
    if i >= lv.len() {
        None
    } else if is_marker(lv[i]) {
        None
    } else if row_matches(lv[i], id) {
        Some(i)
    } else {
        scan_section(lv, i + 1, id)
    }
}

/// The first line matching `id` at or after `i`, across the whole buffer.
pub open spec fn scan_all(lv: Seq<LineV>, i: int, id: Seq<char>) -> Option<int>
    decreases lv.len() - i when 0 <= i <= lv.len()
{
    if i >= lv.len() {
        None
    } else if row_matches(lv[i], id) {
        Some(i)
    } else {
        scan_all(lv, i + 1, id)
    }
}

/// Whether a lookup by `id` inside `section` succeeds.
pub open spec fn find_found(lv: Seq<LineV>, section: Seq<char>, id: Seq<char>) -> bool {
    scan_section(lv, section_pos(lv, section) + 1, id).is_some()
}

/// Where the cursor stands after a lookup by `id` inside `section`: one
/// line before the match, so that the next read returns the match; at the
/// marker when nothing matched.
pub open spec fn find_pos(lv: Seq<LineV>, section: Seq<char>, id: Seq<char>) -> int {
    match scan_section(lv, section_pos(lv, section) + 1, id) {
        Some(j) => j - 1,
        None => section_pos(lv, section),
    }
}

impl Data {
    /// The short display projection of a row identifier.
    pub fn uuid_to_id(uuid: String) -> (r: String)
        requires
            uuid@.len() >= 36,
        ensures
            r@ == short_id_of(uuid@),
    {
        let s = uuid.as_str();
        let mut v: Vec<char> = Vec::new();
        v.push(s.get_char(0));
        v.push(s.get_char(10));
        v.push(s.get_char(15));
        v.push('-');
        v.push(s.get_char(20));
        v.push(s.get_char(25));
        v.push(s.get_char(35));
        proof {
            assert(v@ =~= short_id_of(uuid@));
        }
        from_chars(&v)
    }

    /// Locates the section's marker line, once per logical scan pass.
    fn find_section(&mut self, storage: &Storage)
        ensures
            final(self).section == old(self).section,
            final(self).can_recursive == old(self).can_recursive,
            final(self).need_find_section == false,
            final(self).last_position as int == if old(self).need_find_section && has_section(
                lines_of(*storage),
                old(self).section@,
            ) {
                section_pos(lines_of(*storage), old(self).section@)
            } else {
                old(self).last_position as int
            },
    {
        if !self.need_find_section {
            return ;
        }
        self.need_find_section = false;
        let ghost lv = lines_of(*storage);
        let ghost sec = old(self).section@;
        proof {
            lemma_first_marker(lv, sec, 0);
        }
        let nc = to_chars(self.section.as_str());
        let n = storage.lines.len();
        let mut i: usize = 0;
        while i < n
            invariant
                i <= n,
                n == lv.len(),
                lv == lines_of(*storage),
                self.section == old(self).section,
                self.can_recursive == old(self).can_recursive,
                self.need_find_section == false,
                old(self).need_find_section == true,
                self.last_position == old(self).last_position,
                sec == self.section@,
                nc@ == sec,
                forall|j: int| 0 <= j < i ==> !marker_named(#[trigger] lv[j], sec),
            decreases n - i,
        {
            match &storage.lines[i] {
                Line::Marker(m) => {
                    let mc = to_chars(m.as_str());
                    if chars_eq(mc.as_slice(), nc.as_slice()) {
                        proof {
                            assert(marker_named(lv[i as int], sec));
                            assert(has_section(lv, sec));
                            assert(first_marker(lv, sec, 0) == i as int) by {
                                lemma_first_marker(lv, sec, 0);
                            }
                        }
                        self.last_position = i;
                        proof {
                            assert(self.last_position as int == section_pos(
                                lines_of(*storage),
                                old(self).section@,
                            ));
                            assert(old(self).need_find_section);
                            assert(has_section(lines_of(*storage), old(self).section@));
                        }
                        return ;
                    }
                    proof {
                        assert(!marker_named(lv[i as int], sec));
                    }
                },
                _ => {
                    proof {
                        assert(!marker_named(lv[i as int], sec));
                    }
                },
            }
            i += 1;
        }
        proof {
            if has_section(lv, sec) {
                let w = choose|j: int| 0 <= j < lv.len() && marker_named(#[trigger] lv[j], sec);
                assert(!marker_named(lv[w], sec));
            }
        }
    }

    /// Advances one line and reads it as a row: its identifier and its
    /// payload text. A blank line or the end of the buffer ends the
    /// iteration; any other non-row line is a malformed row.
    pub fn next_row(&mut self, storage: &Storage) -> (r: Result<(String, String), StoreError>)
        ensures
            ({
                let lv = lines_of(*storage);
                let sp = if old(self).need_find_section && has_section(lv, old(self).section@) {
                    section_pos(lv, old(self).section@)
                } else {
                    old(self).last_position as int
                };
                let pos = sp + 1;
                &&& final(self).section == old(self).section
                &&& final(self).can_recursive == old(self).can_recursive
                &&& final(self).need_find_section == false
                &&& if pos < lv.len() {
                    final(self).last_position as int == pos && (match lv[pos] {
                        LineV::Row(u, p) => r matches Ok(row) && row.0@ == u && row.1@ == p,
                        LineV::Blank(_) => r matches Err(e) && e == StoreError::NoMoreRows,
                        _ => r matches Err(e) && e == StoreError::Malformed,
                    })
                } else {
                    final(self).last_position as int == lv.len() && (r matches Err(e) && e
                        == StoreError::NoMoreRows)
                }
            }),
    {
        self.find_section(storage);
        let n = storage.lines.len();
        if self.last_position >= n {
            self.last_position = n;
            return Err(StoreError::NoMoreRows);
        }
        let pos = self.last_position + 1;
        self.last_position = pos;
        if pos < n {
            match &storage.lines[pos] {
                Line::Row(u, p) => Ok((u.clone(), p.clone())),
                Line::Blank(_) => Err(StoreError::NoMoreRows),
                _ => Err(StoreError::Malformed),
            }
        } else {
            self.last_position = n;
            Err(StoreError::NoMoreRows)
        }
    }

    /// Tests whether a row line carries `id`, by full identifier or short
    /// projection.
    fn line_matches(l: &Line, idc: &Vec<char>) -> (r: bool)
        ensures
            r == row_matches(l@, idc@),
    {
        match l {
            Line::Row(u, _p) => {
                let uc = to_chars(u.as_str());
                if idc.len() == 7 {
                    if uc.len() == 36 {
                        let mut sid: Vec<char> = Vec::new();
                        sid.push(uc.as_slice()[0]);
                        sid.push(uc.as_slice()[10]);
                        sid.push(uc.as_slice()[15]);
                        sid.push('-');
                        sid.push(uc.as_slice()[20]);
                        sid.push(uc.as_slice()[25]);
                        sid.push(uc.as_slice()[35]);
                        proof {
                            assert(sid@ =~= short_id_of(u@));
                        }
                        chars_eq(sid.as_slice(), idc.as_slice())
                    } else {
                        false
                    }
                } else {
                    chars_eq(uc.as_slice(), idc.as_slice())
                }
            },
            _ => false,
        }
    }

    /// Positions the cursor one line before the row `uuid` names, scanning
    /// from the top of the section and stopping at the next section
    /// marker. After a hit, the following `next_row` returns that row.
    pub fn find_by_id(&mut self, storage: &Storage, uuid: &str) -> (r: bool)
        requires
            has_section(lines_of(*storage), old(self).section@),
        ensures
            ({
                let lv = lines_of(*storage);
                &&& final(self).section == old(self).section
                &&& final(self).can_recursive == old(self).can_recursive
                &&& final(self).need_find_section == false
                &&& r == find_found(lv, old(self).section@, uuid@)
                &&& final(self).last_position as int == find_pos(lv, old(self).section@, uuid@)
            }),
    {
        self.need_find_section = true;
        self.last_position = 0;
        self.find_section(storage);
        let ghost lv = lines_of(*storage);
        let ghost sp = section_pos(lv, self.section@);
        proof {
            lemma_first_marker(lv, self.section@, 0);
        }
        let idc = to_chars(uuid);
        let n = storage.lines.len();
        let mut j: usize = self.last_position + 1;
        while j < n
            invariant
                sp + 1 <= j <= n,
                n == lv.len(),
                lv == lines_of(*storage),
                idc@ == uuid@,
                0 <= sp < n,
                sp == section_pos(lv, old(self).section@),
                self.section == old(self).section,
                self.can_recursive == old(self).can_recursive,
                self.need_find_section == false,
                self.last_position as int == sp,
                scan_section(lv, sp + 1, uuid@) == scan_section(lv, j as int, uuid@),
            decreases n - j,
        {
            match &storage.lines[j] {
                Line::Marker(_) => {
                    proof {
                        assert(is_marker(lv[j as int]));
                    }
                    return false;
                },
                _ => {},
            }
            proof {
                assert(!is_marker(lv[j as int]));
            }
            if Data::line_matches(&storage.lines[j], &idc) {
                proof {
                    assert(scan_section(lv, j as int, uuid@) == Some(j as int));
                }
                self.last_position = j - 1;
                return true;
            }
            j += 1;
        }
        false
    }

    /// Looks `value` up in the secondary index under this section and
    /// `key`; on a hit, positions the cursor at the indexed row as
    /// `find_by_id` would, and reports success whether or not that row
    /// still exists.
    pub fn find_by_index(&mut self, storage: &Storage, key: String, value: String) -> (r: bool)
        requires
            has_section(lines_of(*storage), old(self).section@),
        ensures
            ({
                let lv = lines_of(*storage);
                let hit = index_lookup(
                    index_of(*storage),
                    skey_of(old(self).section@, key@),
                    value@,
                );
                &&& final(self).section == old(self).section
                &&& final(self).can_recursive == old(self).can_recursive
                &&& match hit {
                    Some(u) => {
                        &&& r == true
                        &&& final(self).need_find_section == false
                        &&& final(self).last_position as int == find_pos(lv, old(self).section@, u)
                    },
                    None => r == false && *final(self) == *old(self),
                }
            }),
    {
        let skey = Storage::build_skey(self.section.as_str(), key.as_str());
        let skc = to_chars(skey.as_str());
        let vc = to_chars(value.as_str());
        let n = storage.index.len();
        let ghost ix = index_of(*storage);
        let ghost sk = skey_of(old(self).section@, key@);
        proof {
            assert(ix.skip(0) =~= ix);
        }
        let mut i: usize = 0;
        while i < n
            invariant
                i <= n,
                n == ix.len(),
                ix == index_of(*storage),
                *self == *old(self),
                skc@ == sk,
                sk == skey_of(old(self).section@, key@),
                vc@ == value@,
                has_section(lines_of(*storage), self.section@),
                index_lookup(ix, sk, value@) == index_lookup(ix.skip(i as int), sk, value@),
            decreases n - i,
        {
            let ec = to_chars(storage.index[i].skey.as_str());
            let evc = to_chars(storage.index[i].value.as_str());
            proof {
                assert(ix.skip(i as int).drop_first() =~= ix.skip(i as int + 1));
                assert(ix.skip(i as int)[0] == ix[i as int]);
            }
            proof {
                assert(ix[i as int].0 == storage.index@[i as int].skey@ && ix[i as int].1
                    == storage.index@[i as int].value@ && ix[i as int].2
                    == storage.index@[i as int].uuid@);
            }
            if chars_eq(ec.as_slice(), skc.as_slice()) && chars_eq(evc.as_slice(), vc.as_slice()) {
                proof {
                    assert(ix.skip(i as int)[0].0 == sk && ix.skip(i as int)[0].1 == value@);
                    assert(index_lookup(ix.skip(i as int), sk, value@) == Some(ix[i as int].2));
                    assert(ix[i as int].2 == storage.index@[i as int].uuid@);
                }
                let ghost u = ix[i as int].2;
                self.find_by_id(storage, storage.index[i].uuid.as_str());
                proof {
                    assert(self.last_position as int == find_pos(
                        lines_of(*storage),
                        old(self).section@,
                        u,
                    ));
                    assert(index_lookup(index_of(*storage), sk, value@) == Some(u));
                }
                return true;
            }
            i += 1;
        }
        proof {
            assert(ix.skip(n as int) =~= Seq::<(Seq<char>, Seq<char>, Seq<char>)>::empty());
        }
        false
    }
}

impl Data {
    /// Inserts a new row at the top of the section (so that forward
    /// iteration meets the newest row first), or replaces, in place, the
    /// first line anywhere in the buffer whose identifier matches. Returns
    /// the row's identifier — fresh for an insert.
    pub fn save_row(
        &mut self,
        storage: &mut Storage,
        uuid: String,
        is_new: bool,
        payload: &crate::payload::Payload,
    ) -> (r: String)
        requires
            wf_store(*old(storage)),
            crate::payload::wf_payload(payload@),
            is_new ==> has_section(lines_of(*old(storage)), old(self).section@),
            !is_new ==> wf_uuid(uuid@),
        ensures
            ({
                let lv = lines_of(*old(storage));
                let text = crate::payload::enc_payload(payload@);
                &&& wf_store(*final(storage))
                &&& index_of(*final(storage)) == index_of(*old(storage))
                &&& final(self).section == old(self).section
                &&& final(self).can_recursive == old(self).can_recursive
                &&& if is_new {
                    let sp = section_pos(lv, old(self).section@);
                    &&& wf_uuid(r@)
                    &&& lines_of(*final(storage)) == lv.insert(sp + 1, LineV::Row(r@, text))
                    &&& final(self).need_find_section == true
                    &&& final(self).last_position as int == sp
                } else {
                    &&& r@ == uuid@
                    &&& *final(self) == *old(self)
                    &&& match scan_all(lv, 0, uuid@) {
                        Some(j) => lines_of(*final(storage)) == lv.update(
                            j,
                            LineV::Row(uuid@, text),
                        ),
                        None => lines_of(*final(storage)) == lv,
                    }
                }
            }),
    {
        let ghost lv = lines_of(*storage);
        let text_chars = crate::payload::encode_payload(payload);
        let text = from_chars(&text_chars);
        proof {
            crate::payload::lemma_enc_payload_no_nl(payload@);
        }
        if is_new {
            self.need_find_section = true;
            self.find_section(storage);
            let ghost sp = section_pos(lv, old(self).section@);
            proof {
                lemma_first_marker(lv, old(self).section@, 0);
                assert(has_section(lv, old(self).section@));
                assert(sp < lv.len());
                assert(self.last_position as int == sp);
            }
            let new_uuid = fresh_uuid();
            proof {
                lemma_fresh_uuid_wf(new_uuid@);
            }
            let row = Line::Row(new_uuid.clone(), text);
            let nlen = storage.lines.len();
            proof {
                assert(self.last_position < nlen);
            }
            storage.lines.insert(self.last_position + 1, row);
            self.need_find_section = true;
            proof {
                let nlv = lines_of(*storage);
                assert(nlv =~= lv.insert(sp + 1, LineV::Row(new_uuid@, crate::payload::enc_payload(
                    payload@,
                ))));
                assert forall|k: int| 0 <= k < nlv.len() implies wf_line(#[trigger] nlv[k]) by {
                    if k < sp + 1 {
                        assert(nlv[k] == lv[k]);
                    } else if k == sp + 1 {
                        assert(nlv[k] == LineV::Row(new_uuid@, crate::payload::enc_payload(
                            payload@,
                        )));
                        assert(crate::text::no_nl(crate::payload::enc_payload(payload@)));
                    } else {
                        assert(nlv[k] == lv[k - 1]);
                    }
                }
                assert(index_of(*storage) =~= index_of(*old(storage)));
            }
            new_uuid
        } else {
            let idc = to_chars(uuid.as_str());
            let n = storage.lines.len();
            proof {
                assert(scan_all(lv, 0, uuid@) == scan_all(lv, 0, uuid@));
            }
            let mut j: usize = 0;
            while j < n
                invariant
                    j <= n,
                    n == lv.len(),
                    lv == lines_of(*storage),
                    wf_store(*storage),
                    *self == *old(self),
                    *storage == *old(storage),
                    is_new == false,
                    idc@ == uuid@,
                    wf_uuid(uuid@),
                    text@ == crate::payload::enc_payload(payload@),
                    scan_all(lv, 0, uuid@) == scan_all(lv, j as int, uuid@),
                decreases n - j,
            {
                if Data::line_matches(&storage.lines[j], &idc) {
                    proof {
                        assert(scan_all(lv, j as int, uuid@) == Some(j as int));
                    }
                    let row = Line::Row(uuid.clone(), text);
                    let ghost vprev = storage.lines@;
                    storage.lines.remove(j);
                    let ghost vmid = storage.lines@;
                    storage.lines.insert(j, row);
                    proof {
                        assert(vmid == vprev.remove(j as int));
                        assert(storage.lines@ == vmid.insert(j as int, row));
                        assert(storage.lines@ =~= vprev.update(j as int, row));
                        let nlv = lines_of(*storage);
                        assert(nlv =~= lv.update(j as int, LineV::Row(
                            uuid@,
                            crate::payload::enc_payload(payload@),
                        )));
                        assert forall|k: int| 0 <= k < nlv.len() implies wf_line(
                            #[trigger] nlv[k],
                        ) by {
                            if k != j as int {
                                assert(nlv[k] == lv[k]);
                            } else {
                                crate::payload::lemma_enc_payload_no_nl(payload@);
                            }
                        }
                        assert(index_of(*storage) =~= index_of(*old(storage)));
                    }
                    return uuid;
                }
                proof {
                    assert(!row_matches(lv[j as int], uuid@));
                }
                j += 1;
            }
            uuid
        }
    }

    /// Removes the first line anywhere in the buffer whose identifier
    /// matches; removes nothing when no line matches.
    pub fn remove_by_id(&self, storage: &mut Storage, uuid: &str)
        ensures
            ({
                let lv = lines_of(*old(storage));
                &&& index_of(*final(storage)) == index_of(*old(storage))
                &&& wf_store(*old(storage)) ==> wf_store(*final(storage))
                &&& match scan_all(lv, 0, uuid@) {
                    Some(j) => lines_of(*final(storage)) == lv.remove(j),
                    None => lines_of(*final(storage)) == lv,
                }
            }),
    {
        let ghost lv = lines_of(*storage);
        let idc = to_chars(uuid);
        let n = storage.lines.len();
        let mut j: usize = 0;
        while j < n
            invariant
                j <= n,
                n == lv.len(),
                lv == lines_of(*storage),
                *storage == *old(storage),
                idc@ == uuid@,
                scan_all(lv, 0, uuid@) == scan_all(lv, j as int, uuid@),
            decreases n - j,
        {
            if Data::line_matches(&storage.lines[j], &idc) {
                proof {
                    assert(scan_all(lv, j as int, uuid@) == Some(j as int));
                }
                storage.lines.remove(j);
                proof {
                    let nlv = lines_of(*storage);
                    assert(nlv =~= lv.remove(j as int));
                    if wf_store(*old(storage)) {
                        assert forall|k: int| 0 <= k < nlv.len() implies wf_line(
                            #[trigger] nlv[k],
                        ) by {
                            if k < j as int {
                                assert(nlv[k] == lv[k]);
                            } else {
                                assert(nlv[k] == lv[k + 1]);
                            }
                        }
                    }
                    assert(index_of(*storage) =~= index_of(*old(storage)));
                }
                return ;
            }
            proof {
                assert(!row_matches(lv[j as int], uuid@));
            }
            j += 1;
        }
    }
}

/// A full-buffer scan that succeeds lands on the first row line that
/// matches; one that fails leaves no match behind.
pub proof fn lemma_scan_all_row(lv: Seq<LineV>, i: int, id: Seq<char>)
    requires
        0 <= i <= lv.len(),
    ensures
        match scan_all(lv, i, id) {
            Some(j) => {
                &&& i <= j < lv.len()
                &&& row_matches(lv[j], id)
                &&& lv[j] matches LineV::Row(_, _)
                &&& forall|k: int| i <= k < j ==> !row_matches(#[trigger] lv[k], id)
            },
            None => forall|k: int| i <= k < lv.len() ==> !row_matches(#[trigger] lv[k], id),
        },
    decreases lv.len() - i,
{
    if i < lv.len() && !row_matches(lv[i], id) {
        lemma_scan_all_row(lv, i + 1, id);
    }
}

/// Appending lines keeps every section present.
pub proof fn lemma_append_keeps_section(lv: Seq<LineV>, ext: Seq<LineV>, sec: Seq<char>)
    requires
        has_section(lv, sec),
    ensures
        has_section(lv + ext, sec),
{
    let w = choose|w: int| 0 <= w < lv.len() && marker_named(#[trigger] lv[w], sec);
    assert((lv + ext)[w] == lv[w]);
    assert(marker_named((lv + ext)[w], sec));
}

/// Inserting a line keeps every section present.
pub proof fn lemma_insert_keeps_section(lv: Seq<LineV>, sec: Seq<char>, k: int, l: LineV)
    requires
        has_section(lv, sec),
        0 <= k <= lv.len(),
    ensures
        has_section(lv.insert(k, l), sec),
{
    let w = choose|w: int| 0 <= w < lv.len() && marker_named(#[trigger] lv[w], sec);
    if w < k {
        assert(lv.insert(k, l)[w] == lv[w]);
        assert(marker_named(lv.insert(k, l)[w], sec));
    } else {
        assert(lv.insert(k, l)[w + 1] == lv[w]);
        assert(marker_named(lv.insert(k, l)[w + 1], sec));
    }
}

/// Rewriting a non-marker line keeps every section present.
pub proof fn lemma_update_keeps_section(lv: Seq<LineV>, sec: Seq<char>, j: int, l: LineV)
    requires
        has_section(lv, sec),
        0 <= j < lv.len(),
        !marker_named(lv[j], sec),
    ensures
        has_section(lv.update(j, l), sec),
{
    let w = choose|w: int| 0 <= w < lv.len() && marker_named(#[trigger] lv[w], sec);
    assert(w != j);
    assert(lv.update(j, l)[w] == lv[w]);
    assert(marker_named(lv.update(j, l)[w], sec));
}

/// A read handle over the `::metadata::` lines.
pub struct Metadata<'a> {
    pub storage: &'a Storage,
}

/// The first metadata entry under `key` whose trimmed value is nonempty.
pub open spec fn meta_lookup(lv: Seq<LineV>, key: Seq<char>, i: int) -> Option<Seq<char>>
    decreases lv.len() - i when 0 <= i <= lv.len()
{
    if i >= lv.len() {
        None
    } else {
        match lv[i] {
            LineV::Meta(k, v) => {
                if k == key && crate::text::spec_trim(v).len() > 0 {
                    Some(crate::text::spec_trim(v))
                } else {
                    meta_lookup(lv, key, i + 1)
                }
            },
            _ => meta_lookup(lv, key, i + 1),
        }
    }
}

impl<'a> Metadata<'a> {
    /// The value stored under `key`, trimmed, if present and nonempty.
    pub fn get(self, key: &str) -> (r: Option<String>)
        ensures
            match r {
                Some(v) => meta_lookup(lines_of(*self.storage), key@, 0) == Some(v@),
                None => meta_lookup(lines_of(*self.storage), key@, 0).is_none(),
            },
    {
        let kc = to_chars(key);
        let n = self.storage.lines.len();
        let ghost lv = lines_of(*self.storage);
        let mut i: usize = 0;
        while i < n
            invariant
                i <= n,
                n == lv.len(),
                lv == lines_of(*self.storage),
                kc@ == key@,
                meta_lookup(lv, key@, 0) == meta_lookup(lv, key@, i as int),
            decreases n - i,
        {
            match &self.storage.lines[i] {
                Line::Meta(k, v) => {
                    let klc = to_chars(k.as_str());
                    if chars_eq(klc.as_slice(), kc.as_slice()) {
                        let vc = to_chars(v.as_str());
                        let t = crate::text::trim(vc.as_slice());
                        if t.len() > 0 {
                            proof {
                                assert(lv[i as int] == LineV::Meta(k@, v@));
                            }
                            return Some(from_chars(&t));
                        }
                    }
                },
                _ => {},
            }
            proof {
                assert(lv[i as int] == lines_of(*self.storage)[i as int]);
            }
            i += 1;
        }
        None
    }
}

} // verus!

//! The store's general guarantees, stated and proved once over the line
//! buffer: what holds of every save, removal, and index lookup, for every
//! record and every store.

use vstd::prelude::*;
use crate::lines::{LineV, wf_uuid};
use crate::storage::{
    has_section, section_pos, first_marker, scan_section, scan_all, find_found, find_pos,
    row_matches, is_marker, marker_named, index_lookup, spec_index_set, skey_of,
    lemma_first_marker, lemma_first_marker_of, lemma_scan_all_row,
};
use crate::model::{row_run, lemma_scan_section_row};
use crate::payload::{enc_payload, spec_parse_payload};
use crate::tags::{TagV, tag_wf, tag_enc, tag_decode, lemma_tag_round_trip};
use crate::accounts::{AccountV, account_wf, account_enc, account_decode,
    lemma_account_round_trip};

verus! {

/// Inserting a line right after a section's marker leaves the marker where
/// it was.
pub proof fn lemma_section_pos_insert(lv: Seq<LineV>, sec: Seq<char>, l: LineV)
    requires
        has_section(lv, sec),
    ensures
        section_pos(lv.insert(section_pos(lv, sec) + 1, l), sec) == section_pos(lv, sec),
{
    let sp = section_pos(lv, sec);
    lemma_first_marker(lv, sec, 0);
    let lv1 = lv.insert(sp + 1, l);
    assert forall|j: int| 0 <= j < sp implies !marker_named(#[trigger] lv1[j], sec) by {
        assert(lv1[j] == lv[j]);
    }
    assert(lv1[sp] == lv[sp]);
    lemma_first_marker_of(lv1, sec, sp);
}

/// A suffix equal line for line reads as the same run of rows.
pub proof fn lemma_row_run_congruent(lv1: Seq<LineV>, i1: int, lv2: Seq<LineV>, i2: int)
    requires
        0 <= i1 <= lv1.len(),
        0 <= i2 <= lv2.len(),
        lv1.len() - i1 == lv2.len() - i2,
        forall|d: int| 0 <= d < lv1.len() - i1 ==> #[trigger] lv1[i1 + d] == lv2[i2 + d],
    ensures
        row_run(lv1, i1) == row_run(lv2, i2),
    decreases lv1.len() - i1,
{
    if i1 < lv1.len() {
        assert(lv1[i1 + 0] == lv2[i2 + 0]);
        assert forall|d: int|
            0 <= d < lv1.len() - (i1 + 1) implies #[trigger] lv1[i1 + 1 + d] == lv2[i2 + 1
            + d] by {
            assert(lv1[i1 + (d + 1)] == lv2[i2 + (d + 1)]);
        }
        lemma_row_run_congruent(lv1, i1 + 1, lv2, i2 + 1);
        assert(row_run(lv1, i1) =~= row_run(lv2, i2));
    } else {
        assert(row_run(lv1, i1) =~= row_run(lv2, i2));
    }
}

/// FIND AFTER SAVE, at the store's level: a freshly inserted row is found
/// again under its assigned identifier, and the cursor then stands so that
/// the next read returns exactly that row.
pub proof fn lemma_find_after_save(lv: Seq<LineV>, sec: Seq<char>, u: Seq<char>, p: Seq<char>)
    requires
        has_section(lv, sec),
        wf_uuid(u),
    ensures
        ({
            let lv1 = lv.insert(section_pos(lv, sec) + 1, LineV::Row(u, p));
            &&& find_found(lv1, sec, u)
            &&& lv1[find_pos(lv1, sec, u) + 1] == LineV::Row(u, p)
        }),
{
    let sp = section_pos(lv, sec);
    lemma_first_marker(lv, sec, 0);
    let lv1 = lv.insert(sp + 1, LineV::Row(u, p));
    lemma_section_pos_insert(lv, sec, LineV::Row(u, p));
    assert(lv1[sp + 1] == LineV::Row(u, p));
    assert(row_matches(lv1[sp + 1], u));
    assert(scan_section(lv1, sp + 1, u) == Some(sp + 1));
}

/// FIND AFTER SAVE for a tag: the saved row, read back through the codec,
/// carries the tag's fields under the assigned identifier.
pub proof fn lemma_tag_find_after_save(lv: Seq<LineV>, v: TagV, u: Seq<char>)
    requires
        has_section(lv, "tags"@),
        tag_wf(v),
        wf_uuid(u),
    ensures
        ({
            let text = enc_payload(tag_enc(v).2);
            let lv1 = lv.insert(section_pos(lv, "tags"@) + 1, LineV::Row(u, text));
            &&& find_found(lv1, "tags"@, u)
            &&& lv1[find_pos(lv1, "tags"@, u) + 1] == LineV::Row(u, text)
            &&& spec_parse_payload(text) == Some(tag_enc(v).2)
            &&& tag_decode(tag_enc(v).2, u) == Some(TagV { uuid: u, name: v.name })
        }),
{
    let text = enc_payload(tag_enc(v).2);
    lemma_find_after_save(lv, "tags"@, u, text);
    lemma_tag_round_trip(v, u);
}

/// FIND AFTER SAVE for an account: the saved row, read back through the
/// codec, carries the account's fields under the assigned identifier.
pub proof fn lemma_account_find_after_save(lv: Seq<LineV>, v: AccountV, u: Seq<char>)
    requires
        has_section(lv, "accounts"@),
        account_wf(v),
        wf_uuid(u),
    ensures
        ({
            let text = enc_payload(account_enc(v).2);
            let lv1 = lv.insert(section_pos(lv, "accounts"@) + 1, LineV::Row(u, text));
            &&& find_found(lv1, "accounts"@, u)
            &&& lv1[find_pos(lv1, "accounts"@, u) + 1] == LineV::Row(u, text)
            &&& spec_parse_payload(text) == Some(account_enc(v).2)
            &&& account_decode(account_enc(v).2, u) == Some(AccountV { uuid: u, ..v })
        }),
{
    let text = enc_payload(account_enc(v).2);
    lemma_find_after_save(lv, "accounts"@, u, text);
    lemma_account_round_trip(v, u);
}

/// DELETE REMOVES: when exactly one line matches an identifier, removing
/// by that identifier makes a later lookup fail.
pub proof fn lemma_delete_removes(lv: Seq<LineV>, sec: Seq<char>, id: Seq<char>)
    requires
        has_section(lv, sec),
        find_found(lv, sec, id),
        forall|a: int, b: int|
            0 <= a < lv.len() && 0 <= b < lv.len() && row_matches(#[trigger] lv[a], id)
                && row_matches(#[trigger] lv[b], id) ==> a == b,
    ensures
        ({
            let lv2 = match scan_all(lv, 0, id) {
                Some(j) => lv.remove(j),
                None => lv,
            };
            !(exists|k: int| 0 <= k < lv2.len() && row_matches(#[trigger] lv2[k], id))
        }),
{
    lemma_first_marker(lv, sec, 0);
    let sp = section_pos(lv, sec);
    lemma_scan_section_row(lv, sp + 1, id);
    let jf = scan_section(lv, sp + 1, id)->Some_0;
    lemma_scan_all_row(lv, 0, id);
    match scan_all(lv, 0, id) {
        Some(j) => {
            let lv2 = lv.remove(j);
            assert forall|k: int|
                0 <= k < lv2.len() implies !row_matches(#[trigger] lv2[k], id) by {
                if k < j {
                    assert(lv2[k] == lv[k]);
                    if row_matches(lv[k], id) {
                        assert(k == j);
                    }
                } else {
                    assert(lv2[k] == lv[k + 1]);
                    if row_matches(lv[k + 1], id) {
                        assert(k + 1 == j);
                    }
                }
            }
        },
        None => {
            assert(row_matches(lv[jf], id));
            assert(false);
        },
    }
}

/// A lookup that fails finds no row, so a removed identifier stays gone:
/// the complement of `lemma_delete_removes`, at the scan's level.
pub proof fn lemma_no_match_no_find(lv: Seq<LineV>, sec: Seq<char>, id: Seq<char>)
    requires
        has_section(lv, sec),
        !(exists|k: int| 0 <= k < lv.len() && row_matches(#[trigger] lv[k], id)),
    ensures
        !find_found(lv, sec, id),
{
    let sp = section_pos(lv, sec);
    lemma_first_marker(lv, sec, 0);
    lemma_scan_section_row(lv, sp + 1, id);
    match scan_section(lv, sp + 1, id) {
        Some(j) => {
            assert(row_matches(lv[j], id));
            assert(false);
        },
        None => {},
    }
}

/// INSERTION ORDER: three records saved new into an empty section read
/// back newest first.
pub proof fn lemma_insertion_order(
    lv0: Seq<LineV>,
    sec: Seq<char>,
    u1: Seq<char>,
    p1: Seq<char>,
    u2: Seq<char>,
    p2: Seq<char>,
    u3: Seq<char>,
    p3: Seq<char>,
)
    requires
        has_section(lv0, sec),
        row_run(lv0, section_pos(lv0, sec) + 1).len() == 0,
    ensures
        ({
            let lv1 = lv0.insert(section_pos(lv0, sec) + 1, LineV::Row(u1, p1));
            let lv2 = lv1.insert(section_pos(lv1, sec) + 1, LineV::Row(u2, p2));
            let lv3 = lv2.insert(section_pos(lv2, sec) + 1, LineV::Row(u3, p3));
            row_run(lv3, section_pos(lv3, sec) + 1) == seq![(u3, p3), (u2, p2), (u1, p1)]
        }),
{
    let sp = section_pos(lv0, sec);
    lemma_first_marker(lv0, sec, 0);
    let lv1 = lv0.insert(sp + 1, LineV::Row(u1, p1));
    lemma_section_pos_insert(lv0, sec, LineV::Row(u1, p1));
    crate::storage::lemma_insert_keeps_section(lv0, sec, sp + 1, LineV::Row(u1, p1));
    let lv2 = lv1.insert(sp + 1, LineV::Row(u2, p2));
    lemma_section_pos_insert(lv1, sec, LineV::Row(u2, p2));
    crate::storage::lemma_insert_keeps_section(lv1, sec, sp + 1, LineV::Row(u2, p2));
    let lv3 = lv2.insert(sp + 1, LineV::Row(u3, p3));
    lemma_section_pos_insert(lv2, sec, LineV::Row(u3, p3));
    assert forall|d: int|
        0 <= d < lv0.len() - (sp + 1) implies #[trigger] lv1[sp + 2 + d] == lv0[sp + 1 + d] by {}
    lemma_row_run_congruent(lv1, sp + 2, lv0, sp + 1);
    assert(row_run(lv1, sp + 1) =~= seq![(u1, p1)] + row_run(lv0, sp + 1));
    assert forall|d: int|
        0 <= d < lv1.len() - (sp + 1) implies #[trigger] lv2[sp + 2 + d] == lv1[sp + 1 + d] by {}
    lemma_row_run_congruent(lv2, sp + 2, lv1, sp + 1);
    assert(row_run(lv2, sp + 1) =~= seq![(u2, p2)] + row_run(lv1, sp + 1));
    assert forall|d: int|
        0 <= d < lv2.len() - (sp + 1) implies #[trigger] lv3[sp + 2 + d] == lv2[sp + 1 + d] by {}
    lemma_row_run_congruent(lv3, sp + 2, lv2, sp + 1);
    assert(row_run(lv3, sp + 1) =~= seq![(u3, p3)] + row_run(lv2, sp + 1));
    assert(row_run(lv0, sp + 1) =~= Seq::<(Seq<char>, Seq<char>)>::empty());
    assert(row_run(lv3, sp + 1) =~= seq![(u3, p3), (u2, p2), (u1, p1)]);
}

/// INDEX CONSISTENCY: what was last written under a key and value is what
/// a lookup returns, so an indexed find positions the cursor exactly as a
/// direct find by the remembered identifier does.
pub proof fn lemma_index_consistency(
    ix: Seq<(Seq<char>, Seq<char>, Seq<char>)>,
    section: Seq<char>,
    key: Seq<char>,
    value: Seq<char>,
    uuid: Seq<char>,
)
    ensures
        index_lookup(
            spec_index_set(ix, skey_of(section, key), value, uuid),
            skey_of(section, key),
            value,
        ) == Some(uuid),
    decreases ix.len(),
{
    let sk = skey_of(section, key);
    if ix.len() == 0 {
        assert(spec_index_set(ix, sk, value, uuid) == seq![(sk, value, uuid)]);
    } else if ix[0].0 == sk && ix[0].1 == value {
        let up = ix.update(0, (sk, value, uuid));
        assert(up[0] == (sk, value, uuid));
    } else {
        lemma_index_consistency(ix.drop_first(), section, key, value, uuid);
        let rest = spec_index_set(ix.drop_first(), sk, value, uuid);
        let whole = seq![ix[0]] + rest;
        assert(whole[0] == ix[0]);
        assert(whole.drop_first() =~= rest);
    }
}

} // verus!

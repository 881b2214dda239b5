//! Properties that span several operations of the library: what a read gives
//! back after an edit, what a migration preserves, and which containers the
//! validation accepts.

use vstd::prelude::*;
use crate::model::{ClassV, Value, first_key};
use crate::edit::{tree_mapped, class_mapped, set_elem, set_string, at_index, in_class};
use crate::read::{tree_read, class_read, only_field_at, lemma_tree_read_single, ArrayBools, bool_elems, EntryNames,
    ArrayStrings, string_elems,
    entries_names, entry_names, StringValue};
use crate::schema::{EDIT_SAVE_CLS, SLOT_USED_FIELD, SLOT_NAME_FIELD, LOADINFO_CLS, HUNTER_ARRAY_FIELD, HUNTER_NAME_FIELD};
use crate::sys::{renamed_entry, renamed_slot};
use crate::migrate::{copy_run, lemma_copy_run_effect};
use crate::schema::migrated_classes;
use crate::sig::{class_sig, lemma_fold_parts_fields, SIG_BASIS};
use crate::container::{relinked, link_of, container_issues, lemma_relinked_frame};
use crate::hunter::{merged_entry, linked_entry, link_enum_value};
use crate::schema::{target_bound_fields, link_enum_fields, HUNTER_RECORD_KEY, ENEMY_SIZE_MIN_FIELD, ENEMY_SIZE_MAX_FIELD};
use crate::records::size_copied;
use crate::payload::{string_record, record_size, lemma_string_record_len};
use crate::murmur::le_u32_at;

verus! {

/// Mapping the fields under `fh` of the classes of type `ch` keeps every key,
/// class hash and field hash.
proof fn lemma_mapped_shape(t: Seq<(u32, ClassV)>, ch: u32, fh: u32, f: spec_fn(Value) -> Value)
    ensures
        tree_mapped(t, ch, fh, f).len() == t.len(),
        forall|a: int|
            0 <= a < t.len() ==> {
                &&& (#[trigger] tree_mapped(t, ch, fh, f)[a]).0 == t[a].0
                &&& tree_mapped(t, ch, fh, f)[a].1.hash == t[a].1.hash
                &&& tree_mapped(t, ch, fh, f)[a].1.fields.len() == t[a].1.fields.len()
            },
        forall|a: int, b: int|
            0 <= a < t.len() && 0 <= b < t[a].1.fields.len() ==> (#[trigger] tree_mapped(t, ch, fh, f)[a].1.fields[b]).0
                == t[a].1.fields[b].0,
{
}

/// With a single `playerSlotUsed` array in the save, in the slot-record class,
/// reading the slot-used flags after slot `idx` was set to `used` gives the
/// flags read before, with the flag of slot `idx` now `used`.
pub proof fn law_slot_used_read_back(t: Seq<(u32, ClassV)>, i: int, j: int, idx: int, used: bool)
    requires
        only_field_at(t, None, SLOT_USED_FIELD, i, j),
        t[i].1.hash == EDIT_SAVE_CLS,
        t[i].1.fields[j].1 is Array,
        0 <= idx < t[i].1.fields[j].1->Array_1.len(),
    ensures
        tree_read(
            ArrayBools,
            tree_mapped(t, EDIT_SAVE_CLS, SLOT_USED_FIELD, |v: Value| set_elem(v, idx, Value::Boolean(used))),
            None,
            SLOT_USED_FIELD,
        ) == tree_read(ArrayBools, t, None, SLOT_USED_FIELD).update(idx, Some(used)),
{
    let f = |v: Value| set_elem(v, idx, Value::Boolean(used));
    let t2 = tree_mapped(t, EDIT_SAVE_CLS, SLOT_USED_FIELD, f);
    lemma_mapped_shape(t, EDIT_SAVE_CLS, SLOT_USED_FIELD, f);
    assert(only_field_at(t2, None, SLOT_USED_FIELD, i, j)) by {
        assert forall|a: int, b: int|
            0 <= a < t2.len() && 0 <= b < t2[a].1.fields.len() && #[trigger] t2[a].1.fields[b].0 == SLOT_USED_FIELD
            implies a == i && b == j by {
            assert(t[a].1.fields[b].0 == SLOT_USED_FIELD);
        }
    }
    lemma_tree_read_single(ArrayBools, t, None, SLOT_USED_FIELD, i, j);
    lemma_tree_read_single(ArrayBools, t2, None, SLOT_USED_FIELD, i, j);
    let v = t[i].1.fields[j].1;
    let s = v->Array_1;
    assert(t2[i].1.fields[j].1 == f(v));
    assert(bool_elems(s.update(idx, Value::Boolean(used))) =~= bool_elems(s).update(idx, Some(used)));
}

/// A hunter entry that is a class with exactly one name field.
pub open spec fn one_name(e: Value) -> bool {
    &&& e is Class
    &&& exists|k: int|
        0 <= k < e->Class_0.fields.len() && e->Class_0.fields[k].0 == HUNTER_NAME_FIELD && forall|b: int|
            0 <= b < e->Class_0.fields.len() && #[trigger] e->Class_0.fields[b].0 == HUNTER_NAME_FIELD ==> b == k
}

/// The name a hunter entry with one name field holds.
pub open spec fn name_in(e: Value) -> Option<Seq<u16>> {
    let c = e->Class_0;
    let k = first_key(c.fields, HUNTER_NAME_FIELD);
    if c.fields[k].1 is Str {
        Some(c.fields[k].1->Str_0)
    } else {
        None
    }
}

proof fn lemma_one_name(e: Value)
    requires
        one_name(e),
    ensures
        entry_names(e, HUNTER_NAME_FIELD) == seq![name_in(e)],
        0 <= first_key(e->Class_0.fields, HUNTER_NAME_FIELD) < e->Class_0.fields.len(),
{
    let c = e->Class_0;
    let k = choose|k: int|
        0 <= k < c.fields.len() && c.fields[k].0 == HUNTER_NAME_FIELD && forall|b: int|
            0 <= b < c.fields.len() && #[trigger] c.fields[b].0 == HUNTER_NAME_FIELD ==> b == k;
    assert(crate::model::is_first_key(c.fields, HUNTER_NAME_FIELD, k));
    crate::model::lemma_first_key(c.fields, HUNTER_NAME_FIELD, k);
    crate::read::lemma_class_read_single(StringValue, c.fields, HUNTER_NAME_FIELD, k);
}

proof fn lemma_entries_names_each(s: Seq<Value>)
    requires
        forall|k: int| 0 <= k < s.len() ==> one_name(#[trigger] s[k]),
    ensures
        entries_names(s, HUNTER_NAME_FIELD) == s.map_values(|e: Value| name_in(e)),
    decreases s.len(),
{
    if s.len() > 0 {
        let init = s.drop_last();
        assert forall|k: int| 0 <= k < init.len() implies one_name(#[trigger] init[k]) by {
            assert(init[k] == s[k]);
        }
        lemma_entries_names_each(init);
        lemma_one_name(s.last());
        assert(entries_names(s, HUNTER_NAME_FIELD) =~= s.map_values(|e: Value| name_in(e)));
    }
}

/// With a single hunter array in the save, each of whose entries has one
/// name field, reading the hunter names after entry `idx` was renamed to
/// `units` gives the names read before, with the name of entry `idx` now
/// `units`, where that entry's name field holds a string.
pub proof fn law_hunter_name_read_back(t: Seq<(u32, ClassV)>, i: int, j: int, idx: int, units: Seq<u16>)
    requires
        only_field_at(t, Some(LOADINFO_CLS), HUNTER_ARRAY_FIELD, i, j),
        t[i].1.fields[j].1 is Array,
        forall|k: int|
            0 <= k < t[i].1.fields[j].1->Array_1.len() ==> one_name(#[trigger] t[i].1.fields[j].1->Array_1[k]),
        0 <= idx < t[i].1.fields[j].1->Array_1.len(),
        name_in(t[i].1.fields[j].1->Array_1[idx]) is Some,
    ensures
        tree_read(
            EntryNames { name_field: HUNTER_NAME_FIELD },
            tree_mapped(t, LOADINFO_CLS, HUNTER_ARRAY_FIELD, |v: Value| renamed_entry(v, idx, units)),
            Some(LOADINFO_CLS),
            HUNTER_ARRAY_FIELD,
        ) == tree_read(EntryNames { name_field: HUNTER_NAME_FIELD }, t, Some(LOADINFO_CLS), HUNTER_ARRAY_FIELD).update(
            idx,
            Some(units),
        ),
{
    let r = EntryNames { name_field: HUNTER_NAME_FIELD };
    let f = |v: Value| renamed_entry(v, idx, units);
    let t2 = tree_mapped(t, LOADINFO_CLS, HUNTER_ARRAY_FIELD, f);
    lemma_mapped_shape(t, LOADINFO_CLS, HUNTER_ARRAY_FIELD, f);
    assert(only_field_at(t2, Some(LOADINFO_CLS), HUNTER_ARRAY_FIELD, i, j)) by {
        assert forall|a: int, b: int|
            0 <= a < t2.len() && 0 <= b < t2[a].1.fields.len() && (Some(LOADINFO_CLS) == Some(t2[a].1.hash))
                && #[trigger] t2[a].1.fields[b].0 == HUNTER_ARRAY_FIELD implies a == i && b == j by {
            assert(t[a].1.fields[b].0 == HUNTER_ARRAY_FIELD);
        }
    }
    lemma_tree_read_single(r, t, Some(LOADINFO_CLS), HUNTER_ARRAY_FIELD, i, j);
    lemma_tree_read_single(r, t2, Some(LOADINFO_CLS), HUNTER_ARRAY_FIELD, i, j);
    let v = t[i].1.fields[j].1;
    let s = v->Array_1;
    assert(t2[i].1.fields[j].1 == f(v));
    let g = |y: Value| set_string(y, units);
    let e = s[idx];
    let ne = in_class(e, HUNTER_NAME_FIELD, g);
    let s2 = s.update(idx, ne);
    assert(f(v) == Value::Array(v->Array_0, s2));
    lemma_one_name(e);
    let c = e->Class_0;
    let k = first_key(c.fields, HUNTER_NAME_FIELD);
    let nc = class_mapped(c, HUNTER_NAME_FIELD, g);
    assert(ne == Value::Class(nc));
    assert(one_name(ne)) by {
        assert(nc.fields[k].0 == HUNTER_NAME_FIELD);
        assert forall|b: int| 0 <= b < nc.fields.len() && #[trigger] nc.fields[b].0 == HUNTER_NAME_FIELD implies b == k by {
            assert(c.fields[b].0 == HUNTER_NAME_FIELD);
            assert(crate::model::is_first_key(c.fields, HUNTER_NAME_FIELD, k));
            let kk = choose|kk: int|
                0 <= kk < c.fields.len() && c.fields[kk].0 == HUNTER_NAME_FIELD && forall|b2: int|
                    0 <= b2 < c.fields.len() && #[trigger] c.fields[b2].0 == HUNTER_NAME_FIELD ==> b2 == kk;
            assert(b == kk);
            assert(k == kk);
        }
    }
    lemma_one_name(ne);
    assert(crate::model::is_first_key(c.fields, HUNTER_NAME_FIELD, k));
    assert(crate::model::is_first_key(nc.fields, HUNTER_NAME_FIELD, k)) by {
        assert forall|b: int| 0 <= b < k implies #[trigger] nc.fields[b].0 != HUNTER_NAME_FIELD by {
            assert(c.fields[b].0 != HUNTER_NAME_FIELD);
        }
    }
    crate::model::lemma_first_key(nc.fields, HUNTER_NAME_FIELD, k);
    assert(name_in(ne) == Some(units));
    assert forall|q: int| 0 <= q < s2.len() implies one_name(#[trigger] s2[q]) by {
        if q != idx {
            assert(s2[q] == s[q]);
        }
    }
    lemma_entries_names_each(s);
    lemma_entries_names_each(s2);
    assert(s2.map_values(|x: Value| name_in(x)) =~= s.map_values(|x: Value| name_in(x)).update(idx, Some(units)));
}

/// Migration preserves content: for every migrated class that both saves
/// hold, the signature of the class the target ends up with equals the
/// signature of the source's class.
pub proof fn law_migrated_signatures(pc: Seq<(u32, ClassV)>, sw: Seq<(u32, ClassV)>, h: u32)
    requires
        migrated_classes().contains(h),
        first_key(sw, h) >= 0,
        first_key(pc, h) >= 0,
    ensures
        copy_run(pc, sw, migrated_classes(), None).0[first_key(pc, h)].0 == h,
        class_sig(copy_run(pc, sw, migrated_classes(), None).0[first_key(pc, h)].1) == class_sig(sw[first_key(sw, h)].1),
{
    let hs = migrated_classes();
    let i = choose|i: int| 0 <= i < hs.len() && hs[i] == h;
    lemma_copy_run_effect(pc, sw, hs, None);
    assert(copy_run(pc, sw, hs, None).0[first_key(pc, hs[i])] == (hs[i], sw[first_key(sw, hs[i])].1));
}

/// A slot relinked to a system file whose link word is set, beside that
/// system file resealed with its own link, passes every container check.
pub proof fn law_relinked_pair_validates(slot: Seq<u8>, sys: Seq<u8>)
    requires
        slot.len() >= 0x14,
        sys.len() >= 0x14,
        link_of(sys) != 0,
    ensures
        container_issues(relinked(slot, link_of(sys)), relinked(sys, link_of(sys))).len() == 0,
        container_issues(relinked(slot, link_of(sys)), sys).len() == 0,
{
    lemma_relinked_frame(slot, link_of(sys));
    lemma_relinked_frame(sys, link_of(sys));
}

/// Synchronising a hunter entry patches values only, in place: the entry
/// keeps its fields, their hashes and their order; every target-bound field
/// (the link-derived enums and the character GUID) keeps the target's value;
/// every other field that the source also has takes the value of the source's
/// first field with that hash, and every field the source lacks is kept.
pub proof fn law_sync_value_only(c: ClassV, src: Seq<(u32, Value)>)
    ensures
        merged_entry(c, src).hash == c.hash,
        merged_entry(c, src).fields.len() == c.fields.len(),
        forall|j: int| 0 <= j < c.fields.len() ==> (#[trigger] merged_entry(c, src).fields[j]).0 == c.fields[j].0,
        forall|j: int|
            0 <= j < c.fields.len() && target_bound_fields().contains(c.fields[j].0)
                ==> #[trigger] merged_entry(c, src).fields[j] == c.fields[j],
        forall|j: int|
            0 <= j < c.fields.len() && !target_bound_fields().contains(c.fields[j].0) && first_key(src, c.fields[j].0) >= 0
                ==> #[trigger] merged_entry(c, src).fields[j] == (c.fields[j].0, src[first_key(src, c.fields[j].0)].1),
        forall|j: int|
            0 <= j < c.fields.len() && first_key(src, c.fields[j].0) < 0 ==> #[trigger] merged_entry(c, src).fields[j]
                == c.fields[j],
{
}

/// A copied hunter entry carries the target's link in every link-derived
/// enum, never the source's, and keeps every other field of the source entry.
pub proof fn law_copied_entry_linked(c: ClassV, link: u32)
    ensures
        linked_entry(c, link).fields.len() == c.fields.len(),
        forall|j: int|
            0 <= j < c.fields.len() && link_enum_fields().contains(c.fields[j].0) ==> (#[trigger] linked_entry(
                c,
                link,
            ).fields[j]) == (c.fields[j].0, link_enum_value(link)),
        forall|j: int|
            0 <= j < c.fields.len() && !link_enum_fields().contains(c.fields[j].0) ==> #[trigger] linked_entry(
                c,
                link,
            ).fields[j] == c.fields[j],
{
}

/// Synchronising the size records changes nothing but them: in the hunter
/// record every field other than the first `EnemySizeMin` and the first
/// `EnemySizeMax` keeps its value, and the record keeps its fields and their
/// hashes.
pub proof fn law_size_sync_frame(c: ClassV, s: ClassV)
    ensures
        ({
            let r = size_copied(size_copied(c, s, ENEMY_SIZE_MIN_FIELD), s, ENEMY_SIZE_MAX_FIELD);
            &&& r.hash == c.hash
            &&& r.fields.len() == c.fields.len()
            &&& forall|j: int| 0 <= j < c.fields.len() ==> (#[trigger] r.fields[j]).0 == c.fields[j].0
            &&& forall|j: int|
                0 <= j < c.fields.len() && j != first_key(c.fields, ENEMY_SIZE_MIN_FIELD) && j != first_key(
                    c.fields,
                    ENEMY_SIZE_MAX_FIELD,
                ) ==> #[trigger] r.fields[j] == c.fields[j]
        }),
{
    let c1 = size_copied(c, s, ENEMY_SIZE_MIN_FIELD);
    crate::model::lemma_first_key_range(c.fields, ENEMY_SIZE_MIN_FIELD);
    crate::model::lemma_first_key_range(c.fields, ENEMY_SIZE_MAX_FIELD);
    assert(c1.fields.len() == c.fields.len());
    assert forall|j: int| 0 <= j < c.fields.len() implies (#[trigger] c1.fields[j]).0 == c.fields[j].0 by {}
    assert(first_key(c1.fields, ENEMY_SIZE_MAX_FIELD) == first_key(c.fields, ENEMY_SIZE_MAX_FIELD)) by {
        let k = first_key(c.fields, ENEMY_SIZE_MAX_FIELD);
        if k >= 0 {
            assert forall|b: int| 0 <= b < k implies #[trigger] c1.fields[b].0 != ENEMY_SIZE_MAX_FIELD by {
                assert(c1.fields[b].0 == c.fields[b].0);
            }
            crate::model::lemma_first_key(c1.fields, ENEMY_SIZE_MAX_FIELD, k);
        } else {
            crate::model::lemma_no_key(c1.fields, ENEMY_SIZE_MAX_FIELD);
        }
    }
}

/// A name written over a string record of the same size patches the
/// payload in place: its length is kept and every byte outside the record
/// stays as it was.
pub proof fn law_same_size_name_in_place(payload: Seq<u8>, offset: int, units: Seq<u16>)
    requires
        0 <= offset,
        offset + 4 <= payload.len(),
        offset + record_size(le_u32_at(payload, offset)) <= payload.len(),
        units.len() <= u32::MAX,
        record_size(units.len() as u32) == record_size(le_u32_at(payload, offset)),
    ensures
        ({
            let p = payload.take(offset) + string_record(units) + payload.skip(offset + record_size(le_u32_at(payload, offset)));
            &&& p.len() == payload.len()
            &&& forall|i: int|
                0 <= i < payload.len() && !(offset <= i < offset + record_size(le_u32_at(payload, offset))) ==> #[trigger] p[i]
                    == payload[i]
        }),
{
    lemma_string_record_len(units);
    let n = record_size(le_u32_at(payload, offset));
    let p = payload.take(offset) + string_record(units) + payload.skip(offset + n);
    assert forall|i: int| 0 <= i < payload.len() && !(offset <= i < offset + n) implies #[trigger] p[i] == payload[i] by {
        if i < offset {
            assert(p[i] == payload.take(offset)[i]);
        } else {
            assert(p[i] == payload.skip(offset + n)[i - offset - n]);
        }
    }
}

/// The account-preserving migration leaves the target's hunter record (the
/// class that carries the account's identifiers) exactly as it was.
pub proof fn law_acct_keeps_hunter_record(pc: Seq<(u32, ClassV)>, sw: Seq<(u32, ClassV)>)
    requires
        first_key(pc, HUNTER_RECORD_KEY) >= 0,
    ensures
        copy_run(pc, sw, migrated_classes(), Some(HUNTER_RECORD_KEY)).0[first_key(pc, HUNTER_RECORD_KEY)]
            == pc[first_key(pc, HUNTER_RECORD_KEY)],
{
    let hs = migrated_classes();
    let k = first_key(pc, HUNTER_RECORD_KEY);
    crate::model::lemma_first_key_range(pc, HUNTER_RECORD_KEY);
    lemma_copy_run_effect(pc, sw, hs, Some(HUNTER_RECORD_KEY));
    assert(!(exists|i: int|
        0 <= i < hs.len() && Some(HUNTER_RECORD_KEY) != Some(hs[i]) && first_key(sw, hs[i]) >= 0 && #[trigger] first_key(pc, hs[i]) == k)) by {
        if exists|i: int|
            0 <= i < hs.len() && Some(HUNTER_RECORD_KEY) != Some(hs[i]) && first_key(sw, hs[i]) >= 0 && #[trigger] first_key(pc, hs[i]) == k {
            let i = choose|i: int|
                0 <= i < hs.len() && Some(HUNTER_RECORD_KEY) != Some(hs[i]) && first_key(sw, hs[i]) >= 0 && #[trigger] first_key(pc, hs[i]) == k;
            crate::model::lemma_first_key_range(pc, hs[i]);
        }
    }
}

/// A class's signature depends on its fields alone: two classes with the same
/// fields (whatever their type hashes, in whatever saves) have the same
/// signature.
pub proof fn law_class_sig_by_fields(a: ClassV, b: ClassV)
    requires
        a.fields == b.fields,
    ensures
        class_sig(a) == class_sig(b),
{
    lemma_fold_parts_fields(SIG_BASIS, a, b, a.fields.len() as int);
}

/// With a single `playerSaveSlotName` array in the slot-record classes of the
/// save, whose element `idx` is a string, reading the slot names after both
/// names of character `idx` were set to `units` gives the names read before
/// (same length), with the name of slot `idx` now `units`.
pub proof fn law_slot_name_read_back(t: Seq<(u32, ClassV)>, i: int, j: int, idx: int, units: Seq<u16>)
    requires
        only_field_at(t, Some(EDIT_SAVE_CLS), SLOT_NAME_FIELD, i, j),
        t[i].1.fields[j].1 is Array,
        0 <= idx < t[i].1.fields[j].1->Array_1.len(),
        t[i].1.fields[j].1->Array_1[idx] is Str,
    ensures
        tree_read(
            ArrayStrings,
            tree_mapped(
                tree_mapped(t, LOADINFO_CLS, HUNTER_ARRAY_FIELD, |v: Value| renamed_entry(v, idx, units)),
                EDIT_SAVE_CLS,
                SLOT_NAME_FIELD,
                |v: Value| renamed_slot(v, idx, units),
            ),
            Some(EDIT_SAVE_CLS),
            SLOT_NAME_FIELD,
        ) == tree_read(ArrayStrings, t, Some(EDIT_SAVE_CLS), SLOT_NAME_FIELD).update(idx, Some(units)),
{
    let f1 = |v: Value| renamed_entry(v, idx, units);
    let f2 = |v: Value| renamed_slot(v, idx, units);
    let t1 = tree_mapped(t, LOADINFO_CLS, HUNTER_ARRAY_FIELD, f1);
    let t2 = tree_mapped(t1, EDIT_SAVE_CLS, SLOT_NAME_FIELD, f2);
    lemma_mapped_shape(t, LOADINFO_CLS, HUNTER_ARRAY_FIELD, f1);
    lemma_mapped_shape(t1, EDIT_SAVE_CLS, SLOT_NAME_FIELD, f2);
    assert(t1[i] == t[i]);
    assert(only_field_at(t2, Some(EDIT_SAVE_CLS), SLOT_NAME_FIELD, i, j)) by {
        assert forall|a: int, b: int|
            0 <= a < t2.len() && 0 <= b < t2[a].1.fields.len() && (Some(EDIT_SAVE_CLS) == Some(t2[a].1.hash))
                && #[trigger] t2[a].1.fields[b].0 == SLOT_NAME_FIELD implies a == i && b == j by {
            assert(t1[a].1.fields[b].0 == SLOT_NAME_FIELD);
            assert(t[a].1.fields[b].0 == SLOT_NAME_FIELD);
        }
    }
    lemma_tree_read_single(ArrayStrings, t, Some(EDIT_SAVE_CLS), SLOT_NAME_FIELD, i, j);
    lemma_tree_read_single(ArrayStrings, t2, Some(EDIT_SAVE_CLS), SLOT_NAME_FIELD, i, j);
    let v = t[i].1.fields[j].1;
    let s = v->Array_1;
    assert(t2[i].1.fields[j].1 == f2(v));
    assert(f2(v) == Value::Array(v->Array_0, s.update(idx, Value::Str(units))));
    assert(string_elems(s.update(idx, Value::Str(units))) =~= string_elems(s).update(idx, Some(units)));
}

} // verus!

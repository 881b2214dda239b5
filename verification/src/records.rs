//! Targeted edits of single records: the monster-size records of a slot and
//! the hunter entries, village and identifiers of a save.

use vstd::prelude::*;
use crate::model::{SaveTree, Class, ClassV, FieldValue, Value, EnumValue, value_view, class_view, first_key,
    lemma_first_key, find_top, lemma_tree_set_class, lemma_class_value_view};
use crate::edit::{ValueEdit, Replace, SetElem, SetS32, SetEnum4, Zero, ZeroWhat, InClass, InClassFirst, AtIndex,
    edit_first_field, first_mapped, first_hit, set_elem, has_elem, at_index, at_index_hit, in_class_first, class_mapped,
    zeroed_struct, zeroed_string, zeroed_u8_elems};
use crate::slot::{first_field, find_field};
use crate::schema::{HUNTER_RECORD_KEY, ENEMY_SIZE_MIN_FIELD, ENEMY_SIZE_MAX_FIELD, LOADINFO_KEY, HUNTER_ARRAY_FIELD,
    USE_INDEX_FIELD, VILLAGE_FIELD, HUNTER_UNIQUE_ID_FIELD, NSA_ID_FIELD, NETWORK_ID_FIELD, NETWORK_ID_BYTES_FIELD};

verus! {

/// What became of one size record.
#[derive(Debug, Clone, Copy, PartialEq, Eq)]
pub enum SizeFieldOutcome {
    /// Copied from the source record.
    Patched,
    /// The source record has no such field; the target is left as it was.
    MissingInSource,
    /// The target record has no such field.
    MissingInTarget,
}

/// Why the size records could not be synchronised.
#[derive(Debug, Clone, Copy, PartialEq, Eq)]
pub enum SizeSyncError {
    /// The target save has no hunter record.
    TargetRecordMissing,
    /// The source save has no hunter record.
    SourceRecordMissing,
}

/// The outcome for both size records.
#[derive(Debug, Clone, Copy, PartialEq, Eq)]
pub struct SizeSyncReport {
    pub min: SizeFieldOutcome,
    pub max: SizeFieldOutcome,
}

/// A target hunter record with its first field `h` taken from the source
/// record's first field `h`, when both have one.
pub open spec fn size_copied(c: ClassV, s: ClassV, h: u32) -> ClassV {
    match first_field(s.fields, h) {
        Some(v) => first_mapped(c, h, |x: Value| v),
        None => c,
    }
}

pub open spec fn size_outcome(c: ClassV, s: ClassV, h: u32) -> SizeFieldOutcome {
    if first_field(s.fields, h) is None {
        SizeFieldOutcome::MissingInSource
    } else if first_key(c.fields, h) < 0 {
        SizeFieldOutcome::MissingInTarget
    } else {
        SizeFieldOutcome::Patched
    }
}

fn copy_size_field(c: &mut Class, s: &Class, h: u32) -> (r: SizeFieldOutcome)
    ensures
        final(c)@ == size_copied(old(c)@, s@, h),
        r == size_outcome(old(c)@, s@, h),
{
    match find_field(s, h) {
        Some(k) => {
            proof {
                lemma_first_key(s@.fields, h, k as int);
                assert(s@.fields[k as int] == (h, value_view(s.fields@[k as int].value)));
            }
            let e = Replace { value: s.fields[k].value.duplicate() };
            let ghost v = e.value@;
            let hit = edit_first_field(&e, c, h);
            proof {
                assert((|x: Value| e.edited(x)) =~= (|x: Value| v));
            }
            if hit {
                SizeFieldOutcome::Patched
            } else {
                SizeFieldOutcome::MissingInTarget
            }
        },
        None => SizeFieldOutcome::MissingInSource,
    }
}

/// Copy only the monster-size records (`EnemySizeMin`, `EnemySizeMax`) of the
/// hunter record of `sw` into that of `pc`, leaving every other field of `pc`
/// as it was. Refused, with `pc` unchanged, when either save has no hunter
/// record.
pub fn sync_sizes(pc: &mut SaveTree, sw: &SaveTree) -> (r: Result<SizeSyncReport, SizeSyncError>)
    ensures
        first_key(old(pc)@, HUNTER_RECORD_KEY) < 0 ==> r == Err::<SizeSyncReport, SizeSyncError>(
            SizeSyncError::TargetRecordMissing,
        ) && final(pc)@ == old(pc)@,
        first_key(old(pc)@, HUNTER_RECORD_KEY) >= 0 && first_key(sw@, HUNTER_RECORD_KEY) < 0 ==> r == Err::<
            SizeSyncReport,
            SizeSyncError,
        >(SizeSyncError::SourceRecordMissing) && final(pc)@ == old(pc)@,
        first_key(old(pc)@, HUNTER_RECORD_KEY) >= 0 && first_key(sw@, HUNTER_RECORD_KEY) >= 0 ==> {
            let pk = first_key(old(pc)@, HUNTER_RECORD_KEY);
            let c = old(pc)@[pk].1;
            let s = sw@[first_key(sw@, HUNTER_RECORD_KEY)].1;
            let c1 = size_copied(c, s, ENEMY_SIZE_MIN_FIELD);
            &&& r == Ok::<SizeSyncReport, SizeSyncError>(
                SizeSyncReport { min: size_outcome(c, s, ENEMY_SIZE_MIN_FIELD), max: size_outcome(c1, s, ENEMY_SIZE_MAX_FIELD) },
            )
            &&& final(pc)@ == old(pc)@.update(pk, (HUNTER_RECORD_KEY, size_copied(c1, s, ENEMY_SIZE_MAX_FIELD)))
        },
{
    let pk = match find_top(&pc.fields, HUNTER_RECORD_KEY) {
        Some(k) => k,
        None => {
            return Err(SizeSyncError::TargetRecordMissing);
        },
    };
    let sk = match find_top(&sw.fields, HUNTER_RECORD_KEY) {
        Some(k) => k,
        None => {
            return Err(SizeSyncError::SourceRecordMissing);
        },
    };
    proof {
        lemma_first_key(old(pc)@, HUNTER_RECORD_KEY, pk as int);
        lemma_first_key(sw@, HUNTER_RECORD_KEY, sk as int);
    }
    let ghost before = *pc;
    let min = copy_size_field(&mut pc.fields[pk].1, &sw.fields[sk].1, ENEMY_SIZE_MIN_FIELD);
    let ghost mid = *pc;
    let max = copy_size_field(&mut pc.fields[pk].1, &sw.fields[sk].1, ENEMY_SIZE_MAX_FIELD);
    proof {
        lemma_tree_set_class(before, mid, pk as int, mid.fields@[pk as int].1);
        lemma_tree_set_class(mid, *pc, pk as int, pc.fields@[pk as int].1);
    }
    Ok(SizeSyncReport { min, max })
}

} // verus!

verus! {

/// Why a hunter entry could not be carried between system files.
#[derive(Debug, Clone, Copy, PartialEq, Eq)]
pub enum EntryCopyError {
    /// The source system file has no `LoadInfoData`.
    SourceLoadInfoMissing,
    /// The source `_HunterArray` is missing or not an array.
    SourceHunterArrayNotArray,
    /// The source `_HunterArray` has no class at the requested index.
    SourceEntryMissing,
    /// The target system file has no `LoadInfoData`.
    TargetLoadInfoMissing,
    /// The target `_HunterArray` is missing or not an array.
    TargetHunterArrayNotArray,
    /// The target `_HunterArray` has no class at the requested index.
    TargetEntryNotClass,
}

/// The class at `idx` of an array value, when that element is a class.
pub open spec fn class_elem(v: Value, idx: int) -> Option<ClassV> {
    if has_elem(v, idx) && v->Array_1[idx] is Class {
        Some(v->Array_1[idx]->Class_0)
    } else {
        None
    }
}

/// The `_UseIndex` of target entry `slot`, when it holds a 32-bit signed value.
pub open spec fn kept_use_index(pa: Value, slot: int) -> Option<i32> {
    match class_elem(pa, slot) {
        Some(c) => match first_field(c.fields, USE_INDEX_FIELD) {
            Some(Value::S32(x)) => Some(x),
            _ => None,
        },
        None => None,
    }
}

/// An entry with its `_UseIndex` set to `keep` (when given, and when the entry's
/// first `_UseIndex` field holds a 32-bit signed value).
pub open spec fn with_use_index(e: ClassV, keep: Option<i32>) -> ClassV {
    match keep {
        Some(x) => first_mapped(e, USE_INDEX_FIELD, |v: Value| if v is S32 { Value::S32(x) } else { v }),
        None => e,
    }
}

/// The first `_HunterArray` of a save's `LoadInfoData`.
pub open spec fn hunter_array(t: Seq<(u32, ClassV)>) -> Option<Value> {
    let k = first_key(t, LOADINFO_KEY);
    if k >= 0 {
        first_field(t[k].1.fields, HUNTER_ARRAY_FIELD)
    } else {
        None
    }
}

/// What carrying source entry `sw_slot` over target entry `pc_slot` gives, or
/// why it is refused (checks in this order: the source `LoadInfoData`, its
/// `_HunterArray`, the source entry, the target `LoadInfoData`, its
/// `_HunterArray`, the target entry). `keep_use` also carries the target
/// entry's `_UseIndex` over to the copy.
pub open spec fn entry_carried(
    pc: Seq<(u32, ClassV)>,
    sw: Seq<(u32, ClassV)>,
    sw_slot: int,
    pc_slot: int,
    keep_use: bool,
) -> Result<Seq<(u32, ClassV)>, EntryCopyError> {
    if first_key(sw, LOADINFO_KEY) < 0 {
        Err(EntryCopyError::SourceLoadInfoMissing)
    } else if !(hunter_array(sw) is Some && hunter_array(sw)->0 is Array) {
        Err(EntryCopyError::SourceHunterArrayNotArray)
    } else if class_elem(hunter_array(sw)->0, sw_slot) is None {
        Err(EntryCopyError::SourceEntryMissing)
    } else if first_key(pc, LOADINFO_KEY) < 0 {
        Err(EntryCopyError::TargetLoadInfoMissing)
    } else if !(hunter_array(pc) is Some && hunter_array(pc)->0 is Array) {
        Err(EntryCopyError::TargetHunterArrayNotArray)
    } else if class_elem(hunter_array(pc)->0, pc_slot) is None {
        Err(EntryCopyError::TargetEntryNotClass)
    } else {
        let pk = first_key(pc, LOADINFO_KEY);
        let se = class_elem(hunter_array(sw)->0, sw_slot)->0;
        let entry = if keep_use {
            with_use_index(se, kept_use_index(hunter_array(pc)->0, pc_slot))
        } else {
            se
        };
        Ok(pc.update(pk, (pc[pk].0, first_mapped(pc[pk].1, HUNTER_ARRAY_FIELD, |v: Value| set_elem(v, pc_slot, Value::Class(entry))))))
    }
}

fn hunter_array_index(c: &Class) -> (r: Option<usize>)
    ensures
        match r {
            Some(k) => k < c.fields@.len() && first_key(c@.fields, HUNTER_ARRAY_FIELD) == k
                && c.fields@[k as int].value is Array,
            None => !(first_field(c@.fields, HUNTER_ARRAY_FIELD) is Some && first_field(c@.fields, HUNTER_ARRAY_FIELD)->0 is Array),
        },
{
    match find_field(c, HUNTER_ARRAY_FIELD) {
        Some(k) => {
            proof {
                lemma_first_key(c@.fields, HUNTER_ARRAY_FIELD, k as int);
                assert(c@.fields[k as int] == (HUNTER_ARRAY_FIELD, value_view(c.fields@[k as int].value)));
            }
            match &c.fields[k].value {
                FieldValue::Array(_) => Some(k),
                _ => None,
            }
        },
        None => None,
    }
}

fn carry_entry(pc: &mut SaveTree, sw: &SaveTree, sw_slot: usize, pc_slot: usize, keep_use: bool) -> (r: Result<(), EntryCopyError>)
    ensures
        match entry_carried(old(pc)@, sw@, sw_slot as int, pc_slot as int, keep_use) {
            Ok(t) => r is Ok && final(pc)@ == t,
            Err(e) => r == Err::<(), EntryCopyError>(e) && final(pc)@ == old(pc)@,
        },
{
    let sk = match find_top(&sw.fields, LOADINFO_KEY) {
        Some(k) => k,
        None => return Err(EntryCopyError::SourceLoadInfoMissing),
    };
    proof {
        lemma_first_key(sw@, LOADINFO_KEY, sk as int);
    }
    let sli = &sw.fields[sk].1;
    let sa = match hunter_array_index(sli) {
        Some(k) => k,
        None => return Err(EntryCopyError::SourceHunterArrayNotArray),
    };
    proof {
        assert(sw@[sk as int].1 == class_view(*sli));
        assert(sli@.fields[sa as int] == (HUNTER_ARRAY_FIELD, value_view(sli.fields@[sa as int].value)));
    }
    let mut entry = match &sli.fields[sa].value {
        FieldValue::Array(a) => {
            if sw_slot < a.values.len() {
                proof {
                    assert(value_view(sli.fields@[sa as int].value)->Array_1[sw_slot as int] == value_view(a.values@[sw_slot as int]));
                }
                match &a.values[sw_slot] {
                    FieldValue::Class(c) => {
                        proof {
                            lemma_class_value_view(**c);
                        }
                        c.duplicate()
                    },
                    _ => return Err(EntryCopyError::SourceEntryMissing),
                }
            } else {
                return Err(EntryCopyError::SourceEntryMissing);
            }
        },
        _ => return Err(EntryCopyError::SourceHunterArrayNotArray),
    };
    let pk = match find_top(&pc.fields, LOADINFO_KEY) {
        Some(k) => k,
        None => return Err(EntryCopyError::TargetLoadInfoMissing),
    };
    proof {
        lemma_first_key(old(pc)@, LOADINFO_KEY, pk as int);
    }
    let pa = match hunter_array_index(&pc.fields[pk].1) {
        Some(k) => k,
        None => return Err(EntryCopyError::TargetHunterArrayNotArray),
    };
    let ghost pav = value_view(pc.fields@[pk as int].1.fields@[pa as int].value);
    proof {
        assert(old(pc)@[pk as int].1 == class_view(pc.fields@[pk as int].1));
        assert(old(pc)@[pk as int].1.fields[pa as int] == (HUNTER_ARRAY_FIELD, pav));
    }
    let mut keep: Option<i32> = None;
    match &pc.fields[pk].1.fields[pa].value {
        FieldValue::Array(a) => {
            if pc_slot < a.values.len() {
                proof {
                    assert(pav->Array_1[pc_slot as int] == value_view(a.values@[pc_slot as int]));
                }
                match &a.values[pc_slot] {
                    FieldValue::Class(c) => {
                        proof {
                            lemma_class_value_view(**c);
                        }
                        match find_field(c, USE_INDEX_FIELD) {
                            Some(u) => {
                                proof {
                                    lemma_first_key(c@.fields, USE_INDEX_FIELD, u as int);
                                    assert(c@.fields[u as int] == (USE_INDEX_FIELD, value_view(c.fields@[u as int].value)));
                                }
                                match &c.fields[u].value {
                                    FieldValue::S32(x) => {
                                        keep = Some(*x);
                                    },
                                    _ => {},
                                }
                            },
                            None => {},
                        }
                    },
                    _ => return Err(EntryCopyError::TargetEntryNotClass),
                }
            } else {
                return Err(EntryCopyError::TargetEntryNotClass);
            }
        },
        _ => return Err(EntryCopyError::TargetHunterArrayNotArray),
    }
    proof {
        assert(keep == kept_use_index(pav, pc_slot as int));
    }
    if keep_use {
        match keep {
            Some(x) => {
                let e = SetS32 { x };
                edit_first_field(&e, &mut entry, USE_INDEX_FIELD);
                proof {
                    assert((|v: Value| e.edited(v)) =~= (|v: Value| if v is S32 { Value::S32(x) } else { v }));
                }
            },
            None => {},
        }
    }
    let ghost ev = entry@;
    proof {
        lemma_class_value_view(entry);
    }
    let e = SetElem { idx: pc_slot, value: FieldValue::Class(Box::new(entry)) };
    let ghost before = *pc;
    edit_first_field(&e, &mut pc.fields[pk].1, HUNTER_ARRAY_FIELD);
    proof {
        assert((|v: Value| e.edited(v)) =~= (|v: Value| set_elem(v, pc_slot as int, Value::Class(ev))));
        lemma_tree_set_class(before, *pc, pk as int, pc.fields@[pk as int].1);
    }
    Ok(())
}

/// Carry hunter entry `sw_slot` of the source system file over entry
/// `pc_slot` of the target system file, keeping the target entry's
/// `_UseIndex` (see `entry_carried`).
pub fn patch_sys_entry(pc: &mut SaveTree, sw: &SaveTree, sw_slot: usize, pc_slot: usize) -> (r: Result<(), EntryCopyError>)
    ensures
        match entry_carried(old(pc)@, sw@, sw_slot as int, pc_slot as int, true) {
            Ok(t) => r is Ok && final(pc)@ == t,
            Err(e) => r == Err::<(), EntryCopyError>(e) && final(pc)@ == old(pc)@,
        },
{
    carry_entry(pc, sw, sw_slot, pc_slot, true)
}

/// The source entry `clear_sys_entry` copies: `sw_slot`, or entry 1 when
/// `sw_slot` is 0.
pub open spec fn empty_entry_index(sw_slot: usize) -> usize {
    if sw_slot > 0 { sw_slot } else { 1 }
}

/// Clear hunter entry `pc_slot` of the target system file by copying over it,
/// wholesale, the empty entry `sw_slot` (entry 1 when `sw_slot` is 0) of the
/// source system file (see `entry_carried`).
pub fn clear_sys_entry(pc: &mut SaveTree, sw: &SaveTree, sw_slot: usize, pc_slot: usize) -> (r: Result<(), EntryCopyError>)
    ensures
        match entry_carried(old(pc)@, sw@, empty_entry_index(sw_slot) as int, pc_slot as int, false) {
            Ok(t) => r is Ok && final(pc)@ == t,
            Err(e) => r == Err::<(), EntryCopyError>(e) && final(pc)@ == old(pc)@,
        },
{
    let src = if sw_slot > 0 { sw_slot } else { 1 };
    carry_entry(pc, sw, src, pc_slot, false)
}

} // verus!

verus! {

/// The village number a hunter entry gets.
pub open spec fn village_set(v: Value, slot: int, village: i32) -> Value {
    at_index(v, slot, |x: Value| in_class_first(x, VILLAGE_FIELD, |y: Value| if y is Enum {
        Value::Enum(EnumValue::E4(village))
    } else {
        y
    }))
}

/// Hunter entry `slot` of a `_HunterArray` value is a class whose first
/// `_CurrentVillageNo` holds an enum.
pub open spec fn has_village(v: Value, slot: int) -> bool {
    at_index_hit(v, slot, |x: Value| x is Class && first_hit(x->Class_0, VILLAGE_FIELD, |y: Value| y is Enum))
}

/// Set the current village of hunter entry `slot` (1 Kamura, 2 Elgado) in the
/// system file's `LoadInfoData`. Refused, unchanged, when there is no
/// `LoadInfoData`; otherwise returns whether the entry had a village enum.
pub fn set_village(sf: &mut SaveTree, slot: usize, village: usize) -> (r: Result<bool, EntryCopyError>)
    ensures
        first_key(old(sf)@, LOADINFO_KEY) < 0 ==> r == Err::<bool, EntryCopyError>(EntryCopyError::TargetLoadInfoMissing)
            && final(sf)@ == old(sf)@,
        first_key(old(sf)@, LOADINFO_KEY) >= 0 ==> {
            let k = first_key(old(sf)@, LOADINFO_KEY);
            &&& r == Ok::<bool, EntryCopyError>(first_hit(old(sf)@[k].1, HUNTER_ARRAY_FIELD, |v: Value| has_village(v, slot as int)))
            &&& final(sf)@ == old(sf)@.update(k, (LOADINFO_KEY, first_mapped(old(sf)@[k].1, HUNTER_ARRAY_FIELD,
                |v: Value| village_set(v, slot as int, village as i32))))
        },
{
    let k = match find_top(&sf.fields, LOADINFO_KEY) {
        Some(k) => k,
        None => return Err(EntryCopyError::TargetLoadInfoMissing),
    };
    proof {
        lemma_first_key(old(sf)@, LOADINFO_KEY, k as int);
    }
    let x = village as i32;
    let e = AtIndex { idx: slot, inner: InClassFirst { field: VILLAGE_FIELD, inner: SetEnum4 { x } } };
    let ghost before = *sf;
    let hit = edit_first_field(&e, &mut sf.fields[k].1, HUNTER_ARRAY_FIELD);
    proof {
        let f = |y: Value| if y is Enum { Value::Enum(EnumValue::E4(x)) } else { y };
        assert((|y: Value| e.inner.inner.edited(y)) =~= f);
        assert((|w: Value| e.inner.edited(w)) =~= (|w: Value| in_class_first(w, VILLAGE_FIELD, f)));
        assert((|v: Value| e.edited(v)) =~= (|v: Value| village_set(v, slot as int, x)));
        assert((|y: Value| e.inner.inner.hit(y)) =~= (|y: Value| y is Enum));
        assert((|w: Value| e.inner.hit(w)) =~= (|w: Value| w is Class && first_hit(w->Class_0, VILLAGE_FIELD, |y: Value| y is Enum)));
        assert((|v: Value| e.hit(v)) =~= (|v: Value| has_village(v, slot as int)));
        lemma_tree_set_class(before, *sf, k as int, sf.fields@[k as int].1);
    }
    Ok(hit)
}

/// A hunter record with its account-bound identifiers cleared: the bytes of
/// `HunterUniqueID`, the units of `NsaID` (its length kept), and the bytes of
/// `NetworkUniqueId_Binary`.
pub open spec fn ids_cleared(c: ClassV) -> ClassV {
    first_mapped(
        first_mapped(first_mapped(c, HUNTER_UNIQUE_ID_FIELD, |v: Value| zeroed_struct(v)), NSA_ID_FIELD, |v: Value| zeroed_string(v)),
        NETWORK_ID_FIELD,
        |v: Value| match v {
            Value::Class(b) => Value::Class(class_mapped(b, NETWORK_ID_BYTES_FIELD, |x: Value| zeroed_u8_elems(x))),
            _ => v,
        },
    )
}

/// Clear the account-bound identifiers of a slot's hunter record (see
/// `ids_cleared`); returns whether the slot has a hunter record.
pub fn clear_ids(sf: &mut SaveTree) -> (r: bool)
    ensures
        r == (first_key(old(sf)@, HUNTER_RECORD_KEY) >= 0),
        !r ==> final(sf)@ == old(sf)@,
        r ==> {
            let k = first_key(old(sf)@, HUNTER_RECORD_KEY);
            final(sf)@ == old(sf)@.update(k, (HUNTER_RECORD_KEY, ids_cleared(old(sf)@[k].1)))
        },
{
    let k = match find_top(&sf.fields, HUNTER_RECORD_KEY) {
        Some(k) => k,
        None => return false,
    };
    proof {
        lemma_first_key(old(sf)@, HUNTER_RECORD_KEY, k as int);
    }
    let ghost before = *sf;
    let e1 = Zero { what: ZeroWhat::StructBytes };
    let e2 = Zero { what: ZeroWhat::StringUnits };
    let e3 = InClass { field: NETWORK_ID_BYTES_FIELD, inner: Zero { what: ZeroWhat::U8Elements } };
    edit_first_field(&e1, &mut sf.fields[k].1, HUNTER_UNIQUE_ID_FIELD);
    let ghost s1 = *sf;
    proof {
        lemma_tree_set_class(before, s1, k as int, s1.fields@[k as int].1);
    }
    edit_first_field(&e2, &mut sf.fields[k].1, NSA_ID_FIELD);
    let ghost s2 = *sf;
    proof {
        lemma_tree_set_class(s1, s2, k as int, s2.fields@[k as int].1);
    }
    edit_first_field(&e3, &mut sf.fields[k].1, NETWORK_ID_FIELD);
    proof {
        assert((|v: Value| e1.edited(v)) =~= (|v: Value| zeroed_struct(v)));
        assert((|v: Value| e2.edited(v)) =~= (|v: Value| zeroed_string(v)));
        assert((|x: Value| e3.inner.edited(x)) =~= (|x: Value| zeroed_u8_elems(x)));
        assert((|v: Value| e3.edited(v)) =~= (|v: Value| match v {
            Value::Class(b) => Value::Class(class_mapped(b, NETWORK_ID_BYTES_FIELD, |x: Value| zeroed_u8_elems(x))),
            _ => v,
        }));
        lemma_tree_set_class(s2, *sf, k as int, sf.fields@[k as int].1);
    }
    true
}

} // verus!

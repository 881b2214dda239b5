//! Reads and edits of the system file (`data00-1.bin`): the title-screen
//! slot records and the hunter entries.

use vstd::prelude::*;
use crate::model::{SaveTree, Class, ClassV, FieldValue, Value, class_view, tree_view};
use crate::edit::{ValueEdit, SetElem, SetString, AtIndex, InClass, edit_tree, tree_mapped, tree_any, set_elem, has_elem,
    set_string, at_index, at_index_hit, in_class, in_class_hit};
use crate::read::{read_tree, tree_read, ArrayBools, ArrayStrings, EntryNames};
use crate::schema::{EDIT_SAVE_CLS, LOADINFO_CLS, SLOT_USED_FIELD, SLOT_NAME_FIELD, SLOT_TIME_FIELD,
    HUNTER_ARRAY_FIELD, HUNTER_NAME_FIELD};
use crate::text::{encode_utf16, utf16_encode};

verus! {

/// Why an edit of the system file was refused.
#[derive(Debug, Clone, Copy, PartialEq, Eq)]
pub enum SysEditError {
    /// No slot-used flag exists at the requested index.
    NoSlotUsed,
    /// No hunter name exists at the requested index.
    NoHunterNameSlot,
    /// Neither a hunter name nor a slot name exists at the requested index.
    NoNameSlots,
    /// The source system file has no hunter entry at the requested index.
    SrcEntryNotFound,
    /// The target system file has no hunter entry at the requested index.
    TgtEntryNotFound,
    /// The target system file has no hunter entry slot at the requested index.
    DstEntryNotFound,
}

/// The slot-used flags as the title screen sees them.
pub struct SlotUsedFlags {
    /// The type hash of the last class holding a `playerSlotUsed` field.
    pub class_hash: Option<u32>,
    /// Every element of every `playerSlotUsed` array, in save order
    /// (`None` where an element is not a boolean).
    pub values: Vec<Option<bool>>,
}

/// Some field of `c` is stored under `fh`.
pub open spec fn has_field(c: ClassV, fh: u32) -> bool {
    exists|j: int| 0 <= j < c.fields.len() && #[trigger] c.fields[j].0 == fh
}

/// The type hash of the last top-level class that has a field stored under `fh`.
pub open spec fn last_class_with(t: Seq<(u32, ClassV)>, fh: u32) -> Option<u32>
    decreases t.len(),
{
    if t.len() == 0 {
        None
    } else if has_field(t.last().1, fh) {
        Some(t.last().1.hash)
    } else {
        last_class_with(t.drop_last(), fh)
    }
}

fn class_has_field(c: &Class, fh: u32) -> (r: bool)
    ensures
        r == has_field(c@, fh),
{
    let mut j: usize = 0;
    while j < c.fields.len()
        invariant
            j <= c.fields@.len(),
            forall|k: int| 0 <= k < j ==> #[trigger] c@.fields[k].0 != fh,
        decreases c.fields@.len() - j,
    {
        if c.fields[j].hash == fh {
            assert(c@.fields[j as int].0 == fh);
            return true;
        }
        j += 1;
    }
    false
}

/// Read the `playerSlotUsed` flags of every class that has them.
pub fn slot_used_flags(sf: &SaveTree) -> (r: SlotUsedFlags)
    ensures
        r.class_hash == last_class_with(sf@, SLOT_USED_FIELD),
        r.values.deep_view() == tree_read(ArrayBools, sf@, None, SLOT_USED_FIELD),
{
    let values = read_tree(&ArrayBools, sf, None, SLOT_USED_FIELD);
    let mut class_hash: Option<u32> = None;
    let mut i: usize = 0;
    while i < sf.fields.len()
        invariant
            i <= sf.fields@.len(),
            class_hash == last_class_with(sf@.take(i as int), SLOT_USED_FIELD),
        decreases sf.fields@.len() - i,
    {
        proof {
            assert(sf@.take(i + 1).drop_last() =~= sf@.take(i as int));
            assert(sf@.take(i + 1).last() == sf@[i as int]);
        }
        if class_has_field(&sf.fields[i].1, SLOT_USED_FIELD) {
            class_hash = Some(sf.fields[i].1.hash);
        }
        i += 1;
    }
    assert(sf@.take(sf@.len() as int) =~= sf@);
    SlotUsedFlags { class_hash, values }
}

/// The save-slot names of the title screen, in save order (`None` where an
/// element is not a string).
pub fn slot_names(sf: &SaveTree) -> (r: Vec<Option<Vec<u16>>>)
    ensures
        r.deep_view() == tree_read(ArrayStrings, sf@, Some(EDIT_SAVE_CLS), SLOT_NAME_FIELD),
{
    read_tree(&ArrayStrings, sf, Some(EDIT_SAVE_CLS), SLOT_NAME_FIELD)
}

/// The save-slot times of the title screen, in save order (`None` where an
/// element is not a string).
pub fn slot_times(sf: &SaveTree) -> (r: Vec<Option<Vec<u16>>>)
    ensures
        r.deep_view() == tree_read(ArrayStrings, sf@, Some(EDIT_SAVE_CLS), SLOT_TIME_FIELD),
{
    read_tree(&ArrayStrings, sf, Some(EDIT_SAVE_CLS), SLOT_TIME_FIELD)
}

/// The hunter names of the title-screen hunter entries, in save order.
pub fn hunter_names(sf: &SaveTree) -> (r: Vec<Option<Vec<u16>>>)
    ensures
        r.deep_view() == tree_read(EntryNames { name_field: HUNTER_NAME_FIELD }, sf@, Some(LOADINFO_CLS), HUNTER_ARRAY_FIELD),
{
    read_tree(&EntryNames { name_field: HUNTER_NAME_FIELD }, sf, Some(LOADINFO_CLS), HUNTER_ARRAY_FIELD)
}

/// Mark slot `idx` as used or free in every `playerSlotUsed` array of the
/// slot-record class; refused when no such array has an element `idx`.
pub fn set_slot_used(sf: &mut SaveTree, idx: u32, used: bool) -> (r: Result<(), SysEditError>)
    ensures
        final(sf)@ == tree_mapped(old(sf)@, EDIT_SAVE_CLS, SLOT_USED_FIELD, |v: Value| set_elem(v, idx as int, Value::Boolean(used))),
        r is Ok <==> tree_any(old(sf)@, EDIT_SAVE_CLS, SLOT_USED_FIELD, |v: Value| has_elem(v, idx as int)),
        r is Err ==> r == Err::<(), SysEditError>(SysEditError::NoSlotUsed),
{
    let e = SetElem { idx: idx as usize, value: FieldValue::Boolean(used) };
    proof {
        assert((|v: Value| e.edited(v)) =~= (|v: Value| set_elem(v, idx as int, Value::Boolean(used))));
        assert((|v: Value| e.hit(v)) =~= (|v: Value| has_elem(v, idx as int)));
    }
    proof {
        crate::edit::lemma_tree_hit_any(e, old(sf)@, EDIT_SAVE_CLS, SLOT_USED_FIELD);
    }
    if edit_tree(&e, sf, EDIT_SAVE_CLS, SLOT_USED_FIELD) {
        Ok(())
    } else {
        Err(SysEditError::NoSlotUsed)
    }
}

/// What renaming hunter entry `idx` to `units` does to a `_HunterArray` value:
/// every name field of that entry that holds a string gets `units`.
pub open spec fn renamed_entry(v: Value, idx: int, units: Seq<u16>) -> Value {
    at_index(v, idx, |x: Value| in_class(x, HUNTER_NAME_FIELD, |y: Value| set_string(y, units)))
}

/// Hunter entry `idx` of a `_HunterArray` value has a name field holding a
/// string.
pub open spec fn has_entry_name(v: Value, idx: int) -> bool {
    at_index_hit(v, idx, |x: Value| in_class_hit(x, HUNTER_NAME_FIELD, |y: Value| y is Str))
}

fn hunter_name_edit(idx: u32, units: Vec<u16>) -> (e: AtIndex<InClass<SetString>>)
    ensures
        (|v: Value| e.edited(v)) == (|v: Value| renamed_entry(v, idx as int, units@)),
        (|v: Value| e.hit(v)) == (|v: Value| has_entry_name(v, idx as int)),
{
    let e = AtIndex { idx: idx as usize, inner: InClass { field: HUNTER_NAME_FIELD, inner: SetString { units } } };
    proof {
        let u = units@;
        assert((|y: Value| e.inner.inner.edited(y)) =~= (|y: Value| set_string(y, u)));
        assert((|x: Value| e.inner.edited(x)) =~= (|x: Value| in_class(x, HUNTER_NAME_FIELD, |y: Value| set_string(y, u))));
        assert((|v: Value| e.edited(v)) =~= (|v: Value| renamed_entry(v, idx as int, u)));
        assert((|y: Value| e.inner.inner.hit(y)) =~= (|y: Value| y is Str));
        assert((|x: Value| e.inner.hit(x)) =~= (|x: Value| in_class_hit(x, HUNTER_NAME_FIELD, |y: Value| y is Str)));
        assert((|v: Value| e.hit(v)) =~= (|v: Value| has_entry_name(v, idx as int)));
    }
    e
}

/// Rename hunter entry `idx` to `name`; refused when that entry has no name
/// field holding a string.
pub fn set_hunter_name(sf: &mut SaveTree, idx: u32, name: &str) -> (r: Result<(), SysEditError>)
    ensures
        final(sf)@ == tree_mapped(old(sf)@, LOADINFO_CLS, HUNTER_ARRAY_FIELD, |v: Value| renamed_entry(v, idx as int, utf16_encode(name@))),
        r is Ok <==> tree_any(old(sf)@, LOADINFO_CLS, HUNTER_ARRAY_FIELD, |v: Value| has_entry_name(v, idx as int)),
        r is Err ==> r == Err::<(), SysEditError>(SysEditError::NoHunterNameSlot),
{
    let units = encode_utf16(name);
    let e = hunter_name_edit(idx, units);
    proof {
        crate::edit::lemma_tree_hit_any(e, old(sf)@, LOADINFO_CLS, HUNTER_ARRAY_FIELD);
    }
    if edit_tree(&e, sf, LOADINFO_CLS, HUNTER_ARRAY_FIELD) {
        Ok(())
    } else {
        Err(SysEditError::NoHunterNameSlot)
    }
}

/// What renaming slot `idx` to `units` does to a slot-name array: its element
/// `idx`, when it is a string, gets `units`.
pub open spec fn renamed_slot(v: Value, idx: int, units: Seq<u16>) -> Value {
    at_index(v, idx, |x: Value| set_string(x, units))
}

/// Element `idx` of a slot-name array exists and is a string.
pub open spec fn has_slot_name(v: Value, idx: int) -> bool {
    at_index_hit(v, idx, |x: Value| x is Str)
}

/// Rename character `idx` both in its hunter entry and in its title-screen
/// slot name; refused when neither exists.
pub fn set_both_names(sf: &mut SaveTree, idx: u32, name: &str) -> (r: Result<(), SysEditError>)
    ensures
        final(sf)@ == tree_mapped(
            tree_mapped(old(sf)@, LOADINFO_CLS, HUNTER_ARRAY_FIELD, |v: Value| renamed_entry(v, idx as int, utf16_encode(name@))),
            EDIT_SAVE_CLS,
            SLOT_NAME_FIELD,
            |v: Value| renamed_slot(v, idx as int, utf16_encode(name@)),
        ),
        r is Ok <==> tree_any(old(sf)@, LOADINFO_CLS, HUNTER_ARRAY_FIELD, |v: Value| has_entry_name(v, idx as int))
            || tree_any(old(sf)@, EDIT_SAVE_CLS, SLOT_NAME_FIELD, |v: Value| has_slot_name(v, idx as int)),
        r is Err ==> r == Err::<(), SysEditError>(SysEditError::NoNameSlots),
{
    let units = encode_utf16(name);
    let slot_units = crate::model::copy_seq(&units);
    let e1 = hunter_name_edit(idx, units);
    let e2 = AtIndex { idx: idx as usize, inner: SetString { units: slot_units } };
    proof {
        let u = utf16_encode(name@);
        assert((|x: Value| e2.inner.edited(x)) =~= (|x: Value| set_string(x, u)));
        assert((|v: Value| e2.edited(v)) =~= (|v: Value| renamed_slot(v, idx as int, u)));
        assert((|x: Value| e2.inner.hit(x)) =~= (|x: Value| x is Str));
        assert((|v: Value| e2.hit(v)) =~= (|v: Value| has_slot_name(v, idx as int)));
        crate::edit::lemma_tree_hit_any(e1, old(sf)@, LOADINFO_CLS, HUNTER_ARRAY_FIELD);
        crate::edit::lemma_tree_hit_any(e2, old(sf)@, EDIT_SAVE_CLS, SLOT_NAME_FIELD);
        crate::edit::lemma_tree_hit_other_class(e1, e2, old(sf)@, LOADINFO_CLS, HUNTER_ARRAY_FIELD, EDIT_SAVE_CLS, SLOT_NAME_FIELD);
    }
    let set1 = edit_tree(&e1, sf, LOADINFO_CLS, HUNTER_ARRAY_FIELD);
    let set2 = edit_tree(&e2, sf, EDIT_SAVE_CLS, SLOT_NAME_FIELD);
    if !set1 && !set2 {
        return Err(SysEditError::NoNameSlots);
    }
    Ok(())
}

} // verus!


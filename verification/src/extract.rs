//! Reference listings read out of a slot: the item box and pouch, the
//! equipment box (weapons and armour, talismans, decorations, augments) and
//! the NPC chat flags. Each listing is a sequence of rows of plain numbers.

use vstd::prelude::*;
use crate::model::{SaveTree, Class, ClassV, FieldValue, Value, EnumValue, first_key, lemma_first_key, find_top,
    lemma_class_value_view};
use crate::slot::{first_field, find_field};
use crate::schema::{DATA_MANAGER_KEY, DATA1_FIELD, ITEM_BOX_FIELD, INVENTORY_LIST_FIELD, ITEM_POUCH_FIELD,
    NORMAL_INVENTORY_LIST_FIELD, ITEM_COUNT_FIELD, ID_FIELD, NUM_FIELD, EQUIP_BOX_FIELD, EQUIP_LIST_FIELD, ID_TYPE_FIELD,
    ID_VAL_FIELD, TALISMAN_SKILL_LV_FIELD, TALISMAN_SKILL_ID_FIELD, TALISMAN_DECO_SLOT_FIELD, DECO_ID_LIST_FIELD,
    HYAKURYU_DECO_FIELD, CUSTOM_ENABLE_FIELD, CUSTOM_COUNT_FIELD, CUSTOM_BUILDUP_TYPE_FIELD, CUSTOM_OPEN_ID_FIELD,
    CUSTOM_BUILDUP_FIELD, VALUE_INDEX_FIELD, SKILL_ID_FIELD, NPC_KEY, NPC_CHAT_FLAG_FIELD};

verus! {

/// The value of the first field of `c` stored under `h`.
pub fn get_value(c: &Class, h: u32) -> (r: Option<&FieldValue>)
    ensures
        match r {
            Some(v) => first_field(c@.fields, h) == Some(v@),
            None => first_field(c@.fields, h) is None,
        },
{
    match find_field(c, h) {
        Some(k) => {
            proof {
                lemma_first_key(c@.fields, h, k as int);
            }
            Some(&c.fields[k].value)
        },
        None => None,
    }
}

/// The class held by the first field of `c` stored under `h`, when it holds
/// one.
pub open spec fn sub_of(c: ClassV, h: u32) -> Option<ClassV> {
    match first_field(c.fields, h) {
        Some(Value::Class(x)) => Some(x),
        _ => None,
    }
}

/// The class held by the first field of `c` stored under `h`.
pub fn get_subclass(c: &Class, h: u32) -> (r: Option<&Class>)
    ensures
        match r {
            Some(x) => sub_of(c@, h) == Some(x@),
            None => sub_of(c@, h) is None,
        },
{
    match get_value(c, h) {
        Some(FieldValue::Class(b)) => {
            proof {
                lemma_class_value_view(**b);
            }
            Some(&**b)
        },
        _ => None,
    }
}

/// An enum value widened to 64 bits.
pub open spec fn enum_i64(e: EnumValue) -> i64 {
    match e {
        EnumValue::E1(x) => x as i64,
        EnumValue::E2(x) => x as i64,
        EnumValue::E4(x) => x as i64,
        EnumValue::E8(x) => x,
    }
}

pub fn enum_as_i64(e: EnumValue) -> (r: i64)
    ensures
        r == enum_i64(e),
{
    match e {
        EnumValue::E1(x) => x as i64,
        EnumValue::E2(x) => x as i64,
        EnumValue::E4(x) => x as i64,
        EnumValue::E8(x) => x,
    }
}

/// The first field stored under `h`, when it holds an enum, widened.
pub open spec fn enum_of(c: ClassV, h: u32) -> Option<i64> {
    match first_field(c.fields, h) {
        Some(Value::Enum(e)) => Some(enum_i64(e)),
        _ => None,
    }
}

/// The first field stored under `h`, when it holds a `u32`.
pub open spec fn u32_of(c: ClassV, h: u32) -> Option<u32> {
    match first_field(c.fields, h) {
        Some(Value::U32(x)) => Some(x),
        _ => None,
    }
}

/// The first field stored under `h`, when it holds an `i32`.
pub open spec fn s32_of(c: ClassV, h: u32) -> Option<i32> {
    match first_field(c.fields, h) {
        Some(Value::S32(x)) => Some(x),
        _ => None,
    }
}

/// The first field stored under `h`, when it holds an `i8`.
pub open spec fn s8_of(c: ClassV, h: u32) -> Option<i8> {
    match first_field(c.fields, h) {
        Some(Value::S8(x)) => Some(x),
        _ => None,
    }
}

/// The first field stored under `h`, when it holds a boolean.
pub open spec fn bool_of(c: ClassV, h: u32) -> Option<bool> {
    match first_field(c.fields, h) {
        Some(Value::Boolean(x)) => Some(x),
        _ => None,
    }
}

fn enum_field(c: &Class, h: u32) -> (r: Option<i64>)
    ensures
        r == enum_of(c@, h),
{
    match get_value(c, h) {
        Some(FieldValue::Enum(e)) => Some(enum_as_i64(*e)),
        _ => None,
    }
}

fn u32_field(c: &Class, h: u32) -> (r: Option<u32>)
    ensures
        r == u32_of(c@, h),
{
    match get_value(c, h) {
        Some(FieldValue::U32(x)) => Some(*x),
        _ => None,
    }
}

fn s32_field(c: &Class, h: u32) -> (r: Option<i32>)
    ensures
        r == s32_of(c@, h),
{
    match get_value(c, h) {
        Some(FieldValue::S32(x)) => Some(*x),
        _ => None,
    }
}

fn s8_field(c: &Class, h: u32) -> (r: Option<i8>)
    ensures
        r == s8_of(c@, h),
{
    match get_value(c, h) {
        Some(FieldValue::S8(x)) => Some(*x),
        _ => None,
    }
}

fn bool_field(c: &Class, h: u32) -> (r: Option<bool>)
    ensures
        r == bool_of(c@, h),
{
    match get_value(c, h) {
        Some(FieldValue::Boolean(x)) => Some(*x),
        _ => None,
    }
}

/// The class reached from `c` by following the class fields named by `hs`
/// in turn.
pub open spec fn class_path(c: ClassV, hs: Seq<u32>) -> Option<ClassV>
    decreases hs.len(),
{
    if hs.len() == 0 {
        Some(c)
    } else {
        match class_path(c, hs.drop_last()) {
            Some(x) => sub_of(x, hs.last()),
            None => None,
        }
    }
}

/// The elements of the array held by the first field `fh` of the class at
/// the path `hs` below `c`.
pub open spec fn array_at(c: ClassV, hs: Seq<u32>, fh: u32) -> Option<Seq<Value>> {
    match class_path(c, hs) {
        Some(x) => match first_field(x.fields, fh) {
            Some(Value::Array(_, s)) => Some(s),
            _ => None,
        },
        None => None,
    }
}

/// The views of a list of values.
pub open spec fn values_of(v: Seq<FieldValue>) -> Seq<Value> {
    v.map_values(|x: FieldValue| x@)
}

/// The array held by the first field `fh` of the class at the path `hs`
/// below `c`.
pub fn find_array<'a>(c: &'a Class, hs: &[u32], fh: u32) -> (r: Option<&'a Vec<FieldValue>>)
    ensures
        match r {
            Some(v) => array_at(c@, hs@, fh) == Some(values_of(v@)),
            None => array_at(c@, hs@, fh) is None,
        },
{
    let mut cur: &Class = c;
    let mut i: usize = 0;
    proof {
        assert(hs@.take(0) =~= Seq::<u32>::empty());
    }
    while i < hs.len()
        invariant
            i <= hs@.len(),
            class_path(c@, hs@.take(i as int)) == Some(cur@),
        decreases hs@.len() - i,
    {
        proof {
            assert(hs@.take(i + 1).drop_last() =~= hs@.take(i as int));
            assert(hs@.take(i + 1).last() == hs@[i as int]);
        }
        match get_subclass(cur, hs[i]) {
            Some(x) => {
                cur = x;
            },
            None => {
                proof {
                    lemma_path_stops(c@, hs@, i as int + 1);
                }
                return None;
            },
        }
        i += 1;
    }
    proof {
        assert(hs@.take(hs@.len() as int) =~= hs@);
    }
    match get_value(cur, fh) {
        Some(FieldValue::Array(a)) => {
            proof {
                assert(values_of(a.values@) =~= FieldValue::Array(*a)@->Array_1);
            }
            Some(&a.values)
        },
        _ => None,
    }
}

proof fn lemma_path_stops(c: ClassV, hs: Seq<u32>, i: int)
    requires
        0 < i <= hs.len(),
        class_path(c, hs.take(i)) is None,
    ensures
        class_path(c, hs) is None,
    decreases hs.len() - i,
{
    if i < hs.len() {
        assert(hs.take(i + 1).drop_last() =~= hs.take(i));
        lemma_path_stops(c, hs, i + 1);
    } else {
        assert(hs.take(i) =~= hs);
    }
}

/// Why a listing could not be read.
#[derive(Clone, Copy, Debug, PartialEq, Eq)]
pub enum ExtractError {
    /// The slot has no `DataManager.SaveDataParent`.
    DataManagerMissing,
    /// The item box `_InventoryList` is missing or not an array.
    ItemBoxNotArray,
    /// The item pouch `_NormalInventoryList` is missing or not an array.
    ItemPouchNotArray,
    /// The equipment box `_WeaponArmorInventoryList` is missing or not an array.
    EquipBoxNotArray,
}

/// The first class stored under the data-manager key.
pub open spec fn data_manager(t: Seq<(u32, ClassV)>) -> Option<ClassV> {
    let k = first_key(t, DATA_MANAGER_KEY);
    if k >= 0 {
        Some(t[k].1)
    } else {
        None
    }
}

fn find_data_manager(t: &SaveTree) -> (r: Option<&Class>)
    ensures
        match r {
            Some(c) => data_manager(t@) == Some(c@),
            None => data_manager(t@) is None,
        },
{
    match find_top(&t.fields, DATA_MANAGER_KEY) {
        Some(k) => {
            proof {
                lemma_first_key(t@, DATA_MANAGER_KEY, k as int);
            }
            Some(&t.fields[k].1)
        },
        None => None,
    }
}

/// A row of the item listing: box or pouch, the slot index, the item id and
/// the count (-1 where missing).
#[derive(Clone, Copy, Debug, PartialEq, Eq)]
pub struct ItemRow {
    pub pouch: bool,
    pub index: usize,
    pub id: i64,
    pub num: i64,
}

pub open spec fn item_row(pouch: bool, i: int, c: ClassV) -> ItemRow {
    let cnt = sub_of(c, ITEM_COUNT_FIELD);
    ItemRow {
        pouch,
        index: i as usize,
        id: match cnt {
            Some(x) => match enum_of(x, ID_FIELD) {
                Some(v) => v,
                None => -1i64,
            },
            None => -1i64,
        },
        num: match cnt {
            Some(x) => match s32_of(x, NUM_FIELD) {
                Some(v) => v as i64,
                None => -1i64,
            },
            None => -1i64,
        },
    }
}

/// One row per element of an inventory list that is a class.
pub open spec fn item_rows(s: Seq<Value>, pouch: bool) -> Seq<ItemRow>
    decreases s.len(),
{
    if s.len() == 0 {
        Seq::empty()
    } else {
        let before = item_rows(s.drop_last(), pouch);
        match s.last() {
            Value::Class(c) => before.push(item_row(pouch, s.len() - 1, c)),
            _ => before,
        }
    }
}

fn item_rows_of(vals: &Vec<FieldValue>, pouch: bool, out: &mut Vec<ItemRow>)
    ensures
        final(out)@ == old(out)@ + item_rows(values_of(vals@), pouch),
{
    let ghost start = old(out)@;
    let ghost s = values_of(vals@);
    let mut i: usize = 0;
    while i < vals.len()
        invariant
            i <= vals@.len(),
            s == values_of(vals@),
            out@ == start + item_rows(s.take(i as int), pouch),
        decreases vals@.len() - i,
    {
        proof {
            assert(s.take(i + 1).drop_last() =~= s.take(i as int));
            assert(s.take(i + 1).last() == s[i as int]);
        }
        match &vals[i] {
            FieldValue::Class(c) => {
                proof {
                    lemma_class_value_view(**c);
                }
                let cnt = get_subclass(c, ITEM_COUNT_FIELD);
                let id = match cnt {
                    Some(x) => match enum_field(x, ID_FIELD) {
                        Some(v) => v,
                        None => -1i64,
                    },
                    None => -1i64,
                };
                let num = match cnt {
                    Some(x) => match s32_field(x, NUM_FIELD) {
                        Some(v) => v as i64,
                        None => -1i64,
                    },
                    None => -1i64,
                };
                out.push(ItemRow { pouch, index: i, id, num });
                proof {
                    assert(out@ =~= start + item_rows(s.take(i + 1), pouch));
                }
            },
            _ => {
                proof {
                    assert(out@ =~= start + item_rows(s.take(i + 1), pouch));
                }
            },
        }
        i += 1;
    }
    proof {
        assert(s.take(vals@.len() as int) =~= s);
    }
}

/// The item listing of a slot: the rows of the item box, then those of the
/// item pouch.
pub fn extract_items(t: &SaveTree) -> (r: Result<Vec<ItemRow>, ExtractError>)
    ensures
        match data_manager(t@) {
            None => r == Err::<Vec<ItemRow>, ExtractError>(ExtractError::DataManagerMissing),
            Some(dm) => match array_at(dm, seq![DATA1_FIELD, ITEM_BOX_FIELD], INVENTORY_LIST_FIELD) {
                None => r == Err::<Vec<ItemRow>, ExtractError>(ExtractError::ItemBoxNotArray),
                Some(b) => match array_at(dm, seq![DATA1_FIELD, ITEM_POUCH_FIELD], NORMAL_INVENTORY_LIST_FIELD) {
                    None => r == Err::<Vec<ItemRow>, ExtractError>(ExtractError::ItemPouchNotArray),
                    Some(p) => r matches Ok(rows) && rows@ == item_rows(b, false) + item_rows(p, true),
                },
            },
        },
{
    let dm = match find_data_manager(t) {
        Some(c) => c,
        None => return Err(ExtractError::DataManagerMissing),
    };
    let box_path = [DATA1_FIELD, ITEM_BOX_FIELD];
    let pouch_path = [DATA1_FIELD, ITEM_POUCH_FIELD];
    proof {
        assert(box_path@ =~= seq![DATA1_FIELD, ITEM_BOX_FIELD]);
        assert(pouch_path@ =~= seq![DATA1_FIELD, ITEM_POUCH_FIELD]);
    }
    let b = match find_array(dm, &box_path, INVENTORY_LIST_FIELD) {
        Some(v) => v,
        None => return Err(ExtractError::ItemBoxNotArray),
    };
    let p = match find_array(dm, &pouch_path, NORMAL_INVENTORY_LIST_FIELD) {
        Some(v) => v,
        None => return Err(ExtractError::ItemPouchNotArray),
    };
    let mut rows: Vec<ItemRow> = Vec::new();
    item_rows_of(b, false, &mut rows);
    item_rows_of(p, true, &mut rows);
    proof {
        assert(rows@ =~= item_rows(values_of(b@), false) + item_rows(values_of(p@), true));
    }
    Ok(rows)
}

/// The rows that `f` makes of the elements of `s` that are classes, in
/// order; `f` takes the element's index.
pub open spec fn class_rows<T>(s: Seq<Value>, f: spec_fn(int, ClassV) -> Option<T>) -> Seq<T>
    decreases s.len(),
{
    if s.len() == 0 {
        Seq::empty()
    } else {
        let before = class_rows(s.drop_last(), f);
        match s.last() {
            Value::Class(c) => match f(s.len() - 1, c) {
                Some(r) => before.push(r),
                None => before,
            },
            _ => before,
        }
    }
}

/// The elements of the equipment box of a slot.
pub open spec fn equip_box(t: Seq<(u32, ClassV)>) -> Result<Seq<Value>, ExtractError> {
    match data_manager(t) {
        None => Err(ExtractError::DataManagerMissing),
        Some(dm) => match array_at(dm, seq![DATA1_FIELD, EQUIP_BOX_FIELD], EQUIP_LIST_FIELD) {
            Some(s) => Ok(s),
            None => Err(ExtractError::EquipBoxNotArray),
        },
    }
}

fn find_equip_box(t: &SaveTree) -> (r: Result<&Vec<FieldValue>, ExtractError>)
    ensures
        match r {
            Ok(v) => equip_box(t@) == Ok::<Seq<Value>, ExtractError>(values_of(v@)),
            Err(e) => equip_box(t@) == Err::<Seq<Value>, ExtractError>(e),
        },
{
    let dm = match find_data_manager(t) {
        Some(c) => c,
        None => return Err(ExtractError::DataManagerMissing),
    };
    let path = [DATA1_FIELD, EQUIP_BOX_FIELD];
    proof {
        assert(path@ =~= seq![DATA1_FIELD, EQUIP_BOX_FIELD]);
    }
    match find_array(dm, &path, EQUIP_LIST_FIELD) {
        Some(v) => Ok(v),
        None => Err(ExtractError::EquipBoxNotArray),
    }
}

/// Which element variants a number list reads.
#[derive(Clone, Copy, Debug, PartialEq, Eq)]
pub enum ListKind {
    /// `u32` elements.
    Unsigned,
    /// Enum elements.
    Enums,
    /// `u32` and enum elements.
    Either,
}

/// An element of a number list, or `None` where it is of another variant.
pub open spec fn list_item(v: Value, k: ListKind) -> Option<i64> {
    match v {
        Value::U32(u) => if k != ListKind::Enums {
            Some(u as i64)
        } else {
            None
        },
        Value::Enum(e) => if k != ListKind::Unsigned {
            Some(enum_i64(e))
        } else {
            None
        },
        _ => None,
    }
}

/// A list of numbers read from a field: absent, not an array, or the items
/// of the array.
pub enum NumList {
    Absent,
    NotArray,
    Items(Vec<Option<i64>>),
}

impl DeepView for NumList {
    type V = Option<Option<Seq<Option<i64>>>>;

    open spec fn deep_view(&self) -> Option<Option<Seq<Option<i64>>>> {
        match self {
            NumList::Absent => None,
            NumList::NotArray => Some(None),
            NumList::Items(v) => Some(Some(v@)),
        }
    }
}

/// The number list read from the first field of `c` stored under `h`.
pub open spec fn list_of(c: ClassV, h: u32, k: ListKind) -> Option<Option<Seq<Option<i64>>>> {
    match first_field(c.fields, h) {
        None => None,
        Some(Value::Array(_, s)) => Some(Some(s.map_values(|x: Value| list_item(x, k)))),
        Some(_) => Some(None),
    }
}

fn list_items(vals: &Vec<FieldValue>, k: ListKind) -> (r: Vec<Option<i64>>)
    ensures
        r@ == values_of(vals@).map_values(|x: Value| list_item(x, k)),
{
    let mut out: Vec<Option<i64>> = Vec::new();
    let mut i: usize = 0;
    while i < vals.len()
        invariant
            i <= vals@.len(),
            out@.len() == i,
            forall|j: int| 0 <= j < i ==> #[trigger] out@[j] == list_item(vals@[j]@, k),
        decreases vals@.len() - i,
    {
        let item = match (&vals[i], k) {
            (FieldValue::U32(u), ListKind::Unsigned) => Some(*u as i64),
            (FieldValue::U32(u), ListKind::Either) => Some(*u as i64),
            (FieldValue::Enum(e), ListKind::Enums) => Some(enum_as_i64(*e)),
            (FieldValue::Enum(e), ListKind::Either) => Some(enum_as_i64(*e)),
            _ => None,
        };
        out.push(item);
        i += 1;
    }
    proof {
        assert(out@ =~= values_of(vals@).map_values(|x: Value| list_item(x, k)));
    }
    out
}

fn read_list(c: &Class, h: u32, k: ListKind) -> (r: NumList)
    ensures
        r.deep_view() == list_of(c@, h, k),
{
    match get_value(c, h) {
        None => NumList::Absent,
        Some(FieldValue::Array(a)) => {
            proof {
                assert(values_of(a.values@) =~= FieldValue::Array(*a)@->Array_1);
            }
            NumList::Items(list_items(&a.values, k))
        },
        Some(_) => NumList::NotArray,
    }
}

/// The id type of an equipment entry, or -1.
pub open spec fn id_type_of(c: ClassV) -> i64 {
    match enum_of(c, ID_TYPE_FIELD) {
        Some(v) => v,
        None => -1i64,
    }
}

/// The id value of an equipment entry, or -1.
pub open spec fn id_val_of(c: ClassV) -> i64 {
    match u32_of(c, ID_VAL_FIELD) {
        Some(v) => v as i64,
        None => -1i64,
    }
}

fn id_type_exec(c: &Class) -> (r: i64)
    ensures
        r == id_type_of(c@),
{
    match enum_field(c, ID_TYPE_FIELD) {
        Some(v) => v,
        None => -1i64,
    }
}

fn id_val_exec(c: &Class) -> (r: i64)
    ensures
        r == id_val_of(c@),
{
    match u32_field(c, ID_VAL_FIELD) {
        Some(v) => v as i64,
        None => -1i64,
    }
}

/// A row of the equipment listing: the box index, the id type and the id
/// value (-1 where missing).
#[derive(Clone, Copy, Debug, PartialEq, Eq)]
pub struct EquipRow {
    pub index: usize,
    pub id_type: i64,
    pub id_val: i64,
}

pub open spec fn equip_row(i: int, c: ClassV) -> Option<EquipRow> {
    Some(EquipRow { index: i as usize, id_type: id_type_of(c), id_val: id_val_of(c) })
}

/// The number of rows with a positive id value.
pub open spec fn filled_count(rows: Seq<EquipRow>) -> nat
    decreases rows.len(),
{
    if rows.len() == 0 {
        0
    } else {
        filled_count(rows.drop_last()) + if rows.last().id_val > 0 {
            1nat
        } else {
            0nat
        }
    }
}

/// The equipment listing: the length of the box, one row per entry, and how
/// many entries are filled.
pub struct EquipListing {
    pub total: usize,
    pub rows: Vec<EquipRow>,
    pub filled: usize,
}

/// The equipment listing of a slot.
pub fn extract_equip(t: &SaveTree) -> (r: Result<EquipListing, ExtractError>)
    ensures
        match equip_box(t@) {
            Err(e) => r matches Err(x) && x == e,
            Ok(s) => r matches Ok(l) && l.total == s.len() && l.rows@ == class_rows(s, |i: int, c: ClassV| equip_row(i, c))
                && l.filled == filled_count(l.rows@),
        },
{
    let vals = find_equip_box(t)?;
    let ghost s = values_of(vals@);
    let ghost f = |i: int, c: ClassV| equip_row(i, c);
    let mut rows: Vec<EquipRow> = Vec::new();
    let mut filled: usize = 0;
    let mut i: usize = 0;
    while i < vals.len()
        invariant
            i <= vals@.len(),
            s == values_of(vals@),
            f == (|i: int, c: ClassV| equip_row(i, c)),
            rows@ == class_rows(s.take(i as int), f),
            filled == filled_count(rows@),
            filled <= rows@.len() <= i,
        decreases vals@.len() - i,
    {
        proof {
            assert(s.take(i + 1).drop_last() =~= s.take(i as int));
            assert(s.take(i + 1).last() == s[i as int]);
            lemma_class_rows_len(s.take(i as int), f);
        }
        match &vals[i] {
            FieldValue::Class(c) => {
                proof {
                    lemma_class_value_view(**c);
                }
                let row = EquipRow { index: i, id_type: id_type_exec(c), id_val: id_val_exec(c) };
                let ghost before = rows@;
                rows.push(row);
                proof {
                    assert(rows@.drop_last() =~= before);
                }
                if row.id_val > 0 {
                    filled += 1;
                }
            },
            _ => {},
        }
        i += 1;
    }
    proof {
        assert(s.take(vals@.len() as int) =~= s);
    }
    Ok(EquipListing { total: vals.len(), rows, filled })
}

proof fn lemma_class_rows_len<T>(s: Seq<Value>, f: spec_fn(int, ClassV) -> Option<T>)
    ensures
        class_rows(s, f).len() <= s.len(),
    decreases s.len(),
{
    if s.len() > 0 {
        lemma_class_rows_len(s.drop_last(), f);
    }
}

/// A row of the talisman listing: the box index, id type and id value, and
/// the skill ids, skill levels and decoration slots of the entry.
pub struct TalismanRow {
    pub index: usize,
    pub id_type: i64,
    pub id_val: i64,
    pub skill_ids: NumList,
    pub skill_lvs: NumList,
    pub deco_slots: NumList,
}

impl DeepView for TalismanRow {
    type V = (
        usize,
        i64,
        i64,
        Option<Option<Seq<Option<i64>>>>,
        Option<Option<Seq<Option<i64>>>>,
        Option<Option<Seq<Option<i64>>>>,
    );

    open spec fn deep_view(&self) -> Self::V {
        (
            self.index,
            self.id_type,
            self.id_val,
            self.skill_ids.deep_view(),
            self.skill_lvs.deep_view(),
            self.deco_slots.deep_view(),
        )
    }
}

pub open spec fn talisman_row(i: int, c: ClassV) -> Option<
    (
        usize,
        i64,
        i64,
        Option<Option<Seq<Option<i64>>>>,
        Option<Option<Seq<Option<i64>>>>,
        Option<Option<Seq<Option<i64>>>>,
    ),
> {
    Some(
        (
            i as usize,
            id_type_of(c),
            id_val_of(c),
            list_of(c, TALISMAN_SKILL_ID_FIELD, ListKind::Enums),
            list_of(c, TALISMAN_SKILL_LV_FIELD, ListKind::Unsigned),
            list_of(c, TALISMAN_DECO_SLOT_FIELD, ListKind::Unsigned),
        ),
    )
}

/// A number that is present and positive.
pub open spec fn positive(x: Option<i64>) -> bool {
    x matches Some(v) && v > 0
}

/// Some item of the list is present and positive.
pub open spec fn any_positive(s: Seq<Option<i64>>) -> bool {
    exists|k: int| 0 <= k < s.len() && #[trigger] positive(s[k])
}

/// A list of levels has a positive level.
pub open spec fn has_level(l: Option<Option<Seq<Option<i64>>>>) -> bool {
    match l {
        Some(Some(s)) => any_positive(s),
        _ => false,
    }
}

fn has_level_exec(l: &NumList) -> (r: bool)
    ensures
        r == has_level(l.deep_view()),
{
    match l {
        NumList::Items(v) => {
            let mut i: usize = 0;
            while i < v.len()
                invariant
                    i <= v@.len(),
                    l.deep_view() == Some(Some(v@)),
                    forall|k: int| 0 <= k < i ==> !#[trigger] positive(v@[k]),
                decreases v@.len() - i,
            {
                match v[i] {
                    Some(x) => if x > 0 {
                        proof {
                            assert(positive(v@[i as int]));

                        }
                        return true;
                    },
                    None => {},
                }
                i += 1;
            }
            false
        },
        _ => false,
    }
}

/// The number of talisman rows with a positive skill level.
pub open spec fn skilled_count(
    rows: Seq<
        (
            usize,
            i64,
            i64,
            Option<Option<Seq<Option<i64>>>>,
            Option<Option<Seq<Option<i64>>>>,
            Option<Option<Seq<Option<i64>>>>,
        ),
    >,
) -> nat
    decreases rows.len(),
{
    if rows.len() == 0 {
        0
    } else {
        skilled_count(rows.drop_last()) + if has_level(rows.last().4) {
            1nat
        } else {
            0nat
        }
    }
}

/// The talisman listing: one row per entry of the equipment box, and how many
/// of them have a positive skill level.
pub struct TalismanListing {
    pub rows: Vec<TalismanRow>,
    pub skilled: usize,
}

/// The talisman listing of a slot.
pub fn extract_talismans(t: &SaveTree) -> (r: Result<TalismanListing, ExtractError>)
    ensures
        match equip_box(t@) {
            Err(e) => r matches Err(x) && x == e,
            Ok(s) => r matches Ok(l) && l.rows.deep_view() == class_rows(s, |i: int, c: ClassV| talisman_row(i, c))
                && l.skilled == skilled_count(l.rows.deep_view()),
        },
{
    let vals = find_equip_box(t)?;
    let ghost s = values_of(vals@);
    let ghost f = |i: int, c: ClassV| talisman_row(i, c);
    let mut rows: Vec<TalismanRow> = Vec::new();
    let mut skilled: usize = 0;
    let mut i: usize = 0;
    while i < vals.len()
        invariant
            i <= vals@.len(),
            s == values_of(vals@),
            f == (|i: int, c: ClassV| talisman_row(i, c)),
            rows.deep_view() == class_rows(s.take(i as int), f),
            skilled == skilled_count(rows.deep_view()),
            skilled <= rows@.len() <= i,
        decreases vals@.len() - i,
    {
        proof {
            assert(s.take(i + 1).drop_last() =~= s.take(i as int));
            assert(s.take(i + 1).last() == s[i as int]);
            lemma_class_rows_len(s.take(i as int), f);
        }
        match &vals[i] {
            FieldValue::Class(c) => {
                proof {
                    lemma_class_value_view(**c);
                }
                let skill_ids = read_list(c, TALISMAN_SKILL_ID_FIELD, ListKind::Enums);
                let skill_lvs = read_list(c, TALISMAN_SKILL_LV_FIELD, ListKind::Unsigned);
                let deco_slots = read_list(c, TALISMAN_DECO_SLOT_FIELD, ListKind::Unsigned);
                let lv = has_level_exec(&skill_lvs);
                let row = TalismanRow {
                    index: i,
                    id_type: id_type_exec(c),
                    id_val: id_val_exec(c),
                    skill_ids,
                    skill_lvs,
                    deco_slots,
                };
                let ghost before = rows.deep_view();
                let ghost rv = row.deep_view();
                rows.push(row);
                proof {
                    assert(rows.deep_view() =~= before.push(rv));
                    assert(rows.deep_view().drop_last() =~= before);
                }
                if lv {
                    skilled += 1;
                }
            },
            _ => {},
        }
        i += 1;
    }
    proof {
        assert(s.take(vals@.len() as int) =~= s);
    }
    Ok(TalismanListing { rows, skilled })
}

/// A row of the decoration listing: the box index, the decoration ids and
/// the Hyakuryu decoration id (-1 where missing).
pub struct DecoRow {
    pub index: usize,
    pub decos: NumList,
    pub hyakuryu: i64,
}

impl DeepView for DecoRow {
    type V = (usize, Option<Option<Seq<Option<i64>>>>, i64);

    open spec fn deep_view(&self) -> Self::V {
        (self.index, self.decos.deep_view(), self.hyakuryu)
    }
}

/// The row of a filled entry (positive id value); none for another.
pub open spec fn deco_row(i: int, c: ClassV) -> Option<(usize, Option<Option<Seq<Option<i64>>>>, i64)> {
    if id_val_of(c) > 0 {
        Some(
            (
                i as usize,
                list_of(c, DECO_ID_LIST_FIELD, ListKind::Enums),
                match enum_of(c, HYAKURYU_DECO_FIELD) {
                    Some(v) => v,
                    None => -1i64,
                },
            ),
        )
    } else {
        None
    }
}

/// The decoration listing of a slot: one row per filled entry of the
/// equipment box.
pub fn extract_deco(t: &SaveTree) -> (r: Result<Vec<DecoRow>, ExtractError>)
    ensures
        match equip_box(t@) {
            Err(e) => r matches Err(x) && x == e,
            Ok(s) => r matches Ok(rows) && rows.deep_view() == class_rows(s, |i: int, c: ClassV| deco_row(i, c)),
        },
{
    let vals = find_equip_box(t)?;
    let ghost s = values_of(vals@);
    let ghost f = |i: int, c: ClassV| deco_row(i, c);
    let mut rows: Vec<DecoRow> = Vec::new();
    let mut i: usize = 0;
    while i < vals.len()
        invariant
            i <= vals@.len(),
            s == values_of(vals@),
            f == (|i: int, c: ClassV| deco_row(i, c)),
            rows.deep_view() == class_rows(s.take(i as int), f),
        decreases vals@.len() - i,
    {
        proof {
            assert(s.take(i + 1).drop_last() =~= s.take(i as int));
            assert(s.take(i + 1).last() == s[i as int]);
        }
        match &vals[i] {
            FieldValue::Class(c) => {
                proof {
                    lemma_class_value_view(**c);
                }
                if id_val_exec(c) > 0 {
                    let decos = read_list(c, DECO_ID_LIST_FIELD, ListKind::Enums);
                    let hyakuryu = match enum_field(c, HYAKURYU_DECO_FIELD) {
                        Some(v) => v,
                        None => -1i64,
                    };
                    let row = DecoRow { index: i, decos, hyakuryu };
                    let ghost before = rows.deep_view();
                    let ghost rv = row.deep_view();
                    rows.push(row);
                    proof {
                        assert(rows.deep_view() =~= before.push(rv));
                    }
                }
            },
            _ => {},
        }
        i += 1;
    }
    proof {
        assert(s.take(vals@.len() as int) =~= s);
    }
    Ok(rows)
}

/// An augment step: its id, its value index and its skill id (0 where
/// missing).
pub open spec fn buildup_entry(bc: ClassV) -> (i64, i64, i64) {
    (
        match enum_of(bc, ID_FIELD) {
            Some(v) => v,
            None => 0i64,
        },
        match u32_of(bc, VALUE_INDEX_FIELD) {
            Some(v) => v as i64,
            None => 0i64,
        },
        match enum_of(bc, SKILL_ID_FIELD) {
            Some(v) => v,
            None => 0i64,
        },
    )
}

/// At most the first seven elements.
pub open spec fn first_seven(s: Seq<Value>) -> Seq<Value> {
    if s.len() <= 7 {
        s
    } else {
        s.take(7)
    }
}

/// The augment steps of an entry: of the first seven elements of its
/// `_CustomBuildup` array, those that are classes.
pub open spec fn buildup_of(c: ClassV) -> Seq<(i64, i64, i64)> {
    match first_field(c.fields, CUSTOM_BUILDUP_FIELD) {
        Some(Value::Array(_, s)) => class_rows(first_seven(s), |i: int, bc: ClassV| Some(buildup_entry(bc))),
        _ => Seq::empty(),
    }
}

/// Whether an entry is augmented: augmentation enabled, a positive augment
/// count, or an augment step other than all zeros.
pub open spec fn is_augmented(c: ClassV) -> bool {
    bool_of(c, CUSTOM_ENABLE_FIELD) == Some(true) || (s32_of(c, CUSTOM_COUNT_FIELD) matches Some(n) && n > 0)
        || exists|k: int| 0 <= k < buildup_of(c).len() && #[trigger] buildup_of(c)[k] != (0i64, 0i64, 0i64)
}

/// A row of the augment listing: the box index, whether augmentation is
/// enabled, the augment count (0 where missing), the buildup type (-1 where
/// missing), the opened ids and the augment steps.
pub struct AugRow {
    pub index: usize,
    pub enabled: bool,
    pub count: i32,
    pub buildup_type: i64,
    pub open_ids: NumList,
    pub buildup: Vec<(i64, i64, i64)>,
}

impl DeepView for AugRow {
    type V = (usize, bool, i32, i64, Option<Option<Seq<Option<i64>>>>, Seq<(i64, i64, i64)>);

    open spec fn deep_view(&self) -> Self::V {
        (self.index, self.enabled, self.count, self.buildup_type, self.open_ids.deep_view(), self.buildup@)
    }
}

/// The row of a filled, augmented entry; none for another.
pub open spec fn aug_row(i: int, c: ClassV) -> Option<(usize, bool, i32, i64, Option<Option<Seq<Option<i64>>>>, Seq<(i64, i64, i64)>)> {
    if id_val_of(c) > 0 && is_augmented(c) {
        Some(
            (
                i as usize,
                bool_of(c, CUSTOM_ENABLE_FIELD) == Some(true),
                match s32_of(c, CUSTOM_COUNT_FIELD) {
                    Some(n) => n,
                    None => 0i32,
                },
                match s8_of(c, CUSTOM_BUILDUP_TYPE_FIELD) {
                    Some(x) => x as i64,
                    None => -1i64,
                },
                list_of(c, CUSTOM_OPEN_ID_FIELD, ListKind::Either),
                buildup_of(c),
            ),
        )
    } else {
        None
    }
}

fn buildup_exec(c: &Class) -> (r: Vec<(i64, i64, i64)>)
    ensures
        r@ == buildup_of(c@),
{
    let mut out: Vec<(i64, i64, i64)> = Vec::new();
    match get_value(c, CUSTOM_BUILDUP_FIELD) {
        Some(FieldValue::Array(a)) => {
            let ghost all = values_of(a.values@);
            proof {
                assert(all =~= FieldValue::Array(*a)@->Array_1);
            }
            let n = if a.values.len() <= 7 {
                a.values.len()
            } else {
                7
            };
            let ghost s = first_seven(all);
            let ghost f = |i: int, bc: ClassV| Some(buildup_entry(bc));
            let mut i: usize = 0;
            while i < n
                invariant
                    i <= n,
                    n == s.len(),
                    n <= a.values@.len(),
                    all == values_of(a.values@),
                    s == first_seven(all),
                    f == (|i: int, bc: ClassV| Some(buildup_entry(bc))),
                    out@ == class_rows(s.take(i as int), f),
                decreases n - i,
            {
                proof {
                    assert(s.take(i + 1).drop_last() =~= s.take(i as int));
                    assert(s.take(i + 1).last() == s[i as int]);
                    assert(s[i as int] == all[i as int]);
                }
                match &a.values[i] {
                    FieldValue::Class(bc) => {
                        proof {
                            lemma_class_value_view(**bc);
                        }
                        let id = match enum_field(bc, ID_FIELD) {
                            Some(v) => v,
                            None => 0i64,
                        };
                        let vi = match u32_field(bc, VALUE_INDEX_FIELD) {
                            Some(v) => v as i64,
                            None => 0i64,
                        };
                        let sk = match enum_field(bc, SKILL_ID_FIELD) {
                            Some(v) => v,
                            None => 0i64,
                        };
                        out.push((id, vi, sk));
                    },
                    _ => {},
                }
                i += 1;
            }
            proof {
                assert(s.take(n as int) =~= s);
            }
        },
        _ => {},
    }
    out
}

/// The augment listing of a slot: one row per filled, augmented entry of the
/// equipment box.
pub fn extract_aug(t: &SaveTree) -> (r: Result<Vec<AugRow>, ExtractError>)
    ensures
        match equip_box(t@) {
            Err(e) => r matches Err(x) && x == e,
            Ok(s) => r matches Ok(rows) && rows.deep_view() == class_rows(s, |i: int, c: ClassV| aug_row(i, c)),
        },
{
    let vals = find_equip_box(t)?;
    let ghost s = values_of(vals@);
    let ghost f = |i: int, c: ClassV| aug_row(i, c);
    let mut rows: Vec<AugRow> = Vec::new();
    let mut i: usize = 0;
    while i < vals.len()
        invariant
            i <= vals@.len(),
            s == values_of(vals@),
            f == (|i: int, c: ClassV| aug_row(i, c)),
            rows.deep_view() == class_rows(s.take(i as int), f),
        decreases vals@.len() - i,
    {
        proof {
            assert(s.take(i + 1).drop_last() =~= s.take(i as int));
            assert(s.take(i + 1).last() == s[i as int]);
        }
        match &vals[i] {
            FieldValue::Class(c) => {
                proof {
                    lemma_class_value_view(**c);
                }
                if id_val_exec(c) > 0 {
                    let enabled = match bool_field(c, CUSTOM_ENABLE_FIELD) {
                        Some(b) => b,
                        None => false,
                    };
                    let count = match s32_field(c, CUSTOM_COUNT_FIELD) {
                        Some(n) => n,
                        None => 0i32,
                    };
                    let buildup_type = match s8_field(c, CUSTOM_BUILDUP_TYPE_FIELD) {
                        Some(x) => x as i64,
                        None => -1i64,
                    };
                    let buildup = buildup_exec(c);
                    let mut any_step = false;
                    let mut k: usize = 0;
                    while k < buildup.len()
                        invariant
                            k <= buildup@.len(),
                            any_step == exists|q: int| 0 <= q < k && #[trigger] buildup@[q] != (0i64, 0i64, 0i64),
                        decreases buildup@.len() - k,
                    {
                        let (a, b, d) = buildup[k];
                        if a != 0 || b != 0 || d != 0 {
                            any_step = true;
                        }
                        proof {
                            if any_step {
                                if !(exists|q: int| 0 <= q < k && #[trigger] buildup@[q] != (0i64, 0i64, 0i64)) {
                                    assert(buildup@[k as int] != (0i64, 0i64, 0i64));
                                }
                            } else {
                                assert forall|q: int| 0 <= q < k + 1 implies #[trigger] buildup@[q] == (0i64, 0i64, 0i64) by {
                                    if q < k {
                                        assert(!(buildup@[q] != (0i64, 0i64, 0i64)));
                                    }
                                }
                            }
                        }
                        k += 1;
                    }
                    if enabled || count > 0 || any_step {
                        let open_ids = read_list(c, CUSTOM_OPEN_ID_FIELD, ListKind::Either);
                        let row = AugRow { index: i, enabled, count, buildup_type, open_ids, buildup };
                        let ghost before = rows.deep_view();
                        let ghost rv = row.deep_view();
                        rows.push(row);
                        proof {
                            assert(rows.deep_view() =~= before.push(rv));
                        }
                    }
                }
            },
            _ => {},
        }
        i += 1;
    }
    proof {
        assert(s.take(vals@.len() as int) =~= s);
    }
    Ok(rows)
}

/// The NPC chat flags of a slot: the first class under the NPC key, its first
/// `_NpcGuideChatUnlockFlag` array, each element as a number.
pub open spec fn npc_flags(t: Seq<(u32, ClassV)>) -> Option<Seq<Option<i64>>> {
    let k = first_key(t, NPC_KEY);
    if k < 0 {
        None
    } else {
        match first_field(t[k].1.fields, NPC_CHAT_FLAG_FIELD) {
            Some(Value::Array(_, s)) => Some(s.map_values(|x: Value| list_item(x, ListKind::Either))),
            _ => None,
        }
    }
}

/// The NPC chat flags of a slot, where it has them.
pub fn extract_npc(t: &SaveTree) -> (r: Option<Vec<Option<i64>>>)
    ensures
        match r {
            Some(v) => npc_flags(t@) == Some(v@),
            None => npc_flags(t@) is None,
        },
{
    let k = match find_top(&t.fields, NPC_KEY) {
        Some(k) => k,
        None => return None,
    };
    proof {
        lemma_first_key(t@, NPC_KEY, k as int);
    }
    match get_value(&t.fields[k].1, NPC_CHAT_FLAG_FIELD) {
        Some(FieldValue::Array(a)) => {
            proof {
                assert(values_of(a.values@) =~= FieldValue::Array(*a)@->Array_1);
            }
            Some(list_items(&a.values, ListKind::Either))
        },
        _ => None,
    }
}

} // verus!

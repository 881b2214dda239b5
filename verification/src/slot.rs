//! Reads of a slot file (`dataNNNSlot.bin`): hunter rank, master rank and
//! character name.

use vstd::prelude::*;
use crate::model::{SaveTree, Class, ClassV, FieldValue, Value, value_view, class_view, first_key, is_first_key,
    lemma_first_key, lemma_no_key, copy_seq};
use crate::read::{ValueReader, read_tree, tree_collect, lemma_tree_read_collect};
use crate::schema::{PROGRESS_CLS, HR_FIELD, MR_FIELD, PROGRESS_KEY, CHARA_KEY, HR_DATA_FIELD, RANK_FIELD,
    HR_SHORT_FIELD, BASIC_DATA_FIELD, NAME_FIELD, PLAYER_NAME_FIELD, PLAIN_NAME_FIELD};

verus! {

/// A 32-bit signed value, or nothing.
pub open spec fn s32_of(v: Value) -> Seq<i32> {
    if v is S32 {
        seq![v->S32_0]
    } else {
        Seq::empty()
    }
}

/// Reads 32-bit signed values.
pub struct S32Value;

impl ValueReader for S32Value {
    type Out = i32;

    open spec fn read(&self, v: Value) -> Seq<i32> {
        s32_of(v)
    }

    fn run(&self, v: &FieldValue, out: &mut Vec<i32>) {
        let ghost before = out.deep_view();
        match v {
            FieldValue::S32(x) => {
                out.push(*x);
            },
            _ => {},
        }
        assert(out.deep_view() =~= before + s32_of(v@));
    }
}

/// The last element of a sequence, if any.
pub open spec fn last_of<X>(s: Seq<X>) -> Option<X> {
    if s.len() > 0 {
        Some(s.last())
    } else {
        None
    }
}

/// Hunter rank and master rank of a slot.
#[derive(Debug, Clone, Copy, PartialEq, Eq)]
pub struct SlotRank {
    pub hr: Option<i32>,
    pub mr: Option<i32>,
}

fn last_s32(sf: &SaveTree, fh: u32) -> (r: Option<i32>)
    ensures
        r == last_of(tree_collect(sf@, PROGRESS_CLS, fh, |v: Value| s32_of(v))),
{
    let vals = read_tree(&S32Value, sf, Some(PROGRESS_CLS), fh);
    proof {
        lemma_tree_read_collect(S32Value, sf@, PROGRESS_CLS, fh);
        assert((|v: Value| S32Value.read(v)) =~= (|v: Value| s32_of(v)));
        assert(vals.deep_view() =~= vals@);
    }
    let n = vals.len();
    if n > 0 {
        Some(vals[n - 1])
    } else {
        None
    }
}

/// The hunter rank and master rank of a slot: the last 32-bit signed
/// `_HunterRank` and `_MasterRank` fields of its progress class.
pub fn slot_rank(sf: &SaveTree) -> (r: SlotRank)
    ensures
        r.hr == last_of(tree_collect(sf@, PROGRESS_CLS, HR_FIELD, |v: Value| s32_of(v))),
        r.mr == last_of(tree_collect(sf@, PROGRESS_CLS, MR_FIELD, |v: Value| s32_of(v))),
{
    SlotRank { hr: last_s32(sf, HR_FIELD), mr: last_s32(sf, MR_FIELD) }
}

/// The value of the first field of a class stored under `h`.
pub open spec fn first_field(fields: Seq<(u32, Value)>, h: u32) -> Option<Value> {
    if first_key(fields, h) >= 0 {
        Some(fields[first_key(fields, h)].1)
    } else {
        None
    }
}

/// The first field stored under `h`, when it holds a 32-bit unsigned value.
pub open spec fn u32_field(fields: Seq<(u32, Value)>, h: u32) -> Option<u32> {
    match first_field(fields, h) {
        Some(Value::U32(x)) => Some(x),
        _ => None,
    }
}

/// The first field stored under `h`, when it holds a string.
pub open spec fn str_field(fields: Seq<(u32, Value)>, h: u32) -> Option<Seq<u16>> {
    match first_field(fields, h) {
        Some(Value::Str(s)) => Some(s),
        _ => None,
    }
}

/// The rank a progress class gives: the first of `_HunterRank`,
/// `_HunterRankData`, `_Rank`, `_HR` that holds a 32-bit unsigned value.
pub open spec fn rank_of(fields: Seq<(u32, Value)>) -> Option<u32> {
    if u32_field(fields, HR_FIELD) is Some {
        u32_field(fields, HR_FIELD)
    } else if u32_field(fields, HR_DATA_FIELD) is Some {
        u32_field(fields, HR_DATA_FIELD)
    } else if u32_field(fields, RANK_FIELD) is Some {
        u32_field(fields, RANK_FIELD)
    } else {
        u32_field(fields, HR_SHORT_FIELD)
    }
}

/// The name a class gives: the first of `_Name`, `_PlayerName`, `Name` that
/// holds a string.
pub open spec fn name_of(fields: Seq<(u32, Value)>) -> Option<Seq<u16>> {
    if str_field(fields, NAME_FIELD) is Some {
        str_field(fields, NAME_FIELD)
    } else if str_field(fields, PLAYER_NAME_FIELD) is Some {
        str_field(fields, PLAYER_NAME_FIELD)
    } else {
        str_field(fields, PLAIN_NAME_FIELD)
    }
}

/// The name a character class gives: from its `_BasicData` class when it has
/// one, otherwise from its own fields.
pub open spec fn chara_name(c: ClassV) -> Option<Seq<u16>> {
    match first_field(c.fields, BASIC_DATA_FIELD) {
        Some(Value::Class(bd)) => name_of(bd.fields),
        _ => name_of(c.fields),
    }
}

/// The rank of a slot: that of the last progress entry that gives one.
pub open spec fn info_rank(t: Seq<(u32, ClassV)>) -> Option<u32>
    decreases t.len(),
{
    if t.len() == 0 {
        None
    } else if t.last().0 == PROGRESS_KEY && rank_of(t.last().1.fields) is Some {
        rank_of(t.last().1.fields)
    } else {
        info_rank(t.drop_last())
    }
}

/// The name of a slot: that of the last character entry that gives one.
pub open spec fn info_name(t: Seq<(u32, ClassV)>) -> Option<Seq<u16>>
    decreases t.len(),
{
    if t.len() == 0 {
        None
    } else if t.last().0 == CHARA_KEY && chara_name(t.last().1) is Some {
        chara_name(t.last().1)
    } else {
        info_name(t.drop_last())
    }
}

/// The index of the first field of `c` stored under `h`.
pub fn find_field(c: &Class, h: u32) -> (r: Option<usize>)
    ensures
        match r {
            Some(k) => is_first_key(c@.fields, h, k as int) && k < c.fields@.len(),
            None => first_key(c@.fields, h) == -1,
        },
{
    let mut k: usize = 0;
    while k < c.fields.len()
        invariant
            k <= c.fields@.len(),
            forall|j: int| 0 <= j < k ==> #[trigger] c@.fields[j].0 != h,
        decreases c.fields@.len() - k,
    {
        if c.fields[k].hash == h {
            return Some(k);
        }
        k += 1;
    }
    proof {
        lemma_no_key(c@.fields, h);
    }
    None
}

fn u32_field_exec(c: &Class, h: u32) -> (r: Option<u32>)
    ensures
        r == u32_field(c@.fields, h),
{
    match find_field(c, h) {
        Some(k) => {
            proof {
                lemma_first_key(c@.fields, h, k as int);
            }
            match &c.fields[k].value {
                FieldValue::U32(x) => Some(*x),
                _ => None,
            }
        },
        None => None,
    }
}

fn str_field_exec(c: &Class, h: u32) -> (r: Option<Vec<u16>>)
    ensures
        r.deep_view() == str_field(c@.fields, h),
{
    match find_field(c, h) {
        Some(k) => {
            proof {
                lemma_first_key(c@.fields, h, k as int);
            }
            match &c.fields[k].value {
                FieldValue::String(u) => {
                    let s = copy_seq(u);
                    assert(s.deep_view() =~= s@);
                    Some(s)
                },
                _ => None,
            }
        },
        None => None,
    }
}

fn rank_exec(c: &Class) -> (r: Option<u32>)
    ensures
        r == rank_of(c@.fields),
{
    let a = u32_field_exec(c, HR_FIELD);
    if a.is_some() {
        return a;
    }
    let b = u32_field_exec(c, HR_DATA_FIELD);
    if b.is_some() {
        return b;
    }
    let d = u32_field_exec(c, RANK_FIELD);
    if d.is_some() {
        return d;
    }
    u32_field_exec(c, HR_SHORT_FIELD)
}

fn name_exec(c: &Class) -> (r: Option<Vec<u16>>)
    ensures
        r.deep_view() == name_of(c@.fields),
{
    let a = str_field_exec(c, NAME_FIELD);
    if a.is_some() {
        return a;
    }
    let b = str_field_exec(c, PLAYER_NAME_FIELD);
    if b.is_some() {
        return b;
    }
    str_field_exec(c, PLAIN_NAME_FIELD)
}

fn chara_name_exec(c: &Class) -> (r: Option<Vec<u16>>)
    ensures
        r.deep_view() == chara_name(c@),
{
    match find_field(c, BASIC_DATA_FIELD) {
        Some(k) => {
            proof {
                lemma_first_key(c@.fields, BASIC_DATA_FIELD, k as int);
            }
            match &c.fields[k].value {
                FieldValue::Class(bd) => {
                    proof {
                        crate::model::lemma_class_value_view(**bd);
                    }
                    name_exec(bd)
                },
                _ => name_exec(c),
            }
        },
        None => name_exec(c),
    }
}

/// Name and hunter rank of a slot, as the slot summary shows them.
pub struct SlotInfo {
    pub name: Option<Vec<u16>>,
    pub hr: Option<u32>,
}

/// The character name and hunter rank of a slot (see `info_name` and
/// `info_rank`).
pub fn slot_info(sf: &SaveTree) -> (r: SlotInfo)
    ensures
        r.name.deep_view() == info_name(sf@),
        r.hr == info_rank(sf@),
{
    let mut hr: Option<u32> = None;
    let mut name: Option<Vec<u16>> = None;
    let mut i: usize = 0;
    while i < sf.fields.len()
        invariant
            i <= sf.fields@.len(),
            hr == info_rank(sf@.take(i as int)),
            name.deep_view() == info_name(sf@.take(i as int)),
        decreases sf.fields@.len() - i,
    {
        proof {
            assert(sf@.take(i + 1).drop_last() =~= sf@.take(i as int));
            assert(sf@.take(i + 1).last() == sf@[i as int]);
            assert(sf@[i as int] == (sf.fields@[i as int].0, class_view(sf.fields@[i as int].1)));
        }
        let key = sf.fields[i].0;
        if key == PROGRESS_KEY {
            let r = rank_exec(&sf.fields[i].1);
            if r.is_some() {
                hr = r;
            }
        }
        if key == CHARA_KEY {
            let n = chara_name_exec(&sf.fields[i].1);
            if n.is_some() {
                name = n;
            }
        }
        i += 1;
    }
    assert(sf@.take(sf@.len() as int) =~= sf@);
    SlotInfo { name, hr }
}

} // verus!

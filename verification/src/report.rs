//! Structural summaries of a decoded save: the slot arrays of the edit data,
//! and the kind of every field of every top-level class.

use vstd::prelude::*;
use crate::model::{SaveTree, Class, ClassV, FieldValue, Value};
use crate::schema::{UI_VALUE_FIELD, SLOT_USED_FIELD, SLOT_NAME_FIELD, SLOT_TIME_FIELD};

verus! {

/// The per-slot arrays that the edit report lists.
#[derive(Clone, Copy, Debug, PartialEq, Eq)]
pub enum SlotArray {
    UiValue,
    SlotUsed,
    SlotName,
    SaveTime,
}

/// The per-slot array stored under a field hash, if it is one.
pub open spec fn slot_array_of(h: u32) -> Option<SlotArray> {
    if h == UI_VALUE_FIELD {
        Some(SlotArray::UiValue)
    } else if h == SLOT_USED_FIELD {
        Some(SlotArray::SlotUsed)
    } else if h == SLOT_NAME_FIELD {
        Some(SlotArray::SlotName)
    } else if h == SLOT_TIME_FIELD {
        Some(SlotArray::SaveTime)
    } else {
        None
    }
}

fn slot_array(h: u32) -> (r: Option<SlotArray>)
    ensures
        r == slot_array_of(h),
{
    if h == UI_VALUE_FIELD {
        Some(SlotArray::UiValue)
    } else if h == SLOT_USED_FIELD {
        Some(SlotArray::SlotUsed)
    } else if h == SLOT_NAME_FIELD {
        Some(SlotArray::SlotName)
    } else if h == SLOT_TIME_FIELD {
        Some(SlotArray::SaveTime)
    } else {
        None
    }
}

/// One per-slot array found in a save: the key of its top-level entry, which
/// array it is, its length, and, for the UI values, the number of fields of
/// each element that is a class.
pub struct SlotArrayReport {
    pub top: u32,
    pub array: SlotArray,
    pub len: usize,
    pub per_slot: Option<Vec<Option<usize>>>,
}

impl DeepView for SlotArrayReport {
    type V = (u32, SlotArray, nat, Option<Seq<Option<nat>>>);

    open spec fn deep_view(&self) -> (u32, SlotArray, nat, Option<Seq<Option<nat>>>) {
        (
            self.top,
            self.array,
            self.len as nat,
            match self.per_slot {
                Some(v) => Some(v@.map_values(|x: Option<usize>| opt_nat(x))),
                None => None,
            },
        )
    }
}

pub open spec fn opt_nat(x: Option<usize>) -> Option<nat> {
    match x {
        Some(n) => Some(n as nat),
        None => None,
    }
}

/// The field count of each element that is a class.
pub open spec fn class_sizes(s: Seq<Value>) -> Seq<Option<nat>> {
    s.map_values(
        |e: Value|
            match e {
                Value::Class(c) => Some(c.fields.len()),
                _ => None,
            },
    )
}

/// The report of a field of the entry `top`, where it is a per-slot array.
pub open spec fn field_report(top: u32, f: (u32, Value)) -> Option<(u32, SlotArray, nat, Option<Seq<Option<nat>>>)> {
    match slot_array_of(f.0) {
        Some(k) => match f.1 {
            Value::Array(_, s) => Some(
                (
                    top,
                    k,
                    s.len(),
                    if k == SlotArray::UiValue {
                        Some(class_sizes(s))
                    } else {
                        None
                    },
                ),
            ),
            _ => None,
        },
        None => None,
    }
}

/// The reports of the first `i` fields of a class.
pub open spec fn class_reports(top: u32, fs: Seq<(u32, Value)>, i: int) -> Seq<(u32, SlotArray, nat, Option<Seq<Option<nat>>>)>
    decreases i,
{
    if i <= 0 {
        Seq::empty()
    } else {
        let before = class_reports(top, fs, i - 1);
        match field_report(top, fs[i - 1]) {
            Some(r) => before.push(r),
            None => before,
        }
    }
}

/// The reports of the first `i` top-level entries, entry by entry, field by
/// field.
pub open spec fn tree_reports(t: Seq<(u32, ClassV)>, i: int) -> Seq<(u32, SlotArray, nat, Option<Seq<Option<nat>>>)>
    decreases i,
{
    if i <= 0 {
        Seq::empty()
    } else {
        tree_reports(t, i - 1) + class_reports(t[i - 1].0, t[i - 1].1.fields, t[i - 1].1.fields.len() as int)
    }
}

/// The field count of each element of an array that is a class.
fn element_sizes(vals: &Vec<FieldValue>) -> (r: Vec<Option<usize>>)
    ensures
        r@.map_values(|x: Option<usize>| opt_nat(x)) == class_sizes(vals@.map_values(|e: FieldValue| e@)),
{
    let ghost ev = vals@.map_values(|e: FieldValue| e@);
    let mut out: Vec<Option<usize>> = Vec::new();
    let mut i: usize = 0;
    while i < vals.len()
        invariant
            i <= vals@.len(),
            ev == vals@.map_values(|e: FieldValue| e@),
            out@.len() == i,
            forall|j: int| 0 <= j < i ==> opt_nat(#[trigger] out@[j]) == class_sizes(ev)[j],
        decreases vals@.len() - i,
    {
        let x = match &vals[i] {
            FieldValue::Class(c) => {
                proof {
                    crate::model::lemma_class_value_view(**c);
                }
                Some(c.fields.len())
            },
            _ => None,
        };
        out.push(x);
        i += 1;
    }
    proof {
        assert(out@.map_values(|x: Option<usize>| opt_nat(x)) =~= class_sizes(ev));
    }
    out
}

/// The per-slot arrays of a save (`playerUIValue`, `playerSlotUsed`,
/// `playerSaveSlotName`, `playerSaveTime`), wherever they occur as array
/// fields of a top-level class, in order.
pub fn edit_report(t: &SaveTree) -> (r: Vec<SlotArrayReport>)
    ensures
        r.deep_view() == tree_reports(t@, t@.len() as int),
{
    let ghost tv = t@;
    let mut out: Vec<SlotArrayReport> = Vec::new();
    let mut i: usize = 0;
    while i < t.fields.len()
        invariant
            i <= t.fields@.len(),
            tv == t@,
            out.deep_view() == tree_reports(tv, i as int),
        decreases t.fields@.len() - i,
    {
        let top = t.fields[i].0;
        let c = &t.fields[i].1;
        let ghost cf = tv[i as int].1.fields;
        let ghost start = out.deep_view();
        let mut j: usize = 0;
        while j < c.fields.len()
            invariant
                j <= c.fields@.len(),
                tv == t@,
                i < tv.len(),
                top == tv[i as int].0,
                *c == t.fields@[i as int].1,
                cf == c@.fields,
                out.deep_view() == start + class_reports(top, cf, j as int),
            decreases c.fields@.len() - j,
        {
            let ghost before = out.deep_view();
            let f = &c.fields[j];
            proof {
                assert(cf[j as int] == (f.hash, f.value@));
            }
            match slot_array(f.hash) {
                Some(k) => match &f.value {
                    FieldValue::Array(a) => {
                        let per_slot = if f.hash == UI_VALUE_FIELD {
                            Some(element_sizes(&a.values))
                        } else {
                            None
                        };
                        proof {
                            assert(f.value@->Array_1 =~= a.values@.map_values(|e: FieldValue| e@));
                        }
                        let rep = SlotArrayReport { top, array: k, len: a.values.len(), per_slot };
                        out.push(rep);
                        proof {
                            assert(out.deep_view() =~= before.push(rep.deep_view()));
                        }
                    },
                    _ => {},
                },
                None => {},
            }
            proof {
                assert(out.deep_view() =~= start + class_reports(top, cf, j + 1));
            }
            j += 1;
        }
        i += 1;
    }
    out
}

/// The kind of a field value, as the field dump names it.
#[derive(Clone, Copy, Debug, PartialEq, Eq)]
pub enum ValueKind {
    Array,
    Class,
    Struct,
    Str,
    Bool,
    Scalar,
}

pub open spec fn kind_of(v: Value) -> ValueKind {
    match v {
        Value::Array(_, _) => ValueKind::Array,
        Value::Class(_) => ValueKind::Class,
        Value::Struct(_) => ValueKind::Struct,
        Value::Str(_) => ValueKind::Str,
        Value::Boolean(_) => ValueKind::Bool,
        _ => ValueKind::Scalar,
    }
}

/// A field in the dump: its hash, its kind, and its length where it is an
/// array.
#[derive(Clone, Copy, Debug, PartialEq, Eq)]
pub struct FieldSummary {
    pub hash: u32,
    pub kind: ValueKind,
    pub len: Option<usize>,
}

/// A top-level entry in the dump: its key and its class's fields.
pub struct ClassSummary {
    pub top: u32,
    pub fields: Vec<FieldSummary>,
}

impl DeepView for ClassSummary {
    type V = (u32, Seq<FieldSummary>);

    open spec fn deep_view(&self) -> (u32, Seq<FieldSummary>) {
        (self.top, self.fields@)
    }
}

/// The summary of a field.
pub open spec fn field_summary(f: (u32, Value)) -> (u32, ValueKind, Option<nat>) {
    (
        f.0,
        kind_of(f.1),
        match f.1 {
            Value::Array(_, s) => Some(s.len()),
            _ => None,
        },
    )
}

pub open spec fn summary_view(s: FieldSummary) -> (u32, ValueKind, Option<nat>) {
    (s.hash, s.kind, opt_nat(s.len))
}

fn summarize(c: &Class) -> (r: Vec<FieldSummary>)
    ensures
        r@.len() == c@.fields.len(),
        forall|j: int| 0 <= j < r@.len() ==> summary_view(#[trigger] r@[j]) == field_summary(c@.fields[j]),
{
    let ghost cf = c@.fields;
    let mut out: Vec<FieldSummary> = Vec::new();
    let mut j: usize = 0;
    while j < c.fields.len()
        invariant
            j <= c.fields@.len(),
            cf == c@.fields,
            out@.len() == j,
            forall|k: int| 0 <= k < j ==> summary_view(#[trigger] out@[k]) == field_summary(cf[k]),
        decreases c.fields@.len() - j,
    {
        let f = &c.fields[j];
        proof {
            assert(cf[j as int] == (f.hash, f.value@));
        }
        let (kind, len) = match &f.value {
            FieldValue::Array(a) => (ValueKind::Array, Some(a.values.len())),
            FieldValue::Class(_) => (ValueKind::Class, None),
            FieldValue::Struct(_) => (ValueKind::Struct, None),
            FieldValue::String(_) => (ValueKind::Str, None),
            FieldValue::Boolean(_) => (ValueKind::Bool, None),
            _ => (ValueKind::Scalar, None),
        };
        out.push(FieldSummary { hash: f.hash, kind, len });
        j += 1;
    }
    out
}

/// Every top-level entry with the hash and kind of each of its class's
/// fields, and the length of each array field.
pub fn field_dump(t: &SaveTree) -> (r: Vec<ClassSummary>)
    ensures
        r@.len() == t@.len(),
        forall|i: int| 0 <= i < t@.len() ==> {
            &&& (#[trigger] r@[i]).top == t@[i].0
            &&& r@[i].fields@.len() == t@[i].1.fields.len()
            &&& forall|j: int| 0 <= j < r@[i].fields@.len() ==> summary_view(#[trigger] r@[i].fields@[j]) == field_summary(t@[i].1.fields[j])
        },
{
    let ghost tv = t@;
    let mut out: Vec<ClassSummary> = Vec::new();
    let mut i: usize = 0;
    while i < t.fields.len()
        invariant
            i <= t.fields@.len(),
            tv == t@,
            out@.len() == i,
            forall|k: int| 0 <= k < i ==> {
                &&& (#[trigger] out@[k]).top == tv[k].0
                &&& out@[k].fields@.len() == tv[k].1.fields.len()
                &&& forall|j: int| 0 <= j < out@[k].fields@.len() ==> summary_view(#[trigger] out@[k].fields@[j]) == field_summary(tv[k].1.fields[j])
            },
        decreases t.fields@.len() - i,
    {
        let fields = summarize(&t.fields[i].1);
        out.push(ClassSummary { top: t.fields[i].0, fields });
        i += 1;
    }
    out
}

} // verus!

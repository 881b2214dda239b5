//! Carrying the per-slot title-screen records (appearance, slot-used flag,
//! slot name, save time) from one system file into another.

use vstd::prelude::*;
use crate::model::{SaveTree, Class, ClassV, Field, FieldValue, Value, value_view, class_view, lemma_class_set_value,
    lemma_array_set};
use crate::edit::{ValueEdit, class_mapped, class_any, edit_class, lemma_class_hit_any, class_edited, class_hit};
use crate::schema::{UI_VALUE_FIELD, SLOT_USED_FIELD, SLOT_NAME_FIELD, SLOT_TIME_FIELD};

verus! {

/// The per-slot record arrays of the title screen.
pub open spec fn is_slot_record_field(h: u32) -> bool {
    h == UI_VALUE_FIELD || h == SLOT_USED_FIELD || h == SLOT_NAME_FIELD || h == SLOT_TIME_FIELD
}

/// The slot-record arrays among `fields`, in order, with their hashes.
pub open spec fn field_sources(fields: Seq<(u32, Value)>) -> Seq<(u32, Seq<Value>)>
    decreases fields.len(),
{
    if fields.len() == 0 {
        Seq::empty()
    } else {
        field_sources(fields.drop_last()) + if is_slot_record_field(fields.last().0) && fields.last().1 is Array {
            seq![(fields.last().0, fields.last().1->Array_1)]
        } else {
            Seq::empty()
        }
    }
}

/// The slot-record arrays of every top-level class of a save, in save order.
pub open spec fn tree_sources(t: Seq<(u32, ClassV)>) -> Seq<(u32, Seq<Value>)>
    decreases t.len(),
{
    if t.len() == 0 {
        Seq::empty()
    } else {
        tree_sources(t.drop_last()) + field_sources(t.last().1.fields)
    }
}

/// `slots` holds the index `k`.
pub open spec fn lists_slot(slots: Seq<u32>, k: int) -> bool {
    exists|m: int| 0 <= m < slots.len() && #[trigger] slots[m] as int == k
}

/// A target array with the elements at the listed slots taken from `a`, where
/// `a` has them.
pub open spec fn copy_slots(ta: Seq<Value>, a: Seq<Value>, slots: Seq<u32>) -> Seq<Value> {
    Seq::new(ta.len(), |k: int| if lists_slot(slots, k) && k < a.len() { a[k] } else { ta[k] })
}

pub open spec fn slots_copied(v: Value, a: Seq<Value>, slots: Seq<u32>) -> Value {
    match v {
        Value::Array(mt, ta) => Value::Array(mt, copy_slots(ta, a, slots)),
        _ => v,
    }
}

/// The number of array fields stored under `h`.
pub open spec fn array_fields(fields: Seq<(u32, Value)>, h: u32) -> nat
    decreases fields.len(),
{
    if fields.len() == 0 {
        0
    } else {
        array_fields(fields.drop_last(), h) + if fields.last().0 == h && fields.last().1 is Array { 1nat } else { 0nat }
    }
}

/// `c` has an array field stored under `h`.
pub open spec fn has_array_field(c: ClassV, h: u32) -> bool {
    class_any(c, h, |v: Value| v is Array)
}

/// `i` is the first top-level class with an array field stored under `h`.
pub open spec fn is_first_target(t: Seq<(u32, ClassV)>, h: u32, i: int) -> bool {
    &&& 0 <= i < t.len()
    &&& has_array_field(t[i].1, h)
    &&& forall|j: int| 0 <= j < i ==> !#[trigger] has_array_field(t[j].1, h)
}

pub open spec fn first_target(t: Seq<(u32, ClassV)>, h: u32) -> int {
    if exists|i: int| is_first_target(t, h, i) {
        choose|i: int| is_first_target(t, h, i)
    } else {
        -1
    }
}

/// Copying the listed slots of one source array stored under `h` into the
/// first target class that has array fields under `h` (all of them), with the
/// number of target arrays written.
pub open spec fn merge_into(t: Seq<(u32, ClassV)>, h: u32, a: Seq<Value>, slots: Seq<u32>) -> (Seq<(u32, ClassV)>, nat) {
    let i = first_target(t, h);
    if i >= 0 {
        (
            t.update(i, (t[i].0, class_mapped(t[i].1, h, |v: Value| slots_copied(v, a, slots)))),
            array_fields(t[i].1.fields, h),
        )
    } else {
        (t, 0)
    }
}

/// Merging every source array in order, with the total number of target
/// arrays written.
pub open spec fn merge_all(t: Seq<(u32, ClassV)>, srcs: Seq<(u32, Seq<Value>)>, slots: Seq<u32>) -> (Seq<(u32, ClassV)>, nat)
    decreases srcs.len(),
{
    if srcs.len() == 0 {
        (t, 0)
    } else {
        let (t1, n1) = merge_all(t, srcs.drop_last(), slots);
        let (t2, n2) = merge_into(t1, srcs.last().0, srcs.last().1, slots);
        (t2, n1 + n2)
    }
}

proof fn lemma_first_target(t: Seq<(u32, ClassV)>, h: u32, i: int)
    requires
        is_first_target(t, h, i),
    ensures
        first_target(t, h) == i,
{
    let c = choose|i: int| is_first_target(t, h, i);
    assert(is_first_target(t, h, c));
    if c < i {
        assert(!has_array_field(t[c].1, h));
    } else if i < c {
        assert(!has_array_field(t[i].1, h));
    }
}

/// The values of a vector of field values.
pub open spec fn values_view(v: Seq<FieldValue>) -> Seq<Value> {
    Seq::new(v.len(), |k: int| value_view(v[k]))
}

/// Copies the listed slots of a source array into an array value.
pub struct CopySlots<'a> {
    pub src: &'a Vec<FieldValue>,
    pub slots: &'a [u32],
}

impl<'a> ValueEdit for CopySlots<'a> {
    open spec fn edited(&self, v: Value) -> Value {
        slots_copied(v, values_view(self.src@), self.slots@)
    }

    open spec fn hit(&self, v: Value) -> bool {
        v is Array
    }

    fn apply(&self, v: &mut FieldValue) -> (hit: bool) {
        match v {
            FieldValue::Array(ta) => {
                let ghost a = values_view(self.src@);
                let ghost t0 = old(v)@->Array_1;
                let ghost mt = ta.member_type;
                let mut m: usize = 0;
                while m < self.slots.len()
                    invariant
                        m <= self.slots@.len(),
                        a == values_view(self.src@),
                        ta.member_type == mt,
                        ta.values@.len() == t0.len(),
                        forall|k: int| 0 <= k < t0.len() ==> #[trigger] value_view(ta.values@[k]) == if (exists|n: int|
                            0 <= n < m && #[trigger] self.slots@[n] as int == k) && k < a.len() {
                            a[k]
                        } else {
                            t0[k]
                        },
                    decreases self.slots@.len() - m,
                {
                    let idx = self.slots[m] as usize;
                    if idx < self.src.len() && idx < ta.values.len() {
                        let x = self.src[idx].duplicate();
                        ta.values.set(idx, x);
                    }
                    proof {
                        assert forall|k: int| 0 <= k < t0.len() implies #[trigger] value_view(ta.values@[k]) == if (exists|n: int|
                            0 <= n < m + 1 && #[trigger] self.slots@[n] as int == k) && k < a.len() {
                            a[k]
                        } else {
                            t0[k]
                        } by {
                            if k == idx as int {
                                if k < a.len() {
                                    assert(self.slots@[m as int] as int == k);
                                }
                            } else {
                                if exists|n: int| 0 <= n < m + 1 && #[trigger] self.slots@[n] as int == k {
                                    let n = choose|n: int| 0 <= n < m + 1 && #[trigger] self.slots@[n] as int == k;
                                    assert(n != m);
                                }
                            }
                        }
                    }
                    m += 1;
                }
                proof {
                    let fin = value_view(FieldValue::Array(*ta))->Array_1;
                    assert forall|k: int| 0 <= k < t0.len() implies #[trigger] fin[k] == copy_slots(t0, a, self.slots@)[k] by {
                        assert(fin[k] == value_view(ta.values@[k]));
                        if lists_slot(self.slots@, k) {
                            let n = choose|n: int| 0 <= n < self.slots@.len() && #[trigger] self.slots@[n] as int == k;
                            assert(0 <= n < m && self.slots@[n] as int == k);
                        }
                    }
                    assert(fin =~= copy_slots(t0, a, self.slots@));
                }
                true
            },
            _ => false,
        }
    }
}

fn class_has_array_field(c: &Class, h: u32) -> (r: bool)
    ensures
        r == has_array_field(c@, h),
{
    let mut j: usize = 0;
    while j < c.fields.len()
        invariant
            j <= c.fields@.len(),
            forall|k: int| 0 <= k < j && c@.fields[k].0 == h ==> !(c@.fields[k].1 is Array),
        decreases c.fields@.len() - j,
    {
        proof {
            assert(c@.fields[j as int] == (c.fields@[j as int].hash, value_view(c.fields@[j as int].value)));
        }
        if c.fields[j].hash == h {
            match &c.fields[j].value {
                FieldValue::Array(_) => {
                    assert((|v: Value| v is Array)(c@.fields[j as int].1));
                    return true;
                },
                _ => {},
            }
        }
        j += 1;
    }
    false
}

fn count_array_fields(c: &Class, h: u32) -> (n: usize)
    ensures
        n == array_fields(c@.fields, h),
{
    let mut n: usize = 0;
    let mut j: usize = 0;
    while j < c.fields.len()
        invariant
            j <= c.fields@.len(),
            n <= j,
            n == array_fields(c@.fields.take(j as int), h),
        decreases c.fields@.len() - j,
    {
        proof {
            assert(c@.fields.take(j + 1).drop_last() =~= c@.fields.take(j as int));
            assert(c@.fields[j as int] == (c.fields@[j as int].hash, value_view(c.fields@[j as int].value)));
        }
        if c.fields[j].hash == h {
            match &c.fields[j].value {
                FieldValue::Array(_) => {
                    n += 1;
                },
                _ => {},
            }
        }
        j += 1;
    }
    assert(c@.fields.take(c@.fields.len() as int) =~= c@.fields);
    n
}

fn merge_one(t: &mut SaveTree, h: u32, src: &Vec<FieldValue>, slots: &[u32]) -> (n: usize)
    ensures
        (final(t)@, n as nat) == merge_into(old(t)@, h, values_view(src@), slots@),
{
    let ghost t0 = old(t)@;
    let mut i: usize = 0;
    while i < t.fields.len()
        invariant
            i <= t.fields@.len(),
            t0 == old(t)@,
            t@ == t0,
            forall|j: int| 0 <= j < i ==> !#[trigger] has_array_field(t0[j].1, h),
        decreases t.fields@.len() - i,
    {
        proof {
            assert(t0[i as int].1 == class_view(t.fields@[i as int].1));
        }
        if class_has_array_field(&t.fields[i].1, h) {
            proof {
                lemma_first_target(t0, h, i as int);
            }
            let n = count_array_fields(&t.fields[i].1, h);
            let e = CopySlots { src, slots };
            let ghost before = *t;
            edit_class(&e, &mut t.fields[i].1, h);
            proof {
                crate::model::lemma_tree_set_class(before, *t, i as int, t.fields@[i as int].1);
                assert((|v: Value| e.edited(v)) =~= (|v: Value| slots_copied(v, values_view(src@), slots@)));
                assert(first_target(t0, h) == i as int);
                assert(t@ == t0.update(i as int, (t0[i as int].0, class_edited(e, t0[i as int].1, h))));
                assert(class_edited(e, t0[i as int].1, h) == class_mapped(t0[i as int].1, h, |v: Value| slots_copied(v, values_view(src@), slots@)));
                assert(merge_into(t0, h, values_view(src@), slots@).0 == t@);
                assert(merge_into(t0, h, values_view(src@), slots@).1 == n as nat);
            }
            return n;
        }
        i += 1;
    }
    proof {
        if exists|k: int| is_first_target(t0, h, k) {
            let k = choose|k: int| is_first_target(t0, h, k);
            assert(!has_array_field(t0[k].1, h));
        }
    }
    0
}

/// The largest count a `usize` holds, for counts beyond it.
pub open spec fn capped(n: nat) -> usize {
    if n <= usize::MAX { n as usize } else { usize::MAX }
}

/// Copy the title-screen records of the slots listed in `slots` from the
/// source system file `s` into the target system file `t`. Every slot-record
/// array of the source (in save order) is copied, at the listed slots it has,
/// into every array of the same hash in the first target class that has one.
/// Returns how many target arrays were written (capped at `usize::MAX`).
pub fn migrate_sys(s: &SaveTree, t: &mut SaveTree, slots: &[u32]) -> (copied: usize)
    ensures
        final(t)@ == merge_all(old(t)@, tree_sources(s@), slots@).0,
        copied == capped(merge_all(old(t)@, tree_sources(s@), slots@).1),
{
    let ghost t0 = old(t)@;
    let ghost mut done: Seq<(u32, Seq<Value>)> = Seq::empty();
    let mut copied: usize = 0;
    let mut i: usize = 0;
    while i < s.fields.len()
        invariant
            i <= s.fields@.len(),
            done == tree_sources(s@.take(i as int)),
            t@ == merge_all(t0, done, slots@).0,
            copied == capped(merge_all(t0, done, slots@).1),
        decreases s.fields@.len() - i,
    {
        let c = &s.fields[i].1;
        let ghost base = done;
        proof {
            assert(s@[i as int].1 == class_view(*c));
        }
        let mut j: usize = 0;
        while j < c.fields.len()
            invariant
                j <= c.fields@.len(),
                *c == s.fields@[i as int].1,
                done == base + field_sources(c@.fields.take(j as int)),
                t@ == merge_all(t0, done, slots@).0,
                copied == capped(merge_all(t0, done, slots@).1),
            decreases c.fields@.len() - j,
        {
            let h = c.fields[j].hash;
            proof {
                assert(c@.fields.take(j + 1).drop_last() =~= c@.fields.take(j as int));
                assert(c@.fields[j as int] == (h, value_view(c.fields@[j as int].value)));
            }
            if h == UI_VALUE_FIELD || h == SLOT_USED_FIELD || h == SLOT_NAME_FIELD || h == SLOT_TIME_FIELD {
                match &c.fields[j].value {
                    FieldValue::Array(a) => {
                        let n = merge_one(t, h, &a.values, slots);
                        proof {
                            let src = (h, values_view(a.values@));
                            assert(values_view(a.values@) =~= c@.fields[j as int].1->Array_1);
                            let nd = done.push(src);
                            assert(nd.drop_last() =~= done);
                            assert(base + field_sources(c@.fields.take(j + 1)) =~= nd);
                            done = nd;
                        }
                        copied = copied.saturating_add(n);
                    },
                    _ => {
                        proof {
                            assert(base + field_sources(c@.fields.take(j + 1)) =~= done);
                        }
                    },
                }
            } else {
                proof {
                    assert(base + field_sources(c@.fields.take(j + 1)) =~= done);
                }
            }
            j += 1;
        }
        proof {
            assert(c@.fields.take(c@.fields.len() as int) =~= c@.fields);
            assert(s@.take(i + 1).drop_last() =~= s@.take(i as int));
            assert(s@.take(i + 1).last() == s@[i as int]);
        }
        i += 1;
    }
    assert(s@.take(s@.len() as int) =~= s@);
    copied
}

} // verus!

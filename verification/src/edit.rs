//! Edits that address values by class hash, field hash and array index, and
//! the save-tree walks that apply them.

use vstd::prelude::*;
use crate::model::{SaveTree, Class, ClassV, Field, FieldValue, Value, value_view, class_view, tree_view,
    lemma_tree_set_class, lemma_class_set_value, lemma_array_set};

verus! {

/// An in-place edit of one field value.
pub trait ValueEdit {
    /// The value after the edit.
    spec fn edited(&self, v: Value) -> Value;

    /// Whether the edit found what it edits in `v`.
    spec fn hit(&self, v: Value) -> bool;

    fn apply(&self, v: &mut FieldValue) -> (hit: bool)
        ensures
            final(v)@ == self.edited(old(v)@),
            hit == self.hit(old(v)@),
    ;
}

/// A class with `f` applied to the value of every field stored under `fh`.
pub open spec fn class_mapped(c: ClassV, fh: u32, f: spec_fn(Value) -> Value) -> ClassV {
    ClassV {
        hash: c.hash,
        fields: Seq::new(
            c.fields.len(),
            |j: int|
                if c.fields[j].0 == fh {
                    (fh, f(c.fields[j].1))
                } else {
                    c.fields[j]
                },
        ),
    }
}

/// Some field of `c` stored under `fh` satisfies `p`.
pub open spec fn class_any(c: ClassV, fh: u32, p: spec_fn(Value) -> bool) -> bool {
    exists|j: int| 0 <= j < c.fields.len() && c.fields[j].0 == fh && #[trigger] p(c.fields[j].1)
}

/// A save with `f` applied to the fields stored under `fh` of every top-level
/// class whose type hash is `ch`.
pub open spec fn tree_mapped(t: Seq<(u32, ClassV)>, ch: u32, fh: u32, f: spec_fn(Value) -> Value) -> Seq<(u32, ClassV)> {
    Seq::new(
        t.len(),
        |i: int|
            if t[i].1.hash == ch {
                (t[i].0, class_mapped(t[i].1, fh, f))
            } else {
                t[i]
            },
    )
}

/// Some field stored under `fh` of a top-level class of type `ch` satisfies `p`.
pub open spec fn tree_any(t: Seq<(u32, ClassV)>, ch: u32, fh: u32, p: spec_fn(Value) -> bool) -> bool {
    exists|i: int| 0 <= i < t.len() && t[i].1.hash == ch && #[trigger] class_any(t[i].1, fh, p)
}

/// `e` applied to every field of `c` stored under `fh`.
pub open spec fn class_edited<E: ValueEdit>(e: E, c: ClassV, fh: u32) -> ClassV {
    class_mapped(c, fh, |v: Value| e.edited(v))
}

/// Some field of `c` stored under `fh` was hit by `e`.
pub open spec fn class_hit<E: ValueEdit>(e: E, c: ClassV, fh: u32) -> bool {
    exists|j: int| 0 <= j < c.fields.len() && c.fields[j].0 == fh && #[trigger] e.hit(c.fields[j].1)
}

/// `e` applied to the fields stored under `fh` of every top-level class of
/// type `ch`.
pub open spec fn tree_edited<E: ValueEdit>(e: E, t: Seq<(u32, ClassV)>, ch: u32, fh: u32) -> Seq<(u32, ClassV)> {
    tree_mapped(t, ch, fh, |v: Value| e.edited(v))
}

/// Some field addressed by (`ch`, `fh`) was hit by `e`.
pub open spec fn tree_hit<E: ValueEdit>(e: E, t: Seq<(u32, ClassV)>, ch: u32, fh: u32) -> bool {
    exists|i: int| 0 <= i < t.len() && t[i].1.hash == ch && #[trigger] class_hit(e, t[i].1, fh)
}

/// An edit hits a class exactly where its hit predicate holds.
pub proof fn lemma_class_hit_any<E: ValueEdit>(e: E, c: ClassV, fh: u32)
    ensures
        class_hit(e, c, fh) == class_any(c, fh, |v: Value| e.hit(v)),
{
    let p = |v: Value| e.hit(v);
    if class_hit(e, c, fh) {
        let j = choose|j: int| 0 <= j < c.fields.len() && c.fields[j].0 == fh && #[trigger] e.hit(c.fields[j].1);
        assert(p(c.fields[j].1));
    }
    if class_any(c, fh, p) {
        let j = choose|j: int| 0 <= j < c.fields.len() && c.fields[j].0 == fh && #[trigger] p(c.fields[j].1);
        assert(e.hit(c.fields[j].1));
    }
}

/// An edit hits a save exactly where its hit predicate holds.
pub proof fn lemma_tree_hit_any<E: ValueEdit>(e: E, t: Seq<(u32, ClassV)>, ch: u32, fh: u32)
    ensures
        tree_hit(e, t, ch, fh) == tree_any(t, ch, fh, |v: Value| e.hit(v)),
{
    let p = |v: Value| e.hit(v);
    assert forall|i: int| 0 <= i < t.len() implies #[trigger] class_hit(e, t[i].1, fh) == class_any(t[i].1, fh, p) by {
        lemma_class_hit_any(e, t[i].1, fh);
    }
    if tree_hit(e, t, ch, fh) {
        let i = choose|i: int| 0 <= i < t.len() && t[i].1.hash == ch && #[trigger] class_hit(e, t[i].1, fh);
        assert(class_any(t[i].1, fh, p));
    }
    if tree_any(t, ch, fh, p) {
        let i = choose|i: int| 0 <= i < t.len() && t[i].1.hash == ch && #[trigger] class_any(t[i].1, fh, p);
        assert(class_hit(e, t[i].1, fh));
    }
}

/// Element `idx` of an array set to `nv` (no change when there is no such
/// element).
pub open spec fn set_elem(v: Value, idx: int, nv: Value) -> Value {
    at_index(v, idx, |x: Value| nv)
}

/// `v` is an array with an element `idx`.
pub open spec fn has_elem(v: Value, idx: int) -> bool {
    v is Array && 0 <= idx < v->Array_1.len()
}

/// A string with its contents replaced by `units` (no change to other values).
pub open spec fn set_string(v: Value, units: Seq<u16>) -> Value {
    if v is Str {
        Value::Str(units)
    } else {
        v
    }
}

/// Element `idx` of an array transformed by `f` (no change when there is no
/// such element).
pub open spec fn at_index(v: Value, idx: int, f: spec_fn(Value) -> Value) -> Value {
    match v {
        Value::Array(mt, s) => if 0 <= idx < s.len() {
            Value::Array(mt, s.update(idx, f(s[idx])))
        } else {
            v
        },
        _ => v,
    }
}

/// Element `idx` of an array exists and satisfies `p`.
pub open spec fn at_index_hit(v: Value, idx: int, p: spec_fn(Value) -> bool) -> bool {
    has_elem(v, idx) && p(v->Array_1[idx])
}

/// A class value with `f` applied to its fields stored under `field` (no
/// change to other values).
pub open spec fn in_class(v: Value, field: u32, f: spec_fn(Value) -> Value) -> Value {
    match v {
        Value::Class(c) => Value::Class(class_mapped(c, field, f)),
        _ => v,
    }
}

/// A class value some field of which stored under `field` satisfies `p`.
pub open spec fn in_class_hit(v: Value, field: u32, p: spec_fn(Value) -> bool) -> bool {
    v is Class && class_any(v->Class_0, field, p)
}

/// Apply `e` to every field of `c` stored under `fh`.
pub fn edit_class<E: ValueEdit>(e: &E, c: &mut Class, fh: u32) -> (hit: bool)
    ensures
        final(c)@ == class_edited(*e, old(c)@, fh),
        hit == class_hit(*e, old(c)@, fh),
{
    let ghost c0 = old(c)@;
    let mut hit = false;
    let mut j: usize = 0;
    while j < c.fields.len()
        invariant
            j <= c.fields@.len(),
            c0 == old(c)@,
            c@.hash == c0.hash,
            c@.fields.len() == c0.fields.len(),
            forall|k: int| 0 <= k < j ==> #[trigger] c@.fields[k] == class_edited(*e, c0, fh).fields[k],
            forall|k: int| j <= k < c0.fields.len() ==> #[trigger] c@.fields[k] == c0.fields[k],
            hit == exists|k: int| 0 <= k < j && c0.fields[k].0 == fh && #[trigger] e.hit(c0.fields[k].1),
        decreases c0.fields.len() - j,
    {
        let ghost cj = c0.fields[j as int];
        proof {
            assert(c@.fields[j as int] == cj);
            assert(cj.0 == c.fields@[j as int].hash);
        }
        let ghost hit_before = hit;
        if c.fields[j].hash == fh {
            let ghost before = *c;
            let ghost old_v = c.fields@[j as int].value;
            let h = e.apply(&mut c.fields[j].value);
            proof {
                lemma_class_set_value(before, *c, j as int, c.fields@[j as int].value);
                assert(class_view(before).fields[j as int] == (fh, value_view(old_v)));
                assert(value_view(old_v) == cj.1);
            }
            if h {
                hit = true;
            }
        }
        proof {
            if cj.0 == fh && e.hit(cj.1) {
                assert(hit);
                assert(0 <= j < j + 1 && c0.fields[j as int].0 == fh && e.hit(c0.fields[j as int].1));
            }
            if hit {
                if !hit_before {
                    assert(cj.0 == fh && e.hit(cj.1));
                }
            } else {
                assert forall|k: int| 0 <= k < j + 1 && c0.fields[k].0 == fh implies !#[trigger] e.hit(c0.fields[k].1) by {
                    if k == j {
                    } else {
                    }
                }
            }
        }
        j += 1;
    }
    assert(c@.fields =~= class_edited(*e, c0, fh).fields);
    hit
}

/// Apply `e` to the fields stored under `fh` of every top-level class whose
/// type hash is `ch`.
pub fn edit_tree<E: ValueEdit>(e: &E, t: &mut SaveTree, ch: u32, fh: u32) -> (hit: bool)
    ensures
        final(t)@ == tree_edited(*e, old(t)@, ch, fh),
        hit == tree_hit(*e, old(t)@, ch, fh),
{
    let ghost t0 = old(t)@;
    let mut hit = false;
    let mut i: usize = 0;
    while i < t.fields.len()
        invariant
            i <= t.fields@.len(),
            t0 == old(t)@,
            t@.len() == t0.len(),
            forall|k: int| 0 <= k < i ==> #[trigger] t@[k] == tree_edited(*e, t0, ch, fh)[k],
            forall|k: int| i <= k < t0.len() ==> #[trigger] t@[k] == t0[k],
            hit == exists|k: int| 0 <= k < i && t0[k].1.hash == ch && #[trigger] class_hit(*e, t0[k].1, fh),
        decreases t0.len() - i,
    {
        let ghost ti = t0[i as int];
        proof {
            assert(t@[i as int] == ti);
            assert(ti.1.hash == t.fields@[i as int].1.hash);
        }
        let ghost hit_before = hit;
        if t.fields[i].1.hash == ch {
            let ghost before = *t;
            let h = edit_class(e, &mut t.fields[i].1, fh);
            proof {
                lemma_tree_set_class(before, *t, i as int, t.fields@[i as int].1);
            }
            if h {
                hit = true;
            }
        }
        proof {
            assert(t@[i as int] == tree_edited(*e, t0, ch, fh)[i as int]);
            if ti.1.hash == ch && class_hit(*e, ti.1, fh) {
                assert(hit);
                assert(0 <= i < i + 1 && t0[i as int].1.hash == ch && class_hit(*e, t0[i as int].1, fh));
            }
            if hit {
                if !hit_before {
                    assert(ti.1.hash == ch && class_hit(*e, ti.1, fh));
                }
            } else {
                assert forall|k: int| 0 <= k < i + 1 && t0[k].1.hash == ch implies !#[trigger] class_hit(*e, t0[k].1, fh) by {
                }
            }
        }
        i += 1;
    }
    assert(t@ =~= tree_edited(*e, t0, ch, fh));
    hit
}

/// Set one element of an array to a value.
pub struct SetElem {
    pub idx: usize,
    pub value: FieldValue,
}

impl ValueEdit for SetElem {
    open spec fn edited(&self, v: Value) -> Value {
        set_elem(v, self.idx as int, self.value@)
    }

    open spec fn hit(&self, v: Value) -> bool {
        has_elem(v, self.idx as int)
    }

    fn apply(&self, v: &mut FieldValue) -> (hit: bool) {
        match v {
            FieldValue::Array(a) => {
                if self.idx < a.values.len() {
                    let ghost mt = a.member_type;
                    let ghost before = a.values;
                    let nv = self.value.duplicate();
                    a.values[self.idx] = nv;
                    proof {
                        lemma_array_set(mt, before, a.values, self.idx as int, nv);
                    }
                    true
                } else {
                    false
                }
            },
            _ => false,
        }
    }
}

/// Replace the contents of a string value.
pub struct SetString {
    pub units: Vec<u16>,
}

impl ValueEdit for SetString {
    open spec fn edited(&self, v: Value) -> Value {
        set_string(v, self.units@)
    }

    open spec fn hit(&self, v: Value) -> bool {
        v is Str
    }

    fn apply(&self, v: &mut FieldValue) -> (hit: bool) {
        match v {
            FieldValue::String(s) => {
                *s = crate::model::copy_seq(&self.units);
                true
            },
            _ => false,
        }
    }
}

/// Apply an edit to one element of an array.
pub struct AtIndex<E> {
    pub idx: usize,
    pub inner: E,
}

impl<E: ValueEdit> ValueEdit for AtIndex<E> {
    open spec fn edited(&self, v: Value) -> Value {
        at_index(v, self.idx as int, |x: Value| self.inner.edited(x))
    }

    open spec fn hit(&self, v: Value) -> bool {
        at_index_hit(v, self.idx as int, |x: Value| self.inner.hit(x))
    }

    fn apply(&self, v: &mut FieldValue) -> (hit: bool) {
        match v {
            FieldValue::Array(a) => {
                if self.idx < a.values.len() {
                    let ghost mt = a.member_type;
                    let ghost before = a.values;
                    let h = self.inner.apply(&mut a.values[self.idx]);
                    proof {
                        lemma_array_set(mt, before, a.values, self.idx as int, a.values@[self.idx as int]);
                    }
                    h
                } else {
                    false
                }
            },
            _ => false,
        }
    }
}

/// Apply an edit to the fields stored under `field` of a class value.
pub struct InClass<E> {
    pub field: u32,
    pub inner: E,
}

impl<E: ValueEdit> ValueEdit for InClass<E> {
    open spec fn edited(&self, v: Value) -> Value {
        in_class(v, self.field, |x: Value| self.inner.edited(x))
    }

    open spec fn hit(&self, v: Value) -> bool {
        in_class_hit(v, self.field, |x: Value| self.inner.hit(x))
    }

    fn apply(&self, v: &mut FieldValue) -> (hit: bool) {
        match v {
            FieldValue::Class(b) => {
                let ghost before = **b;
                proof {
                    crate::model::lemma_class_value_view(before);
                }
                let h = edit_class(&self.inner, b, self.field);
                proof {
                    crate::model::lemma_class_value_view(**b);
                    lemma_class_hit_any(self.inner, before@, self.field);
                }
                h
            },
            _ => false,
        }
    }
}

} // verus!

verus! {

/// An edit addressed to one class type leaves every other top-level class as
/// it was, and never changes a class's type hash or its key.
pub proof fn lemma_tree_edited_frame<E: ValueEdit>(e: E, t: Seq<(u32, ClassV)>, ch: u32, fh: u32)
    ensures
        tree_edited(e, t, ch, fh).len() == t.len(),
        forall|i: int| 0 <= i < t.len() ==> (#[trigger] tree_edited(e, t, ch, fh)[i]).0 == t[i].0
            && tree_edited(e, t, ch, fh)[i].1.hash == t[i].1.hash,
        forall|i: int| 0 <= i < t.len() && t[i].1.hash != ch ==> #[trigger] tree_edited(e, t, ch, fh)[i] == t[i],
{
}

/// Edits addressed to two different class types do not see each other.
pub proof fn lemma_tree_hit_other_class<E1: ValueEdit, E2: ValueEdit>(
    e1: E1,
    e2: E2,
    t: Seq<(u32, ClassV)>,
    ch1: u32,
    fh1: u32,
    ch2: u32,
    fh2: u32,
)
    requires
        ch1 != ch2,
    ensures
        tree_hit(e2, tree_edited(e1, t, ch1, fh1), ch2, fh2) == tree_hit(e2, t, ch2, fh2),
{
    let t1 = tree_edited(e1, t, ch1, fh1);
    lemma_tree_edited_frame(e1, t, ch1, fh1);
    if tree_hit(e2, t1, ch2, fh2) {
        let i = choose|i: int| 0 <= i < t1.len() && t1[i].1.hash == ch2 && #[trigger] class_hit(e2, t1[i].1, fh2);
        assert(t1[i] == t[i]);
    }
    if tree_hit(e2, t, ch2, fh2) {
        let i = choose|i: int| 0 <= i < t.len() && t[i].1.hash == ch2 && #[trigger] class_hit(e2, t[i].1, fh2);
        assert(t1[i] == t[i]);
    }
}

} // verus!

verus! {

/// A class with `f` applied to its first field stored under `h` (no change
/// when it has none).
pub open spec fn first_mapped(c: ClassV, h: u32, f: spec_fn(Value) -> Value) -> ClassV {
    let k = crate::model::first_key(c.fields, h);
    if k >= 0 {
        ClassV { hash: c.hash, fields: c.fields.update(k, (h, f(c.fields[k].1))) }
    } else {
        c
    }
}

/// The first field of `c` stored under `h` exists and satisfies `p`.
pub open spec fn first_hit(c: ClassV, h: u32, p: spec_fn(Value) -> bool) -> bool {
    let k = crate::model::first_key(c.fields, h);
    k >= 0 && p(c.fields[k].1)
}

/// Apply `e` to the first field of `c` stored under `h`.
pub fn edit_first_field<E: ValueEdit>(e: &E, c: &mut Class, h: u32) -> (hit: bool)
    ensures
        final(c)@ == first_mapped(old(c)@, h, |v: Value| e.edited(v)),
        hit == first_hit(old(c)@, h, |v: Value| e.hit(v)),
{
    let ghost c0 = old(c)@;
    let mut j: usize = 0;
    while j < c.fields.len()
        invariant
            j <= c.fields@.len(),
            c0 == old(c)@,
            c@ == c0,
            forall|k: int| 0 <= k < j ==> #[trigger] c0.fields[k].0 != h,
        decreases c.fields@.len() - j,
    {
        proof {
            assert(c0.fields[j as int] == (c.fields@[j as int].hash, value_view(c.fields@[j as int].value)));
        }
        if c.fields[j].hash == h {
            proof {
                crate::model::lemma_first_key(c0.fields, h, j as int);
            }
            let ghost before = *c;
            let hit = e.apply(&mut c.fields[j].value);
            proof {
                lemma_class_set_value(before, *c, j as int, c.fields@[j as int].value);
                assert(c@.fields =~= c0.fields.update(j as int, (h, e.edited(c0.fields[j as int].1))));
            }
            return hit;
        }
        j += 1;
    }
    proof {
        crate::model::lemma_no_key(c0.fields, h);
    }
    false
}

/// Replace a value wholesale.
pub struct Replace {
    pub value: FieldValue,
}

impl ValueEdit for Replace {
    open spec fn edited(&self, v: Value) -> Value {
        self.value@
    }

    open spec fn hit(&self, v: Value) -> bool {
        true
    }

    fn apply(&self, v: &mut FieldValue) -> (hit: bool) {
        *v = self.value.duplicate();
        true
    }
}

/// A struct value with every byte zeroed.
pub open spec fn zeroed_struct(v: Value) -> Value {
    match v {
        Value::Struct(b) => Value::Struct(Seq::new(b.len(), |i: int| 0u8)),
        _ => v,
    }
}

/// A string value with every code unit zeroed (its length is kept).
pub open spec fn zeroed_string(v: Value) -> Value {
    match v {
        Value::Str(u) => Value::Str(Seq::new(u.len(), |i: int| 0u16)),
        _ => v,
    }
}

/// An array value with every 8-bit unsigned element zeroed.
pub open spec fn zeroed_u8_elems(v: Value) -> Value {
    match v {
        Value::Array(mt, s) => Value::Array(mt, Seq::new(s.len(), |i: int| if s[i] is U8 { Value::U8(0) } else { s[i] })),
        _ => v,
    }
}

/// Zeroes the bytes of a struct, the units of a string, or the 8-bit unsigned
/// elements of an array, as selected.
pub struct Zero {
    pub what: ZeroWhat,
}

#[derive(Clone, Copy)]
pub enum ZeroWhat {
    StructBytes,
    StringUnits,
    U8Elements,
}

pub open spec fn zeroed(what: ZeroWhat, v: Value) -> Value {
    match what {
        ZeroWhat::StructBytes => zeroed_struct(v),
        ZeroWhat::StringUnits => zeroed_string(v),
        ZeroWhat::U8Elements => zeroed_u8_elems(v),
    }
}

impl ValueEdit for Zero {
    open spec fn edited(&self, v: Value) -> Value {
        zeroed(self.what, v)
    }

    open spec fn hit(&self, v: Value) -> bool {
        true
    }

    fn apply(&self, v: &mut FieldValue) -> (hit: bool) {
        match self.what {
            ZeroWhat::StructBytes => match v {
                FieldValue::Struct(b) => {
                    let n = b.len();
                    let mut i: usize = 0;
                    while i < n
                        invariant
                            n == b@.len(),
                            i <= n,
                            forall|k: int| 0 <= k < i ==> b@[k] == 0u8,
                        decreases n - i,
                    {
                        b.set(i, 0);
                        i += 1;
                    }
                    assert(b@ =~= Seq::new(n as nat, |i: int| 0u8));
                    assert(value_view(FieldValue::Struct(*b)) == zeroed(self.what, old(v)@));
                },
                _ => {},
            },
            ZeroWhat::StringUnits => match v {
                FieldValue::String(u) => {
                    let n = u.len();
                    let mut i: usize = 0;
                    while i < n
                        invariant
                            n == u@.len(),
                            i <= n,
                            forall|k: int| 0 <= k < i ==> u@[k] == 0u16,
                        decreases n - i,
                    {
                        u.set(i, 0);
                        i += 1;
                    }
                    assert(u@ =~= Seq::new(n as nat, |i: int| 0u16));
                    assert(value_view(FieldValue::String(*u)) == zeroed(self.what, old(v)@));
                },
                _ => {},
            },
            ZeroWhat::U8Elements => match v {
                FieldValue::Array(a) => {
                    let ghost s0 = value_view(FieldValue::Array(*a))->Array_1;
                    let ghost mt = a.member_type;
                    assert(old(v)@ == Value::Array(mt, s0));
                    let n = a.values.len();
                    let mut i: usize = 0;
                    while i < n
                        invariant
                            n == a.values@.len(),
                            i <= n,
                            s0.len() == n,
                            a.member_type == mt,
                            forall|k: int| 0 <= k < n ==> #[trigger] value_view(a.values@[k]) == if k < i && s0[k] is U8 {
                                Value::U8(0)
                            } else {
                                s0[k]
                            },
                        decreases n - i,
                    {
                        let is_u8 = match &a.values[i] {
                            FieldValue::U8(_) => true,
                            _ => false,
                        };
                        if is_u8 {
                            a.values.set(i, FieldValue::U8(0));
                        }
                        i += 1;
                    }
                    proof {
                        let fin = value_view(FieldValue::Array(*a))->Array_1;
                        let want = Seq::new(s0.len(), |i: int| if s0[i] is U8 { Value::U8(0) } else { s0[i] });
                        assert forall|k: int| 0 <= k < n implies fin[k] == want[k] by {
                            assert(fin[k] == value_view(a.values@[k]));
                        }
                        assert(fin =~= want);
                        assert(value_view(FieldValue::Array(*a)) == zeroed(self.what, old(v)@));
                    }
                },
                _ => {},
            },
        }
        true
    }
}

} // verus!

verus! {

/// A class value with `f` applied to its first field stored under `field`.
pub open spec fn in_class_first(v: Value, field: u32, f: spec_fn(Value) -> Value) -> Value {
    match v {
        Value::Class(c) => Value::Class(first_mapped(c, field, f)),
        _ => v,
    }
}

/// Apply an edit to the first field stored under `field` of a class value.
pub struct InClassFirst<E> {
    pub field: u32,
    pub inner: E,
}

impl<E: ValueEdit> ValueEdit for InClassFirst<E> {
    open spec fn edited(&self, v: Value) -> Value {
        in_class_first(v, self.field, |x: Value| self.inner.edited(x))
    }

    open spec fn hit(&self, v: Value) -> bool {
        v is Class && first_hit(v->Class_0, self.field, |x: Value| self.inner.hit(x))
    }

    fn apply(&self, v: &mut FieldValue) -> (hit: bool) {
        match v {
            FieldValue::Class(b) => {
                proof {
                    crate::model::lemma_class_value_view(**b);
                }
                let h = edit_first_field(&self.inner, b, self.field);
                proof {
                    crate::model::lemma_class_value_view(**b);
                }
                h
            },
            _ => false,
        }
    }
}

/// Set a 32-bit signed value, leaving values of other variants alone.
pub struct SetS32 {
    pub x: i32,
}

impl ValueEdit for SetS32 {
    open spec fn edited(&self, v: Value) -> Value {
        if v is S32 {
            Value::S32(self.x)
        } else {
            v
        }
    }

    open spec fn hit(&self, v: Value) -> bool {
        v is S32
    }

    fn apply(&self, v: &mut FieldValue) -> (hit: bool) {
        match v {
            FieldValue::S32(_) => {
                *v = FieldValue::S32(self.x);
                true
            },
            _ => false,
        }
    }
}

/// Set an enumeration value to a 4-byte enum, leaving values of other
/// variants alone.
pub struct SetEnum4 {
    pub x: i32,
}

impl ValueEdit for SetEnum4 {
    open spec fn edited(&self, v: Value) -> Value {
        if v is Enum {
            Value::Enum(crate::model::EnumValue::E4(self.x))
        } else {
            v
        }
    }

    open spec fn hit(&self, v: Value) -> bool {
        v is Enum
    }

    fn apply(&self, v: &mut FieldValue) -> (hit: bool) {
        match v {
            FieldValue::Enum(_) => {
                *v = FieldValue::Enum(crate::model::EnumValue::E4(self.x));
                true
            },
            _ => false,
        }
    }
}

} // verus!

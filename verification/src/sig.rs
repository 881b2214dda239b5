//! Content signatures of a decoded save: a 64-bit polynomial hash over class
//! hashes, field hashes and field values, independent of how the container
//! was encrypted.

use vstd::prelude::*;
use crate::model::{SaveTree, Class, ClassV, FieldValue, Value, value_view, class_view, lemma_class_value_view};
use crate::extract::{enum_i64, enum_as_i64};
use crate::ieee::{f32_as_u32, f64_as_u64, f64_as_i64, f32_to_u32, f64_to_u64, f64_to_i64};

verus! {

/// The starting value of a signature.
pub const SIG_BASIS: u64 = 0xcbf2_9ce4_8422_2325;

/// One step of the hash: `h * 31 + x`, wrapping.
pub open spec fn mix(h: u64, x: u64) -> u64 {
    h.wrapping_mul(31).wrapping_add(x)
}

/// The number of parts that follow a value's head: elements, fields, code
/// units or bytes.
pub open spec fn part_count(v: Value) -> int {
    match v {
        Value::Array(_, s) => s.len() as int,
        Value::Class(c) => c.fields.len() as int,
        Value::Str(s) => s.len() as int,
        Value::Struct(s) => s.len() as int,
        _ => 0,
    }
}

/// The step that a value's head adds: a tag for a container, the class
/// hash for a class, and the number itself for a scalar (a float as Rust's
/// `as` casts give it, an enum as its value widened to 64 bits).
pub open spec fn fold_head(h: u64, v: Value) -> u64 {
    match v {
        Value::Array(_, _) => mix(h, 0xa1),
        Value::Enum(e) => mix(h, enum_i64(e) as u64),
        Value::Boolean(b) => mix(
            h,
            if b {
                1
            } else {
                0
            },
        ),
        Value::S8(x) => mix(h, (x as i64) as u64),
        Value::U8(x) => mix(h, x as u64),
        Value::S16(x) => mix(h, (x as i64) as u64),
        Value::U16(x) => mix(h, x as u64),
        Value::S32(x) => mix(h, (x as i64) as u64),
        Value::U32(x) => mix(h, x as u64),
        Value::S64(x) => mix(h, x as u64),
        Value::U64(x) => mix(h, x),
        Value::F32(b) => mix(h, f32_as_u32(b) as u64),
        Value::F64(b) => mix(h, f64_as_u64(b).wrapping_add(f64_as_i64(b) as u64)),
        Value::C8(x) => mix(h, x as u64),
        Value::C16(x) => mix(h, x as u64),
        Value::Str(_) => mix(h, 0x5e),
        Value::Struct(_) => mix(h, 0x5f),
        Value::Class(c) => mix(h, c.hash as u64),
        Value::Unknown => mix(h, 0x99),
    }
}

/// `h` folded with a value: its head, then its parts.
pub open spec fn fold_value(h: u64, v: Value) -> u64
    decreases v, part_count(v) + 1,
{
    fold_parts(fold_head(h, v), v, part_count(v))
}

/// `h` folded with the first `i` parts of `v`: each element; each field's
/// hash, then its value; each code unit or byte.
pub open spec fn fold_parts(h: u64, v: Value, i: int) -> u64
    decreases v, i,
{
    if i <= 0 || i > part_count(v) {
        h
    } else {
        let acc = fold_parts(h, v, i - 1);
        match v {
            Value::Array(_, s) => fold_value(acc, s[i - 1]),
            Value::Class(c) => fold_value(mix(acc, c.fields[i - 1].0 as u64), c.fields[i - 1].1),
            Value::Str(s) => mix(acc, s[i - 1] as u64),
            Value::Struct(s) => mix(acc, s[i - 1] as u64),
            _ => acc,
        }
    }
}

/// `h` folded with the fields of a class (without its hash).
pub open spec fn fold_fields(h: u64, c: ClassV) -> u64 {
    fold_parts(h, Value::Class(c), c.fields.len() as int)
}

/// The signature of a class: its fields folded from the basis.
pub open spec fn class_sig(c: ClassV) -> u64 {
    fold_fields(SIG_BASIS, c)
}

/// The first `i` top-level entries folded from the basis: each entry's
/// hash, then its class's fields.
pub open spec fn tree_fold(t: Seq<(u32, ClassV)>, i: int) -> u64
    decreases i,
{
    if i <= 0 {
        SIG_BASIS
    } else {
        fold_fields(mix(tree_fold(t, i - 1), t[i - 1].0 as u64), t[i - 1].1)
    }
}

/// The signature of a whole save.
pub open spec fn content_sig_of(t: Seq<(u32, ClassV)>) -> u64 {
    tree_fold(t, t.len() as int)
}

/// `h` folded with the fields `c.fields[..]`.
fn fold_class_fields(h: u64, c: &Class) -> (r: u64)
    ensures
        r == fold_fields(h, c@),
    decreases c, 0int,
{
    let ghost cv = c@;
    let mut acc = h;
    let mut i: usize = 0;
    while i < c.fields.len()
        invariant
            i <= c.fields@.len(),
            cv == c@,
            acc == fold_parts(h, Value::Class(cv), i as int),
        decreases c.fields@.len() - i,
    {
        proof {
            assert(decreases_to!(c => c.fields));
            assert(decreases_to!(c.fields => c.fields@[i as int]));
            assert(decreases_to!(c.fields@[i as int] => c.fields@[i as int].value));
        }
        acc = mix_exec(acc, c.fields[i].hash as u64);
        acc = fold_fv(acc, &c.fields[i].value);
        i += 1;
    }
    acc
}

/// One step of the hash.
fn mix_exec(h: u64, x: u64) -> (r: u64)
    ensures
        r == mix(h, x),
{
    h.wrapping_mul(31).wrapping_add(x)
}

/// `h` folded with a value.
pub fn fold_fv(h: u64, v: &FieldValue) -> (r: u64)
    ensures
        r == fold_value(h, v@),
    decreases v, 1int,
{
    match v {
        FieldValue::Array(a) => {
            let ghost vv = v@;
            let mut acc = mix_exec(h, 0xa1);
            let mut i: usize = 0;
            while i < a.values.len()
                invariant
                    i <= a.values@.len(),
                    vv == v@,
                    *v == FieldValue::Array(*a),
                    acc == fold_parts(mix(h, 0xa1), vv, i as int),
                decreases a.values@.len() - i,
            {
                proof {
                    broadcast use vstd::std_specs::vec::axiom_vec_decreases_to_view;
                    assert(decreases_to!(*v => (*v)->Array_0));
                    assert(decreases_to!(*a => a.values));
                    assert(decreases_to!(a.values => a.values@));
                    assert(decreases_to!(a.values@ => a.values@[i as int]));
                }
                acc = fold_fv(acc, &a.values[i]);
                i += 1;
            }
            acc
        },
        FieldValue::Class(c) => {
            proof {
                lemma_class_value_view(**c);
                assert(decreases_to!(*v => (*v)->Class_0));
            }
            let acc = mix_exec(h, c.hash as u64);
            fold_class_fields(acc, c)
        },
        FieldValue::String(s) => {
            let ghost vv = v@;
            let mut acc = mix_exec(h, 0x5e);
            let mut i: usize = 0;
            while i < s.len()
                invariant
                    i <= s@.len(),
                    vv == v@,
                    vv == Value::Str(s@),
                    acc == fold_parts(mix(h, 0x5e), vv, i as int),
                decreases s@.len() - i,
            {
                acc = mix_exec(acc, s[i] as u64);
                i += 1;
            }
            acc
        },
        FieldValue::Struct(s) => {
            let ghost vv = v@;
            let mut acc = mix_exec(h, 0x5f);
            let mut i: usize = 0;
            while i < s.len()
                invariant
                    i <= s@.len(),
                    vv == v@,
                    vv == Value::Struct(s@),
                    acc == fold_parts(mix(h, 0x5f), vv, i as int),
                decreases s@.len() - i,
            {
                acc = mix_exec(acc, s[i] as u64);
                i += 1;
            }
            acc
        },
        FieldValue::Enum(e) => mix_exec(h, enum_as_i64(*e) as u64),
        FieldValue::Boolean(b) => mix_exec(
            h,
            if *b {
                1
            } else {
                0
            },
        ),
        FieldValue::S8(x) => mix_exec(h, (*x as i64) as u64),
        FieldValue::U8(x) => mix_exec(h, *x as u64),
        FieldValue::S16(x) => mix_exec(h, (*x as i64) as u64),
        FieldValue::U16(x) => mix_exec(h, *x as u64),
        FieldValue::S32(x) => mix_exec(h, (*x as i64) as u64),
        FieldValue::U32(x) => mix_exec(h, *x as u64),
        FieldValue::S64(x) => mix_exec(h, *x as u64),
        FieldValue::U64(x) => mix_exec(h, *x),
        FieldValue::F32(b) => mix_exec(h, f32_to_u32(*b) as u64),
        FieldValue::F64(b) => mix_exec(h, f64_to_u64(*b).wrapping_add(f64_to_i64(*b) as u64)),
        FieldValue::C8(x) => mix_exec(h, *x as u64),
        FieldValue::C16(x) => mix_exec(h, *x as u64),
        FieldValue::Unknown => mix_exec(h, 0x99),
    }
}

/// The content signature of a save: the basis folded with each top-level
/// entry's hash and its class's fields, in order.
pub fn content_sig(t: &SaveTree) -> (r: u64)
    ensures
        r == content_sig_of(t@),
{
    let ghost tv = t@;
    let mut h: u64 = SIG_BASIS;
    let mut i: usize = 0;
    while i < t.fields.len()
        invariant
            i <= t.fields@.len(),
            tv == t@,
            h == tree_fold(tv, i as int),
        decreases t.fields@.len() - i,
    {
        h = mix_exec(h, t.fields[i].0 as u64);
        h = fold_class_fields(h, &t.fields[i].1);
        i += 1;
    }
    h
}

/// The signature of each top-level class, under its entry's hash, in order.
pub fn class_sigs(t: &SaveTree) -> (r: Vec<(u32, u64)>)
    ensures
        r@.len() == t@.len(),
        forall|i: int| 0 <= i < t@.len() ==> #[trigger] r@[i] == (t@[i].0, class_sig(t@[i].1)),
{
    let ghost tv = t@;
    let mut out: Vec<(u32, u64)> = Vec::new();
    let mut i: usize = 0;
    while i < t.fields.len()
        invariant
            i <= t.fields@.len(),
            tv == t@,
            out@.len() == i,
            forall|j: int| 0 <= j < i ==> #[trigger] out@[j] == (tv[j].0, class_sig(tv[j].1)),
        decreases t.fields@.len() - i,
    {
        let h = fold_class_fields(SIG_BASIS, &t.fields[i].1);
        out.push((t.fields[i].0, h));
        i += 1;
    }
    out
}

/// Folding the first `i` fields of two classes with the same fields gives the
/// same hash.
pub proof fn lemma_fold_parts_fields(h: u64, a: ClassV, b: ClassV, i: int)
    requires
        a.fields == b.fields,
        0 <= i <= a.fields.len(),
    ensures
        fold_parts(h, Value::Class(a), i) == fold_parts(h, Value::Class(b), i),
    decreases i,
{
    if i > 0 {
        lemma_fold_parts_fields(h, a, b, i - 1);
    }
}

} // verus!

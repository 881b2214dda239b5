//! Reads that collect values addressed by class hash and field hash, in the
//! order the save stores them.

use vstd::prelude::*;
use crate::model::{SaveTree, Class, ClassV, FieldValue, Value, value_view, class_view, tree_view};

verus! {

/// A read of one field value into a list of results.
pub trait ValueReader {
    type Out: DeepView;

    /// What reading `v` appends.
    spec fn read(&self, v: Value) -> Seq<<Self::Out as DeepView>::V>;

    fn run(&self, v: &FieldValue, out: &mut Vec<Self::Out>)
        ensures
            final(out).deep_view() == old(out).deep_view() + self.read(v@),
    ;
}

/// What reading the fields stored under `fh` of a class gives, in field order.
pub open spec fn class_read<R: ValueReader>(r: R, fields: Seq<(u32, Value)>, fh: u32) -> Seq<<R::Out as DeepView>::V>
    decreases fields.len(),
{
    if fields.len() == 0 {
        Seq::empty()
    } else {
        class_read(r, fields.drop_last(), fh) + if fields.last().0 == fh {
            r.read(fields.last().1)
        } else {
            Seq::empty()
        }
    }
}

/// What reading the fields stored under `fh` of the top-level classes whose
/// type hash is `ch` (every class when `ch` is `None`) gives, in save order.
pub open spec fn tree_read<R: ValueReader>(r: R, t: Seq<(u32, ClassV)>, ch: Option<u32>, fh: u32) -> Seq<<R::Out as DeepView>::V>
    decreases t.len(),
{
    if t.len() == 0 {
        Seq::empty()
    } else {
        tree_read(r, t.drop_last(), ch, fh) + if ch is None || ch == Some(t.last().1.hash) {
            class_read(r, t.last().1.fields, fh)
        } else {
            Seq::empty()
        }
    }
}

/// Append what reading the fields of `c` stored under `fh` gives.
pub fn read_class<R: ValueReader>(r: &R, c: &Class, fh: u32, out: &mut Vec<R::Out>)
    ensures
        final(out).deep_view() == old(out).deep_view() + class_read(*r, c@.fields, fh),
{
    let ghost start = old(out).deep_view();
    let mut j: usize = 0;
    while j < c.fields.len()
        invariant
            j <= c.fields@.len(),
            out.deep_view() == start + class_read(*r, c@.fields.take(j as int), fh),
        decreases c.fields@.len() - j,
    {
        proof {
            assert(c@.fields.take(j + 1).drop_last() =~= c@.fields.take(j as int));
            assert(c@.fields.take(j + 1).last() == c@.fields[j as int]);
            assert(c@.fields[j as int] == (c.fields@[j as int].hash, value_view(c.fields@[j as int].value)));
        }
        if c.fields[j].hash == fh {
            r.run(&c.fields[j].value, out);
            proof {
                assert(start + class_read(*r, c@.fields.take(j as int), fh) + r.read(c@.fields[j as int].1)
                    =~= start + class_read(*r, c@.fields.take(j + 1), fh));
            }
        } else {
            proof {
                assert(start + class_read(*r, c@.fields.take(j as int), fh)
                    =~= start + class_read(*r, c@.fields.take(j + 1), fh));
            }
        }
        j += 1;
    }
    assert(c@.fields.take(c@.fields.len() as int) =~= c@.fields);
}

/// Everything reading the fields stored under `fh` of the top-level classes
/// whose type hash is `ch` (every class when `ch` is `None`) gives.
pub fn read_tree<R: ValueReader>(r: &R, t: &SaveTree, ch: Option<u32>, fh: u32) -> (out: Vec<R::Out>)
    ensures
        out.deep_view() == tree_read(*r, t@, ch, fh),
{
    let mut out: Vec<R::Out> = Vec::new();
    assert(out.deep_view() =~= Seq::empty());
    let mut i: usize = 0;
    while i < t.fields.len()
        invariant
            i <= t.fields@.len(),
            out.deep_view() == tree_read(*r, t@.take(i as int), ch, fh),
        decreases t.fields@.len() - i,
    {
        proof {
            assert(t@.take(i + 1).drop_last() =~= t@.take(i as int));
            assert(t@.take(i + 1).last() == t@[i as int]);
            assert(t@[i as int].1 == class_view(t.fields@[i as int].1));
        }
        let wanted = match ch {
            Some(h) => h == t.fields[i].1.hash,
            None => true,
        };
        if wanted {
            read_class(r, &t.fields[i].1, fh, &mut out);
        } else {
            proof {
                assert(tree_read(*r, t@.take(i as int), ch, fh) =~= tree_read(*r, t@.take(i + 1), ch, fh));
            }
        }
        i += 1;
    }
    assert(t@.take(t@.len() as int) =~= t@);
    out
}

/// Each element of an array as a string, or `None` where it is not one.
pub struct ArrayStrings;

pub open spec fn string_elems(s: Seq<Value>) -> Seq<Option<Seq<u16>>> {
    Seq::new(s.len(), |k: int| if s[k] is Str { Some(s[k]->Str_0) } else { None })
}

impl ValueReader for ArrayStrings {
    type Out = Option<Vec<u16>>;

    open spec fn read(&self, v: Value) -> Seq<Option<Seq<u16>>> {
        match v {
            Value::Array(_, s) => string_elems(s),
            _ => Seq::empty(),
        }
    }

    fn run(&self, v: &FieldValue, out: &mut Vec<Option<Vec<u16>>>) {
        match v {
            FieldValue::Array(a) => {
                let ghost start = old(out).deep_view();
                let ghost s = v@->Array_1;
                let mut k: usize = 0;
                while k < a.values.len()
                    invariant
                        k <= a.values@.len(),
                        s.len() == a.values@.len(),
                        *v == FieldValue::Array(*a),
                        s == value_view(*v)->Array_1,
                        out.deep_view() == start + string_elems(s).take(k as int),
                    decreases a.values@.len() - k,
                {
                    proof {
                        assert(s[k as int] == value_view(a.values@[k as int]));
                    }
                    let item = match &a.values[k] {
                        FieldValue::String(u) => Some(crate::model::copy_seq(u)),
                        _ => None,
                    };
                    let ghost before = out.deep_view();
                    out.push(item);
                    proof {
                        assert(out.deep_view() =~= before.push(item.deep_view()));
                        assert(item.deep_view() == string_elems(s)[k as int]);
                        assert(string_elems(s).take(k + 1) =~= string_elems(s).take(k as int).push(string_elems(s)[k as int]));
                    }
                    k += 1;
                }
                assert(string_elems(s).take(s.len() as int) =~= string_elems(s));
            },
            _ => {
                assert(out.deep_view() =~= old(out).deep_view() + Seq::<Option<Seq<u16>>>::empty());
            },
        }
    }
}

/// Each element of an array as a boolean, or `None` where it is not one.
pub struct ArrayBools;

pub open spec fn bool_elems(s: Seq<Value>) -> Seq<Option<bool>> {
    Seq::new(s.len(), |k: int| if s[k] is Boolean { Some(s[k]->Boolean_0) } else { None })
}

impl ValueReader for ArrayBools {
    type Out = Option<bool>;

    open spec fn read(&self, v: Value) -> Seq<Option<bool>> {
        match v {
            Value::Array(_, s) => bool_elems(s),
            _ => Seq::empty(),
        }
    }

    fn run(&self, v: &FieldValue, out: &mut Vec<Option<bool>>) {
        match v {
            FieldValue::Array(a) => {
                let ghost start = old(out).deep_view();
                let ghost s = v@->Array_1;
                let mut k: usize = 0;
                while k < a.values.len()
                    invariant
                        k <= a.values@.len(),
                        s.len() == a.values@.len(),
                        *v == FieldValue::Array(*a),
                        s == value_view(*v)->Array_1,
                        out.deep_view() == start + bool_elems(s).take(k as int),
                    decreases a.values@.len() - k,
                {
                    proof {
                        assert(s[k as int] == value_view(a.values@[k as int]));
                    }
                    let item = match &a.values[k] {
                        FieldValue::Boolean(b) => Some(*b),
                        _ => None,
                    };
                    let ghost before = out.deep_view();
                    out.push(item);
                    proof {
                        assert(out.deep_view() =~= before.push(item.deep_view()));
                        assert(bool_elems(s).take(k + 1) =~= bool_elems(s).take(k as int).push(bool_elems(s)[k as int]));
                    }
                    k += 1;
                }
                assert(bool_elems(s).take(s.len() as int) =~= bool_elems(s));
            },
            _ => {
                assert(out.deep_view() =~= old(out).deep_view() + Seq::<Option<bool>>::empty());
            },
        }
    }
}

} // verus!

verus! {

/// A single value as a string, or `None` where it is not one.
pub struct StringValue;

impl ValueReader for StringValue {
    type Out = Option<Vec<u16>>;

    open spec fn read(&self, v: Value) -> Seq<Option<Seq<u16>>> {
        seq![if v is Str { Some(v->Str_0) } else { None }]
    }

    fn run(&self, v: &FieldValue, out: &mut Vec<Option<Vec<u16>>>) {
        let item = match v {
            FieldValue::String(u) => Some(crate::model::copy_seq(u)),
            _ => None,
        };
        let ghost before = out.deep_view();
        proof {
            if v is String {
                assert(item->0.deep_view() =~= item->0@);
            }
        }
        out.push(item);
        assert(out.deep_view() =~= before + self.read(v@));
    }
}

/// The names one hunter entry contributes: those of its fields stored under
/// `name_field` (each a string, or `None`), or a single `None` when it has no
/// such field or is not a class.
pub open spec fn entry_names(e: Value, name_field: u32) -> Seq<Option<Seq<u16>>> {
    if e is Class {
        let ns = class_read(StringValue, e->Class_0.fields, name_field);
        if ns.len() == 0 {
            seq![None]
        } else {
            ns
        }
    } else {
        seq![None]
    }
}

pub open spec fn entries_names(s: Seq<Value>, name_field: u32) -> Seq<Option<Seq<u16>>>
    decreases s.len(),
{
    if s.len() == 0 {
        Seq::empty()
    } else {
        entries_names(s.drop_last(), name_field) + entry_names(s.last(), name_field)
    }
}

/// The names of the entries of an array of hunter entries.
pub struct EntryNames {
    pub name_field: u32,
}

impl ValueReader for EntryNames {
    type Out = Option<Vec<u16>>;

    open spec fn read(&self, v: Value) -> Seq<Option<Seq<u16>>> {
        match v {
            Value::Array(_, s) => entries_names(s, self.name_field),
            _ => Seq::empty(),
        }
    }

    fn run(&self, v: &FieldValue, out: &mut Vec<Option<Vec<u16>>>) {
        match v {
            FieldValue::Array(a) => {
                let ghost start = old(out).deep_view();
                let ghost s = v@->Array_1;
                let mut k: usize = 0;
                while k < a.values.len()
                    invariant
                        k <= a.values@.len(),
                        s.len() == a.values@.len(),
                        *v == FieldValue::Array(*a),
                        s == value_view(*v)->Array_1,
                        out.deep_view() == start + entries_names(s.take(k as int), self.name_field),
                    decreases a.values@.len() - k,
                {
                    proof {
                        assert(s[k as int] == value_view(a.values@[k as int]));
                        assert(s.take(k + 1).drop_last() =~= s.take(k as int));
                        assert(s.take(k + 1).last() == s[k as int]);
                    }
                    let ghost before = out.deep_view();
                    match &a.values[k] {
                        FieldValue::Class(c) => {
                            proof {
                                crate::model::lemma_class_value_view(**c);
                            }
                            let mut names: Vec<Option<Vec<u16>>> = Vec::new();
                            assert(names.deep_view() =~= Seq::<Option<Seq<u16>>>::empty());
                            read_class(&StringValue, c, self.name_field, &mut names);
                            if names.len() == 0 {
                                out.push(None);
                                assert(out.deep_view() =~= before + entry_names(s[k as int], self.name_field));
                            } else {
                                let ghost nv = names.deep_view();
                                out.append(&mut names);
                                assert(out.deep_view() =~= before + nv);
                            }
                        },
                        _ => {
                            out.push(None);
                            assert(out.deep_view() =~= before + entry_names(s[k as int], self.name_field));
                        },
                    }
                    proof {
                        assert(start + entries_names(s.take(k as int), self.name_field) + entry_names(s[k as int], self.name_field)
                            =~= start + entries_names(s.take(k + 1), self.name_field));
                    }
                    k += 1;
                }
                assert(s.take(s.len() as int) =~= s);
            },
            _ => {
                assert(out.deep_view() =~= old(out).deep_view() + Seq::<Option<Seq<u16>>>::empty());
            },
        }
    }
}

} // verus!

verus! {

/// What applying `f` to the fields stored under `fh` of a class gives,
/// concatenated in field order.
pub open spec fn class_collect<X>(fields: Seq<(u32, Value)>, fh: u32, f: spec_fn(Value) -> Seq<X>) -> Seq<X>
    decreases fields.len(),
{
    if fields.len() == 0 {
        Seq::empty()
    } else {
        class_collect(fields.drop_last(), fh, f) + if fields.last().0 == fh {
            f(fields.last().1)
        } else {
            Seq::empty()
        }
    }
}

/// What applying `f` to the fields stored under `fh` of the top-level classes
/// of type `ch` gives, concatenated in save order.
pub open spec fn tree_collect<X>(t: Seq<(u32, ClassV)>, ch: u32, fh: u32, f: spec_fn(Value) -> Seq<X>) -> Seq<X>
    decreases t.len(),
{
    if t.len() == 0 {
        Seq::empty()
    } else {
        tree_collect(t.drop_last(), ch, fh, f) + if t.last().1.hash == ch {
            class_collect(t.last().1.fields, fh, f)
        } else {
            Seq::empty()
        }
    }
}

pub proof fn lemma_class_read_collect<R: ValueReader>(r: R, fields: Seq<(u32, Value)>, fh: u32)
    ensures
        class_read(r, fields, fh) == class_collect(fields, fh, |v: Value| r.read(v)),
    decreases fields.len(),
{
    if fields.len() > 0 {
        lemma_class_read_collect(r, fields.drop_last(), fh);
    }
}

/// A read of the classes of one type is the collection of its per-value reads.
pub proof fn lemma_tree_read_collect<R: ValueReader>(r: R, t: Seq<(u32, ClassV)>, ch: u32, fh: u32)
    ensures
        tree_read(r, t, Some(ch), fh) == tree_collect(t, ch, fh, |v: Value| r.read(v)),
    decreases t.len(),
{
    if t.len() > 0 {
        lemma_tree_read_collect(r, t.drop_last(), ch, fh);
        lemma_class_read_collect(r, t.last().1.fields, fh);
    }
}

/// The field at (`i`, `j`) is the only field stored under `fh` in the
/// top-level classes that `ch` selects (every class when `ch` is `None`).
pub open spec fn only_field_at(t: Seq<(u32, ClassV)>, ch: Option<u32>, fh: u32, i: int, j: int) -> bool {
    &&& 0 <= i < t.len()
    &&& 0 <= j < t[i].1.fields.len()
    &&& t[i].1.fields[j].0 == fh
    &&& (ch is None || ch == Some(t[i].1.hash))
    &&& forall|a: int, b: int|
        0 <= a < t.len() && 0 <= b < t[a].1.fields.len() && (ch is None || ch == Some(t[a].1.hash))
            && #[trigger] t[a].1.fields[b].0 == fh ==> a == i && b == j
}

proof fn lemma_class_read_absent<R: ValueReader>(r: R, fields: Seq<(u32, Value)>, fh: u32)
    requires
        forall|b: int| 0 <= b < fields.len() ==> #[trigger] fields[b].0 != fh,
    ensures
        class_read(r, fields, fh) == Seq::<<R::Out as DeepView>::V>::empty(),
    decreases fields.len(),
{
    if fields.len() > 0 {
        lemma_class_read_absent(r, fields.drop_last(), fh);
        assert(fields.last().0 != fh);
        assert(class_read(r, fields, fh) =~= Seq::<<R::Out as DeepView>::V>::empty());
    }
}

pub proof fn lemma_class_read_single<R: ValueReader>(r: R, fields: Seq<(u32, Value)>, fh: u32, j: int)
    requires
        0 <= j < fields.len(),
        fields[j].0 == fh,
        forall|b: int| 0 <= b < fields.len() && #[trigger] fields[b].0 == fh ==> b == j,
    ensures
        class_read(r, fields, fh) == r.read(fields[j].1),
    decreases fields.len(),
{
    let init = fields.drop_last();
    if j == fields.len() - 1 {
        assert forall|b: int| 0 <= b < init.len() implies #[trigger] init[b].0 != fh by {
            assert(init[b] == fields[b]);
        }
        lemma_class_read_absent(r, init, fh);
        assert(class_read(r, fields, fh) =~= r.read(fields[j].1));
    } else {
        assert forall|b: int| 0 <= b < init.len() && #[trigger] init[b].0 == fh implies b == j by {
            assert(init[b] == fields[b]);
        }
        lemma_class_read_single(r, init, fh, j);
        assert(fields.last().0 != fh);
        assert(class_read(r, fields, fh) =~= r.read(fields[j].1));
    }
}

proof fn lemma_tree_read_absent<R: ValueReader>(r: R, t: Seq<(u32, ClassV)>, ch: Option<u32>, fh: u32)
    requires
        forall|a: int, b: int|
            0 <= a < t.len() && 0 <= b < t[a].1.fields.len() && (ch is None || ch == Some(t[a].1.hash))
                ==> #[trigger] t[a].1.fields[b].0 != fh,
    ensures
        tree_read(r, t, ch, fh) == Seq::<<R::Out as DeepView>::V>::empty(),
    decreases t.len(),
{
    if t.len() > 0 {
        let init = t.drop_last();
        assert forall|a: int, b: int|
            0 <= a < init.len() && 0 <= b < init[a].1.fields.len() && (ch is None || ch == Some(init[a].1.hash))
                implies #[trigger] init[a].1.fields[b].0 != fh by {
            assert(init[a] == t[a]);
        }
        lemma_tree_read_absent(r, init, ch, fh);
        if ch is None || ch == Some(t.last().1.hash) {
            let last = t.len() - 1;
            assert forall|b: int| 0 <= b < t.last().1.fields.len() implies #[trigger] t.last().1.fields[b].0 != fh by {
                assert(t[last].1.fields[b].0 != fh);
            }
            lemma_class_read_absent(r, t.last().1.fields, fh);
        }
        assert(tree_read(r, t, ch, fh) =~= Seq::<<R::Out as DeepView>::V>::empty());
    }
}

/// Where a single field of the selected classes is stored under `fh`, the
/// read of the save is the read of that field.
pub proof fn lemma_tree_read_single<R: ValueReader>(r: R, t: Seq<(u32, ClassV)>, ch: Option<u32>, fh: u32, i: int, j: int)
    requires
        only_field_at(t, ch, fh, i, j),
    ensures
        tree_read(r, t, ch, fh) == r.read(t[i].1.fields[j].1),
    decreases t.len(),
{
    let init = t.drop_last();
    let last = t.len() - 1;
    if i == last {
        assert forall|a: int, b: int|
            0 <= a < init.len() && 0 <= b < init[a].1.fields.len() && (ch is None || ch == Some(init[a].1.hash))
                implies #[trigger] init[a].1.fields[b].0 != fh by {
            assert(init[a] == t[a]);
            if t[a].1.fields[b].0 == fh {
                assert(a == i);
            }
        }
        lemma_tree_read_absent(r, init, ch, fh);
        assert forall|b: int| 0 <= b < t[i].1.fields.len() && #[trigger] t[i].1.fields[b].0 == fh implies b == j by {}
        lemma_class_read_single(r, t[i].1.fields, fh, j);
        assert(tree_read(r, t, ch, fh) =~= r.read(t[i].1.fields[j].1));
    } else {
        assert(init[i] == t[i]);
        assert forall|a: int, b: int|
            0 <= a < init.len() && 0 <= b < init[a].1.fields.len() && (ch is None || ch == Some(init[a].1.hash))
                && #[trigger] init[a].1.fields[b].0 == fh implies a == i && b == j by {
            assert(init[a] == t[a]);
        }
        lemma_tree_read_single(r, init, ch, fh, i, j);
        if ch is None || ch == Some(t.last().1.hash) {
            assert forall|b: int| 0 <= b < t.last().1.fields.len() implies #[trigger] t.last().1.fields[b].0 != fh by {
                if t[last].1.fields[b].0 == fh {
                    assert(last == i);
                }
            }
            lemma_class_read_absent(r, t.last().1.fields, fh);
        }
        assert(tree_read(r, t, ch, fh) =~= r.read(t[i].1.fields[j].1));
    }
}

} // verus!
